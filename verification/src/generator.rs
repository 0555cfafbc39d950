//! The generator: a length window and the output gathered under it. Every
//! candidate of a seed word is offered to it in order; it keeps those inside
//! the window, one per line.

use vstd::prelude::*;
use vstd::string::*;
use crate::expansion::{
    direct_forms, each_symbol, each_symbol_with, each_with, expansion, infix_base_list,
    infix_bases, leet_form_list, leet_forms, suffix_base_list, suffix_bases, with_symbol,
};
use crate::runs::{
    counted, full_date, full_date_tails, infix_tails, lemma_full_date_at, lemma_prefixed_add,
    lemma_short_date_at, numeric_tails, power_of_ten, prefixed, push_padded, short_date,
    short_date_tails, Run, FIRST_DAY, FIRST_MONTH, FIRST_YEAR, LAST_DAY, LAST_MONTH, LAST_YEAR,
    SHORT_YEARS,
};
use crate::sink::{in_window, lemma_written_add, lemma_written_empty, lemma_written_push, written};
use crate::text::chars_of;

verus! {

/// A length window and the output gathered under it.
pub struct Generator {
    min_len: usize,
    max_len: usize,
    out: String,
}

impl Generator {
    /// The least length in bytes that is kept.
    pub closed spec fn min_len(&self) -> usize {
        self.min_len
    }

    /// The greatest length in bytes that is kept.
    pub closed spec fn max_len(&self) -> usize {
        self.max_len
    }

    /// The output gathered so far and not yet taken.
    pub closed spec fn text(&self) -> Seq<char> {
        self.out@
    }

    /// Whether `post` is `self` after the candidates `cands` were offered in
    /// order: the same window, and the output grown by the lines kept.
    pub open spec fn offered(&self, post: &Generator, cands: Seq<Seq<char>>) -> bool {
        &&& post.min_len() == self.min_len()
        &&& post.max_len() == self.max_len()
        &&& post.text() == self.text() + written(cands, self.min_len(), self.max_len())
    }

    /// A generator with the window from `min_len` to `max_len` and no output.
    pub fn new(min_len: usize, max_len: usize) -> (g: Generator)
        ensures
            g.min_len() == min_len,
            g.max_len() == max_len,
            g.text() == Seq::<char>::empty(),
    {
        Generator { min_len, max_len, out: String::new() }
    }

    /// Offers one candidate: it is written, followed by a line feed, if and
    /// only if its length in bytes lies inside the window.
    pub fn write_line(&mut self, text: &str)
        ensures
            final(self).min_len() == old(self).min_len(),
            final(self).max_len() == old(self).max_len(),
            final(self).text() == if in_window(text@, old(self).min_len(), old(self).max_len()) {
                old(self).text() + text@ + seq!['\n']
            } else {
                old(self).text()
            },
    {
        let len: usize = text.as_bytes().len();
        if len >= self.min_len && len <= self.max_len {
            self.out.append(text);
            self.out.push('\n');
            assert(self.out@ == old(self).out@ + text@ + seq!['\n']);
        }
    }

    /// Offering `first` and then `second` is offering the two in a row.
    pub proof fn lemma_offered_then(
        &self,
        mid: &Generator,
        post: &Generator,
        first: Seq<Seq<char>>,
        second: Seq<Seq<char>>,
    )
        requires
            self.offered(mid, first),
            mid.offered(post, second),
        ensures
            self.offered(post, first + second),
    {
        lemma_written_add(first, second, self.min_len(), self.max_len());
        let a = written(first, self.min_len(), self.max_len());
        let b = written(second, self.min_len(), self.max_len());
        assert(self.text() + a + b == self.text() + (a + b));
    }

    /// Offering nothing changes nothing.
    pub proof fn lemma_offered_nothing(&self)
        ensures
            self.offered(self, Seq::empty()),
    {
        lemma_written_empty(self.min_len(), self.max_len());
        assert(self.text() + Seq::<char>::empty() == self.text());
    }

    /// After the first `k` of `cands` were offered, writing the next one under
    /// the window gives the state after the first `k + 1`.
    proof fn lemma_offered_next(
        &self,
        mid: &Generator,
        post: &Generator,
        cands: Seq<Seq<char>>,
        k: int,
    )
        requires
            0 <= k < cands.len(),
            self.offered(mid, cands.take(k)),
            post.min_len() == mid.min_len(),
            post.max_len() == mid.max_len(),
            post.text() == if in_window(cands[k], mid.min_len(), mid.max_len()) {
                mid.text() + cands[k] + seq!['\n']
            } else {
                mid.text()
            },
        ensures
            self.offered(post, cands.take(k + 1)),
    {
        assert(cands.take(k + 1) == cands.take(k).push(cands[k]));
        lemma_written_push(cands.take(k), cands[k], self.min_len(), self.max_len());
        let w = written(cands.take(k), self.min_len(), self.max_len());
        assert(self.text() + w + cands[k] + seq!['\n'] == self.text() + (w + cands[k] + seq![
            '\n',
        ]));
    }

    /// Offers `base` followed by each number of at most `width` digits, padded
    /// to that width, in rising order.
    pub fn append_counted(&mut self, base: &str, width: u32)
        requires
            width <= 9,
        ensures
            old(self).offered(final(self), prefixed(base@, counted(width as nat))),
    {
        let limit: u32 = power_of_ten(width);
        let ghost cands = prefixed(base@, counted(width as nat));
        let mut n: u32 = 0;
        proof {
            self.lemma_offered_nothing();
            assert(cands.take(0) == Seq::<Seq<char>>::empty());
        }
        while n < limit
            invariant
                n <= limit,
                limit == cands.len(),
                cands == prefixed(base@, counted(width as nat)),
                old(self).offered(self, cands.take(n as int)),
            decreases limit - n,
        {
            let mut cand = String::from_str(base);
            push_padded(&mut cand, n, width);
            let ghost mid = *self;
            self.write_line(cand.as_str());
            proof {
                assert(cand@ == cands[n as int]);
                old(self).lemma_offered_next(&mid, self, cands, n as int);
            }
            n += 1;
        }
        assert(cands.take(limit as int) == cands);
    }

    /// Offers `base` followed by each numeric tail: the numbers 0 to 9, then
    /// 00 to 99, 000 to 999 and 0000 to 9999.
    pub fn append_sequences(&mut self, base: &str)
        ensures
            old(self).offered(final(self), prefixed(base@, numeric_tails())),
    {
        let ghost s0 = *self;
        self.append_counted(base, 1);
        let ghost s1 = *self;
        self.append_counted(base, 2);
        let ghost s2 = *self;
        self.append_counted(base, 3);
        let ghost s3 = *self;
        self.append_counted(base, 4);
        proof {
            let b = base@;
            let c1 = prefixed(b, counted(1));
            let c2 = prefixed(b, counted(2));
            let c3 = prefixed(b, counted(3));
            let c4 = prefixed(b, counted(4));
            s0.lemma_offered_then(&s1, &s2, c1, c2);
            s0.lemma_offered_then(&s2, &s3, c1 + c2, c3);
            s0.lemma_offered_then(&s3, self, c1 + c2 + c3, c4);
            lemma_prefixed_add(b, counted(1), counted(2));
            lemma_prefixed_add(b, counted(1) + counted(2), counted(3));
            lemma_prefixed_add(b, counted(1) + counted(2) + counted(3), counted(4));
        }
    }

    /// Offers `base` followed by each full date: day, month and year as two,
    /// two and four digits, for days 1 to 31, months 1 to 12 and years 1950
    /// to 2030, the year running fastest and the day slowest.
    pub fn append_dates_full(&mut self, base: &str)
        ensures
            old(self).offered(final(self), prefixed(base@, full_date_tails())),
    {
        let ghost cands = prefixed(base@, full_date_tails());
        proof {
            self.lemma_offered_nothing();
            assert(cands.take(0) == Seq::<Seq<char>>::empty());
        }
        let mut day: u32 = FIRST_DAY;
        while day <= LAST_DAY
            invariant
                FIRST_DAY <= day <= LAST_DAY + 1,
                cands == prefixed(base@, full_date_tails()),
                old(self).offered(self, cands.take((day - 1) * 972)),
            decreases LAST_DAY + 1 - day,
        {
            let mut month: u32 = FIRST_MONTH;
            while month <= LAST_MONTH
                invariant
                    FIRST_DAY <= day <= LAST_DAY,
                    FIRST_MONTH <= month <= LAST_MONTH + 1,
                    cands == prefixed(base@, full_date_tails()),
                    old(self).offered(self, cands.take((day - 1) * 972 + (month - 1) * 81)),
                decreases LAST_MONTH + 1 - month,
            {
                let mut year: u32 = FIRST_YEAR;
                while year <= LAST_YEAR
                    invariant
                        FIRST_DAY <= day <= LAST_DAY,
                        FIRST_MONTH <= month <= LAST_MONTH,
                        FIRST_YEAR <= year <= LAST_YEAR + 1,
                        cands == prefixed(base@, full_date_tails()),
                        old(self).offered(
                            self,
                            cands.take((day - 1) * 972 + (month - 1) * 81 + (year - 1950)),
                        ),
                    decreases LAST_YEAR + 1 - year,
                {
                    let mut cand = String::from_str(base);
                    push_padded(&mut cand, day, 2);
                    push_padded(&mut cand, month, 2);
                    push_padded(&mut cand, year, 4);
                    let ghost mid = *self;
                    self.write_line(cand.as_str());
                    proof {
                        let k = (day - 1) * 972 + (month - 1) * 81 + (year - 1950);
                        lemma_full_date_at(day as nat, month as nat, year as nat);
                        assert(cand@ == base@ + full_date(day as nat, month as nat, year as nat));
                        assert(cand@ == cands[k]);
                        old(self).lemma_offered_next(&mid, self, cands, k);
                    }
                    year += 1;
                }
                month += 1;
            }
            day += 1;
        }
        assert(cands.take(30132) == cands);
    }

    /// Offers `base` followed by each short date: day, month and year as two
    /// digits each, for days 1 to 31, months 1 to 12 and years 00 to 99, the
    /// year running fastest and the day slowest.
    pub fn append_dates_short(&mut self, base: &str)
        ensures
            old(self).offered(final(self), prefixed(base@, short_date_tails())),
    {
        let ghost cands = prefixed(base@, short_date_tails());
        proof {
            self.lemma_offered_nothing();
            assert(cands.take(0) == Seq::<Seq<char>>::empty());
        }
        let mut day: u32 = FIRST_DAY;
        while day <= LAST_DAY
            invariant
                FIRST_DAY <= day <= LAST_DAY + 1,
                cands == prefixed(base@, short_date_tails()),
                old(self).offered(self, cands.take((day - 1) * 1200)),
            decreases LAST_DAY + 1 - day,
        {
            let mut month: u32 = FIRST_MONTH;
            while month <= LAST_MONTH
                invariant
                    FIRST_DAY <= day <= LAST_DAY,
                    FIRST_MONTH <= month <= LAST_MONTH + 1,
                    cands == prefixed(base@, short_date_tails()),
                    old(self).offered(self, cands.take((day - 1) * 1200 + (month - 1) * 100)),
                decreases LAST_MONTH + 1 - month,
            {
                let mut year: u32 = 0;
                while year < SHORT_YEARS
                    invariant
                        FIRST_DAY <= day <= LAST_DAY,
                        FIRST_MONTH <= month <= LAST_MONTH,
                        year <= SHORT_YEARS,
                        cands == prefixed(base@, short_date_tails()),
                        old(self).offered(
                            self,
                            cands.take((day - 1) * 1200 + (month - 1) * 100 + year),
                        ),
                    decreases SHORT_YEARS - year,
                {
                    let mut cand = String::from_str(base);
                    push_padded(&mut cand, day, 2);
                    push_padded(&mut cand, month, 2);
                    push_padded(&mut cand, year, 2);
                    let ghost mid = *self;
                    self.write_line(cand.as_str());
                    proof {
                        let k = (day - 1) * 1200 + (month - 1) * 100 + year;
                        lemma_short_date_at(day as nat, month as nat, year as nat);
                        assert(cand@ == base@ + short_date(day as nat, month as nat, year as nat));
                        assert(cand@ == cands[k]);
                        old(self).lemma_offered_next(&mid, self, cands, k);
                    }
                    year += 1;
                }
                month += 1;
            }
            day += 1;
        }
        assert(cands.take(37200) == cands);
    }

    /// Offers `base`, then `symbol`, then each tail: the numeric tails, the
    /// full dates and the short dates, in that order.
    pub fn append_infix_sequences(&mut self, base: &str, symbol: char)
        ensures
            old(self).offered(final(self), prefixed(base@.push(symbol), infix_tails())),
    {
        let mut stem = String::from_str(base);
        stem.push(symbol);
        let ghost s0 = *self;
        self.append_sequences(stem.as_str());
        let ghost s1 = *self;
        self.append_dates_full(stem.as_str());
        let ghost s2 = *self;
        self.append_dates_short(stem.as_str());
        proof {
            let b = stem@;
            let c1 = prefixed(b, numeric_tails());
            let c2 = prefixed(b, full_date_tails());
            let c3 = prefixed(b, short_date_tails());
            s0.lemma_offered_then(&s1, &s2, c1, c2);
            s0.lemma_offered_then(&s2, self, c1 + c2, c3);
            lemma_prefixed_add(b, numeric_tails(), full_date_tails());
            lemma_prefixed_add(b, numeric_tails() + full_date_tails(), short_date_tails());
        }
    }

    /// Offers `base` followed by each tail of `run`.
    pub fn append_run(&mut self, base: &str, run: Run)
        ensures
            old(self).offered(final(self), prefixed(base@, run.tails())),
    {
        match run {
            Run::Numeric => self.append_sequences(base),
            Run::FullDates => self.append_dates_full(base),
            Run::ShortDates => self.append_dates_short(base),
        }
    }

    /// Offers each of `cands` in order.
    pub fn offer_all(&mut self, cands: &Vec<String>)
        ensures
            old(self).offered(final(self), cands.deep_view()),
    {
        let ghost all = cands.deep_view();
        proof {
            self.lemma_offered_nothing();
            assert(all.take(0) == Seq::<Seq<char>>::empty());
        }
        let mut i: usize = 0;
        while i < cands.len()
            invariant
                i <= cands.len(),
                all == cands.deep_view(),
                old(self).offered(self, all.take(i as int)),
            decreases cands.len() - i,
        {
            let ghost mid = *self;
            self.write_line(cands[i].as_str());
            proof {
                old(self).lemma_offered_next(&mid, self, all, i as int);
            }
            i += 1;
        }
        assert(all.take(cands.len() as int) == all);
    }

    /// Offers each of `bases` with `symbol` added as its last character.
    pub fn offer_with_symbol(&mut self, bases: &Vec<String>, symbol: char)
        ensures
            old(self).offered(final(self), with_symbol(bases.deep_view(), symbol)),
    {
        let ghost all = with_symbol(bases.deep_view(), symbol);
        proof {
            self.lemma_offered_nothing();
            assert(all.take(0) == Seq::<Seq<char>>::empty());
        }
        let mut i: usize = 0;
        while i < bases.len()
            invariant
                i <= bases.len(),
                all == with_symbol(bases.deep_view(), symbol),
                old(self).offered(self, all.take(i as int)),
            decreases bases.len() - i,
        {
            let mut cand = String::from_str(bases[i].as_str());
            cand.push(symbol);
            let ghost mid = *self;
            self.write_line(cand.as_str());
            proof {
                assert(cand@ == all[i as int]);
                old(self).lemma_offered_next(&mid, self, all, i as int);
            }
            i += 1;
        }
        assert(all.take(bases.len() as int) == all);
    }

    /// For each symbol of `symbols` in turn, offers each of `bases` with that
    /// symbol added as its last character.
    pub fn offer_each_symbol(&mut self, bases: &Vec<String>, symbols: &str)
        ensures
            old(self).offered(final(self), each_symbol(bases.deep_view(), symbols@)),
    {
        let marks = chars_of(symbols);
        let n: usize = marks.len();
        proof {
            self.lemma_offered_nothing();
        }
        let mut i: usize = 0;
        while i < n
            invariant
                marks@ == symbols@,
                n == symbols@.len(),
                i <= n,
                old(self).offered(self, each_symbol(bases.deep_view(), symbols@.take(i as int))),
            decreases n - i,
        {
            let symbol = marks[i];
            let ghost mid = *self;
            self.offer_with_symbol(bases, symbol);
            proof {
                let done = symbols@.take(i as int);
                assert(symbols@.take(i + 1).drop_last() == done);
                old(self).lemma_offered_then(
                    &mid,
                    self,
                    each_symbol(bases.deep_view(), done),
                    with_symbol(bases.deep_view(), symbol),
                );
            }
            i += 1;
        }
        assert(symbols@.take(n as int) == symbols@);
    }

    /// For each of `bases` in turn, offers the base followed by each tail of
    /// `run`.
    pub fn append_run_each(&mut self, bases: &Vec<String>, run: Run)
        ensures
            old(self).offered(final(self), each_with(bases.deep_view(), run.tails())),
    {
        let ghost all = bases.deep_view();
        proof {
            self.lemma_offered_nothing();
        }
        let mut i: usize = 0;
        while i < bases.len()
            invariant
                i <= bases.len(),
                all == bases.deep_view(),
                old(self).offered(self, each_with(all.take(i as int), run.tails())),
            decreases bases.len() - i,
        {
            let ghost mid = *self;
            self.append_run(bases[i].as_str(), run);
            proof {
                assert(all.take(i + 1).drop_last() == all.take(i as int));
                old(self).lemma_offered_then(
                    &mid,
                    self,
                    each_with(all.take(i as int), run.tails()),
                    prefixed(all[i as int], run.tails()),
                );
            }
            i += 1;
        }
        assert(all.take(bases.len() as int) == all);
    }

    /// For each of `bases` in turn, offers the base followed by `symbol` and
    /// then by each tail: numeric, full dates, short dates.
    pub fn append_infix_each(&mut self, bases: &Vec<String>, symbol: char)
        ensures
            old(self).offered(
                final(self),
                each_with(with_symbol(bases.deep_view(), symbol), infix_tails()),
            ),
    {
        let ghost all = with_symbol(bases.deep_view(), symbol);
        proof {
            self.lemma_offered_nothing();
        }
        let mut i: usize = 0;
        while i < bases.len()
            invariant
                i <= bases.len(),
                all == with_symbol(bases.deep_view(), symbol),
                old(self).offered(self, each_with(all.take(i as int), infix_tails())),
            decreases bases.len() - i,
        {
            let ghost mid = *self;
            self.append_infix_sequences(bases[i].as_str(), symbol);
            proof {
                assert(all.take(i + 1).drop_last() == all.take(i as int));
                old(self).lemma_offered_then(
                    &mid,
                    self,
                    each_with(all.take(i as int), infix_tails()),
                    prefixed(all[i as int], infix_tails()),
                );
            }
            i += 1;
        }
        assert(all.take(bases.len() as int) == all);
    }

    /// For each symbol of `symbols` in turn, and for each of `bases` in turn,
    /// offers the base followed by the symbol and then by each tail.
    pub fn append_infix_each_symbol(&mut self, bases: &Vec<String>, symbols: &str)
        ensures
            old(self).offered(
                final(self),
                each_symbol_with(bases.deep_view(), symbols@, infix_tails()),
            ),
    {
        let marks = chars_of(symbols);
        let n: usize = marks.len();
        proof {
            self.lemma_offered_nothing();
        }
        let mut i: usize = 0;
        while i < n
            invariant
                marks@ == symbols@,
                n == symbols@.len(),
                i <= n,
                old(self).offered(
                    self,
                    each_symbol_with(bases.deep_view(), symbols@.take(i as int), infix_tails()),
                ),
            decreases n - i,
        {
            let symbol = marks[i];
            let ghost mid = *self;
            self.append_infix_each(bases, symbol);
            proof {
                let done = symbols@.take(i as int);
                assert(symbols@.take(i + 1).drop_last() == done);
                old(self).lemma_offered_then(
                    &mid,
                    self,
                    each_symbol_with(bases.deep_view(), done, infix_tails()),
                    each_with(with_symbol(bases.deep_view(), symbol), infix_tails()),
                );
            }
            i += 1;
        }
        assert(symbols@.take(n as int) == symbols@);
    }

    /// Expands the seed word `name` and offers every candidate in order: the
    /// direct forms and the leetspeak forms; the forms that end in one of the
    /// symbols `chars`; the direct forms followed by the numeric tails, by the
    /// full dates and by the short dates; and the forms followed by a symbol
    /// and a tail. With `minimal` the reversed family is left out.
    pub fn generate_for_word(&mut self, name: &str, minimal: bool, chars: &str)
        ensures
            old(self).offered(final(self), expansion(name@, minimal, chars@)),
    {
        let direct = crate::expansion::derive(name, minimal).direct_list();
        let leets = leet_form_list(name);
        let suffix_list = suffix_base_list(name, minimal);
        let infix_list = infix_base_list(name, minimal);
        let ghost w = name@;
        let ghost d = direct_forms(w, minimal);
        let ghost s0 = *self;
        self.offer_all(&direct);
        let ghost s1 = *self;
        self.offer_all(&leets);
        let ghost s2 = *self;
        self.offer_each_symbol(&suffix_list, chars);
        let ghost s3 = *self;
        self.append_run_each(&direct, Run::Numeric);
        let ghost s4 = *self;
        self.append_run_each(&direct, Run::FullDates);
        let ghost s5 = *self;
        self.append_run_each(&direct, Run::ShortDates);
        let ghost s6 = *self;
        self.append_infix_each_symbol(&infix_list, chars);
        proof {
            let c1 = d;
            let c2 = leet_forms(w);
            let c3 = each_symbol(suffix_bases(w, minimal), chars@);
            let c4 = each_with(d, numeric_tails());
            let c5 = each_with(d, full_date_tails());
            let c6 = each_with(d, short_date_tails());
            let c7 = each_symbol_with(infix_bases(w, minimal), chars@, infix_tails());
            s0.lemma_offered_then(&s1, &s2, c1, c2);
            s0.lemma_offered_then(&s2, &s3, c1 + c2, c3);
            s3.lemma_offered_then(&s4, &s5, c4, c5);
            s3.lemma_offered_then(&s5, &s6, c4 + c5, c6);
            s0.lemma_offered_then(&s3, &s6, c1 + c2 + c3, c4 + c5 + c6);
            s0.lemma_offered_then(&s6, self, c1 + c2 + c3 + (c4 + c5 + c6), c7);
        }
    }

    /// The window's lower bound.
    pub fn min(&self) -> (m: usize)
        ensures
            m == self.min_len(),
    {
        self.min_len
    }

    /// The window's upper bound.
    pub fn max(&self) -> (m: usize)
        ensures
            m == self.max_len(),
    {
        self.max_len
    }

    /// The output gathered so far.
    pub fn output(&self) -> (t: &str)
        ensures
            t@ == self.text(),
    {
        self.out.as_str()
    }

    /// Hands over the output gathered so far and starts again with none.
    pub fn take_output(&mut self) -> (t: String)
        ensures
            t@ == old(self).text(),
            final(self).text() == Seq::<char>::empty(),
            final(self).min_len() == old(self).min_len(),
            final(self).max_len() == old(self).max_len(),
    {
        let mut t = String::new();
        std::mem::swap(&mut self.out, &mut t);
        t
    }
}

} // verus!
