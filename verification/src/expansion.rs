//! What one seed word expands into: the candidates and their order.

use vstd::prelude::*;
use vstd::string::*;
use crate::runs::{full_date_tails, infix_tails, numeric_tails, prefixed, short_date_tails};
use crate::std_ext::uppercase;
use crate::variants::{capitalize, capitalized, leet, reverse, Leet, Letter};

verus! {

/// The forms that every word has: itself, capitalized, and in upper case.
pub open spec fn core_forms(w: Seq<char>) -> Seq<Seq<char>> {
    seq![w, capitalized(w), uppercase(w)]
}

/// The forms of the reversed family: the word reversed; capitalized, then
/// reversed; reversed, then capitalized; reversed, then in upper case.
pub open spec fn reversed_forms(w: Seq<char>) -> Seq<Seq<char>> {
    seq![w.reverse(), capitalized(w).reverse(), capitalized(w.reverse()), uppercase(w.reverse())]
}

/// The direct forms: the core forms, followed by the reversed family unless
/// the expansion is minimal.
pub open spec fn direct_forms(w: Seq<char>, minimal: bool) -> Seq<Seq<char>> {
    if minimal {
        core_forms(w)
    } else {
        core_forms(w) + reversed_forms(w)
    }
}

/// Each of `forms` under the rule `rule`.
pub open spec fn leet_each(rule: Leet, forms: Seq<Seq<char>>) -> Seq<Seq<char>> {
    Seq::new(forms.len(), |i: int| leet(rule, forms[i]))
}

/// Each of `forms` with only the letter `l` replaced, if `l` occurs in the
/// seed word `w`; nothing otherwise.
pub open spec fn only_if_present(l: Letter, w: Seq<char>, forms: Seq<Seq<char>>) -> Seq<Seq<char>> {
    if l.occurs_in(w) {
        leet_each(Leet::Only(l), forms)
    } else {
        Seq::empty()
    }
}

/// The single-vowel forms: for a, e, i and o in turn, where the letter occurs
/// in the seed word `w`, each of `forms` with only that letter replaced.
pub open spec fn single_vowel_forms(w: Seq<char>, forms: Seq<Seq<char>>) -> Seq<Seq<char>> {
    only_if_present(Letter::A, w, forms) + only_if_present(Letter::E, w, forms) + only_if_present(
        Letter::I,
        w,
        forms,
    ) + only_if_present(Letter::O, w, forms)
}

/// The leetspeak forms offered on their own: the "vowels" form of each core
/// form; where s occurs in the word, the "vowels and s" forms; then the
/// single-vowel forms.
pub open spec fn leet_forms(w: Seq<char>) -> Seq<Seq<char>> {
    leet_each(Leet::Vowels, core_forms(w)) + (if Letter::S.occurs_in(w) {
        leet_each(Leet::VowelsAndS, core_forms(w))
    } else {
        Seq::empty()
    }) + single_vowel_forms(w, core_forms(w))
}

/// The forms that take a symbol as their last character: the direct forms;
/// the "vowels and s" forms, whether or not s occurs; where s occurs, the
/// forms with only s replaced; then the single-vowel forms.
pub open spec fn suffix_bases(w: Seq<char>, minimal: bool) -> Seq<Seq<char>> {
    direct_forms(w, minimal) + leet_each(Leet::VowelsAndS, core_forms(w)) + only_if_present(
        Letter::S,
        w,
        core_forms(w),
    ) + single_vowel_forms(w, core_forms(w))
}

/// The forms that take a symbol and then a tail: the direct forms; the
/// "vowels" form of the word and of its capitalized form; where s occurs, the
/// "vowels and s" form of the word and the forms with only s replaced; then
/// the single-vowel forms.
pub open spec fn infix_bases(w: Seq<char>, minimal: bool) -> Seq<Seq<char>> {
    direct_forms(w, minimal) + seq![leet(Leet::Vowels, w), leet(Leet::Vowels, capitalized(w))] + (
    if Letter::S.occurs_in(w) {
        seq![leet(Leet::VowelsAndS, w)] + leet_each(Leet::Only(Letter::S), core_forms(w))
    } else {
        Seq::empty()
    }) + single_vowel_forms(w, core_forms(w))
}

/// Each of `bases` with `symbol` added as its last character.
pub open spec fn with_symbol(bases: Seq<Seq<char>>, symbol: char) -> Seq<Seq<char>> {
    Seq::new(bases.len(), |i: int| bases[i].push(symbol))
}

/// For each symbol in turn, each of `bases` followed by that symbol.
pub open spec fn each_symbol(bases: Seq<Seq<char>>, symbols: Seq<char>) -> Seq<Seq<char>>
    decreases symbols.len(),
{
    if symbols.len() == 0 {
        Seq::empty()
    } else {
        each_symbol(bases, symbols.drop_last()) + with_symbol(bases, symbols.last())
    }
}

/// For each base in turn, the base followed by each of `tails`.
pub open spec fn each_with(bases: Seq<Seq<char>>, tails: Seq<Seq<char>>) -> Seq<Seq<char>>
    decreases bases.len(),
{
    if bases.len() == 0 {
        Seq::empty()
    } else {
        each_with(bases.drop_last(), tails) + prefixed(bases.last(), tails)
    }
}

/// For each symbol in turn, and for each base in turn, the base followed by
/// the symbol and then by each of `tails`.
pub open spec fn each_symbol_with(
    bases: Seq<Seq<char>>,
    symbols: Seq<char>,
    tails: Seq<Seq<char>>,
) -> Seq<Seq<char>>
    decreases symbols.len(),
{
    if symbols.len() == 0 {
        Seq::empty()
    } else {
        each_symbol_with(bases, symbols.drop_last(), tails) + each_with(
            with_symbol(bases, symbols.last()),
            tails,
        )
    }
}

/// The candidates that come without a tail: the direct forms, the leetspeak
/// forms, and the forms that end in a symbol.
pub open spec fn plain_candidates(w: Seq<char>, minimal: bool, symbols: Seq<char>) -> Seq<
    Seq<char>,
> {
    direct_forms(w, minimal) + leet_forms(w) + each_symbol(suffix_bases(w, minimal), symbols)
}

/// The candidates in which a tail follows a direct form at once: the numeric
/// tails on each form, then the full dates on each, then the short dates.
pub open spec fn tailed_candidates(w: Seq<char>, minimal: bool) -> Seq<Seq<char>> {
    each_with(direct_forms(w, minimal), numeric_tails()) + each_with(
        direct_forms(w, minimal),
        full_date_tails(),
    ) + each_with(direct_forms(w, minimal), short_date_tails())
}

/// The candidates in which a symbol stands between a form and a tail.
pub open spec fn infixed_candidates(w: Seq<char>, minimal: bool, symbols: Seq<char>) -> Seq<
    Seq<char>,
> {
    each_symbol_with(infix_bases(w, minimal), symbols, infix_tails())
}

/// Every candidate that the seed word `w` expands into, in the order in which
/// they are offered.
pub open spec fn expansion(w: Seq<char>, minimal: bool, symbols: Seq<char>) -> Seq<Seq<char>> {
    plain_candidates(w, minimal, symbols) + tailed_candidates(w, minimal) + infixed_candidates(
        w,
        minimal,
        symbols,
    )
}

/// The reversed family of a word.
pub struct ReversedForms {
    pub rev: String,
    pub cap_rev: String,
    pub rev_cap: String,
    pub rev_upper: String,
}

/// The forms derived from one seed word.
pub struct DerivedForms {
    pub name: String,
    pub cap: String,
    pub upper: String,
    pub reversed: Option<ReversedForms>,
}

impl ReversedForms {
    /// The four forms in order.
    pub open spec fn forms(&self) -> Seq<Seq<char>> {
        seq![self.rev@, self.cap_rev@, self.rev_cap@, self.rev_upper@]
    }
}

impl DerivedForms {
    /// The three forms that are always there, in order.
    pub open spec fn plain(&self) -> Seq<Seq<char>> {
        seq![self.name@, self.cap@, self.upper@]
    }

    /// All forms in order.
    pub open spec fn direct(&self) -> Seq<Seq<char>> {
        match self.reversed {
            Some(r) => self.plain() + r.forms(),
            None => self.plain(),
        }
    }

    /// Whether these are the forms of the word `w`, with the reversed family
    /// exactly when the expansion is not minimal.
    pub open spec fn derived_from(&self, w: Seq<char>, minimal: bool) -> bool {
        &&& self.plain() == core_forms(w)
        &&& match self.reversed {
            Some(r) => !minimal && r.forms() == reversed_forms(w),
            None => minimal,
        }
    }

    /// The three forms that are always there, in order.
    pub fn plain_list(&self) -> (v: Vec<String>)
        ensures
            v.deep_view() == self.plain(),
    {
        let mut v: Vec<String> = Vec::new();
        v.push(self.name.clone());
        v.push(self.cap.clone());
        v.push(self.upper.clone());
        assert(v.deep_view() =~= self.plain());
        v
    }

    /// All forms in order.
    pub fn direct_list(&self) -> (v: Vec<String>)
        ensures
            v.deep_view() == self.direct(),
    {
        let mut v = self.plain_list();
        match &self.reversed {
            Some(r) => {
                v.push(r.rev.clone());
                v.push(r.cap_rev.clone());
                v.push(r.rev_cap.clone());
                v.push(r.rev_upper.clone());
                assert(v.deep_view() =~= self.plain() + r.forms());
            },
            None => {},
        }
        v
    }
}

/// Derives the forms of `word`: itself, capitalized and in upper case, and,
/// unless `minimal`, the reversed family.
pub fn derive(word: &str, minimal: bool) -> (f: DerivedForms)
    ensures
        f.derived_from(word@, minimal),
        f.direct() == direct_forms(word@, minimal),
{
    let cap = capitalize(word);
    let upper = word.to_uppercase();
    let reversed = if minimal {
        None
    } else {
        let rev = reverse(word);
        let cap_rev = reverse(cap.as_str());
        let rev_cap = capitalize(rev.as_str());
        let rev_upper = rev.as_str().to_uppercase();
        Some(ReversedForms { rev, cap_rev, rev_cap, rev_upper })
    };
    DerivedForms { name: String::from_str(word), cap, upper, reversed }
}

/// Each of `forms` under the rule `rule`.
pub fn leet_list(rule: Leet, forms: &Vec<String>) -> (v: Vec<String>)
    ensures
        v.deep_view() == leet_each(rule, forms.deep_view()),
{
    let mut v: Vec<String> = Vec::new();
    let mut i: usize = 0;
    while i < forms.len()
        invariant
            i <= forms.len(),
            v.deep_view() == leet_each(rule, forms.deep_view().take(i as int)),
        decreases forms.len() - i,
    {
        let ghost before = v.deep_view();
        let ghost form = forms@[i as int]@;
        v.push(rule.apply(forms[i].as_str()));
        assert(v.deep_view() =~= before.push(leet(rule, form)));
        assert(forms.deep_view().take(i + 1) =~= forms.deep_view().take(i as int).push(form));
        assert(leet_each(rule, forms.deep_view().take(i + 1)) =~= before.push(leet(rule, form)));
        i += 1;
    }
    assert(forms.deep_view().take(forms.len() as int) == forms.deep_view());
    v
}

/// Adds the items of `more` to the end of `list`.
pub fn extend(list: &mut Vec<String>, more: Vec<String>)
    ensures
        final(list).deep_view() == old(list).deep_view() + more.deep_view(),
{
    let ghost added = more.deep_view();
    let mut rest = more;
    list.append(&mut rest);
    assert(list.deep_view() =~= old(list).deep_view() + added);
}

/// Each of `forms` with only the letter `l` replaced, if `l` occurs in `word`.
pub fn only_list(l: Letter, word: &str, forms: &Vec<String>) -> (v: Vec<String>)
    ensures
        v.deep_view() == only_if_present(l, word@, forms.deep_view()),
{
    if l.found_in(word) {
        leet_list(Leet::Only(l), forms)
    } else {
        let v: Vec<String> = Vec::new();
        assert(v.deep_view() =~= Seq::<Seq<char>>::empty());
        v
    }
}

/// The single-vowel forms of `forms` for the seed word `word`.
pub fn single_vowel_list(word: &str, forms: &Vec<String>) -> (v: Vec<String>)
    ensures
        v.deep_view() == single_vowel_forms(word@, forms.deep_view()),
{
    let mut v = only_list(Letter::A, word, forms);
    extend(&mut v, only_list(Letter::E, word, forms));
    extend(&mut v, only_list(Letter::I, word, forms));
    extend(&mut v, only_list(Letter::O, word, forms));
    v
}

/// The leetspeak forms of `word` that are offered on their own.
pub fn leet_form_list(word: &str) -> (v: Vec<String>)
    ensures
        v.deep_view() == leet_forms(word@),
{
    let plain = derive(word, true).plain_list();
    let mut v = leet_list(Leet::Vowels, &plain);
    if Letter::S.found_in(word) {
        extend(&mut v, leet_list(Leet::VowelsAndS, &plain));
    } else {
        assert(v.deep_view() + Seq::<Seq<char>>::empty() == v.deep_view());
    }
    extend(&mut v, single_vowel_list(word, &plain));
    v
}

/// The forms of `word` that take a symbol as their last character.
pub fn suffix_base_list(word: &str, minimal: bool) -> (v: Vec<String>)
    ensures
        v.deep_view() == suffix_bases(word@, minimal),
{
    let forms = derive(word, minimal);
    let plain = forms.plain_list();
    let mut v = forms.direct_list();
    extend(&mut v, leet_list(Leet::VowelsAndS, &plain));
    extend(&mut v, only_list(Letter::S, word, &plain));
    extend(&mut v, single_vowel_list(word, &plain));
    v
}

/// The forms of `word` that take a symbol and then a tail.
pub fn infix_base_list(word: &str, minimal: bool) -> (v: Vec<String>)
    ensures
        v.deep_view() == infix_bases(word@, minimal),
{
    let forms = derive(word, minimal);
    let plain = forms.plain_list();
    let mut v = forms.direct_list();
    let ghost direct = v.deep_view();
    v.push(Leet::Vowels.apply(word));
    v.push(Leet::Vowels.apply(forms.cap.as_str()));
    let ghost vowels = seq![leet(Leet::Vowels, word@), leet(Leet::Vowels, capitalized(word@))];
    assert(v.deep_view() =~= direct + vowels);
    if Letter::S.found_in(word) {
        v.push(Leet::VowelsAndS.apply(word));
        assert(v.deep_view() =~= direct + vowels + seq![leet(Leet::VowelsAndS, word@)]);
        extend(&mut v, leet_list(Leet::Only(Letter::S), &plain));
        assert(v.deep_view() =~= direct + vowels + (seq![leet(Leet::VowelsAndS, word@)]
            + leet_each(Leet::Only(Letter::S), core_forms(word@))));
    } else {
        assert(v.deep_view() =~= direct + vowels + Seq::<Seq<char>>::empty());
    }
    extend(&mut v, single_vowel_list(word, &plain));
    v
}

} // verus!
