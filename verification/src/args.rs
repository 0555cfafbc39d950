//! The settings of a run, and what they decide: where the words come from,
//! the length window, the symbol set.

use vstd::prelude::*;
use vstd::string::*;
use crate::text::chars_of;

verus! {

/// The settings of a run.
pub struct Args {
    /// File that holds the seed words.
    pub input_file: Option<String>,
    /// Seed words, separated by white space.
    pub words: Option<String>,
    /// File that receives the dictionary.
    pub output_file: String,
    /// One output file per seed word.
    pub split: bool,
    /// The length window, as two numbers with a hyphen between them.
    pub range: Option<String>,
    /// Leave out the reversed family and use the small symbol set.
    pub minimal: bool,
    /// Report each candidate written.
    pub verbose: bool,
    /// As `verbose`.
    pub debug: bool,
}

/// Why the settings cannot name the source of the seed words.
#[derive(Clone, Copy, Debug, PartialEq, Eq, Structural)]
pub enum InputError {
    /// Both a file and a list of words were given.
    Both,
    /// Neither a file nor a list of words was given.
    Neither,
}

/// The symbols of a run: five in minimal mode, nine otherwise.
pub open spec fn symbol_set(minimal: bool) -> Seq<char> {
    if minimal {
        seq!['-', '_', '.', '*', '+']
    } else {
        seq!['-', '_', '!', ',', '.', '%', '*', '+', '$']
    }
}

/// The symbols of a run, in the order in which they are used.
pub fn symbols_for(minimal: bool) -> (s: &'static str)
    ensures
        s@ == symbol_set(minimal),
{
    if minimal {
        proof {
            reveal_strlit("-_.*+");
        }
        assert("-_.*+"@ =~= symbol_set(true));
        "-_.*+"
    } else {
        proof {
            reveal_strlit("-_!,.%*+$");
        }
        assert("-_!,.%*+$"@ =~= symbol_set(false));
        "-_!,.%*+$"
    }
}

/// Whether `c` is a decimal digit.
pub open spec fn is_digit(c: char) -> bool {
    '0' <= c <= '9'
}

/// The number that the decimal digits `s` write, most significant first.
pub open spec fn decimal(s: Seq<char>) -> nat
    decreases s.len(),
{
    if s.len() == 0 {
        0
    } else {
        decimal(s.drop_last()) * 10 + (s.last() as nat - '0' as nat) as nat
    }
}

/// Whether `s` is one or more decimal digits and nothing else.
pub open spec fn is_digits(s: Seq<char>) -> bool {
    s.len() > 0 && forall|i: int| 0 <= i < s.len() ==> is_digit(#[trigger] s[i])
}

/// `s` without a plus sign in front, if it has one.
pub open spec fn unsigned_part(s: Seq<char>) -> Seq<char> {
    if s.len() > 0 && s[0] == '+' {
        s.drop_first()
    } else {
        s
    }
}

/// The number that `s` writes: decimal digits, with or without a plus sign
/// in front, that give a number the machine can hold. Anything else, white
/// space included, writes no number.
pub open spec fn number(s: Seq<char>) -> Option<usize> {
    let d = unsigned_part(s);
    if is_digits(d) && decimal(d) <= usize::MAX {
        Some(decimal(d) as usize)
    } else {
        None
    }
}

/// Whether position `i` holds the only hyphen of `r`.
pub open spec fn only_hyphen_at(r: Seq<char>, i: int) -> bool {
    &&& 0 <= i < r.len()
    &&& forall|j: int| 0 <= j < r.len() ==> (#[trigger] r[j] == '-' <==> j == i)
}

/// The window that the range `r` writes. A range is what stands before and
/// after its one hyphen; one with no hyphen or with several writes no window.
/// Where the first part writes no number the window starts at 0, and where
/// the second writes none it has no upper end.
pub open spec fn range_window(r: Seq<char>) -> Option<(usize, usize)> {
    if exists|i: int| only_hyphen_at(r, i) {
        let i = choose|i: int| only_hyphen_at(r, i);
        let low = match number(r.subrange(0, i)) {
            Some(n) => n,
            None => 0usize,
        };
        let high = match number(r.subrange(i + 1, r.len() as int)) {
            Some(n) => n,
            None => usize::MAX,
        };
        Some((low, high))
    } else {
        None
    }
}

/// A decimal number grows by one digit.
proof fn lemma_decimal_push(s: Seq<char>, c: char)
    ensures
        decimal(s.push(c)) == decimal(s) * 10 + (c as nat - '0' as nat) as nat,
{
    assert(s.push(c).drop_last() == s);
}

/// A longer text of digits writes no smaller number.
proof fn lemma_decimal_grows(s: Seq<char>, k: int)
    requires
        0 <= k <= s.len(),
        forall|i: int| 0 <= i < s.len() ==> is_digit(#[trigger] s[i]),
    ensures
        decimal(s.take(k)) <= decimal(s),
    decreases s.len() - k,
{
    if k == s.len() {
        assert(s.take(k) == s);
    } else {
        assert(s.take(k + 1) == s.take(k).push(s[k]));
        lemma_decimal_push(s.take(k), s[k]);
        lemma_decimal_grows(s, k + 1);
    }
}

/// Reads the number that `s` writes.
pub fn parse_number(s: &str) -> (res: Option<usize>)
    ensures
        res == number(s@),
{
    let chars = chars_of(s);
    assert(chars@.subrange(0, chars@.len() as int) == s@);
    parse_digits(&chars, 0, chars.len())
}

/// Reads the number that the characters of `chars` from position `from` up
/// to, and without, position `to` write.
pub fn parse_digits(chars: &Vec<char>, from: usize, to: usize) -> (res: Option<usize>)
    requires
        from <= to <= chars@.len(),
    ensures
        res == number(chars@.subrange(from as int, to as int)),
{
    if from == to {
        return None;
    }
    let start: usize = if chars[from] == '+' {
        from + 1
    } else {
        from
    };
    if start == to {
        return None;
    }
    let ghost d = unsigned_part(chars@.subrange(from as int, to as int));
    assert(d == chars@.subrange(start as int, to as int));
    let mut value: usize = 0;
    let mut i: usize = start;
    while i < to
        invariant
            start <= i <= to <= chars@.len(),
            d == unsigned_part(chars@.subrange(from as int, to as int)),
            d == chars@.subrange(start as int, to as int),
            forall|k: int| 0 <= k < i - start ==> is_digit(#[trigger] d[k]),
            value == decimal(d.take(i - start)),
        decreases to - i,
    {
        let c = chars[i];
        assert(c == d[i - start]);
        if c < '0' || c > '9' {
            assert(!is_digit(d[i - start]));
            return None;
        }
        let digit: usize = (c as u32 - '0' as u32) as usize;
        proof {
            assert(d.take(i - start + 1) == d.take(i - start).push(c));
            lemma_decimal_push(d.take(i - start), c);
        }
        if value > (usize::MAX - digit) / 10 {
            proof {
                assert(value * 10 + digit > usize::MAX);
                assert(decimal(d.take(i - start + 1)) > usize::MAX);
                if is_digits(d) {
                    lemma_decimal_grows(d, i - start + 1);
                }
            }
            return None;
        }
        value = value * 10 + digit;
        i += 1;
    }
    assert(d.take(to - start) == d);
    Some(value)
}

/// Reads the window that the range `r` writes.
pub fn parse_range(r: &str) -> (res: Option<(usize, usize)>)
    ensures
        res == range_window(r@),
{
    let chars = chars_of(r);
    let n: usize = chars.len();
    let mut at: usize = 0;
    let mut found: bool = false;
    let mut i: usize = 0;
    while i < n
        invariant
            chars@ == r@,
            n == r@.len(),
            i <= n,
            found ==> at < i && r@[at as int] == '-',
            forall|j: int| 0 <= j < i ==> (#[trigger] r@[j] == '-' <==> found && j == at),
        decreases n - i,
    {
        if chars[i] == '-' {
            if found {
                assert forall|k: int| !only_hyphen_at(r@, k) by {
                    if only_hyphen_at(r@, k) {
                        assert(r@[at as int] == '-');
                        assert(r@[i as int] == '-');
                    }
                }
                return None;
            }
            found = true;
            at = i;
        }
        i += 1;
    }
    if !found {
        assert forall|k: int| !only_hyphen_at(r@, k) by {
            if only_hyphen_at(r@, k) {
                assert(r@[k] == '-');
            }
        }
        return None;
    }
    assert(only_hyphen_at(r@, at as int));
    assert forall|k: int| only_hyphen_at(r@, k) implies k == at by {
        assert(r@[at as int] == '-');
    }
    let low = match parse_digits(&chars, 0, at) {
        Some(v) => v,
        None => 0,
    };
    let high = match parse_digits(&chars, at + 1, n) {
        Some(v) => v,
        None => usize::MAX,
    };
    Some((low, high))
}

impl Args {
    /// Whether exactly one source of seed words is named, and if not, why not.
    pub fn check_input(&self) -> (res: Result<(), InputError>)
        ensures
            res == (if self.input_file is Some && self.words is Some {
                Err::<(), InputError>(InputError::Both)
            } else if self.input_file is None && self.words is None {
                Err::<(), InputError>(InputError::Neither)
            } else {
                Ok::<(), InputError>(())
            }),
    {
        if self.input_file.is_some() && self.words.is_some() {
            Err(InputError::Both)
        } else if self.input_file.is_none() && self.words.is_none() {
            Err(InputError::Neither)
        } else {
            Ok(())
        }
    }

    /// The length window of the run: every length where no range is given,
    /// else what the range writes; `None` where the range writes no window.
    pub fn window(&self) -> (res: Option<(usize, usize)>)
        ensures
            res == (match self.range {
                Some(r) => range_window(r@),
                None => Some((0usize, usize::MAX)),
            }),
    {
        match &self.range {
            Some(r) => parse_range(r.as_str()),
            None => Some((0, usize::MAX)),
        }
    }

    /// The symbols of the run.
    pub fn symbols(&self) -> (s: &'static str)
        ensures
            s@ == symbol_set(self.minimal),
    {
        symbols_for(self.minimal)
    }

    /// Whether each candidate written is to be reported.
    pub fn reports_candidates(&self) -> (b: bool)
        ensures
            b == (self.verbose || self.debug),
    {
        self.verbose || self.debug
    }

    /// The megabytes that one seed word can take at most: 134 in minimal
    /// mode, 288 otherwise.
    pub fn megabytes_per_word(&self) -> (mb: usize)
        ensures
            mb == (if self.minimal {
                134usize
            } else {
                288usize
            }),
    {
        if self.minimal {
            134
        } else {
            288
        }
    }

    /// The megabytes that `words` seed words can take at most.
    pub fn estimated_megabytes(&self, words: usize) -> (mb: usize)
        requires
            words * (if self.minimal {
                134int
            } else {
                288int
            }) <= usize::MAX,
        ensures
            mb == words * (if self.minimal {
                134int
            } else {
                288int
            }),
    {
        words * self.megabytes_per_word()
    }

    /// The name of the output file of one seed word in split mode: the word,
    /// an underscore, and the name of the output file.
    pub fn split_file_name(&self, word: &str) -> (name: String)
        ensures
            name@ == word@.push('_') + self.output_file@,
    {
        let mut name = String::from_str(word);
        name.push('_');
        name.append(self.output_file.as_str());
        name
    }
}

} // verus!
