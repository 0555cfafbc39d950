//! The forms derived from one seed word: case forms, reversal and the
//! leetspeak substitutions.

use vstd::prelude::*;
use vstd::string::*;
use crate::std_ext::{char_to_uppercase, char_uppercase};
use crate::text::chars_of;

verus! {

/// A letter that leetspeak replaces by a look-alike sign.
#[derive(Clone, Copy, Debug)]
pub enum Letter {
    A,
    E,
    I,
    O,
    S,
}

impl Letter {
    /// The letter in lower case.
    pub open spec fn lower(self) -> char {
        match self {
            Letter::A => 'a',
            Letter::E => 'e',
            Letter::I => 'i',
            Letter::O => 'o',
            Letter::S => 's',
        }
    }

    /// The letter in upper case.
    pub open spec fn upper(self) -> char {
        match self {
            Letter::A => 'A',
            Letter::E => 'E',
            Letter::I => 'I',
            Letter::O => 'O',
            Letter::S => 'S',
        }
    }

    /// The sign written in place of the letter.
    pub open spec fn sign(self) -> char {
        match self {
            Letter::A => '4',
            Letter::E => '3',
            Letter::I => '1',
            Letter::O => '0',
            Letter::S => '$',
        }
    }

    /// Whether `c` is this letter, in either case.
    pub open spec fn matches(self, c: char) -> bool {
        c == self.lower() || c == self.upper()
    }

    /// Whether the letter occurs in `s`, in either case.
    pub open spec fn occurs_in(self, s: Seq<char>) -> bool {
        exists|i: int| 0 <= i < s.len() && self.matches(#[trigger] s[i])
    }

    /// Tells whether `c` is this letter, in either case.
    pub fn is_letter(self, c: char) -> (r: bool)
        ensures
            r == self.matches(c),
    {
        match self {
            Letter::A => c == 'a' || c == 'A',
            Letter::E => c == 'e' || c == 'E',
            Letter::I => c == 'i' || c == 'I',
            Letter::O => c == 'o' || c == 'O',
            Letter::S => c == 's' || c == 'S',
        }
    }

    /// The sign written in place of the letter.
    pub fn sign_char(self) -> (r: char)
        ensures
            r == self.sign(),
    {
        match self {
            Letter::A => '4',
            Letter::E => '3',
            Letter::I => '1',
            Letter::O => '0',
            Letter::S => '$',
        }
    }

    /// Tells whether the letter occurs in `s`, in either case.
    pub fn found_in(self, s: &str) -> (r: bool)
        ensures
            r == self.occurs_in(s@),
    {
        let chars = chars_of(s);
        let mut i: usize = 0;
        while i < chars.len()
            invariant
                chars@ == s@,
                i <= chars.len(),
                forall|k: int| 0 <= k < i ==> !self.matches(#[trigger] s@[k]),
            decreases chars.len() - i,
        {
            if self.is_letter(chars[i]) {
                return true;
            }
            i += 1;
        }
        false
    }
}

/// A leetspeak substitution rule.
#[derive(Clone, Copy, Debug)]
pub enum Leet {
    /// a, e, i and o are replaced.
    Vowels,
    /// a, e, i, o and s are replaced.
    VowelsAndS,
    /// One letter is replaced and nothing else.
    Only(Letter),
}

impl Leet {
    /// Whether the rule replaces the letter `l`.
    pub open spec fn covers(self, l: Letter) -> bool {
        match self {
            Leet::Vowels => !(l is S),
            Leet::VowelsAndS => true,
            Leet::Only(m) => m == l,
        }
    }

    /// What the rule writes in place of `c`: the sign of the letter that `c`
    /// is, where the rule replaces that letter, and `c` itself otherwise.
    pub open spec fn swap(self, c: char) -> char {
        if Letter::A.matches(c) && self.covers(Letter::A) {
            '4'
        } else if Letter::E.matches(c) && self.covers(Letter::E) {
            '3'
        } else if Letter::I.matches(c) && self.covers(Letter::I) {
            '1'
        } else if Letter::O.matches(c) && self.covers(Letter::O) {
            '0'
        } else if Letter::S.matches(c) && self.covers(Letter::S) {
            '$'
        } else {
            c
        }
    }

    /// What the rule writes in place of `c`.
    pub fn swap_char(self, c: char) -> (r: char)
        ensures
            r == self.swap(c),
    {
        match self {
            Leet::Vowels => match c {
                'a' | 'A' => '4',
                'e' | 'E' => '3',
                'i' | 'I' => '1',
                'o' | 'O' => '0',
                _ => c,
            },
            Leet::VowelsAndS => match c {
                's' | 'S' => '$',
                'a' | 'A' => '4',
                'e' | 'E' => '3',
                'i' | 'I' => '1',
                'o' | 'O' => '0',
                _ => c,
            },
            Leet::Only(l) => if l.is_letter(c) {
                l.sign_char()
            } else {
                c
            },
        }
    }

    /// The text `s` under this rule.
    pub fn apply(self, s: &str) -> (res: String)
        ensures
            res@ == leet(self, s@),
    {
        let chars = chars_of(s);
        let n: usize = chars.len();
        let mut res = String::new();
        let mut i: usize = 0;
        while i < n
            invariant
                chars@ == s@,
                n == s@.len(),
                i <= n,
                res@ == leet(self, s@.take(i as int)),
            decreases n - i,
        {
            let c = chars[i];
            res.push(self.swap_char(c));
            assert(s@.take(i + 1) == s@.take(i as int).push(c));
            assert(leet(self, s@.take(i + 1)) == leet(self, s@.take(i as int)).push(self.swap(c)));
            i += 1;
        }
        assert(s@.take(n as int) == s@);
        res
    }
}

/// The text `s` under the rule `rule`: as long as `s`, and at each position
/// what the rule writes in place of the character of `s` there.
pub open spec fn leet(rule: Leet, s: Seq<char>) -> Seq<char> {
    Seq::new(s.len(), |i: int| rule.swap(s[i]))
}

/// The letter without its accent, for the accented letters that are folded
/// (acute, grave, tilde and circumflex on the vowels where they occur in
/// Portuguese, and the cedilla); any other character is itself.
pub open spec fn unaccented(c: char) -> char {
    if c == '\u{e1}' || c == '\u{e0}' || c == '\u{e3}' || c == '\u{e2}' {
        'a'
    } else if c == '\u{c1}' || c == '\u{c0}' || c == '\u{c3}' || c == '\u{c2}' {
        'A'
    } else if c == '\u{e9}' || c == '\u{ea}' {
        'e'
    } else if c == '\u{c9}' || c == '\u{ca}' {
        'E'
    } else if c == '\u{ed}' {
        'i'
    } else if c == '\u{cd}' {
        'I'
    } else if c == '\u{f3}' || c == '\u{f5}' || c == '\u{f4}' {
        'o'
    } else if c == '\u{d3}' || c == '\u{d5}' || c == '\u{d4}' {
        'O'
    } else if c == '\u{fa}' {
        'u'
    } else if c == '\u{da}' {
        'U'
    } else if c == '\u{e7}' {
        'c'
    } else if c == '\u{c7}' {
        'C'
    } else {
        c
    }
}

/// The text `s` with every folded accented letter replaced by its plain letter.
pub open spec fn without_accents(s: Seq<char>) -> Seq<char> {
    Seq::new(s.len(), |i: int| unaccented(s[i]))
}

/// The text `s` with its first character replaced by that character's
/// upper-case equivalent; the empty text stays empty.
pub open spec fn capitalized(s: Seq<char>) -> Seq<char> {
    if s.len() == 0 {
        s
    } else {
        char_uppercase(s[0]) + s.drop_first()
    }
}

fn unaccent_char(c: char) -> (r: char)
    ensures
        r == unaccented(c),
{
    match c {
        '\u{e1}' | '\u{e0}' | '\u{e3}' | '\u{e2}' => 'a',
        '\u{c1}' | '\u{c0}' | '\u{c3}' | '\u{c2}' => 'A',
        '\u{e9}' | '\u{ea}' => 'e',
        '\u{c9}' | '\u{ca}' => 'E',
        '\u{ed}' => 'i',
        '\u{cd}' => 'I',
        '\u{f3}' | '\u{f5}' | '\u{f4}' => 'o',
        '\u{d3}' | '\u{d5}' | '\u{d4}' => 'O',
        '\u{fa}' => 'u',
        '\u{da}' => 'U',
        '\u{e7}' => 'c',
        '\u{c7}' => 'C',
        _ => c,
    }
}

/// Replaces each folded accented letter of `s` by its plain letter and keeps
/// every other character.
pub fn remove_accents(s: &str) -> (res: String)
    ensures
        res@ == without_accents(s@),
{
    let chars = chars_of(s);
    let n: usize = chars.len();
    let mut res = String::new();
    let mut i: usize = 0;
    while i < n
        invariant
            chars@ == s@,
            n == s@.len(),
            i <= n,
            res@ == without_accents(s@.take(i as int)),
        decreases n - i,
    {
        let c = chars[i];
        res.push(unaccent_char(c));
        assert(s@.take(i + 1) == s@.take(i as int).push(c));
        assert(without_accents(s@.take(i + 1)) == without_accents(s@.take(i as int)).push(
            unaccented(c),
        ));
        i += 1;
    }
    assert(s@.take(n as int) == s@);
    res
}

/// Puts the first character of `s` in upper case and keeps the rest.
pub fn capitalize(s: &str) -> (res: String)
    ensures
        res@ == capitalized(s@),
{
    let chars = chars_of(s);
    let n: usize = chars.len();
    if n == 0 {
        return String::new();
    }
    let mut res = char_to_uppercase(chars[0]);
    let mut i: usize = 1;
    while i < n
        invariant
            chars@ == s@,
            n == s@.len(),
            1 <= i <= n,
            res@ == char_uppercase(s@[0]) + s@.subrange(1, i as int),
        decreases n - i,
    {
        res.push(chars[i]);
        assert(s@.subrange(1, i + 1) == s@.subrange(1, i as int).push(s@[i as int]));
        i += 1;
    }
    assert(s@.subrange(1, n as int) == s@.drop_first());
    res
}

/// The characters of `s` in opposite order.
pub fn reverse(s: &str) -> (res: String)
    ensures
        res@ == s@.reverse(),
{
    let chars = chars_of(s);
    let n: usize = chars.len();
    let mut res = String::new();
    let mut i: usize = n;
    while i > 0
        invariant
            chars@ == s@,
            n == s@.len(),
            i <= n,
            res@ == s@.subrange(i as int, n as int).reverse(),
        decreases i,
    {
        i -= 1;
        let c = chars[i];
        res.push(c);
        assert(s@.subrange(i as int, n as int).reverse() == s@.subrange(i + 1, n as int).reverse().push(
            c,
        ));
    }
    assert(s@.subrange(0, n as int) == s@);
    res
}

/// Replaces a, e, i, o of `s`, in either case, by 4, 3, 1, 0 and keeps every
/// other character.
pub fn l33t_vowels(s: &str) -> (res: String)
    ensures
        res@ == leet(Leet::Vowels, s@),
{
    Leet::Vowels.apply(s)
}

/// As `l33t_vowels`, and also replaces s, in either case, by `$`.
pub fn l33t_vowels_s(s: &str) -> (res: String)
    ensures
        res@ == leet(Leet::VowelsAndS, s@),
{
    Leet::VowelsAndS.apply(s)
}

/// Replaces a, in either case, by 4 and keeps every other character.
pub fn l33t_a(s: &str) -> (res: String)
    ensures
        res@ == leet(Leet::Only(Letter::A), s@),
{
    Leet::Only(Letter::A).apply(s)
}

/// Replaces e, in either case, by 3 and keeps every other character.
pub fn l33t_e(s: &str) -> (res: String)
    ensures
        res@ == leet(Leet::Only(Letter::E), s@),
{
    Leet::Only(Letter::E).apply(s)
}

/// Replaces i, in either case, by 1 and keeps every other character.
pub fn l33t_i(s: &str) -> (res: String)
    ensures
        res@ == leet(Leet::Only(Letter::I), s@),
{
    Leet::Only(Letter::I).apply(s)
}

/// Replaces o, in either case, by 0 and keeps every other character.
pub fn l33t_o(s: &str) -> (res: String)
    ensures
        res@ == leet(Leet::Only(Letter::O), s@),
{
    Leet::Only(Letter::O).apply(s)
}

/// Replaces s, in either case, by `$` and keeps every other character.
pub fn l33t_s_only(s: &str) -> (res: String)
    ensures
        res@ == leet(Leet::Only(Letter::S), s@),
{
    Leet::Only(Letter::S).apply(s)
}

} // verus!
