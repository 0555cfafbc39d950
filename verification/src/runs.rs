//! The runs of tails that are appended to a form: counted numbers in four
//! widths, full dates and short dates.

use vstd::prelude::*;

verus! {

/// First and last day of a month, taken for every month alike.
pub const FIRST_DAY: u32 = 1;

pub const LAST_DAY: u32 = 31;

/// First and last month of a year.
pub const FIRST_MONTH: u32 = 1;

pub const LAST_MONTH: u32 = 12;

/// First and last year of a full date.
pub const FIRST_YEAR: u32 = 1950;

pub const LAST_YEAR: u32 = 2030;

/// The number of years that a short date runs through, from 00 on.
pub const SHORT_YEARS: u32 = 100;

/// The decimal digit for `d`, where `d` is below ten.
pub open spec fn digit(d: nat) -> char {
    if d == 0 {
        '0'
    } else if d == 1 {
        '1'
    } else if d == 2 {
        '2'
    } else if d == 3 {
        '3'
    } else if d == 4 {
        '4'
    } else if d == 5 {
        '5'
    } else if d == 6 {
        '6'
    } else if d == 7 {
        '7'
    } else if d == 8 {
        '8'
    } else {
        '9'
    }
}

/// The last `width` decimal digits of `n`, most significant first, with
/// leading zeros: for `n` below ten to the `width`, the number `n` padded
/// with zeros to that width.
pub open spec fn padded(n: nat, width: nat) -> Seq<char>
    decreases width,
{
    if width == 0 {
        Seq::empty()
    } else {
        padded(n / 10, (width - 1) as nat).push(digit(n % 10))
    }
}

/// Ten to the power `width`.
pub open spec fn pow10(width: nat) -> nat
    decreases width,
{
    if width == 0 {
        1
    } else {
        10 * pow10((width - 1) as nat)
    }
}

/// Every number that has at most `width` digits, in rising order, each padded
/// to `width` digits.
pub open spec fn counted(width: nat) -> Seq<Seq<char>> {
    Seq::new(pow10(width), |n: int| padded(n as nat, width))
}

/// The numeric tails: the counted numbers of width one, then two, three and four.
pub open spec fn numeric_tails() -> Seq<Seq<char>> {
    counted(1) + counted(2) + counted(3) + counted(4)
}

/// A day, a month and a year written as two, two and four digits.
pub open spec fn full_date(day: nat, month: nat, year: nat) -> Seq<char> {
    padded(day, 2) + padded(month, 2) + padded(year, 4)
}

/// A day, a month and a year written as two digits each.
pub open spec fn short_date(day: nat, month: nat, year: nat) -> Seq<char> {
    padded(day, 2) + padded(month, 2) + padded(year, 2)
}

/// The number of full-date tails: every day with every month and every year.
pub open spec fn full_date_count() -> nat {
    31 * 12 * 81
}

/// The number of short-date tails.
pub open spec fn short_date_count() -> nat {
    31 * 12 * 100
}

/// The full-date tails: days 1 to 31, for each day months 1 to 12, for each
/// month years 1950 to 2030. No date is left out for not being in the calendar.
pub open spec fn full_date_tails() -> Seq<Seq<char>> {
    Seq::new(
        full_date_count(),
        |k: int| full_date((k / 972 + 1) as nat, (k / 81 % 12 + 1) as nat, (1950 + k % 81) as nat),
    )
}

/// The short-date tails: days 1 to 31, for each day months 1 to 12, for each
/// month years 00 to 99.
pub open spec fn short_date_tails() -> Seq<Seq<char>> {
    Seq::new(
        short_date_count(),
        |k: int| short_date((k / 1200 + 1) as nat, (k / 100 % 12 + 1) as nat, (k % 100) as nat),
    )
}

/// All tails that follow a form and a symbol: numeric, then full dates, then
/// short dates.
pub open spec fn infix_tails() -> Seq<Seq<char>> {
    numeric_tails() + full_date_tails() + short_date_tails()
}

/// One of the three runs of tails.
#[derive(Clone, Copy, Debug)]
pub enum Run {
    Numeric,
    FullDates,
    ShortDates,
}

impl Run {
    /// The tails of the run, in order.
    pub open spec fn tails(self) -> Seq<Seq<char>> {
        match self {
            Run::Numeric => numeric_tails(),
            Run::FullDates => full_date_tails(),
            Run::ShortDates => short_date_tails(),
        }
    }
}

/// `base` followed by each of `tails`, in their order.
pub open spec fn prefixed(base: Seq<char>, tails: Seq<Seq<char>>) -> Seq<Seq<char>> {
    Seq::new(tails.len(), |i: int| base + tails[i])
}

/// Prefixing goes through a concatenation of tails.
pub proof fn lemma_prefixed_add(base: Seq<char>, a: Seq<Seq<char>>, b: Seq<Seq<char>>)
    ensures
        prefixed(base, a + b) == prefixed(base, a) + prefixed(base, b),
{
    assert(prefixed(base, a + b) =~= prefixed(base, a) + prefixed(base, b));
}

/// Where the full date of a day, a month and a year stands among the
/// full-date tails.
pub proof fn lemma_full_date_at(day: nat, month: nat, year: nat)
    requires
        1 <= day <= 31,
        1 <= month <= 12,
        1950 <= year <= 2030,
    ensures
        0 <= (day - 1) * 972 + (month - 1) * 81 + (year - 1950) < full_date_tails().len(),
        full_date_tails()[(day - 1) * 972 + (month - 1) * 81 + (year - 1950)] == full_date(
            day,
            month,
            year,
        ),
{
    let k = (day - 1) * 972 + (month - 1) * 81 + (year - 1950);
    assert(k / 972 + 1 == day);
    assert(k / 81 % 12 + 1 == month);
    assert(1950 + k % 81 == year);
}

/// Where the short date of a day, a month and a year stands among the
/// short-date tails.
pub proof fn lemma_short_date_at(day: nat, month: nat, year: nat)
    requires
        1 <= day <= 31,
        1 <= month <= 12,
        year <= 99,
    ensures
        0 <= (day - 1) * 1200 + (month - 1) * 100 + year < short_date_tails().len(),
        short_date_tails()[(day - 1) * 1200 + (month - 1) * 100 + year] == short_date(
            day,
            month,
            year,
        ),
{
    let k = (day - 1) * 1200 + (month - 1) * 100 + year;
    assert(k / 1200 + 1 == day);
    assert(k / 100 % 12 + 1 == month);
    assert(k % 100 == year);
}

/// The decimal digit for `d`.
pub fn digit_char(d: u32) -> (c: char)
    requires
        d < 10,
    ensures
        c == digit(d as nat),
{
    match d {
        0 => '0',
        1 => '1',
        2 => '2',
        3 => '3',
        4 => '4',
        5 => '5',
        6 => '6',
        7 => '7',
        8 => '8',
        _ => '9',
    }
}

/// The powers of ten up to the ninth lie below the limit of the machine
/// number that counts a run.
pub proof fn lemma_pow10_bound(width: nat)
    requires
        width <= 9,
    ensures
        1 <= pow10(width) <= 1_000_000_000,
{
    lemma_pow10_rises(width, 9);
    assert(pow10(9) == 1_000_000_000) by {
        reveal_with_fuel(pow10, 10);
    }
}

/// A higher power of ten is no smaller.
pub proof fn lemma_pow10_rises(a: nat, b: nat)
    requires
        a <= b,
    ensures
        1 <= pow10(a) <= pow10(b),
    decreases b,
{
    if a < b {
        lemma_pow10_rises(a, (b - 1) as nat);
    } else if b > 0 {
        lemma_pow10_rises((a - 1) as nat, (b - 1) as nat);
    }
}

/// Ten to the power `width`, as far as the machine number holds it.
pub fn power_of_ten(width: u32) -> (p: u32)
    requires
        width <= 9,
    ensures
        p == pow10(width as nat),
{
    let mut p: u32 = 1;
    let mut k: u32 = 0;
    while k < width
        invariant
            k <= width <= 9,
            p == pow10(k as nat),
        decreases width - k,
    {
        proof {
            lemma_pow10_bound((k + 1) as nat);
        }
        p = p * 10;
        k += 1;
    }
    p
}

/// Appends to `s` the last `width` decimal digits of `n`, padded with zeros.
pub fn push_padded(s: &mut String, n: u32, width: u32)
    ensures
        final(s)@ == old(s)@ + padded(n as nat, width as nat),
    decreases width,
{
    if width > 0 {
        push_padded(s, n / 10, width - 1);
        s.push(digit_char(n % 10));
    }
}

} // verus!
