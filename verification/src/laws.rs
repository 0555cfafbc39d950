//! What holds of every expansion, proved from the definitions that the
//! contracts of the generator use.

use vstd::prelude::*;
use vstd::utf8::{encode_scalar, encode_utf8};
use crate::expansion::{
    core_forms, direct_forms, each_symbol, expansion, leet_forms, plain_candidates, suffix_bases,
    with_symbol,
};
use crate::generator::Generator;
use crate::sink::{byte_len, in_window, retained, window};
use crate::runs::{counted, full_date_tails, numeric_tails, pow10, prefixed, short_date_tails};
use crate::variants::{leet, Leet};

verus! {

/// A text followed by one more character is longer, in bytes, by the bytes of
/// that character.
pub proof fn lemma_byte_len_push(s: Seq<char>, c: char)
    ensures
        byte_len(s.push(c)) == byte_len(s) + encode_scalar(c as u32).len(),
    decreases s.len(),
{
    if s.len() == 0 {
        assert(s.push(c).drop_first() =~= Seq::<char>::empty());
        assert(encode_utf8(Seq::<char>::empty()).len() == 0);
        assert(encode_utf8(s).len() == 0);
    } else {
        assert(s.push(c).drop_first() =~= s.drop_first().push(c));
        lemma_byte_len_push(s.drop_first(), c);
    }
}

/// Each base followed by each symbol is among the bases followed by the symbols.
pub proof fn lemma_each_symbol_contains(bases: Seq<Seq<char>>, symbols: Seq<char>, i: int, j: int)
    requires
        0 <= i < bases.len(),
        0 <= j < symbols.len(),
    ensures
        each_symbol(bases, symbols).contains(bases[i].push(symbols[j])),
    decreases symbols.len(),
{
    let last = with_symbol(bases, symbols.last());
    let before = each_symbol(bases, symbols.drop_last());
    if j == symbols.len() - 1 {
        assert(last[i] == bases[i].push(symbols[j]));
        assert((before + last)[before.len() + i] == last[i]);
    } else {
        lemma_each_symbol_contains(bases, symbols.drop_last(), i, j);
        let k = choose|k: int|
            0 <= k < before.len() && before[k] == bases[i].push(symbols.drop_last()[j]);
        assert((before + last)[k] == before[k]);
    }
}

/// A candidate is among those kept if and only if it was offered and its
/// length in bytes lies inside the window.
pub proof fn law_kept_exactly_inside_window(
    cands: Seq<Seq<char>>,
    c: Seq<char>,
    min: usize,
    max: usize,
)
    ensures
        retained(cands, min, max).contains(c) <==> cands.contains(c) && in_window(c, min, max),
{
    let kept = retained(cands, min, max);
    if kept.contains(c) {
        let i = choose|i: int| 0 <= i < kept.len() && kept[i] == c;
        cands.lemma_filter_pred(window(min, max), i);
        cands.lemma_filter_contains_rev(window(min, max), c);
    }
    if cands.contains(c) && in_window(c, min, max) {
        let i = choose|i: int| 0 <= i < cands.len() && cands[i] == c;
        cands.lemma_filter_contains(window(min, max), i);
    }
}

/// For every seed word and every symbol of the set, the word followed by the
/// symbol is among the candidates kept if and only if its length in bytes
/// lies inside the window. For a symbol of one byte that length is the
/// word's length and one.
pub proof fn law_direct_suffix_kept(
    w: Seq<char>,
    minimal: bool,
    symbols: Seq<char>,
    c: char,
    min: usize,
    max: usize,
)
    requires
        symbols.contains(c),
    ensures
        retained(expansion(w, minimal, symbols), min, max).contains(w.push(c)) <==> in_window(
            w.push(c),
            min,
            max,
        ),
        c as u32 <= 0x7f ==> (in_window(w.push(c), min, max) <==> min <= byte_len(w) + 1 <= max),
{
    let all = expansion(w, minimal, symbols);
    let cand = w.push(c);
    let j = choose|j: int| 0 <= j < symbols.len() && symbols[j] == c;
    let bases = suffix_bases(w, minimal);
    assert(bases[0] == w);
    lemma_each_symbol_contains(bases, symbols, 0, j);
    let tailed = each_symbol(bases, symbols);
    let k = choose|k: int| 0 <= k < tailed.len() && tailed[k] == cand;
    let at = direct_forms(w, minimal).len() + leet_forms(w).len() + k;
    assert(plain_candidates(w, minimal, symbols)[at] == cand);
    assert(all[at] == cand);
    law_kept_exactly_inside_window(all, cand, min, max);
    lemma_byte_len_push(w, c);
}

/// Expansion is repeatable: two runs from the same state on the same word,
/// mode and symbols end with the same output and the same window.
pub proof fn law_expansion_repeatable(
    start: Generator,
    first: Generator,
    second: Generator,
    w: Seq<char>,
    minimal: bool,
    symbols: Seq<char>,
)
    requires
        start.offered(&first, expansion(w, minimal, symbols)),
        start.offered(&second, expansion(w, minimal, symbols)),
    ensures
        first.text() == second.text(),
        first.min_len() == second.min_len(),
        first.max_len() == second.max_len(),
{
}

/// The "vowels" form of a text is as long as the text; where the text has
/// a, e, i or o, in either case, the form has 4, 3, 1 or 0, and everywhere
/// else it has the character of the text.
pub proof fn law_vowels_pointwise(s: Seq<char>)
    ensures
        leet(Leet::Vowels, s).len() == s.len(),
        forall|i: int|
            0 <= i < s.len() ==> #[trigger] leet(Leet::Vowels, s)[i] == (if s[i] == 'a' || s[i]
                == 'A' {
                '4'
            } else if s[i] == 'e' || s[i] == 'E' {
                '3'
            } else if s[i] == 'i' || s[i] == 'I' {
                '1'
            } else if s[i] == 'o' || s[i] == 'O' {
                '0'
            } else {
                s[i]
            }),
{
}

/// The three candidates that follow the direct forms are the "vowels" forms
/// of the word, of its capitalized form and of its upper-case form.
pub proof fn law_vowels_candidates(w: Seq<char>, minimal: bool, symbols: Seq<char>, k: int)
    requires
        0 <= k < 3,
    ensures
        direct_forms(w, minimal).len() + k < expansion(w, minimal, symbols).len(),
        expansion(w, minimal, symbols)[direct_forms(w, minimal).len() + k] == leet(
            Leet::Vowels,
            core_forms(w)[k],
        ),
{
}

/// The full dates after a base are 31 times 12 times 81 candidates, whatever
/// the base.
pub proof fn law_full_date_count(base: Seq<char>)
    ensures
        prefixed(base, full_date_tails()).len() == 31 * 12 * 81,
        prefixed(base, full_date_tails()).len() == 30132,
{
}

/// The short dates after a base are 31 times 12 times 100 candidates.
pub proof fn law_short_date_count(base: Seq<char>)
    ensures
        prefixed(base, short_date_tails()).len() == 37200,
{
}

/// The numeric tails after a base are 10 + 100 + 1000 + 10000 candidates,
/// whatever the base.
pub proof fn law_numeric_count(base: Seq<char>)
    ensures
        prefixed(base, numeric_tails()).len() == 10 + 100 + 1000 + 10000,
        prefixed(base, numeric_tails()).len() == 11110,
{
    reveal_with_fuel(pow10, 5);
    assert(counted(1).len() == 10);
    assert(counted(2).len() == 100);
    assert(counted(3).len() == 1000);
    assert(counted(4).len() == 10000);
}

} // verus!
