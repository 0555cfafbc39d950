//! Contracts for the few functions of the standard library that the crate calls
//! and for which nothing is specified elsewhere. None of these is proved.

use vstd::prelude::*;

verus! {

/// The upper-case equivalent of a text, as the standard library computes it
/// from the Unicode tables it was built with. One character may become several.
pub uninterp spec fn uppercase(s: Seq<char>) -> Seq<char>;

/// The upper-case equivalent of one character, as the standard library
/// computes it: one to three characters.
pub uninterp spec fn char_uppercase(c: char) -> Seq<char>;

/// The lower-case equivalent of a text, as the standard library computes it.
pub uninterp spec fn lowercase(s: Seq<char>) -> Seq<char>;

/// Whether a character is white space, as the standard library decides it
/// from the Unicode tables it was built with.
pub uninterp spec fn white_space(c: char) -> bool;

/// `String::push` appends the given character to the end of the string:
/// the text afterwards is the text before with `ch` added as its last character.
pub assume_specification[ String::push ](s: &mut String, ch: char)
    ensures
        final(s)@ == old(s)@.push(ch),
;

/// `str::to_uppercase` returns the upper-case equivalent of the slice as a new
/// `String`. The result depends on the characters alone.
pub assume_specification[ str::to_uppercase ](s: &str) -> (res: String)
    ensures
        res@ == uppercase(s@),
;

/// `str::to_lowercase` returns the lower-case equivalent of the slice as a new
/// `String`. The result depends on the characters alone.
pub assume_specification[ str::to_lowercase ](s: &str) -> (res: String)
    ensures
        res@ == lowercase(s@),
;

/// `char::is_whitespace` tells whether the character has the Unicode property
/// White_Space. The answer depends on the character alone.
pub assume_specification[ char::is_whitespace ](c: char) -> (b: bool)
    ensures
        b == white_space(c),
;

/// `char::to_uppercase` yields the characters of the upper-case equivalent of
/// `c`, in order; they are collected here into a `String`.
#[verifier::external_body]
pub(crate) fn char_to_uppercase(c: char) -> (res: String)
    ensures
        res@ == char_uppercase(c),
{
    c.to_uppercase().collect()
}

} // verus!
