//! Texts as sequences of characters: taking a text apart and putting one
//! together.

use vstd::prelude::*;
use vstd::string::*;
use vstd::std_specs::iter::IteratorSpec;

verus! {

/// The characters of `s`, in order.
pub fn chars_of(s: &str) -> (v: Vec<char>)
    ensures
        v@ == s@,
{
    broadcast use group_string_axioms;

    let mut v: Vec<char> = Vec::new();
    let mut it = s.chars();
    let ghost mut i: int = 0;
    loop
        invariant
            0 <= i <= s@.len(),
            it.remaining() == s@.skip(i),
            v@ == s@.take(i),
        decreases s@.len() - i,
    {
        match it.next() {
            Some(c) => {
                v.push(c);
                proof {
                    assert(s@.skip(i)[0] == s@[i]);
                    assert(s@.skip(i).drop_first() == s@.skip(i + 1));
                    assert(s@.take(i + 1) == s@.take(i).push(c));
                    i = i + 1;
                }
            },
            None => {
                assert(s@.skip(i).len() == 0);
                assert(s@.take(i) == s@);
                return v;
            },
        }
    }
}

/// The text made of the characters of `chars` from position `from` up to, and
/// without, position `to`.
pub fn text_of(chars: &Vec<char>, from: usize, to: usize) -> (s: String)
    requires
        from <= to <= chars@.len(),
    ensures
        s@ == chars@.subrange(from as int, to as int),
{
    let mut s = String::new();
    let mut i: usize = from;
    while i < to
        invariant
            from <= i <= to <= chars@.len(),
            s@ == chars@.subrange(from as int, i as int),
        decreases to - i,
    {
        s.push(chars[i]);
        assert(chars@.subrange(from as int, i + 1) == chars@.subrange(from as int, i as int).push(
            chars@[i as int],
        ));
        i += 1;
    }
    s
}

} // verus!
