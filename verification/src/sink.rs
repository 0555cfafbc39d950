//! The length window and the lines it lets through.

use vstd::prelude::*;
use vstd::utf8::encode_utf8;

verus! {

/// The length of a text in bytes, in UTF-8.
pub open spec fn byte_len(s: Seq<char>) -> nat {
    encode_utf8(s).len()
}

/// Whether a candidate lies inside the window from `min` to `max`, both
/// inclusive, by its length in bytes.
pub open spec fn in_window(s: Seq<char>, min: usize, max: usize) -> bool {
    min <= byte_len(s) <= max
}

/// The test `in_window` for a fixed window.
pub open spec fn window(min: usize, max: usize) -> spec_fn(Seq<char>) -> bool {
    |s: Seq<char>| in_window(s, min, max)
}

/// The candidates of `cands` that lie inside the window, in their order.
pub open spec fn retained(cands: Seq<Seq<char>>, min: usize, max: usize) -> Seq<Seq<char>> {
    cands.filter(window(min, max))
}

/// The lines one after another, each followed by a line feed.
pub open spec fn lines_text(lines: Seq<Seq<char>>) -> Seq<char>
    decreases lines.len(),
{
    if lines.len() == 0 {
        Seq::empty()
    } else {
        lines_text(lines.drop_last()) + lines.last() + seq!['\n']
    }
}

/// What offering `cands` in order adds to the output: the candidates inside
/// the window, one per line.
pub open spec fn written(cands: Seq<Seq<char>>, min: usize, max: usize) -> Seq<char> {
    lines_text(retained(cands, min, max))
}

/// The lines of a concatenation are the lines of its parts.
pub proof fn lemma_lines_text_add(a: Seq<Seq<char>>, b: Seq<Seq<char>>)
    ensures
        lines_text(a + b) == lines_text(a) + lines_text(b),
    decreases b.len(),
{
    if b.len() == 0 {
        assert(a + b == a);
    } else {
        assert((a + b).drop_last() == a + b.drop_last());
        assert((a + b).last() == b.last());
        lemma_lines_text_add(a, b.drop_last());
    }
}

/// Offering one more candidate adds its line where it is inside the window,
/// and nothing otherwise.
pub proof fn lemma_written_push(cands: Seq<Seq<char>>, c: Seq<char>, min: usize, max: usize)
    ensures
        written(cands.push(c), min, max) == if in_window(c, min, max) {
            written(cands, min, max) + c + seq!['\n']
        } else {
            written(cands, min, max)
        },
{
    reveal(Seq::filter);
    assert(cands.push(c).drop_last() == cands);
    if in_window(c, min, max) {
        let kept = retained(cands, min, max);
        assert(kept.push(c).drop_last() == kept);
    }
}

/// Offering two runs of candidates one after the other adds what each adds.
pub proof fn lemma_written_add(a: Seq<Seq<char>>, b: Seq<Seq<char>>, min: usize, max: usize)
    ensures
        written(a + b, min, max) == written(a, min, max) + written(b, min, max),
{
    Seq::filter_distributes_over_add(a, b, window(min, max));
    lemma_lines_text_add(retained(a, min, max), retained(b, min, max));
}

/// Nothing offered, nothing written.
pub proof fn lemma_written_empty(min: usize, max: usize)
    ensures
        written(Seq::empty(), min, max) == Seq::<char>::empty(),
{
    reveal(Seq::filter);
}

} // verus!
