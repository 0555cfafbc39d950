//! The seed words of a run: split at white space, folded, put in order, each
//! one once.

use vstd::prelude::*;
use vstd::string::*;
use crate::std_ext::{lowercase, white_space};
use crate::text::{chars_of, text_of};
use crate::variants::{remove_accents, without_accents};

verus! {

/// Whether `a` comes before `b` in the order of the dictionary: at the first
/// position where they differ `a` has the smaller character, or `a` ends
/// there and `b` goes on.
pub open spec fn precedes(a: Seq<char>, b: Seq<char>) -> bool {
    exists|k: int| differ_at(a, b, k)
}

/// Whether `a` and `b` agree before position `k` and `a` is the smaller there.
pub open spec fn differ_at(a: Seq<char>, b: Seq<char>, k: int) -> bool {
    &&& 0 <= k <= a.len()
    &&& k < b.len()
    &&& a.take(k) == b.take(k)
    &&& (k == a.len() || a[k] < b[k])
}

/// Whether each text of the list comes before every later one.
pub open spec fn ascending(list: Seq<Seq<char>>) -> bool {
    forall|i: int, j: int| 0 <= i < j < list.len() ==> precedes(#[trigger] list[i], #[trigger] list[j])
}

/// The order of the dictionary carries over.
pub proof fn lemma_precedes_transitive(a: Seq<char>, b: Seq<char>, c: Seq<char>)
    requires
        precedes(a, b),
        precedes(b, c),
    ensures
        precedes(a, c),
{
    let k1 = choose|k: int| differ_at(a, b, k);
    let k2 = choose|k: int| differ_at(b, c, k);
    let k = if k1 <= k2 {
        k1
    } else {
        k2
    };
    assert(a.take(k) =~= c.take(k)) by {
        assert forall|i: int| 0 <= i < k implies a[i] == c[i] by {
            assert(a.take(k1)[i] == b.take(k1)[i]);
            assert(b.take(k2)[i] == c.take(k2)[i]);
        }
    }
    if k1 < k2 {
        assert(b.take(k2)[k1] == c.take(k2)[k1]);
    } else if k2 < k1 {
        assert(a.take(k1)[k2] == b.take(k1)[k2]);
    }
    assert(differ_at(a, c, k));
}

/// An ascending list holds no text twice.
pub proof fn lemma_ascending_no_duplicates(list: Seq<Seq<char>>)
    requires
        ascending(list),
    ensures
        list.no_duplicates(),
{
    assert forall|i: int, j: int| 0 <= i < list.len() && 0 <= j < list.len() && i != j implies list[i]
        != list[j] by {
        if i < j {
            assert(precedes(list[i], list[j]));
        } else {
            assert(precedes(list[j], list[i]));
        }
    }
}

/// How one text stands to another in the order of the dictionary.
#[derive(Clone, Copy, Debug, PartialEq, Eq, Structural)]
pub enum Rank {
    Before,
    Same,
    After,
}

/// Tells how `a` stands to `b`.
pub fn rank(a: &Vec<char>, b: &Vec<char>) -> (r: Rank)
    ensures
        r == Rank::Before <==> precedes(a@, b@),
        r == Rank::Same <==> a@ == b@,
        r == Rank::After <==> precedes(b@, a@),
{
    let mut i: usize = 0;
    while i < a.len() && i < b.len() && a[i] == b[i]
        invariant
            i <= a.len(),
            i <= b.len(),
            a@.take(i as int) == b@.take(i as int),
        decreases a.len() - i,
    {
        assert(a@.take(i + 1) =~= a@.take(i as int).push(a@[i as int]));
        assert(b@.take(i + 1) =~= b@.take(i as int).push(b@[i as int]));
        i += 1;
    }
    let ghost k = i as int;
    proof {
        assert forall|j: int| differ_at(a@, b@, j) || differ_at(b@, a@, j) implies j == k by {
            if j < k {
                assert(a@.take(k)[j] == b@.take(k)[j]);
            } else if j > k {
                if k < a@.len() && k < b@.len() {
                    assert(a@.take(j)[k] == b@.take(j)[k]);
                    assert(b@.take(j)[k] == a@.take(j)[k]);
                } else {
                    assert(a@.take(j).len() == b@.take(j).len());
                }
            }
        }
    }
    if i == a.len() && i == b.len() {
        assert(a@.take(k) == a@ && b@.take(k) == b@);
        Rank::Same
    } else if i == a.len() {
        assert(differ_at(a@, b@, k));
        assert(a@.len() != b@.len());
        Rank::Before
    } else if i == b.len() {
        assert(differ_at(b@, a@, k));
        assert(a@.len() != b@.len());
        Rank::After
    } else if a[i] < b[i] {
        assert(differ_at(a@, b@, k));
        Rank::Before
    } else {
        assert(differ_at(b@, a@, k));
        Rank::After
    }
}

/// The texts that the rows of a list hold.
pub open spec fn rows(list: Seq<Vec<char>>) -> Seq<Seq<char>> {
    Seq::new(list.len(), |i: int| list[i]@)
}

/// Puts `word` into the ascending list at its place, unless it is there.
pub fn insert_word(list: &mut Vec<Vec<char>>, word: Vec<char>)
    requires
        ascending(rows(old(list)@)),
    ensures
        ascending(rows(final(list)@)),
        forall|w: Seq<char>|
            rows(final(list)@).contains(w) <==> (rows(old(list)@).contains(w) || w == word@),
{
    let ghost before = rows(list@);
    let mut p: usize = 0;
    while p < list.len() && rank(&list[p], &word) == Rank::Before
        invariant
            p <= list.len(),
            *list == *old(list),
            before == rows(list@),
            forall|i: int| 0 <= i < p ==> precedes(#[trigger] before[i], word@),
        decreases list.len() - p,
    {
        assert(before[p as int] == list@[p as int]@);
        p += 1;
    }
    if p < list.len() && rank(&list[p], &word) == Rank::Same {
        assert(before[p as int] == word@);
        return ;
    }
    let ghost w = word@;
    list.insert(p, word);
    let ghost after = rows(list@);
    proof {
        assert(after =~= before.insert(p as int, w));
        assert(p < before.len() ==> precedes(w, before[p as int])) by {
            if p < before.len() {
                assert(before[p as int] == old(list)@[p as int]@);
            }
        }
        assert forall|i: int, j: int| 0 <= i < j < after.len() implies precedes(
            #[trigger] after[i],
            #[trigger] after[j],
        ) by {
            if j < p {
                assert(after[i] == before[i] && after[j] == before[j]);
            } else if j == p {
                assert(after[i] == before[i]);
            } else if i < p {
                assert(after[i] == before[i] && after[j] == before[j - 1]);
            } else if i == p {
                assert(after[j] == before[j - 1]);
                if j - 1 > p {
                    assert(precedes(before[p as int], before[j - 1]));
                    lemma_precedes_transitive(w, before[p as int], before[j - 1]);
                }
            } else {
                assert(after[i] == before[i - 1] && after[j] == before[j - 1]);
            }
        }
        assert forall|x: Seq<char>| after.contains(x) <==> (before.contains(x) || x == w) by {
            if after.contains(x) {
                let k = choose|k: int| 0 <= k < after.len() && after[k] == x;
                if k < p {
                    assert(before[k] == x);
                } else if k > p {
                    assert(before[k - 1] == x);
                }
            }
            if before.contains(x) {
                let k = choose|k: int| 0 <= k < before.len() && before[k] == x;
                if k < p {
                    assert(after[k] == x);
                } else {
                    assert(after[k + 1] == x);
                }
            }
            if x == w {
                assert(after[p as int] == x);
            }
        }
    }
}

/// The folded form of a word: without the folded accents, in lower case.
pub open spec fn folded(word: Seq<char>) -> Seq<char> {
    lowercase(without_accents(word))
}

/// Whether a word of `raw` runs from position `i` up to, and without,
/// position `j`: no white space inside, and white space or an end of the
/// text on either side.
pub open spec fn is_word_at(raw: Seq<char>, i: int, j: int) -> bool {
    &&& 0 <= i < j <= raw.len()
    &&& forall|k: int| i <= k < j ==> !white_space(#[trigger] raw[k])
    &&& (i == 0 || white_space(raw[i - 1]))
    &&& (j == raw.len() || white_space(raw[j]))
}

/// Whether `w` is the folded form of a word of `raw` that ends at or before
/// position `end`.
pub open spec fn is_seed_before(raw: Seq<char>, end: int, w: Seq<char>) -> bool {
    exists|i: int, j: int|
        #[trigger] is_word_at(raw, i, j) && j <= end && w == folded(raw.subrange(i, j))
}

/// Whether `w` is the folded form of a word of `raw`.
pub open spec fn is_seed(raw: Seq<char>, w: Seq<char>) -> bool {
    is_seed_before(raw, raw.len() as int, w)
}

/// Folds a word: removes the folded accents and puts it in lower case.
pub fn fold(word: &str) -> (res: String)
    ensures
        res@ == folded(word@),
{
    remove_accents(word).as_str().to_lowercase()
}

/// The seed words of `raw`: its words, split at white space and folded, in
/// the order of the dictionary, each one once.
pub fn seed_words(raw: &str) -> (list: Vec<String>)
    ensures
        ascending(list.deep_view()),
        list.deep_view().no_duplicates(),
        forall|w: Seq<char>| list.deep_view().contains(w) <==> is_seed(raw@, w),
{
    let chars = chars_of(raw);
    let n: usize = chars.len();
    let mut sorted: Vec<Vec<char>> = Vec::new();
    let mut i: usize = 0;
    while i < n
        invariant
            chars@ == raw@,
            n == chars@.len(),
            i <= n,
            i == 0 || i == n || white_space(raw@[i - 1]) || white_space(raw@[i as int]),
            ascending(rows(sorted@)),
            forall|w: Seq<char>| rows(sorted@).contains(w) <==> is_seed_before(raw@, i as int, w),
        decreases n - i,
    {
        if chars[i].is_whitespace() {
            proof {
                assert forall|w: Seq<char>| is_seed_before(raw@, i + 1, w) implies is_seed_before(
                    raw@,
                    i as int,
                    w,
                ) by {
                    let (a, b) = choose|a: int, b: int|
                        #[trigger] is_word_at(raw@, a, b) && b <= i + 1 && w == folded(
                            raw@.subrange(a, b),
                        );
                    if b == i + 1 {
                        assert(!white_space(raw@[i as int]));
                    }
                }
            }
            i += 1;
        } else {
            let start: usize = i;
            while i < n && !chars[i].is_whitespace()
                invariant
                    chars@ == raw@,
                    n == chars@.len(),
                    start <= i <= n,
                    forall|k: int| start <= k < i ==> !white_space(#[trigger] raw@[k]),
                decreases n - i,
            {
                i += 1;
            }
            assert(is_word_at(raw@, start as int, i as int));
            let word = fold(text_of(&chars, start, i).as_str());
            let ghost held = rows(sorted@);
            insert_word(&mut sorted, chars_of(word.as_str()));
            proof {
                assert forall|w: Seq<char>| rows(sorted@).contains(w) <==> is_seed_before(
                    raw@,
                    i as int,
                    w,
                ) by {
                    if is_seed_before(raw@, i as int, w) {
                        let (a, b) = choose|a: int, b: int|
                            #[trigger] is_word_at(raw@, a, b) && b <= i && w == folded(
                                raw@.subrange(a, b),
                            );
                        if b <= start {
                            assert(is_seed_before(raw@, start as int, w));
                        } else {
                            assert(!white_space(raw@[b - 1]));
                            if a < start {
                                assert(!white_space(raw@[start as int]));
                                assert(!white_space(raw@[start - 1]));
                            }
                            if a > start {
                                assert(!white_space(raw@[a - 1]));
                            }
                            if b < i {
                                assert(!white_space(raw@[b]));
                            }
                            assert(a == start && b == i);
                        }
                    }
                    if held.contains(w) {
                        assert(is_seed_before(raw@, start as int, w));
                        let (a, b) = choose|a: int, b: int|
                            #[trigger] is_word_at(raw@, a, b) && b <= start && w == folded(
                                raw@.subrange(a, b),
                            );
                        assert(is_word_at(raw@, a, b) && b <= i);
                    }
                }
            }
        }
    }
    let mut list: Vec<String> = Vec::new();
    let mut k: usize = 0;
    while k < sorted.len()
        invariant
            k <= sorted.len(),
            list.deep_view() == rows(sorted@).take(k as int),
        decreases sorted.len() - k,
    {
        let ghost held = list.deep_view();
        list.push(text_of(&sorted[k], 0, sorted[k].len()));
        assert(sorted@[k as int]@.subrange(0, sorted@[k as int]@.len() as int) == sorted@[k as int]@);
        assert(list.deep_view() =~= held.push(sorted@[k as int]@));
        assert(rows(sorted@).take(k + 1) =~= held.push(sorted@[k as int]@));
        k += 1;
    }
    assert(rows(sorted@).take(sorted.len() as int) == rows(sorted@));
    proof {
        lemma_ascending_no_duplicates(list.deep_view());
    }
    list
}

} // verus!
