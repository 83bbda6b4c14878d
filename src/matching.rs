//! The mathematical model shared by every matcher.
use vstd::prelude::*;

verus! {

/// The needle occurs in the haystack starting at offset `p`.
pub open spec fn matches_at(h: Seq<u8>, n: Seq<u8>, p: int) -> bool {
    &&& 0 <= p
    &&& p + n.len() <= h.len()
    &&& forall|t: int| 0 <= t < n.len() ==> #[trigger] h[p + t] == n[t]
}

/// The smallest offset at least `i` where the needle occurs, if any.
pub open spec fn first_match_from(h: Seq<u8>, n: Seq<u8>, i: int) -> Option<int>
    decreases h.len() - i,
{
    if i < 0 || i + n.len() > h.len() {
        None
    } else if matches_at(h, n, i) {
        Some(i)
    } else {
        first_match_from(h, n, i + 1)
    }
}

/// The leftmost offset where the needle occurs, if any.
pub open spec fn first_match(h: Seq<u8>, n: Seq<u8>) -> Option<int> {
    first_match_from(h, n, 0)
}

/// A search result as an offset in the model.
pub open spec fn offset_of(r: Option<usize>) -> Option<int> {
    match r {
        Some(p) => Some(p as int),
        None => None,
    }
}

/// Whether the needle occurs in the haystack at offset `p`.
pub fn window_equals(haystack: &[u8], needle: &[u8], p: usize) -> (r: bool)
    requires
        p + needle@.len() <= haystack@.len(),
    ensures
        r == matches_at(haystack@, needle@, p as int),
{
    let m = needle.len();
    let hl = haystack.len();
    let mut t: usize = 0;
    while t < m
        invariant
            t <= m,
            m == needle@.len(),
            hl == haystack@.len(),
            p + m <= hl,
            forall|s: int| 0 <= s < t ==> haystack@[p + s] == needle@[s],
        decreases m - t,
    {
        if haystack[p + t] != needle[t] {
            assert(!(haystack@[p + t as int] == needle@[t as int]));
            return false;
        }
        t = t + 1;
    }
    true
}

/// With no match from `i` up to `p`, the search from `i` finds what the
/// search from `p` finds.
pub proof fn lemma_first_match_skip(h: Seq<u8>, n: Seq<u8>, i: int, p: int)
    requires
        0 <= i <= p,
        forall|q: int| i <= q < p ==> !#[trigger] matches_at(h, n, q),
    ensures
        first_match_from(h, n, i) == first_match_from(h, n, p),
    decreases p - i,
{
    if i < p {
        lemma_first_match_skip(h, n, i + 1, p);
    }
}

/// With no match at any offset from `i` on, the search from `i` finds none.
pub proof fn lemma_first_match_none(h: Seq<u8>, n: Seq<u8>, i: int)
    requires
        0 <= i,
        forall|q: int| i <= q ==> !#[trigger] matches_at(h, n, q),
    ensures
        first_match_from(h, n, i) is None,
    decreases h.len() - i,
{
    if i + n.len() <= h.len() {
        lemma_first_match_none(h, n, i + 1);
    }
}

/// A match at `p` with none before it is what the search finds.
pub proof fn lemma_first_match_at(h: Seq<u8>, n: Seq<u8>, p: int)
    requires
        matches_at(h, n, p),
        forall|q: int| 0 <= q < p ==> !#[trigger] matches_at(h, n, q),
    ensures
        first_match(h, n) == Some(p),
{
    lemma_first_match_skip(h, n, 0, p);
}

/// What the search from `i` finds is a match, and none lies between `i` and
/// it; where it finds none, there is none from `i` on.
proof fn lemma_first_match_from_leftmost(h: Seq<u8>, n: Seq<u8>, i: int)
    requires
        0 <= i,
    ensures
        match first_match_from(h, n, i) {
            Some(p) => i <= p && matches_at(h, n, p) && forall|q: int|
                i <= q < p ==> !#[trigger] matches_at(h, n, q),
            None => forall|q: int| i <= q ==> !#[trigger] matches_at(h, n, q),
        },
    decreases h.len() - i,
{
    if i + n.len() <= h.len() && !matches_at(h, n, i) {
        lemma_first_match_from_leftmost(h, n, i + 1);
    }
}

/// Leftmost match: where the search finds `p`, the needle occurs at `p` and
/// at no smaller offset; where it finds nothing, the needle occurs nowhere.
pub proof fn lemma_first_match_leftmost(h: Seq<u8>, n: Seq<u8>)
    ensures
        match first_match(h, n) {
            Some(p) => matches_at(h, n, p) && forall|q: int|
                0 <= q < p ==> !#[trigger] matches_at(h, n, q),
            None => forall|q: int| 0 <= q ==> !#[trigger] matches_at(h, n, q),
        },
{
    lemma_first_match_from_leftmost(h, n, 0);
}

/// Two searches that both meet the leftmost-match contract on one haystack
/// and one needle return the same result: the matchers agree.
pub proof fn lemma_matchers_agree(h: Seq<u8>, n: Seq<u8>, a: Option<usize>, b: Option<usize>)
    requires
        offset_of(a) == first_match(h, n),
        offset_of(b) == first_match(h, n),
    ensures
        a == b,
{
    match a {
        Some(x) => {
            assert(offset_of(b) == Some(x as int));
        },
        None => {},
    }
}

/// An empty needle matches every haystack at offset 0.
pub proof fn lemma_empty_needle(h: Seq<u8>)
    ensures
        first_match(h, Seq::<u8>::empty()) == Some(0int),
{
    assert(matches_at(h, Seq::<u8>::empty(), 0));
}

/// With no match anywhere, the search finds none.
pub proof fn lemma_first_match_absent(h: Seq<u8>, n: Seq<u8>)
    requires
        forall|q: int| 0 <= q ==> !#[trigger] matches_at(h, n, q),
    ensures
        first_match(h, n) is None,
{
    lemma_first_match_none(h, n, 0);
}

} // verus!
