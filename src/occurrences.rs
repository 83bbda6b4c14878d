//! Counting non-overlapping occurrences with any of the matchers.
use vstd::prelude::*;

use crate::matching::{first_match, lemma_first_match_leftmost, offset_of};
use crate::{bm, kmp, naive};

verus! {

/// The matchers, each with the same leftmost-match contract.
#[derive(Clone, Copy, Debug, PartialEq, Eq, Structural)]
pub enum Matcher {
    Naive,
    Kmp,
    BoyerMoore,
}

impl Matcher {
    /// The leftmost offset where `needle` occurs in `haystack`, found by this
    /// matcher.
    pub fn find(self, haystack: &[u8], needle: &[u8]) -> (r: Option<usize>)
        ensures
            offset_of(r) == first_match(haystack@, needle@),
    {
        match self {
            Matcher::Naive => naive::find(haystack, needle),
            Matcher::Kmp => kmp::find(haystack, needle),
            Matcher::BoyerMoore => bm::find(haystack, needle),
        }
    }
}

/// How far the count moves on past the start of a match: `max(1, |n|)`.
pub open spec fn advance(n: Seq<u8>) -> int {
    if n.len() == 0 {
        1
    } else {
        n.len() as int
    }
}

/// The number of non-overlapping occurrences of `n` in `h`, left to right:
/// after a match at `p` the count goes on in the suffix from
/// `p + max(1, |n|)`, and stops where that lies past the end.
pub open spec fn occurrences(h: Seq<u8>, n: Seq<u8>) -> nat
    decreases h.len(),
{
    match first_match(h, n) {
        Some(p) => if 0 <= p && p + advance(n) <= h.len() {
            1 + occurrences(h.subrange(p + advance(n), h.len() as int), n)
        } else {
            1
        },
        None => 0,
    }
}

/// The number of non-overlapping occurrences of `needle` in `haystack`,
/// found by calling `matcher` on the remaining suffix after each match. The
/// result depends on the two byte sequences alone: every matcher, and every
/// call on the same inputs, gives the same count.
pub fn count_occurrences(haystack: &[u8], needle: &[u8], matcher: Matcher) -> (count: usize)
    requires
        haystack@.len() < usize::MAX,
    ensures
        count == occurrences(haystack@, needle@),
{
    let step: usize = if needle.len() == 0 { 1 } else { needle.len() };
    let mut rest: &[u8] = haystack;
    let mut count: usize = 0;
    loop
        invariant
            haystack@.len() < usize::MAX,
            step == advance(needle@),
            count + rest@.len() <= haystack@.len(),
            count + occurrences(rest@, needle@) == occurrences(haystack@, needle@),
        decreases rest@.len(),
    {
        proof {
            lemma_first_match_leftmost(rest@, needle@);
        }
        match matcher.find(rest, needle) {
            None => {
                return count;
            },
            Some(pos) => {
                count = count + 1;
                if pos + step > rest.len() {
                    return count;
                }
                rest = rest.split_at(pos + step).1;
            },
        }
    }
}

} // verus!
