//! The brute-force scanner.
use vstd::prelude::*;

use crate::matching::{first_match, matches_at, offset_of, window_equals};
use crate::matching::{lemma_first_match_absent, lemma_first_match_at};

verus! {

/// The leftmost offset where `needle` occurs in `haystack`, trying every
/// window in increasing order. An empty needle matches at offset 0.
pub fn find(haystack: &[u8], needle: &[u8]) -> (r: Option<usize>)
    ensures
        offset_of(r) == first_match(haystack@, needle@),
{
    let h = haystack.len();
    let m = needle.len();
    if m > h {
        proof {
            lemma_first_match_absent(haystack@, needle@);
        }
        return None;
    }
    let mut i: usize = 0;
    while i <= h - m
        invariant
            h == haystack@.len(),
            m == needle@.len(),
            m <= h,
            i <= h - m + 1,
            forall|q: int| 0 <= q < i ==> !#[trigger] matches_at(haystack@, needle@, q),
        decreases h - m + 1 - i,
    {
        if window_equals(haystack, needle, i) {
            proof {
                lemma_first_match_at(haystack@, needle@, i as int);
            }
            return Some(i);
        }
        i = i + 1;
    }
    proof {
        lemma_first_match_absent(haystack@, needle@);
    }
    None
}

} // verus!
