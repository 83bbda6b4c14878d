//! The Boyer-Moore-style matcher: a bad-character jump driven by the last
//! byte of the aligned window.
use vstd::prelude::*;

use crate::matching::{first_match, matches_at, offset_of, window_equals};
use crate::matching::{lemma_first_match_absent, lemma_first_match_at};

verus! {

/// `s` is the jump for byte `b`: `|n| - 1 - r` where `r` is the rightmost
/// index of `b` in `n`, or `|n|` where `b` does not occur in `n`.
pub open spec fn is_jump(n: Seq<u8>, b: u8, s: int) -> bool {
    &&& 0 <= s <= n.len()
    &&& s < n.len() ==> n[n.len() - 1 - s] == b
    &&& forall|t: int| n.len() - 1 - s < t < n.len() ==> #[trigger] n[t] != b
}

/// `table` holds the jump of each of the 256 byte values.
pub open spec fn is_jump_table(n: Seq<u8>, table: Seq<usize>) -> bool {
    &&& table.len() == 256
    &&& forall|b: u8| #[trigger] is_jump(n, b, table[b as int] as int)
}

/// The jump table of `pattern`.
fn calculate_jump_table(pattern: &[u8]) -> (jump_table: Vec<usize>)
    ensures
        is_jump_table(pattern@, jump_table@),
{
    let pattern_length = pattern.len();
    let mut jump_table: Vec<usize> = Vec::new();
    let mut b: usize = 0;
    while b < 256
        invariant
            b <= 256,
            jump_table@.len() == b,
            forall|c: int| 0 <= c < b ==> jump_table@[c] == pattern_length,
        decreases 256 - b,
    {
        jump_table.push(pattern_length);
        b = b + 1;
    }
    let mut i: usize = 0;
    while i < pattern_length
        invariant
            pattern_length == pattern@.len(),
            i <= pattern_length,
            jump_table@.len() == 256,
            forall|c: u8|
                {
                    let s = #[trigger] jump_table@[c as int] as int;
                    &&& s <= pattern_length
                    &&& s < pattern_length ==> pattern_length - 1 - s < i && pattern@[pattern_length - 1 - s] == c
                    &&& forall|t: int| pattern_length - 1 - s < t < i ==> pattern@[t] != c
                },
        decreases pattern_length - i,
    {
        let ch = pattern[i];
        jump_table.set(ch as usize, pattern_length - 1 - i);
        i = i + 1;
    }
    proof {
        assert forall|c: u8| #[trigger] is_jump(pattern@, c, jump_table@[c as int] as int) by {
            assert(jump_table@[c as int] as int <= pattern_length);
        }
    }
    jump_table
}

/// The leftmost offset where `needle` occurs in `haystack`. Each aligned
/// window is compared whole; on a mismatch the window moves on by the jump of
/// its last byte. That jump is 0 where the window ends in the needle's last
/// byte, and the window then moves on by one. An empty needle matches at
/// offset 0.
pub fn find(haystack: &[u8], needle: &[u8]) -> (r: Option<usize>)
    ensures
        offset_of(r) == first_match(haystack@, needle@),
{
    let needle_length = needle.len();
    let haystack_length = haystack.len();

    if needle_length == 0 {
        proof {
            lemma_first_match_at(haystack@, needle@, 0);
        }
        return Some(0);
    }
    if needle_length > haystack_length {
        proof {
            lemma_first_match_absent(haystack@, needle@);
        }
        return None;
    }

    let jump_table = calculate_jump_table(needle);
    let mut i: usize = 0;
    while i <= haystack_length - needle_length
        invariant
            haystack_length == haystack@.len(),
            needle_length == needle@.len(),
            0 < needle_length <= haystack_length,
            i <= haystack_length,
            is_jump_table(needle@, jump_table@),
            forall|q: int| 0 <= q < i ==> !#[trigger] matches_at(haystack@, needle@, q),
        decreases haystack_length - i,
    {
        if window_equals(haystack, needle, i) {
            proof {
                lemma_first_match_at(haystack@, needle@, i as int);
            }
            return Some(i);
        }
        let last = haystack[i + needle_length - 1];
        let jump_distance = jump_table[last as usize];
        let step = if jump_distance == 0 { 1 } else { jump_distance };
        proof {
            assert(is_jump(needle@, last, jump_distance as int));
            assert forall|q: int| i < q < i + step implies !#[trigger] matches_at(
                haystack@,
                needle@,
                q,
            ) by {
                if matches_at(haystack@, needle@, q) {
                    let t = i + needle_length - 1 - q;
                    assert(haystack@[q + t] == needle@[t]);
                }
            }
        }
        i = i + step;
    }
    proof {
        lemma_first_match_absent(haystack@, needle@);
    }
    None
}

} // verus!
