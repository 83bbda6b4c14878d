//! The Knuth-Morris-Pratt matcher.
use vstd::prelude::*;

use crate::matching::{first_match, matches_at, offset_of};
use crate::matching::{lemma_first_match_absent, lemma_first_match_at};

verus! {

/// The `k` bytes of `h` that end at offset `i` are the first `k` bytes of `n`.
pub open spec fn ends_with_prefix(h: Seq<u8>, n: Seq<u8>, i: int, k: int) -> bool {
    &&& 0 <= k <= i <= h.len()
    &&& k <= n.len()
    &&& forall|t: int| 0 <= t < k ==> #[trigger] h[i - k + t] == n[t]
}

/// `k` is the length of the longest proper border of `n[0..i]`: the longest
/// proper prefix of it that is also a suffix of it.
pub open spec fn longest_border(n: Seq<u8>, i: int, k: int) -> bool {
    &&& k < i
    &&& ends_with_prefix(n, n, i, k)
    &&& forall|l: int| k < l < i ==> !#[trigger] ends_with_prefix(n, n, i, l)
}

/// `pi` is the prefix function of `n`: entry `x` is the length of the longest
/// proper border of `n[0..=x]`.
pub open spec fn is_prefix_function(n: Seq<u8>, pi: Seq<usize>) -> bool {
    &&& pi.len() == n.len()
    &&& forall|x: int| 0 <= x < n.len() ==> longest_border(n, x + 1, #[trigger] pi[x] as int)
}

/// No partial match of length `k`, with `j < k < lim`, that ends at `i` goes
/// on with the byte `h[i]`.
pub open spec fn no_extension(h: Seq<u8>, n: Seq<u8>, i: int, j: int, lim: int) -> bool {
    forall|k: int|
        j < k < lim && #[trigger] ends_with_prefix(h, n, i, k) ==> h[i] != n[k]
}

/// A border of a partial match is a partial match.
proof fn lemma_border_chain(h: Seq<u8>, n: Seq<u8>, i: int, j: int, k: int)
    requires
        ends_with_prefix(h, n, i, j),
        ends_with_prefix(n, n, j, k),
    ensures
        ends_with_prefix(h, n, i, k),
{
    assert forall|t: int| 0 <= t < k implies #[trigger] h[i - k + t] == n[t] by {
        assert(n[j - k + t] == n[t]);
        assert(h[i - j + (j - k + t)] == n[j - k + t]);
    }
}

/// Two partial matches that end at one offset: the shorter is a border of
/// the longer.
proof fn lemma_border_of_match(h: Seq<u8>, n: Seq<u8>, i: int, j: int, k: int)
    requires
        ends_with_prefix(h, n, i, j),
        ends_with_prefix(h, n, i, k),
        k <= j,
    ensures
        ends_with_prefix(n, n, j, k),
{
    assert forall|t: int| 0 <= t < k implies #[trigger] n[j - k + t] == n[t] by {
        assert(h[i - j + (j - k + t)] == n[j - k + t]);
        assert(h[i - k + t] == n[t]);
    }
}

/// A partial match that ends at `i + 1` is one that ends at `i`, followed by
/// the byte `h[i]`.
proof fn lemma_extend(h: Seq<u8>, n: Seq<u8>, i: int, k: int)
    requires
        0 <= i < h.len(),
        0 <= k < n.len(),
    ensures
        ends_with_prefix(h, n, i + 1, k + 1) <==> (ends_with_prefix(h, n, i, k) && h[i] == n[k]),
{
    if ends_with_prefix(h, n, i + 1, k + 1) {
        assert(h[i + 1 - (k + 1) + k] == n[k]);
        assert forall|t: int| 0 <= t < k implies #[trigger] h[i - k + t] == n[t] by {
            assert(h[i + 1 - (k + 1) + t] == n[t]);
        }
    }
    if ends_with_prefix(h, n, i, k) && h[i] == n[k] {
        assert forall|t: int| 0 <= t < k + 1 implies #[trigger] h[i + 1 - (k + 1) + t] == n[t] by {
            if t < k {
                assert(h[i - k + t] == n[t]);
            }
        }
    }
}

/// A full match that ends at `q + |n|` is a match at `q`.
proof fn lemma_full_match(h: Seq<u8>, n: Seq<u8>, q: int)
    requires
        0 <= q,
    ensures
        matches_at(h, n, q) <==> ends_with_prefix(h, n, q + n.len(), n.len() as int),
{
    if matches_at(h, n, q) {
        assert forall|t: int| 0 <= t < n.len() implies #[trigger] h[q + n.len() - n.len() + t]
            == n[t] by {
            assert(h[q + t] == n[t]);
        }
    }
    if ends_with_prefix(h, n, q + n.len(), n.len() as int) {
        assert forall|t: int| 0 <= t < n.len() implies #[trigger] h[q + t] == n[t] by {
            assert(h[q + n.len() - n.len() + t] == n[t]);
        }
    }
}

/// Falling back from a partial match of length `j` that does not go on with
/// `h[i]` to the longest border of `n[0..j]` passes over no partial match
/// that would go on.
proof fn lemma_fall_back(h: Seq<u8>, n: Seq<u8>, i: int, j: int, lim: int, b: int)
    requires
        ends_with_prefix(h, n, i, j),
        0 < j < lim <= n.len(),
        i < h.len(),
        no_extension(h, n, i, j, lim),
        h[i] != n[j],
        longest_border(n, j, b),
    ensures
        0 <= b < j,
        ends_with_prefix(h, n, i, b),
        no_extension(h, n, i, b, lim),
{
    lemma_border_chain(h, n, i, j, b);
    assert forall|k: int| b < k < lim && #[trigger] ends_with_prefix(h, n, i, k) implies h[i]
        != n[k] by {
        if k < j {
            lemma_border_of_match(h, n, i, j, k);
        }
    }
}

/// After the fall-backs, the next partial match is `j + 1` where `h[i]`
/// goes on with `n[j]`, else 0, and none ends at `i + 1` that is longer.
proof fn lemma_step(h: Seq<u8>, n: Seq<u8>, i: int, j: int, lim: int)
    requires
        ends_with_prefix(h, n, i, j),
        0 <= j < lim <= n.len(),
        0 <= i < h.len(),
        no_extension(h, n, i, j, lim),
        j == 0 || h[i] == n[j],
    ensures
        ({
            let next = if h[i] == n[j] { j + 1 } else { 0 };
            &&& ends_with_prefix(h, n, i + 1, next)
            &&& forall|l: int| next < l <= lim ==> !#[trigger] ends_with_prefix(h, n, i + 1, l)
        }),
{
    let next = if h[i] == n[j] { j + 1 } else { 0 };
    lemma_extend(h, n, i, j);
    assert forall|l: int| next < l <= lim implies !#[trigger] ends_with_prefix(h, n, i + 1, l) by {
        lemma_extend(h, n, i, l - 1);
    }
}

/// The prefix function of `pattern`.
fn kmp_prefix_function(pattern: &[u8]) -> (prefix_function: Vec<usize>)
    ensures
        is_prefix_function(pattern@, prefix_function@),
{
    let len = pattern.len();
    let mut prefix_function: Vec<usize> = Vec::new();
    if len == 0 {
        return prefix_function;
    }
    prefix_function.push(0);
    let mut i: usize = 1;
    while i < len
        invariant
            len == pattern@.len(),
            1 <= i <= len,
            prefix_function@.len() == i,
            forall|x: int|
                0 <= x < i ==> longest_border(pattern@, x + 1, #[trigger] prefix_function@[x] as int),
        decreases len - i,
    {
        let mut j = prefix_function[i - 1];
        assert(longest_border(pattern@, i as int, prefix_function@[i - 1] as int));
        while j > 0 && pattern[i] != pattern[j]
            invariant
                len == pattern@.len(),
                1 <= i < len,
                prefix_function@.len() == i,
                forall|x: int|
                    0 <= x < i ==> longest_border(
                        pattern@,
                        x + 1,
                        #[trigger] prefix_function@[x] as int,
                    ),
                j < i,
                ends_with_prefix(pattern@, pattern@, i as int, j as int),
                no_extension(pattern@, pattern@, i as int, j as int, i as int),
            decreases j,
        {
            proof {
                lemma_fall_back(
                    pattern@,
                    pattern@,
                    i as int,
                    j as int,
                    i as int,
                    prefix_function@[j - 1] as int,
                );
            }
            j = prefix_function[j - 1];
        }
        proof {
            lemma_step(pattern@, pattern@, i as int, j as int, i as int);
        }
        if pattern[i] == pattern[j] {
            j = j + 1;
        }
        prefix_function.push(j);
        i = i + 1;
    }
    prefix_function
}

/// The leftmost offset where `needle` occurs in `haystack`, scanning each
/// haystack byte once and falling back along the needle's prefix function on
/// a mismatch. An empty needle matches at offset 0.
pub fn find(haystack: &[u8], needle: &[u8]) -> (r: Option<usize>)
    ensures
        offset_of(r) == first_match(haystack@, needle@),
{
    let needle_len = needle.len();
    let haystack_len = haystack.len();

    if needle_len == 0 {
        proof {
            lemma_first_match_at(haystack@, needle@, 0);
        }
        return Some(0);
    }
    if needle_len > haystack_len {
        proof {
            lemma_first_match_absent(haystack@, needle@);
        }
        return None;
    }

    let prefix_function = kmp_prefix_function(needle);
    let mut j: usize = 0;
    let mut i: usize = 0;
    while i < haystack_len
        invariant
            haystack_len == haystack@.len(),
            needle_len == needle@.len(),
            0 < needle_len <= haystack_len,
            i <= haystack_len,
            is_prefix_function(needle@, prefix_function@),
            j < needle_len,
            ends_with_prefix(haystack@, needle@, i as int, j as int),
            forall|l: int|
                j < l <= needle_len ==> !#[trigger] ends_with_prefix(
                    haystack@,
                    needle@,
                    i as int,
                    l,
                ),
            forall|q: int|
                0 <= q && q + needle_len <= i ==> !#[trigger] matches_at(haystack@, needle@, q),
        decreases haystack_len - i,
    {
        while j > 0 && haystack[i] != needle[j]
            invariant
                haystack_len == haystack@.len(),
                needle_len == needle@.len(),
                i < haystack_len,
                is_prefix_function(needle@, prefix_function@),
                j < needle_len,
                ends_with_prefix(haystack@, needle@, i as int, j as int),
                no_extension(haystack@, needle@, i as int, j as int, needle_len as int),
            decreases j,
        {
            proof {
                lemma_fall_back(
                    haystack@,
                    needle@,
                    i as int,
                    j as int,
                    needle_len as int,
                    prefix_function@[j - 1] as int,
                );
            }
            j = prefix_function[j - 1];
        }
        proof {
            lemma_step(haystack@, needle@, i as int, j as int, needle_len as int);
            if i + 1 >= needle_len {
                lemma_full_match(haystack@, needle@, i + 1 - needle_len);
            }
        }
        if haystack[i] == needle[j] {
            j = j + 1;
        }
        if j == needle_len {
            proof {
                lemma_first_match_at(haystack@, needle@, i + 1 - needle_len);
            }
            return Some(i + 1 - needle_len);
        }
        i = i + 1;
    }
    proof {
        lemma_first_match_absent(haystack@, needle@);
    }
    None
}

} // verus!
