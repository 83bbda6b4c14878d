use substring_search::occurrences::{count_occurrences, Matcher};
use substring_search::{bm, kmp, naive};

const MATCHERS: [Matcher; 3] = [Matcher::Naive, Matcher::Kmp, Matcher::BoyerMoore];

fn reference_find(haystack: &[u8], needle: &[u8]) -> Option<usize> {
    if needle.is_empty() {
        return Some(0);
    }
    haystack.windows(needle.len()).position(|w| w == needle)
}

#[test]
fn foo() {
    let haystack = "Привет, я ищу подстроку в этой строке!";
    let needle = "подстроку";

    let found = bm::find(haystack.as_bytes(), needle.as_bytes());
    assert_eq!(found, Some(24));
    assert_eq!(found, haystack.find(needle));
    let index = found.unwrap();
    assert_eq!(&haystack.as_bytes()[index..index + needle.len()], needle.as_bytes());
}

#[test]
fn multibyte_offset_is_in_bytes_for_every_matcher() {
    let haystack = "Привет, я ищу подстроку в этой строке!";
    let needle = "подстроку";
    assert_eq!(naive::find(haystack.as_bytes(), needle.as_bytes()), Some(24));
    assert_eq!(kmp::find(haystack.as_bytes(), needle.as_bytes()), Some(24));
}

#[test]
fn repeated_pattern_leftmost() {
    assert_eq!(naive::find(b"abcabcabc", b"abc"), Some(0));
    assert_eq!(kmp::find(b"abcabcabc", b"abc"), Some(0));
    assert_eq!(bm::find(b"abcabcabc", b"abc"), Some(0));
}

#[test]
fn match_in_the_middle_and_at_the_end() {
    for m in MATCHERS {
        assert_eq!(m.find(b"xxabcxx", b"abc"), Some(2));
        assert_eq!(m.find(b"xxxxabc", b"abc"), Some(4));
        assert_eq!(m.find(b"abc", b"abc"), Some(0));
        assert_eq!(m.find(b"abd", b"abc"), None);
    }
}

#[test]
fn sherlock_late_count() {
    let haystack = "Mr. Sherlock Holmes, who was usually very late in the mornings, save";
    for m in MATCHERS {
        assert_eq!(count_occurrences(haystack.as_bytes(), b"late", m), 1);
    }
}

#[test]
fn fn_keyword_count_on_a_code_corpus() {
    let corpus = "fn main() {}\nlet x = 1;\n".repeat(2985);
    for m in MATCHERS {
        assert_eq!(count_occurrences(corpus.as_bytes(), b"fn", m), 2985);
    }
}

#[test]
fn pathological_run_of_z() {
    let unit = format!("a{}", "z".repeat(15));
    let corpus = unit.repeat(50010);
    for m in MATCHERS {
        assert_eq!(count_occurrences(corpus.as_bytes(), b"zzzzzzzzzz", m), 50010);
    }
}

#[test]
fn empty_needle_matches_at_zero_for_every_matcher() {
    assert_eq!(naive::find(b"abc", b""), Some(0));
    assert_eq!(kmp::find(b"abc", b""), Some(0));
    assert_eq!(bm::find(b"abc", b""), Some(0));
    assert_eq!(naive::find(b"", b""), Some(0));
    assert_eq!(kmp::find(b"", b""), Some(0));
    assert_eq!(bm::find(b"", b""), Some(0));
}

#[test]
fn empty_needle_count_is_one_per_position() {
    for m in MATCHERS {
        assert_eq!(count_occurrences(b"abc", b"", m), 4);
        assert_eq!(count_occurrences(b"", b"", m), 1);
    }
}

#[test]
fn needle_longer_than_haystack() {
    for m in MATCHERS {
        assert_eq!(m.find(b"ab", b"abc"), None);
        assert_eq!(m.find(b"", b"a"), None);
        assert_eq!(count_occurrences(b"ab", b"abc", m), 0);
    }
}

#[test]
fn count_is_non_overlapping() {
    for m in MATCHERS {
        assert_eq!(count_occurrences(b"aaaa", b"aa", m), 2);
        assert_eq!(count_occurrences(b"aaa", b"aa", m), 1);
        assert_eq!(count_occurrences(b"abababab", b"aba", m), 2);
        assert_eq!(count_occurrences(b"aaa", b"a", m), 3);
        assert_eq!(count_occurrences(b"xyz", b"q", m), 0);
    }
}

#[test]
fn count_is_the_same_on_every_call() {
    let haystack = b"the cat and the hat and the bat";
    for m in MATCHERS {
        let first = count_occurrences(haystack, b"the", m);
        let second = count_occurrences(haystack, b"the", m);
        assert_eq!(first, 3);
        assert_eq!(first, second);
    }
}

#[test]
fn jump_of_zero_does_not_stall() {
    assert_eq!(bm::find(b"ba", b"aa"), None);
    assert_eq!(bm::find(b"baa", b"aa"), Some(1));
    assert_eq!(bm::find(b"abcbc", b"cbc"), Some(2));
    assert_eq!(bm::find(b"xaxaxa", b"aa"), None);
}

#[test]
fn kmp_falls_back_along_borders() {
    assert_eq!(kmp::find(b"aabaaab", b"aaab"), Some(3));
    assert_eq!(kmp::find(b"abababca", b"ababca"), Some(2));
    assert_eq!(kmp::find(b"aaaaaaab", b"aaab"), Some(4));
    assert_eq!(kmp::find(b"abcabdabcabc", b"abcabc"), Some(6));
}

#[test]
fn differential_agreement_on_pseudo_random_inputs() {
    let mut state: u64 = 0x2545_f491_4f6c_dd1d;
    let mut next = || {
        state = state.wrapping_mul(6364136223846793005).wrapping_add(1442695040888963407);
        (state >> 33) as usize
    };
    for _ in 0..3000 {
        let hlen = next() % 40;
        let nlen = 1 + next() % 6;
        let alphabet = 1 + next() % 3;
        let haystack: Vec<u8> = (0..hlen).map(|_| b'a' + (next() % alphabet) as u8).collect();
        let needle: Vec<u8> = (0..nlen).map(|_| b'a' + (next() % alphabet) as u8).collect();
        let expected = reference_find(&haystack, &needle);
        assert_eq!(naive::find(&haystack, &needle), expected);
        assert_eq!(kmp::find(&haystack, &needle), expected);
        assert_eq!(bm::find(&haystack, &needle), expected);
    }
}

#[test]
fn all_byte_values_are_searchable() {
    let haystack: Vec<u8> = (0..=255u8).rev().collect();
    for m in MATCHERS {
        assert_eq!(m.find(&haystack, &[255u8]), Some(0));
        assert_eq!(m.find(&haystack, &[1u8, 0u8]), Some(254));
        assert_eq!(m.find(&haystack, &[0u8, 1u8]), None);
    }
}
