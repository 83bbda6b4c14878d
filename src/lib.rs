//! Exact substring search over byte sequences: a brute-force scanner, a
//! Knuth-Morris-Pratt matcher and a Boyer-Moore-style matcher, all proved to
//! return the leftmost match, and a non-overlapping occurrence counter.
pub mod bm;
pub mod kmp;
pub mod matching;
pub mod naive;
pub mod occurrences;
