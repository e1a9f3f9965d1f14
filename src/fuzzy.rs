use vstd::prelude::*;

verus! {

/// What `fuzzywuzzy::fuzz::ratio` returns for two strings: twice the number
/// of characters in matching blocks over the total length, as a percentage.
pub uninterp spec fn ratio_of(a: Seq<char>, b: Seq<char>) -> u8;

use vstd::utf8::{encode_utf8, is_ascii_chars};

/// The key that the scorer treats as the shorter one: the one with fewer
/// UTF-8 bytes, the first on a tie.
pub open spec fn shorter_key(a: Seq<char>, b: Seq<char>) -> Seq<char> {
    if encode_utf8(a).len() as usize <= encode_utf8(b).len() as usize {
        a
    } else {
        b
    }
}

/// Relies on `fuzzywuzzy::fuzz::ratio`. It slices the shorter string (by
/// bytes, the first on a tie) at every byte offset, which is safe when that
/// string is ASCII; the longer one it slices only at the ends of matches of
/// ASCII text, which fall on character boundaries. Its matching blocks cover
/// at most the shorter string, so the result is at most 100; two equal
/// strings match in one block over their whole length (or are both empty)
/// and score 100.
#[verifier::external_body]
fn fuzz_ratio(a: &str, b: &str) -> (r: u8)
    requires
        is_ascii_chars(shorter_key(a@, b@)),
    ensures
        r == ratio_of(a@, b@),
        r <= 100,
        a@ == b@ ==> r == 100,
{
    fuzzywuzzy::fuzz::ratio(a, b)
}

/// The similarity that `ratio` gives two keys: 100 for equal keys; else the
/// fuzzy ratio where the shorter key is ASCII, and 0 where it is not (the
/// scorer cannot slice it).
pub open spec fn score(a: Seq<char>, b: Seq<char>) -> u8 {
    if a == b {
        100
    } else if is_ascii_chars(shorter_key(a, b)) {
        ratio_of(a, b)
    } else {
        0
    }
}

/// Similarity of two normalized keys, from 0 to 100; equal keys score 100.
pub fn ratio(a: &str, b: &str) -> (r: u8)
    ensures
        r == score(a@, b@),
        r <= 100,
        a@ == b@ ==> r == 100,
{
    let shorter: &str = if a.len() <= b.len() { a } else { b };
    if shorter.is_ascii() {
        fuzz_ratio(a, b)
    } else if a.to_owned() == b.to_owned() {
        100
    } else {
        0
    }
}

} // verus!
