//! Substring test on strings.

use vstd::prelude::*;
use vstd::string::StringSliceAdditionalSpecFns;
use crate::encoding::lemma_substring_of_bytes;
use crate::text::{has_substring, occurs_at};

verus! {

/// Whether `needle` stands in `hay` at offset `at`.
fn matches_at(hay: &[u8], needle: &[u8], at: usize) -> (hit: bool)
    requires
        at + needle@.len() <= hay@.len(),
    ensures
        hit == occurs_at(needle@, hay@, at as int),
{
    let ghost window = hay@.subrange(at as int, at + needle@.len());
    let len: usize = hay.len();
    let mut i: usize = 0;
    while i < needle.len()
        invariant
            i <= needle@.len(),
            at + needle@.len() <= hay@.len() == len,
            window == hay@.subrange(at as int, at + needle@.len()),
            forall|j: int| 0 <= j < i ==> window[j] == needle@[j],
        decreases needle@.len() - i,
    {
        if hay[at + i] != needle[i] {
            assert(window[i as int] != needle@[i as int]);
            return false;
        }
        i += 1;
    }
    assert(window =~= needle@);
    true
}

/// Whether `hay` holds `needle` as a contiguous run of characters. The empty
/// string stands in every string.
pub fn contains(hay: &str, needle: &str) -> (found: bool)
    ensures
        found == has_substring(hay@, needle@),
{
    let hay_bytes = hay.as_bytes();
    let needle_bytes = needle.as_bytes();
    proof {
        lemma_substring_of_bytes(hay@, needle@);
    }
    if needle_bytes.len() > hay_bytes.len() {
        return false;
    }
    let last: usize = hay_bytes.len() - needle_bytes.len();
    let mut at: usize = 0;
    loop
        invariant
            at <= last,
            last + needle_bytes@.len() == hay_bytes@.len(),
            has_substring(hay_bytes@, needle_bytes@) <==> has_substring(hay@, needle@),
            forall|p: int| 0 <= p < at ==> !occurs_at(needle_bytes@, hay_bytes@, p),
        decreases last - at,
    {
        if matches_at(hay_bytes, needle_bytes, at) {
            return true;
        }
        if at == last {
            return false;
        }
        at += 1;
    }
}

} // verus!
