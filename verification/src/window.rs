//! The two comparisons that every search is built from: one window of the
//! haystack against a set of bytes, and one stretch of the haystack against
//! a needle.

use crate::model::{
    candidates, first_member, lemma_least_index_is, lemma_least_index_none, member_at,
};
use vstd::prelude::*;

verus! {

/// The number of bytes that one block comparison covers.
pub const BLOCK: usize = 16;

/// What a block comparison reports for a window in which the first member
/// stands at `found`: its position, or `BLOCK` where the window holds none.
pub open spec fn block_index(found: Option<int>) -> int {
    match found {
        Some(i) => i,
        None => BLOCK as int,
    }
}

/// Whether `byte` is one of the first `count` entries of `needle`.
pub fn is_candidate(needle: &[u8; 16], count: usize, byte: u8) -> (member: bool)
    requires
        count <= 16,
    ensures
        member == candidates(needle@, count as int).contains(byte),
{
    let ghost valid = needle@.take(count as int);
    let mut k: usize = 0;
    while k < count
        invariant
            k <= count <= 16,
            valid == needle@.take(count as int),
            forall|j: int| 0 <= j < k ==> valid[j] != byte,
        decreases count - k,
    {
        if needle[k] == byte {
            assert(valid[k as int] == byte);
            return true;
        }
        k += 1;
    }
    false
}

/// Compares one window of at most `BLOCK` bytes with the first `count`
/// entries of `needle`: the position in the window of the first byte that
/// equals any of them, or `BLOCK` where no byte of the window does.
pub fn compare_block(needle: &[u8; 16], count: usize, window: &[u8]) -> (index: usize)
    requires
        count <= 16,
        window@.len() <= BLOCK,
    ensures
        index == block_index(first_member(window@, candidates(needle@, count as int))),
{
    let ghost set = candidates(needle@, count as int);
    let mut i: usize = 0;
    while i < window.len()
        invariant
            i <= window@.len() <= BLOCK,
            count <= 16,
            set == candidates(needle@, count as int),
            forall|j: int| 0 <= j < i ==> !#[trigger] member_at(window@, set)(j),
        decreases window@.len() - i,
    {
        if is_candidate(needle, count, window[i]) {
            proof {
                lemma_least_index_is(window@.len() as int, member_at(window@, set), i as int);
            }
            return i;
        }
        i += 1;
    }
    proof {
        lemma_least_index_none(window@.len() as int, member_at(window@, set));
    }
    BLOCK
}

/// Whether `needle` stands in `haystack` from position `at` on. Where fewer
/// bytes remain than the needle has, it does not.
pub fn equal_at(haystack: &[u8], at: usize, needle: &[u8]) -> (equal: bool)
    ensures
        equal == (at + needle@.len() <= haystack@.len() && haystack@.subrange(
            at as int,
            at + needle@.len(),
        ) == needle@),
{
    if at > haystack.len() || haystack.len() - at < needle.len() {
        return false;
    }
    let ghost stretch = haystack@.subrange(at as int, at + needle@.len());
    let mut k: usize = 0;
    while k < needle.len()
        invariant
            k <= needle@.len(),
            at + needle@.len() <= haystack.len(),
            stretch == haystack@.subrange(at as int, at + needle@.len()),
            forall|j: int| 0 <= j < k ==> stretch[j] == needle@[j],
        decreases needle@.len() - k,
    {
        if haystack[at + k] != needle[k] {
            assert(stretch[k as int] != needle@[k as int]);
            return false;
        }
        k += 1;
    }
    assert(stretch =~= needle@);
    true
}

} // verus!
