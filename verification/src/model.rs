//! The mathematical meaning of a search: the least position of a haystack at
//! which something holds.

use vstd::prelude::*;

verus! {

/// The position that a search reports, as a mathematical integer.
pub open spec fn position(found: Option<usize>) -> Option<int> {
    match found {
        Some(i) => Some(i as int),
        None => None,
    }
}

/// `i` is the least natural number at which `p` holds.
pub open spec fn is_least(p: spec_fn(int) -> bool, i: int) -> bool {
    &&& 0 <= i
    &&& p(i)
    &&& forall|j: int| 0 <= j < i ==> !#[trigger] p(j)
}

/// The least position below `n` at which `p` holds, if there is one.
pub open spec fn least_index(n: int, p: spec_fn(int) -> bool) -> Option<int> {
    if exists|i: int| 0 <= i < n && #[trigger] p(i) {
        Some(choose|i: int| i < n && is_least(p, i))
    } else {
        None
    }
}

/// The set that the first `count` entries of `needle` make up.
pub open spec fn candidates(needle: Seq<u8>, count: int) -> Set<u8> {
    needle.take(count).to_set()
}

/// Whether position `i` of `haystack` holds a byte of `set`.
pub open spec fn member_at(haystack: Seq<u8>, set: Set<u8>) -> spec_fn(int) -> bool {
    |i: int| set.contains(haystack[i])
}

/// The position of the first byte of `haystack` that belongs to `set`.
pub open spec fn first_member(haystack: Seq<u8>, set: Set<u8>) -> Option<int> {
    least_index(haystack.len() as int, member_at(haystack, set))
}

/// Whether `needle` stands in `haystack` from position `i` on.
pub open spec fn occurs_at(haystack: Seq<u8>, needle: Seq<u8>) -> spec_fn(int) -> bool {
    |i: int| haystack.subrange(i, i + needle.len()) == needle
}

/// The position at which `needle` first occurs in `haystack`. The empty
/// needle occurs at position 0 of every haystack, and a needle longer than
/// the haystack occurs nowhere.
pub open spec fn first_occurrence(haystack: Seq<u8>, needle: Seq<u8>) -> Option<int> {
    least_index(haystack.len() - needle.len() + 1, occurs_at(haystack, needle))
}

/// A position at which `p` holds, with none before it, is the least index.
pub proof fn lemma_least_index_is(n: int, p: spec_fn(int) -> bool, i: int)
    requires
        i < n,
        is_least(p, i),
    ensures
        least_index(n, p) == Some(i),
{
    let c = choose|c: int| c < n && is_least(p, c);
    assert(p(i));
    assert(p(c));
}

/// Where `p` holds nowhere below `n`, there is no least index.
pub proof fn lemma_least_index_none(n: int, p: spec_fn(int) -> bool)
    requires
        forall|j: int| 0 <= j < n ==> !#[trigger] p(j),
    ensures
        least_index(n, p).is_none(),
{
}

/// Below a position at which `p` holds there is a least one.
proof fn lemma_least_exists(p: spec_fn(int) -> bool, k: int)
    requires
        0 <= k,
        p(k),
    ensures
        exists|i: int| i <= k && is_least(p, i),
    decreases k,
{
    if forall|j: int| 0 <= j < k ==> !#[trigger] p(j) {
        assert(is_least(p, k));
    } else {
        let j = choose|j: int| 0 <= j < k && #[trigger] p(j);
        lemma_least_exists(p, j);
    }
}

/// What `least_index` returns: a position below `n` at which `p` holds and
/// before which it does not, or nothing where `p` holds nowhere below `n`.
pub proof fn lemma_least_index(n: int, p: spec_fn(int) -> bool)
    ensures
        match least_index(n, p) {
            Some(i) => i < n && is_least(p, i),
            None => forall|j: int| 0 <= j < n ==> !#[trigger] p(j),
        },
{
    if exists|i: int| 0 <= i < n && #[trigger] p(i) {
        let k = choose|i: int| 0 <= i < n && #[trigger] p(i);
        lemma_least_exists(p, k);
    }
}

} // verus!
