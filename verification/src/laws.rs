//! What holds of every search: the two paths agree, and a search repeated
//! gives the same answer.

use crate::bytes::Bytes;
use crate::fallback::{classifies, lemma_scan_finds_first_member, scan_outcome};
use crate::model::{
    candidates, first_member, first_occurrence, lemma_least_index_is, lemma_least_index_none,
    member_at, occurs_at, position,
};
use vstd::prelude::*;

verus! {

/// Whether `predicate` gives one answer for each byte, however often it is
/// asked.
pub open spec fn single_valued<F: Fn(u8) -> bool>(predicate: F) -> bool {
    forall|b: u8, first: bool, second: bool|
        call_ensures(predicate, (b,), first) && call_ensures(predicate, (b,), second) ==> first
            == second
}

/// The two paths of the set matcher agree. Take a set of up to 16 bytes and
/// a predicate that accepts exactly its members. Then what the block path
/// finds in a haystack is what the fallback path finds in it.
pub proof fn lemma_set_paths_agree<F: Fn(u8) -> bool>(
    needle: Seq<u8>,
    count: int,
    predicate: F,
    haystack: Seq<u8>,
    by_block: Option<usize>,
    by_fallback: Option<usize>,
)
    requires
        classifies(predicate, candidates(needle, count)),
        position(by_block) == first_member(haystack, candidates(needle, count)),
        scan_outcome(predicate, haystack, by_fallback),
    ensures
        by_block == by_fallback,
{
    lemma_scan_finds_first_member(predicate, candidates(needle, count), haystack, by_fallback);
}

/// A matcher whose predicate accepts exactly the members of its set finds
/// the same position whichever way its gate points: two matchers for one
/// set and one predicate agree on every haystack.
pub proof fn lemma_find_ignores_gate<F: Fn(u8) -> bool>(
    one: Bytes<F>,
    other: Bytes<F>,
    haystack: Seq<u8>,
    found_one: Option<usize>,
    found_other: Option<usize>,
)
    requires
        one@ == other@,
        one.predicate() == other.predicate(),
        classifies(one.predicate(), one@),
        one.find_outcome(haystack, found_one),
        other.find_outcome(haystack, found_other),
    ensures
        found_one == found_other,
{
    if !one.gate().accelerated() {
        lemma_scan_finds_first_member(one.predicate(), one@, haystack, found_one);
    }
    if !other.gate().accelerated() {
        lemma_scan_finds_first_member(other.predicate(), other@, haystack, found_other);
    }
}

/// Two scans of one haystack with a predicate that gives one answer for
/// each byte report the same position.
pub proof fn lemma_scan_repeats<F: Fn(u8) -> bool>(
    predicate: F,
    haystack: Seq<u8>,
    first: Option<usize>,
    second: Option<usize>,
)
    requires
        single_valued(predicate),
        scan_outcome(predicate, haystack, first),
        scan_outcome(predicate, haystack, second),
    ensures
        first == second,
{
    match (first, second) {
        (Some(i), Some(k)) => {
            if i < k {
                assert(call_ensures(predicate, (haystack[i as int],), false));
            } else if k < i {
                assert(call_ensures(predicate, (haystack[k as int],), false));
            }
        },
        (Some(i), None) => {
            assert(call_ensures(predicate, (haystack[i as int],), false));
        },
        (None, Some(k)) => {
            assert(call_ensures(predicate, (haystack[k as int],), false));
        },
        (None, None) => {},
    }
}

/// A search for a set of bytes, repeated on the same matcher and haystack,
/// gives the same answer. On the block path this holds of every matcher; on
/// the fallback path of every predicate that gives one answer for each byte.
pub proof fn lemma_find_repeats<F: Fn(u8) -> bool>(
    matcher: Bytes<F>,
    haystack: Seq<u8>,
    first: Option<usize>,
    second: Option<usize>,
)
    requires
        matcher.gate().accelerated() || single_valued(matcher.predicate()),
        matcher.find_outcome(haystack, first),
        matcher.find_outcome(haystack, second),
    ensures
        first == second,
{
    if !matcher.gate().accelerated() {
        lemma_scan_repeats(matcher.predicate(), haystack, first, second);
    }
}

/// The two paths of the substring matcher agree, and a search repeated
/// gives the same answer: any two searches for one needle in one haystack,
/// by whichever path, report the same position.
pub proof fn lemma_substring_paths_agree(
    needle: Seq<u8>,
    haystack: Seq<u8>,
    one: Option<usize>,
    other: Option<usize>,
)
    requires
        position(one) == first_occurrence(haystack, needle),
        position(other) == first_occurrence(haystack, needle),
    ensures
        one == other,
{
}

/// A member of the set in the last position of a haystack, with none before
/// it, is found there, however long the haystack is and wherever the last
/// block of 16 bytes begins.
pub proof fn lemma_last_byte_is_found(haystack: Seq<u8>, set: Set<u8>, found: Option<usize>)
    requires
        haystack.len() > 0,
        set.contains(haystack.last()),
        forall|j: int| 0 <= j < haystack.len() - 1 ==> !set.contains(#[trigger] haystack[j]),
        position(found) == first_member(haystack, set),
    ensures
        position(found) == Some(haystack.len() - 1),
{
    lemma_least_index_is(haystack.len() as int, member_at(haystack, set), haystack.len() - 1);
}

/// The empty needle is found at position 0 of every haystack, the empty
/// one too.
pub proof fn lemma_empty_needle(haystack: Seq<u8>)
    ensures
        first_occurrence(haystack, Seq::<u8>::empty()) == Some(0int),
{
    let needle = Seq::<u8>::empty();
    assert(haystack.subrange(0, 0) =~= needle);
    lemma_least_index_is(haystack.len() as int + 1, occurs_at(haystack, needle), 0);
}

/// A needle longer than the haystack is never found.
pub proof fn lemma_needle_too_long(haystack: Seq<u8>, needle: Seq<u8>)
    requires
        needle.len() > haystack.len(),
    ensures
        first_occurrence(haystack, needle).is_none(),
{
    lemma_least_index_none(haystack.len() - needle.len() + 1, occurs_at(haystack, needle));
}

/// A needle that is the whole haystack is found at position 0.
pub proof fn lemma_whole_haystack(haystack: Seq<u8>)
    ensures
        first_occurrence(haystack, haystack) == Some(0int),
{
    assert(haystack.subrange(0, haystack.len() as int) =~= haystack);
    lemma_least_index_is(1, occurs_at(haystack, haystack), 0);
}

/// A needle that occurs only at the very end of the haystack is found
/// there.
pub proof fn lemma_needle_at_end(haystack: Seq<u8>, needle: Seq<u8>)
    requires
        needle.len() <= haystack.len(),
        haystack.subrange(haystack.len() - needle.len(), haystack.len() as int) == needle,
        forall|j: int|
            0 <= j < haystack.len() - needle.len() ==> !#[trigger] occurs_at(haystack, needle)(j),
    ensures
        first_occurrence(haystack, needle) == Some(haystack.len() - needle.len()),
{
    lemma_least_index_is(
        haystack.len() - needle.len() + 1,
        occurs_at(haystack, needle),
        haystack.len() - needle.len(),
    );
}

} // verus!
