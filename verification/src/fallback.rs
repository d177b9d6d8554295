//! The fallback path: plain scans that run on every target. What they
//! return is what the block path has to return too.

use crate::model::{
    first_member, first_occurrence, lemma_least_index_is, lemma_least_index_none, member_at,
    occurs_at, position,
};
use crate::window::equal_at;
use vstd::prelude::*;

verus! {

/// What a scan of `haystack` with `predicate` may report: a position at
/// which the predicate answered `true` after it had answered `false` at
/// every earlier one, or nothing after it had answered `false` throughout.
pub open spec fn scan_outcome<F: Fn(u8) -> bool>(
    predicate: F,
    haystack: Seq<u8>,
    found: Option<usize>,
) -> bool {
    match found {
        Some(i) => {
            &&& i < haystack.len()
            &&& call_ensures(predicate, (haystack[i as int],), true)
            &&& forall|j: int|
                0 <= j < i ==> call_ensures(predicate, (#[trigger] haystack[j],), false)
        },
        None => forall|j: int|
            0 <= j < haystack.len() ==> call_ensures(predicate, (#[trigger] haystack[j],), false),
    }
}

/// Whether `predicate` answers `true` for the bytes of `set` and `false` for
/// all others, whatever else it does.
pub open spec fn classifies<F: Fn(u8) -> bool>(predicate: F, set: Set<u8>) -> bool {
    forall|b: u8, accepted: bool|
        call_ensures(predicate, (b,), accepted) ==> accepted == set.contains(b)
}

/// A scan with a predicate that classifies bytes as `set` does reports the
/// first member of `set`.
pub proof fn lemma_scan_finds_first_member<F: Fn(u8) -> bool>(
    predicate: F,
    set: Set<u8>,
    haystack: Seq<u8>,
    found: Option<usize>,
)
    requires
        classifies(predicate, set),
        scan_outcome(predicate, haystack, found),
    ensures
        position(found) == first_member(haystack, set),
{
    let member = member_at(haystack, set);
    match found {
        Some(i) => {
            assert forall|j: int| 0 <= j < i implies !#[trigger] member(j) by {
                assert(call_ensures(predicate, (haystack[j],), false));
            }
            lemma_least_index_is(haystack.len() as int, member, i as int);
        },
        None => {
            assert forall|j: int| 0 <= j < haystack.len() implies !#[trigger] member(j) by {
                assert(call_ensures(predicate, (haystack[j],), false));
            }
            lemma_least_index_none(haystack.len() as int, member);
        },
    }
}

/// The position of the first byte of `haystack` that `predicate` accepts,
/// found by asking it of one byte after the other.
pub fn find_set<F: Fn(u8) -> bool>(predicate: &F, haystack: &[u8]) -> (found: Option<usize>)
    requires
        forall|b: u8| call_requires(*predicate, (b,)),
    ensures
        scan_outcome(*predicate, haystack@, found),
{
    let mut i: usize = 0;
    while i < haystack.len()
        invariant
            i <= haystack@.len(),
            forall|b: u8| call_requires(*predicate, (b,)),
            forall|j: int|
                0 <= j < i ==> call_ensures(*predicate, (#[trigger] haystack@[j],), false),
        decreases haystack@.len() - i,
    {
        if predicate(haystack[i]) {
            return Some(i);
        }
        i += 1;
    }
    None
}

/// The position at which `needle` first occurs in `haystack`, found by
/// comparing the needle with the haystack at one position after the other.
pub fn find_substring(needle: &[u8], haystack: &[u8]) -> (found: Option<usize>)
    ensures
        position(found) == first_occurrence(haystack@, needle@),
{
    let ghost occurs = occurs_at(haystack@, needle@);
    let ghost bound = haystack@.len() - needle@.len() + 1;
    if needle.len() > haystack.len() {
        proof {
            lemma_least_index_none(bound, occurs);
        }
        return None;
    }
    let last: usize = haystack.len() - needle.len();
    let mut at: usize = 0;
    loop
        invariant
            at <= last == haystack.len() - needle.len(),
            needle.len() <= haystack.len(),
            occurs == occurs_at(haystack@, needle@),
            bound == haystack@.len() - needle@.len() + 1,
            forall|j: int| 0 <= j < at ==> !#[trigger] occurs(j),
        decreases last - at,
    {
        if equal_at(haystack, at, needle) {
            proof {
                lemma_least_index_is(bound, occurs, at as int);
            }
            return Some(at);
        }
        if at == last {
            proof {
                lemma_least_index_none(bound, occurs);
            }
            return None;
        }
        at += 1;
    }
}

} // verus!
