//! The block path: the haystack is walked in windows of `BLOCK` bytes, each
//! of them compared with the whole candidate set in one step.

use crate::model::{
    candidates, first_member, first_occurrence, lemma_least_index, lemma_least_index_is,
    lemma_least_index_none, member_at, occurs_at, position,
};
use crate::window::{compare_block, equal_at, BLOCK};
use vstd::prelude::*;
use vstd::slice::slice_subrange;

verus! {

/// Compares the window of `width` bytes that starts at `offset`, given that
/// no byte before it is a candidate. A hit is the first member of the whole
/// haystack; a miss extends the stretch that is known to hold none. The
/// comparison never looks past `offset + width`.
fn probe_window(
    needle: &[u8; 16],
    count: usize,
    haystack: &[u8],
    offset: usize,
    width: usize,
) -> (found: Option<usize>)
    requires
        count <= 16,
        0 < width <= BLOCK,
        offset + width <= haystack.len(),
        forall|j: int|
            0 <= j < offset ==> !#[trigger] member_at(
                haystack@,
                candidates(needle@, count as int),
            )(j),
    ensures
        found.is_some() ==> position(found) == first_member(
            haystack@,
            candidates(needle@, count as int),
        ),
        found.is_none() ==> forall|j: int|
            0 <= j < offset + width ==> !#[trigger] member_at(
                haystack@,
                candidates(needle@, count as int),
            )(j),
{
    let ghost set = candidates(needle@, count as int);
    let window = slice_subrange(haystack, offset, offset + width);
    let index = compare_block(needle, count, window);
    proof {
        lemma_least_index(window@.len() as int, member_at(window@, set));
        assert forall|j: int| 0 <= j < width implies #[trigger] member_at(window@, set)(j)
            == member_at(haystack@, set)(offset + j) by {
            assert(window@[j] == haystack@[offset + j]);
        }
    }
    if index < BLOCK {
        proof {
            let here = offset + index;
            assert(member_at(window@, set)(index as int));
            assert forall|j: int| 0 <= j < here implies !#[trigger] member_at(haystack@, set)(
                j,
            ) by {
                if j >= offset {
                    assert(!member_at(window@, set)(j - offset));
                }
            }
            lemma_least_index_is(haystack@.len() as int, member_at(haystack@, set), here);
        }
        Some(offset + index)
    } else {
        proof {
            assert forall|j: int| 0 <= j < offset + width implies !#[trigger] member_at(
                haystack@,
                set,
            )(j) by {
                if j >= offset {
                    assert(!member_at(window@, set)(j - offset));
                }
            }
        }
        None
    }
}

/// The position of the first byte of `haystack` that equals one of the first
/// `count` entries of `needle`, found block by block: full windows first,
/// then one window clamped to the bytes that remain.
pub fn find_set(needle: &[u8; 16], count: usize, haystack: &[u8]) -> (found: Option<usize>)
    requires
        count <= 16,
    ensures
        position(found) == first_member(haystack@, candidates(needle@, count as int)),
{
    let ghost set = candidates(needle@, count as int);
    let len = haystack.len();
    let mut offset: usize = 0;
    while len - offset >= BLOCK
        invariant
            count <= 16,
            offset <= len == haystack@.len(),
            set == candidates(needle@, count as int),
            forall|j: int| 0 <= j < offset ==> !#[trigger] member_at(haystack@, set)(j),
        decreases len - offset,
    {
        let hit = probe_window(needle, count, haystack, offset, BLOCK);
        if hit.is_some() {
            return hit;
        }
        offset += BLOCK;
    }
    if offset < len {
        let hit = probe_window(needle, count, haystack, offset, len - offset);
        if hit.is_some() {
            return hit;
        }
    }
    proof {
        lemma_least_index_none(haystack@.len() as int, member_at(haystack@, set));
    }
    None
}

/// The position at which `needle` first occurs in `haystack`, found by
/// jumping block by block to the next occurrence of the needle's first byte
/// and comparing the whole needle there. After a mismatch the scan resumes
/// one byte further on. The empty needle is found at position 0 at once.
pub fn find_substring(needle: &[u8], haystack: &[u8]) -> (found: Option<usize>)
    ensures
        position(found) == first_occurrence(haystack@, needle@),
{
    let ghost occurs = occurs_at(haystack@, needle@);
    let ghost bound = haystack@.len() - needle@.len() + 1;
    if needle.len() == 0 {
        proof {
            assert(haystack@.subrange(0, 0) =~= needle@);
            lemma_least_index_is(bound, occurs, 0);
        }
        return Some(0);
    }
    let first: [u8; 16] = [needle[0], 0, 0, 0, 0, 0, 0, 0, 0, 0, 0, 0, 0, 0, 0, 0];
    let ghost head = candidates(first@, 1);
    proof {
        assert(first@.take(1)[0] == needle@[0]);
        assert(head.contains(needle@[0]));
        assert forall|b: u8| head.contains(b) implies b == needle@[0] by {
            let k = choose|k: int| 0 <= k < 1 && first@.take(1)[k] == b;
        }
    }
    let len = haystack.len();
    let mut offset: usize = 0;
    loop
        invariant
            offset <= len == haystack@.len(),
            needle@.len() > 0,
            head == candidates(first@, 1),
            forall|b: u8| head.contains(b) <==> b == needle@[0],
            occurs == occurs_at(haystack@, needle@),
            bound == haystack@.len() - needle@.len() + 1,
            forall|j: int| 0 <= j < offset && j < bound ==> !#[trigger] occurs(j),
        decreases len - offset,
    {
        let rest = slice_subrange(haystack, offset, len);
        let hit = find_set(&first, 1, rest);
        proof {
            lemma_least_index(rest@.len() as int, member_at(rest@, head));
        }
        let at: usize = match hit {
            Some(index) => offset + index,
            None => len,
        };
        proof {
            assert forall|j: int| offset <= j < at && j < bound implies !#[trigger] occurs(j) by {
                assert(!member_at(rest@, head)(j - offset));
                assert(rest@[j - offset] == haystack@[j]);
                assert(haystack@.subrange(j, j + needle@.len())[0] == haystack@[j]);
            }
        }
        if len - at < needle.len() {
            proof {
                lemma_least_index_none(bound, occurs);
            }
            return None;
        }
        if equal_at(haystack, at, needle) {
            proof {
                lemma_least_index_is(bound, occurs, at as int);
            }
            return Some(at);
        }
        offset = at + 1;
    }
}

} // verus!
