//! Matchers for a set of up to 16 bytes.

use crate::block;
use crate::dispatch::Gate;
use crate::fallback;
use crate::fallback::{classifies, lemma_scan_finds_first_member, scan_outcome};
use crate::model::{candidates, first_member, lemma_least_index, member_at, position};
use vstd::prelude::*;
use vstd::string::*;
use vstd::utf8::*;

verus! {

/// Searches a slice for a set of bytes. Up to 16 bytes may be used.
///
/// The matcher holds the set twice: as an array with a count, for the block
/// path, and as a predicate, for the fallback path. It is the caller's duty
/// that both describe the same set; nothing here checks it.
pub struct Bytes<F> where F: Fn(u8) -> bool {
    needle: [u8; 16],
    count: usize,
    fallback: F,
    gate: Gate,
}

impl<F> Bytes<F> where F: Fn(u8) -> bool {
    /// The set that the array and its count describe.
    pub closed spec fn view(&self) -> Set<u8> {
        candidates(self.needle@, self.count as int)
    }

    #[verifier::type_invariant]
    spec fn well_formed(&self) -> bool {
        &&& self.count <= 16
        &&& forall|b: u8| call_requires(self.fallback, (b,))
    }

    /// All 16 entries of the array, those beyond the count too.
    pub closed spec fn entries(&self) -> Seq<u8> {
        self.needle@
    }

    /// The predicate that the fallback path asks.
    pub closed spec fn predicate(&self) -> F {
        self.fallback
    }

    /// Which path `find` takes.
    pub closed spec fn gate(&self) -> Gate {
        self.gate
    }

    /// What was handed to a constructor is what the matcher holds.
    pub open spec fn built_from(&self, bytes: [u8; 16], len: i32, fallback: F) -> bool {
        &&& self@ == candidates(bytes@, len as int)
        &&& self.entries() == bytes@
        &&& self.predicate() == fallback
        &&& self.gate() == Gate::Guaranteed
    }

    /// What `find` may report: on the block path the first member of the
    /// set, on the fallback path whatever a scan with the predicate allows.
    pub open spec fn find_outcome(&self, haystack: Seq<u8>, found: Option<usize>) -> bool {
        if self.gate().accelerated() {
            position(found) == first_member(haystack, self@)
        } else {
            scan_outcome(self.predicate(), haystack, found)
        }
    }

    /// A matcher for the first `len` entries of `bytes`, with `fallback` as
    /// the predicate of the fallback path. The predicate must accept exactly
    /// those bytes.
    pub fn new(bytes: [u8; 16], len: i32, fallback: F) -> (matcher: Self)
        requires
            0 <= len <= 16,
            forall|b: u8| call_requires(fallback, (b,)),
        ensures
            matcher.built_from(bytes, len, fallback),
    {
        Bytes { needle: bytes, count: len as usize, fallback, gate: Gate::Guaranteed }
    }

    /// As `new`, for a count that the caller has not checked: there is a
    /// matcher exactly when `len` counts entries of the array.
    pub fn try_new(bytes: [u8; 16], len: i32, fallback: F) -> (made: Option<Self>)
        requires
            forall|b: u8| call_requires(fallback, (b,)),
        ensures
            made.is_some() <==> 0 <= len <= 16,
            made matches Some(matcher) ==> matcher.built_from(bytes, len, fallback),
    {
        if 0 <= len && len <= 16 {
            Some(Self::new(bytes, len, fallback))
        } else {
            None
        }
    }

    /// The same matcher behind another gate.
    pub fn with_gate(self, gate: Gate) -> (matcher: Self)
        ensures
            matcher@ == self@,
            matcher.entries() == self.entries(),
            matcher.predicate() == self.predicate(),
            matcher.gate() == gate,
    {
        proof {
            use_type_invariant(&self);
        }
        Bytes { needle: self.needle, count: self.count, fallback: self.fallback, gate }
    }

    /// Searches the slice for the first matching byte in the set.
    pub fn find(&self, haystack: &[u8]) -> (found: Option<usize>)
        ensures
            self.find_outcome(haystack@, found),
            classifies(self.predicate(), self@) ==> position(found) == first_member(
                haystack@,
                self@,
            ),
    {
        proof {
            use_type_invariant(self);
        }
        if self.gate.use_block_path() {
            block::find_set(&self.needle, self.count, haystack)
        } else {
            let found = fallback::find_set(&self.fallback, haystack);
            proof {
                if classifies(self.predicate(), self@) {
                    lemma_scan_finds_first_member(self.predicate(), self@, haystack@, found);
                }
            }
            found
        }
    }
}

/// Whether every entry is an ASCII byte.
pub open spec fn all_ascii(entries: Seq<u8>) -> bool {
    forall|i: int| 0 <= i < entries.len() ==> entries[i] < 128
}

/// Whether a position found in UTF-8 text is one at which a character of a
/// single byte starts.
pub open spec fn on_ascii_char(text: Seq<u8>, found: Option<usize>) -> bool {
    found matches Some(i) ==> is_char_boundary(text, i as int) && is_leading_byte_width_1(
        text[i as int],
    )
}

/// Whether all 16 entries of `chars` are ASCII bytes.
pub fn is_ascii_set(chars: &[u8; 16]) -> (ascii: bool)
    ensures
        ascii == all_ascii(chars@),
{
    let mut i: usize = 0;
    while i < 16
        invariant
            i <= 16,
            forall|j: int| 0 <= j < i ==> chars@[j] < 128,
        decreases 16 - i,
    {
        if chars[i] >= 128 {
            return false;
        }
        i += 1;
    }
    true
}

/// Searches a string for a set of ASCII characters. Up to 16 characters may
/// be used.
///
/// Every entry of the array is an ASCII byte. In UTF-8 such a byte stands
/// for itself and occurs in no longer encoding, so a search of the text's
/// bytes finds characters and nothing else.
pub struct AsciiChars<F>(Bytes<F>) where F: Fn(u8) -> bool;

impl<F> AsciiChars<F> where F: Fn(u8) -> bool {
    /// The set of the byte matcher inside.
    pub closed spec fn view(&self) -> Set<u8> {
        self.0@
    }

    #[verifier::type_invariant]
    spec fn well_formed(&self) -> bool {
        all_ascii(self.0.entries())
    }

    /// The byte matcher inside.
    pub closed spec fn bytes(&self) -> Bytes<F> {
        self.0
    }

    /// A matcher for the first `len` entries of `chars`, all 16 of which
    /// must be ASCII bytes, with `fallback` as the predicate of the fallback
    /// path. The predicate must accept exactly those first `len` bytes.
    pub fn new(chars: [u8; 16], len: i32, fallback: F) -> (matcher: Self)
        requires
            0 <= len <= 16,
            all_ascii(chars@),
            forall|b: u8| call_requires(fallback, (b,)),
        ensures
            matcher@ == matcher.bytes()@,
            matcher.bytes().built_from(chars, len, fallback),
    {
        AsciiChars(Bytes::new(chars, len, fallback))
    }

    /// As `new`, for input that the caller has not checked: there is a
    /// matcher exactly when `len` counts entries of the array and no entry
    /// is a byte of 128 or more.
    pub fn try_new(chars: [u8; 16], len: i32, fallback: F) -> (made: Option<Self>)
        requires
            forall|b: u8| call_requires(fallback, (b,)),
        ensures
            made.is_some() <==> 0 <= len <= 16 && all_ascii(chars@),
            made matches Some(matcher) ==> matcher@ == matcher.bytes()@
                && matcher.bytes().built_from(chars, len, fallback),
    {
        if 0 <= len && len <= 16 && is_ascii_set(&chars) {
            Some(Self::new(chars, len, fallback))
        } else {
            None
        }
    }

    /// The same matcher behind another gate.
    pub fn with_gate(self, gate: Gate) -> (matcher: Self)
        ensures
            matcher@ == self@,
            matcher.bytes()@ == self.bytes()@,
            matcher.bytes().entries() == self.bytes().entries(),
            matcher.bytes().predicate() == self.bytes().predicate(),
            matcher.bytes().gate() == gate,
    {
        proof {
            use_type_invariant(&self);
        }
        AsciiChars(self.0.with_gate(gate))
    }

    /// Searches the string for the first matching ASCII byte in the set.
    /// The position counts bytes of the text's UTF-8 encoding. Where it is
    /// the position of a member of the set, a character starts there.
    pub fn find(&self, haystack: &str) -> (found: Option<usize>)
        ensures
            self.bytes().find_outcome(haystack.spec_bytes(), found),
            classifies(self.bytes().predicate(), self@) ==> position(found) == first_member(
                haystack.spec_bytes(),
                self@,
            ),
            position(found) == first_member(haystack.spec_bytes(), self@) ==> on_ascii_char(
                haystack.spec_bytes(),
                found,
            ),
    {
        proof {
            use_type_invariant(self);
        }
        let found = self.0.find(haystack.as_bytes());
        proof {
            let text = haystack.spec_bytes();
            if position(found) == first_member(text, self@) {
                if let Some(i) = found {
                    use_type_invariant(&self.0);
                    lemma_least_index(text.len() as int, member_at(text, self@));
                    let valid = self.0.needle@.take(self.0.count as int);
                    assert(valid.contains(text[i as int]));
                    let k = choose|k: int| 0 <= k < valid.len() && valid[k] == text[i as int];
                    assert(self.0.needle@[k] < 128);
                    encode_utf8_valid_utf8(haystack@);
                    is_char_boundary_iff_not_is_continuation_byte(text, i as int);
                }
            }
        }
        found
    }
}

} // verus!
