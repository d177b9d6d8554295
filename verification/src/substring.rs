//! Matchers for a fixed sequence of bytes.

use crate::block;
use crate::dispatch::Gate;
use crate::fallback;
use crate::model::{first_occurrence, lemma_least_index, occurs_at, position};
use crate::needle::ByteView;
use vstd::prelude::*;
use vstd::string::*;
use vstd::utf8::*;

verus! {

/// `String::into_bytes` hands out the bytes that the string holds, which
/// are the UTF-8 encoding of its characters.
pub assume_specification[ String::into_bytes ](text: String) -> (bytes: Vec<u8>)
    ensures
        bytes@ == encode_utf8(text@),
;

/// Searches a slice for the first occurence of the subslice.
///
/// The needle may be owned or borrowed, and of any length. The empty needle
/// occurs at position 0 of every haystack, the empty one too.
pub struct ByteSubstring<T> {
    needle: T,
    gate: Gate,
}

impl<T: ByteView> View for ByteSubstring<T> {
    type V = Seq<u8>;

    /// The needle.
    closed spec fn view(&self) -> Seq<u8> {
        self.needle.bytes()
    }
}

impl<T: ByteView> ByteSubstring<T> {
    /// Which path `find` takes.
    pub closed spec fn gate(&self) -> Gate {
        self.gate
    }

    /// A matcher for `needle`.
    pub fn new(needle: T) -> (matcher: Self)
        ensures
            matcher@ == needle.bytes(),
            matcher.gate() == Gate::Guaranteed,
    {
        ByteSubstring { needle, gate: Gate::Guaranteed }
    }

    /// The same matcher behind another gate.
    pub fn with_gate(self, gate: Gate) -> (matcher: Self)
        ensures
            matcher@ == self@,
            matcher.gate() == gate,
    {
        ByteSubstring { needle: self.needle, gate }
    }

    /// The number of bytes in the needle.
    pub fn needle_len(&self) -> (len: usize)
        ensures
            len == self@.len(),
    {
        self.needle.as_byte_slice().len()
    }

    /// Searches the slice for the first occurence of the subslice. The
    /// answer is the same behind every gate.
    pub fn find(&self, haystack: &[u8]) -> (found: Option<usize>)
        ensures
            position(found) == first_occurrence(haystack@, self@),
    {
        let needle = self.needle.as_byte_slice();
        if self.gate.use_block_path() {
            block::find_substring(needle, haystack)
        } else {
            fallback::find_substring(needle, haystack)
        }
    }
}

/// Whether a position found in UTF-8 text is one at which a character
/// starts, or the end of the text.
pub open spec fn on_char_boundary(text: Seq<u8>, found: Option<usize>) -> bool {
    found matches Some(i) ==> is_char_boundary(text, i as int)
}

/// Searches a string for the first occurrence of the substring.
///
/// The needle is the UTF-8 encoding of a string, so it is found only where
/// a character of the haystack starts.
pub struct Substring<T: ByteView>(ByteSubstring<T>);

impl<T: ByteView> View for Substring<T> {
    type V = Seq<u8>;

    /// The bytes of the needle.
    closed spec fn view(&self) -> Seq<u8> {
        self.0@
    }
}

impl<'a> Substring<&'a [u8]> {
    /// A matcher that borrows `needle`.
    pub fn new(needle: &'a str) -> (matcher: Self)
        ensures
            matcher@ == needle.spec_bytes(),
            matcher.gate() == Gate::Guaranteed,
    {
        proof {
            encode_utf8_valid_utf8(needle@);
        }
        Substring(ByteSubstring::new(needle.as_bytes()))
    }
}

impl Substring<Vec<u8>> {
    /// A matcher that takes `needle` over.
    pub fn new_owned(needle: String) -> (matcher: Self)
        ensures
            matcher@ == encode_utf8(needle@),
            matcher.gate() == Gate::Guaranteed,
    {
        proof {
            encode_utf8_valid_utf8(needle@);
        }
        Substring(ByteSubstring::new(needle.into_bytes()))
    }
}

impl<T: ByteView> Substring<T> {
    #[verifier::type_invariant]
    spec fn well_formed(&self) -> bool {
        valid_utf8(self.0@)
    }

    /// Which path `find` takes.
    pub closed spec fn gate(&self) -> Gate {
        self.0.gate()
    }

    /// The same matcher behind another gate.
    pub fn with_gate(self, gate: Gate) -> (matcher: Self)
        ensures
            matcher@ == self@,
            matcher.gate() == gate,
    {
        proof {
            use_type_invariant(&self);
        }
        Substring(self.0.with_gate(gate))
    }

    /// The number of bytes in the needle.
    pub fn needle_len(&self) -> (len: usize)
        ensures
            len == self@.len(),
    {
        self.0.needle_len()
    }

    /// Searches the string for the first occurence of the substring. The
    /// position counts bytes of the text's UTF-8 encoding, and a character
    /// starts there.
    pub fn find(&self, haystack: &str) -> (found: Option<usize>)
        ensures
            position(found) == first_occurrence(haystack.spec_bytes(), self@),
            on_char_boundary(haystack.spec_bytes(), found),
    {
        let found = self.0.find(haystack.as_bytes());
        proof {
            use_type_invariant(self);
            let text = haystack.spec_bytes();
            let needle = self@;
            encode_utf8_valid_utf8(haystack@);
            if let Some(i) = found {
                lemma_least_index(text.len() - needle.len() + 1, occurs_at(text, needle));
                if needle.len() == 0 {
                    assert(text.subrange(0, 0) =~= needle);
                    assert(occurs_at(text, needle)(0));
                    is_char_boundary_start_end_of_seq(text);
                } else {
                    assert(text.subrange(i as int, i + needle.len())[0] == text[i as int]);
                    is_char_boundary_start_end_of_seq(needle);
                    is_char_boundary_iff_not_is_continuation_byte(needle, 0);
                    is_char_boundary_iff_not_is_continuation_byte(text, i as int);
                }
            }
        }
        found
    }
}

} // verus!
