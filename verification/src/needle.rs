//! What a substring matcher may hold as its needle: anything that can show
//! its bytes, owned or borrowed.

use vstd::prelude::*;

verus! {

/// A value that presents itself as a sequence of bytes.
pub trait ByteView {
    /// The bytes, in order.
    spec fn bytes(&self) -> Seq<u8>;

    /// The same bytes as a slice.
    fn as_byte_slice(&self) -> (slice: &[u8])
        ensures
            slice@ == self.bytes(),
    ;
}

impl<'a> ByteView for &'a [u8] {
    open spec fn bytes(&self) -> Seq<u8> {
        (*self)@
    }

    fn as_byte_slice(&self) -> (slice: &[u8]) {
        *self
    }
}

impl<'a, const N: usize> ByteView for &'a [u8; N] {
    open spec fn bytes(&self) -> Seq<u8> {
        (*self)@
    }

    fn as_byte_slice(&self) -> (slice: &[u8]) {
        self.as_slice()
    }
}

impl ByteView for Vec<u8> {
    open spec fn bytes(&self) -> Seq<u8> {
        self@
    }

    fn as_byte_slice(&self) -> (slice: &[u8]) {
        self.as_slice()
    }
}

} // verus!
