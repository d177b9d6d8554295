//! Searching byte strings for a small set of bytes or for a fixed
//! subsequence.
//!
//! Every matcher has two implementations that return the same answer: one
//! that walks the haystack in 16-byte blocks ([`block`]) and a portable one
//! ([`fallback`]). A [`Gate`] picks between them.
//!
//! - [`Bytes`] finds the first byte that belongs to a set of up to 16 bytes.
//! - [`AsciiChars`] does so in a string, for a set of ASCII characters.
//! - [`ByteSubstring`] finds the first occurrence of a byte sequence.
//! - [`Substring`] does so in a string.
//!
//! What a search returns is defined in [`model`], and [`laws`] holds what
//! follows for all searches.

pub mod model;
pub mod dispatch;
pub mod window;
pub mod needle;
pub mod block;
pub mod fallback;
pub mod bytes;
pub mod substring;
pub mod laws;

pub use crate::bytes::{AsciiChars, Bytes};
pub use crate::dispatch::Gate;
pub use crate::needle::ByteView;
pub use crate::substring::{ByteSubstring, Substring};
