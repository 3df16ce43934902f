//! A compact string representation.
//!
//! A [`Repr`] holds UTF-8 text in one of two places. Text of up to [`MAX_SIZE`] bytes lives
//! inline, inside the value itself; longer text lives in a buffer on the heap. Each of the two
//! storages has a last byte, which agrees with the place that the text is in: it is the heap
//! marker if and only if the text is on the heap, and otherwise gives the length of the text.

use vstd::prelude::*;

pub mod bytes;
mod capacity;
mod heap;
mod inline;
pub mod layout;
pub mod laws;
mod repr;
pub mod text;

pub use repr::Repr;
pub use text::Utf8Error;

verus! {

/// The largest number of bytes that fit inline: three words, which is the size of a `String`.
pub const MAX_SIZE: usize = 3 * (usize::BITS as usize / 8);

/// The value of the last byte that says that the text is on the heap.
pub const HEAP_MASK: u8 = 0b11111110;

/// An inline string shorter than [`MAX_SIZE`] keeps its length in the last byte, offset by this.
pub const LENGTH_MASK: u8 = 0b11000000;

} // verus!
