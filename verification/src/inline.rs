//! Text that is stored inside the value itself.

use crate::bytes::write_at;
use crate::layout::{fits_inline, inline_len, is_inline_byte};
use crate::{LENGTH_MASK, MAX_SIZE};
use vstd::prelude::*;
use vstd::slice::slice_subrange;

verus! {

/// Room for the inline bytes on the widest machine; [`MAX_SIZE`] of them are used.
const INLINE_BYTES: usize = 24;

/// A buffer of [`MAX_SIZE`] bytes. The last one is part of the text if the text fills the buffer,
/// and holds the length otherwise.
#[derive(Clone, Copy)]
pub(crate) struct InlineBuffer {
    bytes: [u8; INLINE_BYTES],
}

impl InlineBuffer {
    /// The whole buffer.
    pub(crate) closed spec fn buffer(&self) -> Seq<u8> {
        self.bytes@.take(MAX_SIZE as int)
    }

    /// The last byte says how long the text is.
    pub(crate) open spec fn wf(&self) -> bool {
        &&& self.buffer().len() == MAX_SIZE
        &&& is_inline_byte(self.buffer().last())
    }

    /// The text.
    pub(crate) open spec fn view(&self) -> Seq<u8> {
        self.buffer().take(inline_len(self.buffer().last()))
    }

    /// The empty text.
    pub(crate) fn empty() -> (res: InlineBuffer)
        ensures
            res.wf(),
            res@ == Seq::<u8>::empty(),
    {
        let mut res = InlineBuffer { bytes: [0u8; INLINE_BYTES] };
        res.set_len(0);
        res
    }

    /// Stores `text` inline.
    pub(crate) fn new(text: &[u8]) -> (res: InlineBuffer)
        requires
            fits_inline(text@),
        ensures
            res.wf(),
            res@ == text@,
    {
        let mut res = InlineBuffer::empty();
        let buf = res.as_mut_buf();
        write_at(buf, 0, text);
        res.set_len(text.len());
        assert(res@ =~= text@);
        res
    }

    /// The byte that holds the length, or the end of the text.
    pub(crate) fn last_byte(&self) -> (res: u8)
        ensures
            res == self.buffer().last(),
    {
        self.bytes[MAX_SIZE - 1]
    }

    /// The length of the text.
    pub(crate) fn len(&self) -> (res: usize)
        ensures
            res == inline_len(self.buffer().last()),
    {
        let length: usize = self.last_byte().wrapping_sub(LENGTH_MASK) as usize;
        if length < MAX_SIZE {
            length
        } else {
            MAX_SIZE
        }
    }

    /// The text.
    pub(crate) fn as_slice(&self) -> (res: &[u8])
        requires
            self.wf(),
        ensures
            res@ == self@,
    {
        let res = slice_subrange(&self.bytes, 0, self.len());
        assert(res@ =~= self@);
        res
    }

    /// The whole buffer, for writing.
    pub(crate) fn as_mut_buf(&mut self) -> (res: &mut [u8])
        ensures
            res@ == old(self).buffer(),
            final(self).buffer() == final(res)@,
    {
        let bytes: &mut [u8; INLINE_BYTES] = &mut self.bytes;
        let ghost after = final(bytes)@;
        assert(after.len() == INLINE_BYTES);
        let (buf, _rest) = bytes.split_at_mut(MAX_SIZE);
        assert(after.take(MAX_SIZE as int) =~= final(buf)@);
        buf
    }

    /// Makes the first `len` bytes of the buffer the text.
    ///
    /// If these are all the bytes, the last one must be text already.
    pub(crate) fn set_len(&mut self, len: usize)
        requires
            fits_inline(old(self).buffer().take(len as int)),
            len <= MAX_SIZE,
        ensures
            final(self).wf(),
            final(self)@ == old(self).buffer().take(len as int),
            final(self).buffer() == if len < MAX_SIZE {
                old(self).buffer().update(MAX_SIZE - 1, (LENGTH_MASK + len) as u8)
            } else {
                old(self).buffer()
            },
    {
        if len < MAX_SIZE {
            let length: u8 = len as u8;
            assert(length | 0b11000000 == length + 0b11000000) by (bit_vector)
                requires
                    length < 24,
            ;
            self.bytes[MAX_SIZE - 1] = length | LENGTH_MASK;
            assert(self.buffer() =~= old(self).buffer().update(
                MAX_SIZE - 1,
                (LENGTH_MASK + len) as u8,
            ));
        }
        assert(self@ =~= old(self).buffer().take(len as int));
    }
}

} // verus!
