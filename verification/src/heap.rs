//! Text that is stored in a buffer on the heap.

use crate::capacity::Capacity;
use crate::layout::{allocatable, amortized_capacity, is_packable};
use crate::HEAP_MASK;
use vstd::prelude::*;
use vstd::slice::slice_subrange;

verus! {

/// A buffer whose first `len` bytes are the text, and which remembers its own size.
pub(crate) struct HeapBuffer {
    /// The whole buffer, initialized to its end.
    data: Vec<u8>,
    len: usize,
    cap: Capacity,
}

/// A new buffer of `capacity` bytes that begins with `text`.
///
/// `Vec` allocates no more than `isize::MAX` bytes. Every caller stays below: it asks for a capacity
/// that is [`allocatable`], or for no more bytes than some existing text or buffer has.
fn allocate(text: &[u8], capacity: usize) -> (data: Vec<u8>)
    requires
        text@.len() <= capacity,
    ensures
        data@.len() == capacity,
        data@.take(text@.len() as int) == text@,
{
    let mut data: Vec<u8> = Vec::with_capacity(capacity);
    data.extend_from_slice(text);
    assert(data@ =~= text@);
    data.resize(capacity, 0);
    assert(data@.take(text@.len() as int) =~= text@);
    data
}

/// The capacity to grow to when `additional` bytes have to fit behind `cur_len` bytes: what is
/// needed, or one and a half times the length, whichever is greater.
pub(crate) fn amortized_growth(cur_len: usize, additional: usize) -> (res: usize)
    ensures
        res == if amortized_capacity(cur_len as int, additional as int) <= usize::MAX {
            amortized_capacity(cur_len as int, additional as int)
        } else {
            usize::MAX as int
        },
{
    let required: usize = cur_len.saturating_add(additional);
    let amortized: usize = cur_len.saturating_add(cur_len / 2);
    if amortized > required {
        amortized
    } else {
        required
    }
}

impl HeapBuffer {
    /// The whole buffer.
    pub(crate) closed spec fn buffer(&self) -> Seq<u8> {
        self.data@
    }

    /// The length of the text.
    pub(crate) closed spec fn spec_len(&self) -> int {
        self.len as int
    }

    /// The last byte of the buffer's description.
    pub(crate) closed spec fn spec_last_byte(&self) -> u8 {
        self.cap.top_byte()
    }

    /// The text lies within the buffer, and the recorded capacity is the size of the buffer.
    pub(crate) closed spec fn wf(&self) -> bool {
        &&& self.len <= self.data@.len()
        &&& self.cap.records(self.data@.len() as int)
    }

    /// The text.
    pub(crate) open spec fn view(&self) -> Seq<u8> {
        self.buffer().take(self.spec_len())
    }

    /// The text ends where the buffer ends, or before, and the last byte is the heap marker.
    pub(crate) proof fn lemma_wf(&self)
        requires
            self.wf(),
        ensures
            self.spec_last_byte() == HEAP_MASK,
            0 <= self.spec_len() <= self.buffer().len() <= usize::MAX,
            self@.len() == self.spec_len(),
    {
        assert(self.data@.len() == self.data.len());
        self.cap.lemma_top_byte();
    }

    /// A buffer of the size of `text` that holds it.
    pub(crate) fn new(text: &[u8]) -> (res: HeapBuffer)
        ensures
            res.wf(),
            res@ == text@,
            res.buffer().len() == text@.len(),
    {
        let len: usize = text.len();
        HeapBuffer { data: allocate(text, len), len, cap: Capacity::new(len) }
    }

    /// A buffer of `capacity` bytes that holds no text.
    pub(crate) fn with_capacity(capacity: usize) -> (res: HeapBuffer)
        ensures
            res.wf(),
            res@ == Seq::<u8>::empty(),
            res.buffer().len() == capacity,
    {
        HeapBuffer { data: allocate(&[], capacity), len: 0, cap: Capacity::new(capacity) }
    }

    /// A buffer that holds `text` and has room for `additional` bytes more, or for half as much
    /// again as `text`, whichever is greater.
    pub(crate) fn with_additional(text: &[u8], additional: usize) -> (res: HeapBuffer)
        requires
            allocatable(amortized_capacity(text@.len() as int, additional as int)),
        ensures
            res.wf(),
            res@ == text@,
            res.buffer().len() == amortized_capacity(text@.len() as int, additional as int),
    {
        let len: usize = text.len();
        let capacity: usize = amortized_growth(len, additional);
        HeapBuffer { data: allocate(text, capacity), len, cap: Capacity::new(capacity) }
    }

    /// Takes over `data`, of which all is text, and makes it a buffer of `capacity` bytes.
    pub(crate) fn adopt(data: Vec<u8>, capacity: usize) -> (res: HeapBuffer)
        requires
            data@.len() <= capacity,
            capacity == data@.len() || allocatable(capacity as int),
        ensures
            res.wf(),
            res@ == data@,
            res.buffer().len() == capacity,
    {
        let len: usize = data.len();
        let mut buffer: Vec<u8> = data;
        buffer.resize(capacity, 0);
        assert(buffer@.take(len as int) =~= data@);
        HeapBuffer { data: buffer, len, cap: Capacity::new(capacity) }
    }

    /// The last byte of the buffer's description.
    pub(crate) fn last_byte(&self) -> (res: u8)
        ensures
            res == self.spec_last_byte(),
    {
        self.cap.last_byte()
    }

    /// The length of the text.
    pub(crate) fn len(&self) -> (res: usize)
        ensures
            res == self.spec_len(),
    {
        self.len
    }

    /// The size of the buffer.
    pub(crate) fn capacity(&self) -> (res: usize)
        requires
            self.wf(),
        ensures
            res == self.buffer().len(),
    {
        if self.cap.is_heap() {
            self.data.len()
        } else {
            self.cap.as_usize()
        }
    }

    /// True if the size of the buffer is too large for the packed word.
    pub(crate) fn capacity_is_on_heap(&self) -> (res: bool)
        requires
            self.wf(),
        ensures
            res == !is_packable(self.buffer().len() as int),
    {
        self.cap.is_heap()
    }

    /// The text.
    pub(crate) fn as_slice(&self) -> (res: &[u8])
        requires
            self.wf(),
        ensures
            res@ == self@,
    {
        slice_subrange(self.data.as_slice(), 0, self.len)
    }

    /// The whole buffer, for writing.
    pub(crate) fn as_mut_buf(&mut self) -> (res: &mut [u8])
        ensures
            res@ == old(self).buffer(),
            final(self).buffer() == final(res)@,
            final(self).spec_len() == old(self).spec_len(),
            old(self).wf() && final(res)@.len() == res@.len() ==> final(self).wf(),
    {
        self.data.as_mut_slice()
    }

    /// Makes the first `len` bytes of the buffer the text.
    pub(crate) fn set_len(&mut self, len: usize)
        requires
            old(self).wf(),
            len <= old(self).buffer().len(),
        ensures
            final(self).wf(),
            final(self).buffer() == old(self).buffer(),
            final(self)@ == old(self).buffer().take(len as int),
    {
        self.len = len;
    }

    /// Resizes the buffer, with what lies behind the text, if the text fits and the capacity is
    /// recorded in the same way as before. Otherwise the buffer stays as it is.
    pub(crate) fn realloc(&mut self, new_capacity: usize) -> (res: Result<(), ()>)
        requires
            old(self).wf(),
            new_capacity <= old(self).buffer().len() || allocatable(new_capacity as int),
        ensures
            res is Ok <==> new_capacity >= old(self)@.len() && is_packable(new_capacity as int)
                == is_packable(old(self).buffer().len() as int),
            res is Ok ==> {
                &&& final(self).wf()
                &&& final(self)@ == old(self)@
                &&& final(self).buffer().len() == new_capacity
                &&& forall|k: int|
                    0 <= k < new_capacity && k < old(self).buffer().len()
                        ==> #[trigger] final(self).buffer()[k] == old(self).buffer()[k]
            },
            res is Err ==> *final(self) == *old(self),
    {
        let cap = Capacity::new(new_capacity);
        if new_capacity < self.len || cap.is_heap() != self.cap.is_heap() {
            return Err(());
        }
        let kept: usize = if new_capacity < self.data.len() {
            new_capacity
        } else {
            self.data.len()
        };
        let data: Vec<u8> = allocate(slice_subrange(self.data.as_slice(), 0, kept), new_capacity);
        assert forall|k: int| 0 <= k < kept implies #[trigger] data@[k] == self.data@[k] by {
            assert(data@.take(kept as int)[k] == self.data@.subrange(0, kept as int)[k]);
        }
        assert(data@.take(self.len as int) =~= self@);
        self.data = data;
        self.cap = cap;
        Ok(())
    }

    /// The text, in the allocation that holds it.
    pub(crate) fn into_text(self) -> (res: Vec<u8>)
        requires
            self.wf(),
        ensures
            res@ == self@,
    {
        let mut data: Vec<u8> = self.data;
        data.truncate(self.len);
        data
    }

    /// A buffer of the same size that holds the same bytes.
    pub(crate) fn duplicate(&self) -> (res: HeapBuffer)
        ensures
            res.buffer() == self.buffer(),
            res.spec_len() == self.spec_len(),
            self.wf() ==> res.wf(),
    {
        let data: Vec<u8> = self.data.clone();
        assert(data@ =~= self.data@);
        HeapBuffer { data, len: self.len, cap: self.cap }
    }
}

} // verus!
