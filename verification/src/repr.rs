//! The representation of a string: inline or on the heap, with a last byte that agrees with where
//! the text is.

use crate::bytes::{write_at, written};
use crate::capacity::Capacity;
use crate::heap::{amortized_growth, HeapBuffer};
use crate::inline::InlineBuffer;
use crate::laws::{
    law_encoded_chars_are_the_text, law_encoded_strs_are_the_text,
    law_push_leaves_inline_when_too_long, law_push_makes_room, law_push_within_room,
    lemma_push_stays_on_heap,
};
use crate::layout::{
    adopted_layout, allocatable, can_push, can_reserve, fits_inline, heap_layout, inline_layout,
    inline_len, is_inline_byte, keeps_spare_bytes, pushed_layout, reserved_layout, shrunk_layout,
    stored_layout, with_len, Layout,
};
use crate::text::{
    can_be_completed, char_encode_utf8, chars_next_back, encoded_chars, encoded_strs, joined,
    lemma_decode_concat, lemma_encode_concat, lemma_encode_one, lemma_encoded_strs, lemma_joined,
    lemma_last_byte_of_text, longest_valid_prefix, str_from_utf8, string_from_utf8, utf8_error_len,
    Utf8Error,
};
use crate::{HEAP_MASK, MAX_SIZE};
use vstd::prelude::*;
use vstd::utf8::*;

verus! {

/// The two places that text can be in.
enum Storage {
    Inline(InlineBuffer),
    Heap(HeapBuffer),
}

/// A string that is stored inline if it is short enough, and on the heap otherwise.
///
/// Its view is the bytes of the text. [`Repr::buffer`] is the whole buffer, of which the text is
/// a prefix, and [`Repr::layout`] says where that buffer is and how large it is.
pub struct Repr {
    storage: Storage,
}

impl View for Repr {
    type V = Seq<u8>;

    /// The bytes of the text.
    closed spec fn view(&self) -> Seq<u8> {
        match self.storage {
            Storage::Inline(inline) => inline@,
            Storage::Heap(heap) => heap@,
        }
    }
}

impl Repr {
    /// The buffer that holds the text, with what lies behind the text.
    pub closed spec fn buffer(&self) -> Seq<u8> {
        match self.storage {
            Storage::Inline(inline) => inline.buffer(),
            Storage::Heap(heap) => heap.buffer(),
        }
    }

    /// Where the buffer is, and how many bytes fit into it.
    pub closed spec fn layout(&self) -> Layout {
        match self.storage {
            Storage::Inline(inline) => inline_layout(),
            Storage::Heap(heap) => heap_layout(heap.buffer().len() as int),
        }
    }

    /// The representation is in order: the text lies within the buffer, and the last byte tells
    /// truly whether the text is inline, and if so, how long it is.
    pub closed spec fn wf(&self) -> bool {
        match self.storage {
            Storage::Inline(inline) => inline.wf(),
            Storage::Heap(heap) => heap.wf(),
        }
    }

    /// The representation is in order and holds valid UTF-8.
    pub open spec fn is_text(&self) -> bool {
        self.wf() && valid_utf8(self@)
    }

    /// The characters of the text.
    pub open spec fn text(&self) -> Seq<char> {
        decode_utf8(self@)
    }

    /// The byte that says where the text is, and how long it is if it is inline.
    pub closed spec fn spec_last_byte(&self) -> u8 {
        match self.storage {
            Storage::Inline(inline) => inline.buffer().last(),
            Storage::Heap(heap) => heap.spec_last_byte(),
        }
    }

    /// The text is a prefix of the buffer, which has the size that the layout gives it. The last
    /// byte is the heap marker if and only if the text is on the heap; otherwise it determines the
    /// length of the text.
    pub proof fn lemma_wf(&self)
        requires
            self.wf(),
        ensures
            self.buffer().len() == self.layout().capacity,
            self@.len() <= self.layout().capacity <= usize::MAX,
            self@ == self.buffer().take(self@.len() as int),
            self.spec_last_byte() == HEAP_MASK <==> self.layout().heap,
            !self.layout().heap ==> {
                &&& self.layout() == inline_layout()
                &&& self.spec_last_byte() == self.buffer().last()
                &&& is_inline_byte(self.spec_last_byte())
                &&& self@.len() == inline_len(self.spec_last_byte())
                &&& fits_inline(self@)
            },
    {
        match self.storage {
            Storage::Inline(inline) => {},
            Storage::Heap(heap) => {
                heap.lemma_wf();
            },
        }
        assert(self@ =~= self.buffer().take(self@.len() as int));
    }

    /// What the buffer is after `appended` was written behind the text and everything else was
    /// left alone.
    proof fn lemma_appended(before: Repr, after: Repr, appended: Seq<u8>)
        requires
            before.wf(),
            after.wf(),
            after@ == before@ + appended,
            after.layout() == before.layout(),
            keeps_spare_bytes(
                before.layout(),
                before.buffer(),
                after.layout(),
                after.buffer(),
                after@.len() as int,
            ),
        ensures
            after.buffer() == with_len(
                before.layout(),
                written(before.buffer(), before@.len() as int, appended),
                after@.len() as int,
            ),
    {
        before.lemma_wf();
        after.lemma_wf();
        let expected = with_len(
            before.layout(),
            written(before.buffer(), before@.len() as int, appended),
            after@.len() as int,
        );
        assert forall|k: int| 0 <= k < after.buffer().len() implies after.buffer()[k]
            == expected[k] by {
            if k < after@.len() {
                assert(after.buffer()[k] == after@[k]);
                if k < before@.len() {
                    assert(before.buffer()[k] == before@[k]);
                }
            }
        }
        assert(after.buffer() =~= expected);
    }

    /// The empty string.
    fn empty() -> (res: Self)
        ensures
            res.is_text(),
            res@ == Seq::<u8>::empty(),
            res.text() == Seq::<char>::empty(),
            res.layout() == inline_layout(),
    {
        Repr { storage: Storage::Inline(InlineBuffer::empty()) }
    }

    /// Creates a string with the text of `text`, inline if it fits.
    pub fn new(text: &str) -> (res: Self)
        ensures
            res.is_text(),
            res@ == encode_utf8(text@),
            res.text() == text@,
            res.layout() == stored_layout(res@),
            res.layout().heap <==> encode_utf8(text@).len() > MAX_SIZE,
            res.layout().capacity == if encode_utf8(text@).len() <= MAX_SIZE {
                MAX_SIZE as int
            } else {
                encode_utf8(text@).len() as int
            },
    {
        proof {
            encode_utf8_valid_utf8(text@);
            encode_utf8_decode_utf8(text@);
            if encode_utf8(text@).len() > 0 {
                lemma_last_byte_of_text(encode_utf8(text@));
            }
        }
        let bytes: &[u8] = text.as_bytes();
        let len: usize = bytes.len();
        if len == 0 {
            assert(bytes@ =~= Seq::<u8>::empty());
            Repr::empty()
        } else if len <= MAX_SIZE {
            Repr { storage: Storage::Inline(InlineBuffer::new(bytes)) }
        } else {
            Repr { storage: Storage::Heap(HeapBuffer::new(bytes)) }
        }
    }

    /// Creates an inline string. The text must be at most [`MAX_SIZE`] bytes long.
    pub fn new_inline(text: &str) -> (res: Self)
        requires
            encode_utf8(text@).len() <= MAX_SIZE,
        ensures
            !res.layout().heap,
            res.layout().capacity == MAX_SIZE,
            res.is_text(),
            res@ == encode_utf8(text@),
            res.text() == text@,
            res.layout() == inline_layout(),
    {
        proof {
            encode_utf8_valid_utf8(text@);
            encode_utf8_decode_utf8(text@);
            if encode_utf8(text@).len() > 0 {
                lemma_last_byte_of_text(encode_utf8(text@));
            }
        }
        Repr { storage: Storage::Inline(InlineBuffer::new(text.as_bytes())) }
    }

    /// Creates an empty string with room for `capacity` bytes.
    pub fn with_capacity(capacity: usize) -> (res: Self)
        requires
            allocatable(capacity as int),
        ensures
            res.is_text(),
            res.layout().capacity >= capacity,
            res.layout().capacity >= MAX_SIZE,
            res.layout().capacity == capacity || res.layout().capacity == MAX_SIZE,
            res.layout().heap <==> capacity > MAX_SIZE,
            res@ == Seq::<u8>::empty(),
            res.text() == Seq::<char>::empty(),
            res.layout() == if capacity <= MAX_SIZE {
                inline_layout()
            } else {
                heap_layout(capacity as int)
            },
    {
        Repr::with_room(capacity)
    }

    /// An empty string with room for `capacity` bytes, which is no more than can be allocated or
    /// than some existing slice has.
    fn with_room(capacity: usize) -> (res: Self)
        ensures
            res.is_text(),
            res@ == Seq::<u8>::empty(),
            res.text() == Seq::<char>::empty(),
            res.layout() == if capacity <= MAX_SIZE {
                inline_layout()
            } else {
                heap_layout(capacity as int)
            },
    {
        if capacity <= MAX_SIZE {
            Repr::empty()
        } else {
            Repr { storage: Storage::Heap(HeapBuffer::with_capacity(capacity)) }
        }
    }

    /// The byte that says where the text is. If the text is inline, the byte also holds its
    /// length, unless the text fills the buffer.
    fn last_byte(&self) -> (res: u8)
        requires
            self.wf(),
        ensures
            res == self.spec_last_byte(),
            res == HEAP_MASK <==> self.layout().heap,
    {
        proof {
            self.lemma_wf();
        }
        match &self.storage {
            Storage::Inline(inline) => inline.last_byte(),
            Storage::Heap(heap) => heap.last_byte(),
        }
    }

    /// True if the text is on the heap.
    pub fn is_heap_allocated(&self) -> (res: bool)
        requires
            self.wf(),
        ensures
            res == self.layout().heap,
    {
        let last_byte: u8 = self.last_byte();
        last_byte == HEAP_MASK
    }

    /// The bytes of the text.
    pub fn as_slice(&self) -> (res: &[u8])
        requires
            self.wf(),
        ensures
            res@ == self@,
    {
        match &self.storage {
            Storage::Inline(inline) => inline.as_slice(),
            Storage::Heap(heap) => heap.as_slice(),
        }
    }

    /// The text.
    pub fn as_str(&self) -> (res: &str)
        requires
            self.is_text(),
        ensures
            res@ == self.text(),
            encode_utf8(res@) == self@,
    {
        let res = str_from_utf8(self.as_slice()).unwrap();
        proof {
            encode_utf8_decode_utf8(res@);
        }
        res
    }

    /// The length of the text in bytes.
    pub fn len(&self) -> (res: usize)
        requires
            self.wf(),
        ensures
            res == self@.len(),
    {
        match &self.storage {
            Storage::Inline(inline) => inline.len(),
            Storage::Heap(heap) => {
                proof {
                    heap.lemma_wf();
                }
                heap.len()
            },
        }
    }

    /// The number of bytes that fit into the buffer.
    pub fn capacity(&self) -> (res: usize)
        requires
            self.wf(),
        ensures
            res == self.layout().capacity,
    {
        match &self.storage {
            Storage::Inline(_) => MAX_SIZE,
            Storage::Heap(heap) => heap.capacity(),
        }
    }

    /// The whole buffer, for writing.
    ///
    /// Of an inline string this contains the last byte. Writing it changes the length of the
    /// text, unless [`Repr::set_len`] follows.
    pub fn as_mut_buf(&mut self) -> (res: &mut [u8])
        requires
            old(self).wf(),
        ensures
            res@ == old(self).buffer(),
            final(self).buffer() == final(res)@,
            final(res)@.len() == res@.len() ==> {
                &&& final(self).layout() == old(self).layout()
                &&& final(self).wf() <==> (old(self).layout().heap || is_inline_byte(
                    final(res)@.last(),
                ))
                &&& final(self)@ == final(res)@.take(
                    if old(self).layout().heap {
                        old(self)@.len() as int
                    } else {
                        inline_len(final(res)@.last())
                    },
                )
            },
    {
        match &mut self.storage {
            Storage::Inline(inline) => inline.as_mut_buf(),
            Storage::Heap(heap) => {
                proof {
                    heap.lemma_wf();
                }
                heap.as_mut_buf()
            },
        }
    }

    /// Makes the first `len` bytes of the buffer the text.
    ///
    /// In an inline string the length goes into the last byte. A text that fills the buffer leaves
    /// no room for it, and then has to end in a byte that is not mistaken for a length, which
    /// valid UTF-8 does.
    pub fn set_len(&mut self, len: usize)
        requires
            old(self).wf(),
            len <= old(self).layout().capacity,
            ({
                ||| old(self).layout().heap
                ||| valid_utf8(old(self).buffer().take(len as int))
                ||| fits_inline(old(self).buffer().take(len as int))
            }),
        ensures
            final(self).wf(),
            final(self)@ == old(self).buffer().take(len as int),
            final(self).layout() == old(self).layout(),
            final(self).buffer() == with_len(old(self).layout(), old(self).buffer(), len as int),
    {
        proof {
            let text = self.buffer().take(len as int);
            if valid_utf8(text) && len > 0 {
                self.lemma_wf();
                lemma_last_byte_of_text(text);
            }
        }
        match &mut self.storage {
            Storage::Inline(inline) => inline.set_len(len),
            Storage::Heap(heap) => heap.set_len(len),
        }
    }

    /// Makes room for at least `additional` bytes behind the text. If there is enough room
    /// already, nothing changes.
    pub fn reserve(&mut self, additional: usize)
        requires
            old(self).wf(),
            can_reserve(old(self).layout(), old(self)@.len() as int, additional as int),
        ensures
            final(self).wf(),
            final(self)@ == old(self)@,
            final(self).layout() == reserved_layout(
                old(self).layout(),
                old(self)@.len() as int,
                additional as int,
            ),
            final(self).layout() == old(self).layout() ==> final(self).buffer() == old(
                self,
            ).buffer(),
            keeps_spare_bytes(
                old(self).layout(),
                old(self).buffer(),
                final(self).layout(),
                final(self).buffer(),
                old(self)@.len() as int,
            ),
            ({
                let len = old(self)@.len() as int;
                let needed = len + additional;
                let room = old(self).layout().capacity;
                let now = final(self).layout();
                &&& needed <= room ==> *final(self) == *old(self)
                &&& room < needed <= MAX_SIZE ==> !now.heap && now.capacity == MAX_SIZE
                &&& room < needed && MAX_SIZE < needed ==> {
                    &&& now.heap
                    &&& now.capacity >= needed
                    &&& now.capacity >= len + len / 2
                    &&& now.capacity == needed || now.capacity == len + len / 2
                }
            }),
    {
        proof {
            self.lemma_wf();
        }
        let len: usize = self.len();
        let needed_capacity: usize = len.checked_add(additional).expect(
            "Attempted to reserve more than 'usize' bytes",
        );
        if needed_capacity <= self.capacity() {
            return;
        }
        if needed_capacity <= MAX_SIZE {
            let inline = InlineBuffer::new(self.as_slice());
            self.storage = Storage::Inline(inline);
        } else if !self.is_heap_allocated() {
            let heap = HeapBuffer::with_additional(self.as_slice(), additional);
            self.storage = Storage::Heap(heap);
        } else {
            let amortized_capacity: usize = amortized_growth(len, additional);
            let resized: bool = match &mut self.storage {
                Storage::Inline(_) => false,
                Storage::Heap(heap) => heap.realloc(amortized_capacity).is_ok(),
            };
            if !resized {
                let heap = HeapBuffer::with_additional(self.as_slice(), additional);
                self.storage = Storage::Heap(heap);
            }
        }
    }

    /// Appends `text`.
    pub fn push_str(&mut self, text: &str)
        requires
            old(self).wf(),
            can_reserve(
                old(self).layout(),
                old(self)@.len() as int,
                encode_utf8(text@).len() as int,
            ),
        ensures
            final(self).wf(),
            final(self)@ == old(self)@ + encode_utf8(text@),
            final(self).layout() == reserved_layout(
                old(self).layout(),
                old(self)@.len() as int,
                encode_utf8(text@).len() as int,
            ),
            final(self).layout() == old(self).layout() ==> final(self).buffer() == with_len(
                old(self).layout(),
                written(old(self).buffer(), old(self)@.len() as int, encode_utf8(text@)),
                final(self)@.len() as int,
            ),
            ({
                let len = old(self)@.len() as int;
                let needed = len + encode_utf8(text@).len();
                let room = old(self).layout().capacity;
                let now = final(self).layout();
                &&& needed <= room ==> now == old(self).layout()
                &&& room < needed <= MAX_SIZE ==> !now.heap && now.capacity == MAX_SIZE
                &&& room < needed && MAX_SIZE < needed ==> {
                    &&& now.heap
                    &&& now.capacity >= needed
                    &&& now.capacity >= len + len / 2
                    &&& now.capacity == needed || now.capacity == len + len / 2
                }
            }),
            old(self).is_text() ==> final(self).is_text() && final(self).text() == old(self).text()
                + text@,
    {
        let len: usize = self.len();
        let bytes: &[u8] = text.as_bytes();
        let str_len: usize = bytes.len();

        self.reserve(str_len);
        proof {
            self.lemma_wf();
            encode_utf8_valid_utf8(text@);
            encode_utf8_decode_utf8(text@);
            if str_len > 0 {
                lemma_last_byte_of_text(bytes@);
            }
            if valid_utf8(self@) {
                lemma_decode_concat(self@, bytes@);
            }
        }
        let ghost before = self.buffer();
        let buf = self.as_mut_buf();
        write_at(buf, len, bytes);
        let ghost after = written(before, len as int, bytes@);
        assert(after.take(len + str_len) =~= old(self)@ + bytes@);
        self.set_len(len + str_len);
    }

    /// Removes the last character and returns it, if there is one.
    pub fn pop(&mut self) -> (res: Option<char>)
        requires
            old(self).is_text(),
        ensures
            old(self).text().len() == 0 ==> res is None && *final(self) == *old(self),
            old(self).text().len() > 0 ==> {
                &&& res == Some(old(self).text().last())
                &&& final(self).is_text()
                &&& final(self).text() == old(self).text().drop_last()
                &&& final(self).layout() == old(self).layout()
                &&& final(self).buffer() == with_len(
                    old(self).layout(),
                    old(self).buffer(),
                    final(self)@.len() as int,
                )
            },
    {
        let ghost text = self.text();
        let mut chars = self.as_str().chars();
        match chars_next_back(&mut chars) {
            None => None,
            Some(ch) => {
                proof {
                    let rest = text.drop_last();
                    assert(text =~= rest + seq![ch]);
                    lemma_encode_concat(rest, seq![ch]);
                    lemma_encode_one(ch);
                    decode_utf8_encode_utf8(self@);
                    encode_utf8_valid_utf8(rest);
                    encode_utf8_decode_utf8(rest);
                    self.lemma_wf();
                    assert(self.buffer().take(self@.len() - encode_scalar(ch as u32).len())
                        =~= encode_utf8(rest));
                }
                self.set_len(self.len() - ch.len_utf8());
                Some(ch)
            },
        }
    }

    /// Creates a string from bytes that are UTF-8.
    pub fn from_utf8(buf: &[u8]) -> (res: Result<Self, Utf8Error>)
        ensures
            match res {
                Ok(repr) => {
                    &&& valid_utf8(buf@)
                    &&& repr.is_text()
                    &&& repr@ == buf@
                    &&& repr.layout() == stored_layout(buf@)
                    &&& repr.layout().heap <==> buf@.len() > MAX_SIZE
                    &&& repr.layout().capacity == if buf@.len() <= MAX_SIZE {
                        MAX_SIZE as int
                    } else {
                        buf@.len() as int
                    }
                },
                Err(error) => {
                    &&& !valid_utf8(buf@)
                    &&& longest_valid_prefix(buf@, error.valid_up_to as int)
                    &&& valid_utf8(buf@.take(error.valid_up_to as int))
                    &&& forall|i: int|
                        error.valid_up_to < i <= buf@.len() ==> !valid_utf8(
                            #[trigger] buf@.take(i),
                        )
                    &&& error.error_len == utf8_error_len(buf@)
                    &&& error.error_len is None <==> can_be_completed(buf@)
                    &&& error.error_len is None <==> exists|more: Seq<u8>|
                        valid_utf8(#[trigger] (buf@ + more))
                    &&& match error.error_len {
                        None => 1 <= buf@.len() - error.valid_up_to <= 3,
                        Some(n) => 1 <= n <= buf@.len() - error.valid_up_to,
                    }
                },
            },
    {
        match str_from_utf8(buf) {
            Ok(s) => Ok(Repr::new(s)),
            Err(error) => Err(error),
        }
    }

    /// Creates a string from bytes without checking that they are UTF-8.
    ///
    /// Bytes that are not UTF-8 are stored too. If they would fill the inline buffer and end in a
    /// byte that stands for a length or for the heap, they go to the heap.
    pub fn from_utf8_unchecked(buf: &[u8]) -> (res: Self)
        ensures
            res.wf(),
            res@ == buf@,
            res.layout() == stored_layout(buf@),
            res.layout().heap <==> buf@.len() > MAX_SIZE || (buf@.len() == MAX_SIZE && buf@.last()
                >= 0b11000000),
            res.layout().capacity == if !res.layout().heap {
                MAX_SIZE as int
            } else if buf@.len() == MAX_SIZE {
                MAX_SIZE + 1
            } else {
                buf@.len() as int
            },
    {
        let bytes_len: usize = buf.len();
        let mut repr = Repr::with_room(bytes_len);
        if bytes_len == MAX_SIZE {
            let last_byte: u8 = buf[bytes_len - 1];
            if last_byte >= 0b11000000 {
                repr.reserve(MAX_SIZE + 1);
            }
        }
        proof {
            repr.lemma_wf();
        }
        let ghost before = repr.buffer();
        let slice = repr.as_mut_buf();
        write_at(slice, 0, buf);
        assert(written(before, 0, buf@).take(bytes_len as int) =~= buf@);
        repr.set_len(bytes_len);
        repr
    }

    /// Creates a string from a `String`, whose allocation it takes over.
    ///
    /// A `String` that has not allocated gives an inline string. One whose capacity cannot be
    /// packed, which takes more than 16 MB on a 32-bit machine, is copied. How large the capacity
    /// is, is for `String::capacity` to say; whatever it answers for `s` decides the layout.
    pub fn from_string(s: String) -> (res: Self)
        ensures
            res.is_text(),
            res@ == encode_utf8(s@),
            res.text() == s@,
            s@.len() > 0 ==> res.layout().heap,
            exists|capacity: int|
                encode_utf8(s@).len() <= capacity <= isize::MAX && res.layout()
                    == #[trigger] adopted_layout(encode_utf8(s@).len() as int, capacity),
            exists|capacity: usize|
                {
                    &&& #[trigger] call_ensures(String::capacity, (&s,), capacity)
                    &&& res.layout().heap <==> capacity > 0
                    &&& res.layout().capacity == if capacity == 0 {
                        MAX_SIZE as int
                    } else if capacity < usize::MAX / 256 {
                        capacity as int
                    } else {
                        encode_utf8(s@).len() as int
                    }
                },
    {
        let og_cap: usize = s.capacity();
        Repr::from_string_with_capacity(s, og_cap)
    }

    /// Creates a string from a `String` whose capacity is `og_cap`.
    pub fn from_string_with_capacity(s: String, og_cap: usize) -> (res: Self)
        requires
            encode_utf8(s@).len() <= og_cap,
            allocatable(og_cap as int),
        ensures
            res.is_text(),
            res@ == encode_utf8(s@),
            res.text() == s@,
            res.layout() == adopted_layout(encode_utf8(s@).len() as int, og_cap as int),
            res.layout().heap <==> og_cap > 0,
            res.layout().capacity == if og_cap == 0 {
                MAX_SIZE as int
            } else if og_cap < usize::MAX / 256 {
                og_cap as int
            } else {
                encode_utf8(s@).len() as int
            },
    {
        proof {
            encode_utf8_valid_utf8(s@);
            encode_utf8_decode_utf8(s@);
        }
        let cap = Capacity::new(og_cap);
        if cap.is_heap() {
            Repr { storage: Storage::Heap(HeapBuffer::new(s.as_str().as_bytes())) }
        } else if og_cap == 0 {
            assert(encode_utf8(s@) =~= Seq::<u8>::empty());
            Repr::empty()
        } else {
            Repr { storage: Storage::Heap(HeapBuffer::adopt(s.into_bytes(), og_cap)) }
        }
    }

    /// Creates a string from a boxed `str`, whose allocation it takes over, unless it is empty.
    pub fn from_box_str(s: Box<str>) -> (res: Self)
        ensures
            res.is_text(),
            res@ == encode_utf8(s@),
            res.text() == s@,
            res.layout() == if s@.len() == 0 {
                inline_layout()
            } else {
                heap_layout(res@.len() as int)
            },
            res.layout().heap <==> s@.len() > 0,
            res.layout().capacity == if s@.len() == 0 {
                MAX_SIZE as int
            } else {
                encode_utf8(s@).len() as int
            },
    {
        proof {
            encode_utf8_valid_utf8(s@);
            encode_utf8_decode_utf8(s@);
        }
        let og_cap: usize = s.as_bytes().len();
        let cap = Capacity::new(og_cap);
        if cap.is_heap() {
            Repr { storage: Storage::Heap(HeapBuffer::new(s.as_bytes())) }
        } else if og_cap == 0 {
            assert(encode_utf8(s@) =~= Seq::<u8>::empty());
            Repr::empty()
        } else {
            let bytes: Vec<u8> = s.into_string().into_bytes();
            Repr { storage: Storage::Heap(HeapBuffer::adopt(bytes, og_cap)) }
        }
    }

    /// Converts the string into a `String`, which takes over the allocation, if there is one.
    pub fn into_string(self) -> (res: String)
        requires
            self.is_text(),
        ensures
            res@ == self.text(),
            encode_utf8(res@) == self@,
    {
        let res: String = match self.storage {
            Storage::Inline(inline) => str_from_utf8(inline.as_slice()).unwrap().to_owned(),
            Storage::Heap(heap) => {
                if heap.capacity_is_on_heap() {
                    str_from_utf8(heap.as_slice()).unwrap().to_owned()
                } else {
                    string_from_utf8(heap.into_text()).unwrap()
                }
            },
        };
        proof {
            encode_utf8_decode_utf8(res@);
        }
        res
    }

    /// Shrinks the buffer to the length of the text or to `min_capacity`, whichever is greater.
    ///
    /// A string that fits inline moves there. An inline string stays as it is: the size of its
    /// buffer is fixed.
    pub fn shrink_to(&mut self, min_capacity: usize)
        requires
            old(self).is_text(),
        ensures
            final(self).is_text(),
            final(self)@ == old(self)@,
            final(self).layout() == shrunk_layout(
                old(self).layout(),
                old(self)@.len() as int,
                min_capacity as int,
            ),
            final(self).layout() == old(self).layout() ==> *final(self) == *old(self),
            !old(self).layout().heap ==> *final(self) == *old(self),
            old(self).layout().heap && old(self)@.len() <= MAX_SIZE && min_capacity <= MAX_SIZE
                ==> !final(self).layout().heap && final(self).layout().capacity == MAX_SIZE,
            ({
                let len = old(self)@.len() as int;
                let room = old(self).layout().capacity;
                let now = final(self).layout();
                old(self).layout().heap && (len > MAX_SIZE || min_capacity > MAX_SIZE) ==> {
                    let small = len < usize::MAX / 256 && min_capacity < usize::MAX / 256;
                    &&& now.heap
                    &&& len < room && min_capacity < room && (room < usize::MAX / 256 || !small)
                        ==> {
                        &&& now.capacity >= len
                        &&& now.capacity >= min_capacity
                        &&& now.capacity == len || now.capacity == min_capacity
                    }
                    &&& len >= room || min_capacity >= room || (room >= usize::MAX / 256 && small)
                        ==> *final(self) == *old(self)
                }
            }),
            keeps_spare_bytes(
                old(self).layout(),
                old(self).buffer(),
                final(self).layout(),
                final(self).buffer(),
                old(self)@.len() as int,
            ),
    {
        proof {
            self.lemma_wf();
            if self@.len() > 0 {
                lemma_last_byte_of_text(self@);
            }
        }
        let last_byte: u8 = self.last_byte();
        if last_byte == HEAP_MASK {
            let len: usize = self.len();
            let old_capacity: usize = self.capacity();
            let new_capacity: usize = if len > min_capacity {
                len
            } else {
                min_capacity
            };
            if new_capacity <= MAX_SIZE {
                let inline = InlineBuffer::new(self.as_slice());
                self.storage = Storage::Inline(inline);
            } else if new_capacity < old_capacity {
                match &mut self.storage {
                    Storage::Inline(_) => {},
                    Storage::Heap(heap) => {
                        // If the buffer cannot be resized, the string keeps its old capacity.
                        let _ = heap.realloc(new_capacity);
                    },
                }
            }
        }
    }

    /// Appends the characters in `chars`, after making room for `lower_bound` bytes, which is what
    /// is known beforehand of how much there is to append.
    pub fn extend_chars(&mut self, lower_bound: usize, chars: &[char])
        requires
            old(self).wf(),
            chars@.len() > 0 ==> {
                let layout = old(self).layout();
                let len = old(self)@.len() as int;
                &&& can_reserve(layout, len, lower_bound as int)
                &&& can_push(
                    reserved_layout(layout, len, lower_bound as int),
                    len,
                    encoded_chars(chars@),
                )
            },
        ensures
            final(self).wf(),
            final(self)@ == old(self)@ + encode_utf8(chars@),
            chars@.len() == 0 ==> *final(self) == *old(self),
            ({
                let needed = old(self)@.len() + lower_bound;
                let len = final(self)@.len();
                let room = old(self).layout().capacity;
                let now = final(self).layout();
                chars@.len() > 0 ==> {
                    &&& now.capacity >= needed
                    &&& now.capacity >= room
                    &&& needed <= room && len <= room ==> now == old(self).layout()
                    &&& !old(self).layout().heap ==> (now.heap <==> needed > MAX_SIZE || len
                        > MAX_SIZE)
                }
            }),
            chars@.len() > 0 ==> final(self).layout() == pushed_layout(
                reserved_layout(old(self).layout(), old(self)@.len() as int, lower_bound as int),
                old(self)@.len() as int,
                encoded_chars(chars@),
            ),
            keeps_spare_bytes(
                old(self).layout(),
                old(self).buffer(),
                final(self).layout(),
                final(self).buffer(),
                final(self)@.len() as int,
            ),
            final(self).layout() == old(self).layout() ==> final(self).buffer() == with_len(
                old(self).layout(),
                written(old(self).buffer(), old(self)@.len() as int, encode_utf8(chars@)),
                final(self)@.len() as int,
            ),
            old(self).is_text() ==> final(self).is_text() && final(self).text() == old(self).text()
                + chars@,
    {
        if chars.len() == 0 {
            assert(old(self)@ + encode_utf8(chars@) =~= old(self)@);
            proof {
                Repr::lemma_appended(*old(self), *self, encode_utf8(chars@));
            }
            assert(old(self).text() + chars@ =~= old(self).text());
            return;
        }
        self.reserve(lower_bound);
        let ghost pieces = encoded_chars(chars@);
        let ghost start = self.layout();
        let mut i: usize = 0;
        assert(pieces.skip(0) =~= pieces);
        assert(self@ + encode_utf8(chars@.take(0)) =~= self@);
        while i < chars.len()
            invariant
                i <= chars@.len(),
                pieces == encoded_chars(chars@),
                self.wf(),
                self@ == old(self)@ + encode_utf8(chars@.take(i as int)),
                can_push(self.layout(), self@.len() as int, pieces.skip(i as int)),
                pushed_layout(self.layout(), self@.len() as int, pieces.skip(i as int))
                    == pushed_layout(start, old(self)@.len() as int, pieces),
                self.layout() == old(self).layout() || self.layout().capacity > old(
                    self,
                ).layout().capacity,
                old(self).layout().heap && !self.layout().heap ==> old(self).layout().capacity
                    < MAX_SIZE,
                keeps_spare_bytes(
                    old(self).layout(),
                    old(self).buffer(),
                    self.layout(),
                    self.buffer(),
                    self@.len() as int,
                ),
            decreases chars@.len() - i,
        {
            let c: char = chars[i];
            let mut buf: [u8; 4] = [0; 4];
            proof {
                lemma_encode_one(c);
                lemma_encode_concat(chars@.take(i as int), seq![c]);
                assert(chars@.take(i + 1) =~= chars@.take(i as int) + seq![c]);
                assert(pieces.skip(i as int).drop_first() =~= pieces.skip(i + 1));
                assert(self@ + encode_utf8(seq![c]) =~= old(self)@ + encode_utf8(
                    chars@.take(i + 1),
                ));
            }
            let piece: &str = char_encode_utf8(c, &mut buf);
            self.push_str(piece);
            i += 1;
        }
        proof {
            assert(chars@.take(i as int) =~= chars@);
            encode_utf8_valid_utf8(chars@);
            encode_utf8_decode_utf8(chars@);
            if valid_utf8(old(self)@) {
                lemma_decode_concat(old(self)@, encode_utf8(chars@));
            }
            if self.layout() == old(self).layout() {
                Repr::lemma_appended(*old(self), *self, encode_utf8(chars@));
            }
            let len = old(self)@.len() as int;
            old(self).lemma_wf();
            law_encoded_chars_are_the_text(chars@);
            law_push_makes_room(start, len, pieces);
            if self@.len() <= start.capacity {
                law_push_within_room(start, len, pieces);
            }
            if start.heap && MAX_SIZE <= start.capacity {
                lemma_push_stays_on_heap(start, len, pieces);
            }
            if !start.heap {
                law_push_leaves_inline_when_too_long(len, pieces);
            }
        }
    }

    /// Appends the strings in `strs`, one after the other.
    pub fn extend_strs(&mut self, strs: &[&str])
        requires
            old(self).wf(),
            can_push(old(self).layout(), old(self)@.len() as int, encoded_strs(strs@)),
        ensures
            final(self).wf(),
            final(self)@ == old(self)@ + encode_utf8(joined(strs@)),
            final(self)@ == old(self)@ + strs@.map_values(|s: &str| encode_utf8(s@)).flatten(),
            old(self).is_text() ==> final(self).text() == old(self).text() + strs@.map_values(
                |s: &str| s@,
            ).flatten(),
            final(self).layout() == pushed_layout(
                old(self).layout(),
                old(self)@.len() as int,
                encoded_strs(strs@),
            ),
            ({
                let len = final(self)@.len();
                let room = old(self).layout().capacity;
                let now = final(self).layout();
                &&& now.capacity >= room
                &&& len <= room ==> now == old(self).layout()
                &&& !old(self).layout().heap ==> (now.heap <==> len > MAX_SIZE)
            }),
            keeps_spare_bytes(
                old(self).layout(),
                old(self).buffer(),
                final(self).layout(),
                final(self).buffer(),
                final(self)@.len() as int,
            ),
            final(self).layout() == old(self).layout() ==> final(self).buffer() == with_len(
                old(self).layout(),
                written(old(self).buffer(), old(self)@.len() as int, encode_utf8(joined(strs@))),
                final(self)@.len() as int,
            ),
            old(self).is_text() ==> final(self).is_text() && final(self).text() == old(self).text()
                + joined(strs@),
    {
        let ghost pieces = encoded_strs(strs@);
        let mut i: usize = 0;
        assert(pieces.skip(0) =~= pieces);
        assert(strs@.take(0) =~= seq![]);
        assert(self@ + encode_utf8(joined(strs@.take(0))) =~= self@);
        while i < strs.len()
            invariant
                i <= strs@.len(),
                pieces == encoded_strs(strs@),
                self.wf(),
                self@ == old(self)@ + encode_utf8(joined(strs@.take(i as int))),
                can_push(self.layout(), self@.len() as int, pieces.skip(i as int)),
                pushed_layout(self.layout(), self@.len() as int, pieces.skip(i as int))
                    == pushed_layout(old(self).layout(), old(self)@.len() as int, pieces),
                self.layout() == old(self).layout() || self.layout().capacity > old(
                    self,
                ).layout().capacity,
                old(self).layout().heap && !self.layout().heap ==> old(self).layout().capacity
                    < MAX_SIZE,
                keeps_spare_bytes(
                    old(self).layout(),
                    old(self).buffer(),
                    self.layout(),
                    self.buffer(),
                    self@.len() as int,
                ),
            decreases strs@.len() - i,
        {
            let piece: &str = strs[i];
            proof {
                let before = joined(strs@.take(i as int));
                assert(strs@.take(i + 1).drop_last() =~= strs@.take(i as int));
                lemma_encode_concat(before, piece@);
                assert(pieces.skip(i as int).drop_first() =~= pieces.skip(i + 1));
                assert(self@ + encode_utf8(piece@) =~= old(self)@ + encode_utf8(
                    joined(strs@.take(i + 1)),
                ));
            }
            self.push_str(piece);
            i += 1;
        }
        proof {
            assert(strs@.take(i as int) =~= strs@);
            encode_utf8_valid_utf8(joined(strs@));
            encode_utf8_decode_utf8(joined(strs@));
            if valid_utf8(old(self)@) {
                lemma_decode_concat(old(self)@, encode_utf8(joined(strs@)));
            }
            if self.layout() == old(self).layout() {
                Repr::lemma_appended(*old(self), *self, encode_utf8(joined(strs@)));
            }
            lemma_encoded_strs(strs@);
            lemma_joined(strs@);
            let len = old(self)@.len() as int;
            old(self).lemma_wf();
            law_encoded_strs_are_the_text(strs@);
            law_push_makes_room(old(self).layout(), len, pieces);
            if self@.len() <= old(self).layout().capacity {
                law_push_within_room(old(self).layout(), len, pieces);
            }
            if !old(self).layout().heap {
                law_push_leaves_inline_when_too_long(len, pieces);
            }
        }
    }
}

impl Clone for Repr {
    /// A string with the same bytes in the same layout.
    fn clone(&self) -> (res: Self)
        ensures
            self.wf() ==> res.wf(),
            res@ == self@,
            res.buffer() == self.buffer(),
            res.layout() == self.layout(),
    {
        match &self.storage {
            Storage::Inline(inline) => Repr { storage: Storage::Inline(*inline) },
            Storage::Heap(heap) => Repr { storage: Storage::Heap(heap.duplicate()) },
        }
    }
}

} // verus!
