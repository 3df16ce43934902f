//! Where a string is stored, how much room it has there, and how that room grows.

use crate::{LENGTH_MASK, MAX_SIZE};
use vstd::prelude::*;

verus! {

/// The place that a string occupies: inline or on the heap, and how many bytes fit there.
pub struct Layout {
    pub heap: bool,
    pub capacity: int,
}

/// The layout of every inline string.
pub open spec fn inline_layout() -> Layout {
    Layout { heap: false, capacity: MAX_SIZE as int }
}

/// The layout of a heap buffer with room for `capacity` bytes.
pub open spec fn heap_layout(capacity: int) -> Layout {
    Layout { heap: true, capacity }
}

/// The length of an inline string whose last byte is `last`.
///
/// The `MAX_SIZE` values from `LENGTH_MASK` on stand for the lengths below `MAX_SIZE`. Under any
/// other value the last byte belongs to the text, which then fills the buffer.
pub open spec fn inline_len(last: u8) -> int {
    if LENGTH_MASK <= last < LENGTH_MASK + MAX_SIZE {
        last - LENGTH_MASK
    } else {
        MAX_SIZE as int
    }
}

/// True of the bytes that may stand last in an inline string: text or a length, nothing else.
pub open spec fn is_inline_byte(last: u8) -> bool {
    last < LENGTH_MASK + MAX_SIZE
}

/// True of the contents that can be stored inline: those that leave the last byte to the length,
/// and those of full size whose last byte cannot be taken for a length or for the heap marker.
pub open spec fn fits_inline(bytes: Seq<u8>) -> bool {
    ||| bytes.len() < MAX_SIZE
    ||| bytes.len() == MAX_SIZE && bytes.last() < LENGTH_MASK
}

/// The layout that freshly stored contents get: inline where they fit, otherwise on the heap.
///
/// Contents of exactly `MAX_SIZE` bytes that cannot be inlined get one byte more than they need.
pub open spec fn stored_layout(bytes: Seq<u8>) -> Layout {
    if fits_inline(bytes) {
        inline_layout()
    } else if bytes.len() == MAX_SIZE {
        heap_layout(MAX_SIZE + 1)
    } else {
        heap_layout(bytes.len() as int)
    }
}

/// The capacity of a heap buffer that grew to hold `additional` bytes behind `len` bytes: what is
/// needed, or one and a half times the length, whichever is greater.
pub open spec fn amortized_capacity(len: int, additional: int) -> int {
    if len + len / 2 > len + additional {
        len + len / 2
    } else {
        len + additional
    }
}

/// The layout of a string of `len` bytes in layout `from`, once there is room for `additional`
/// bytes more.
pub open spec fn reserved_layout(from: Layout, len: int, additional: int) -> Layout {
    if len + additional <= from.capacity {
        from
    } else if len + additional <= MAX_SIZE {
        inline_layout()
    } else {
        heap_layout(amortized_capacity(len, additional))
    }
}

/// True of the sizes that one buffer can have: an allocation is at most `isize::MAX` bytes.
pub open spec fn allocatable(capacity: int) -> bool {
    0 <= capacity <= isize::MAX
}

/// True if [`reserved_layout`] asks for no buffer that is too large to allocate.
pub open spec fn can_reserve(from: Layout, len: int, additional: int) -> bool {
    &&& len + additional <= usize::MAX
    &&& reserved_layout(from, len, additional) != from ==> allocatable(
        reserved_layout(from, len, additional).capacity,
    )
}

/// The layout of a string of `len` bytes in layout `from` after each of `pieces` was appended in
/// turn.
pub open spec fn pushed_layout(from: Layout, len: int, pieces: Seq<Seq<u8>>) -> Layout
    decreases pieces.len(),
{
    if pieces.len() == 0 {
        from
    } else {
        pushed_layout(
            reserved_layout(from, len, pieces[0].len() as int),
            len + pieces[0].len(),
            pieces.drop_first(),
        )
    }
}

/// True if every step of [`pushed_layout`] can get the room it asks for.
pub open spec fn can_push(from: Layout, len: int, pieces: Seq<Seq<u8>>) -> bool
    decreases pieces.len(),
{
    pieces.len() == 0 || {
        &&& can_reserve(from, len, pieces[0].len() as int)
        &&& can_push(
            reserved_layout(from, len, pieces[0].len() as int),
            len + pieces[0].len(),
            pieces.drop_first(),
        )
    }
}

/// The largest capacity that fits into a word next to the byte that marks a heap string.
///
/// The value above it, in which all the other bits are set, says that the capacity is too large
/// for that and is kept with the buffer instead.
pub const MAX_PACKED: usize = usize::MAX / 256 - 1;

/// True of the capacities that are packed into a word next to the heap marker.
pub open spec fn is_packable(capacity: int) -> bool {
    capacity <= MAX_PACKED
}

/// The layout of a string of `len` bytes in layout `from` after it was shrunk to what `len` and
/// `min_capacity` call for.
///
/// A heap string that needs at most `MAX_SIZE` bytes moves inline. A larger one gives up the room
/// that it does not need, unless its capacity would have to move from the buffer into the packed
/// word: a buffer cannot be resized across that limit, and stays as large as it was.
pub open spec fn shrunk_layout(from: Layout, len: int, min_capacity: int) -> Layout {
    let needed = if len > min_capacity { len } else { min_capacity };
    if !from.heap {
        from
    } else if needed <= MAX_SIZE {
        inline_layout()
    } else if needed < from.capacity && is_packable(needed) == is_packable(from.capacity) {
        heap_layout(needed)
    } else {
        from
    }
}

/// The layout of a string of `len` bytes that was taken over from an allocation of `capacity`
/// bytes: the allocation itself, unless there is none or its capacity cannot be packed. In the
/// latter case the text is copied into a buffer of its own size.
pub open spec fn adopted_layout(len: int, capacity: int) -> Layout {
    if !is_packable(capacity) {
        heap_layout(len)
    } else if capacity == 0 {
        inline_layout()
    } else {
        heap_layout(capacity)
    }
}

/// `buffer`, which lies as `layout` says, once its first `len` bytes are the text: inline, the last
/// byte holds the length, unless the text fills the buffer.
pub open spec fn with_len(layout: Layout, buffer: Seq<u8>, len: int) -> Seq<u8> {
    if layout.heap || len == MAX_SIZE {
        buffer
    } else {
        buffer.update(MAX_SIZE - 1, (LENGTH_MASK + len) as u8)
    }
}

/// The bytes behind a text of `len` bytes are the same in the buffer `after` as they were in
/// `before`, as far as both reach, if the one buffer is the other or was resized from it.
///
/// A buffer is resized if it stays on the heap and its capacity is recorded in the same way.
/// Where the text moves to another buffer nothing is said of what lies behind it there. The last
/// byte of an inline buffer holds the length, and is left out.
pub open spec fn keeps_spare_bytes(
    from: Layout,
    before: Seq<u8>,
    to: Layout,
    after: Seq<u8>,
    len: int,
) -> bool {
    from.heap == to.heap && is_packable(from.capacity) == is_packable(to.capacity) ==> forall|k: int|
        #![trigger after[k]]
        #![trigger before[k]]
        len <= k < from.capacity && k < to.capacity && (to.heap || k < MAX_SIZE - 1) ==> after[k]
            == before[k]
}

} // verus!
