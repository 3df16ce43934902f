//! The capacity of a heap buffer, packed into one word with the heap marker.

use crate::layout::{is_packable, MAX_PACKED};
use crate::HEAP_MASK;
use vstd::prelude::*;

verus! {

/// How many bits of the word hold the capacity; the topmost byte, which is the last one in memory
/// on a little-endian machine, holds the heap marker.
const CAPACITY_BITS: usize = usize::BITS as usize - 8;

/// The bits that hold the capacity.
const CAPACITY_MASK: usize = usize::MAX / 256;

/// A capacity, or the statement that it is too large to be packed, with the heap marker on top.
#[derive(Clone, Copy)]
pub(crate) struct Capacity {
    word: usize,
}

/// A byte on top of the capacity bits and a capacity below it can both be read back.
proof fn lemma_pack(tag: usize, capacity: usize, bits: usize, mask: usize)
    by (bit_vector)
    requires
        bits == usize::BITS - 8,
        usize::BITS == 32 ==> mask == 0xff_ffff,
        usize::BITS == 64 ==> mask == 0xff_ffff_ffff_ffff,
        tag <= 0xff,
        capacity <= mask,
    ensures
        ((tag << bits) | capacity) >> bits == tag,
        ((tag << bits) | capacity) & mask == capacity,
{
}

impl Capacity {
    /// The topmost byte of the word.
    pub(crate) closed spec fn top_byte(self) -> u8 {
        (self.word >> CAPACITY_BITS) as u8
    }

    /// The word carries the heap marker.
    pub(crate) closed spec fn wf(self) -> bool {
        self.word >> CAPACITY_BITS == HEAP_MASK
    }

    /// The bits below the marker.
    pub(crate) closed spec fn packed(self) -> usize {
        self.word & CAPACITY_MASK
    }

    /// This is how a buffer of `capacity` bytes records its capacity.
    pub(crate) open spec fn records(self, capacity: int) -> bool {
        &&& self.wf()
        &&& self.packed() == if is_packable(capacity) {
            capacity
        } else {
            MAX_PACKED + 1
        }
    }

    /// Packs `capacity`, if it is small enough for that.
    pub(crate) fn new(capacity: usize) -> (res: Capacity)
        ensures
            res.records(capacity as int),
    {
        let bits: usize = if capacity > MAX_PACKED {
            MAX_PACKED + 1
        } else {
            capacity
        };
        proof {
            lemma_pack(HEAP_MASK as usize, bits, CAPACITY_BITS, CAPACITY_MASK);
        }
        Capacity { word: ((HEAP_MASK as usize) << CAPACITY_BITS) | bits }
    }

    /// True if the capacity was too large to be packed.
    pub(crate) fn is_heap(&self) -> (res: bool)
        ensures
            res == (self.packed() == MAX_PACKED + 1),
    {
        self.word & CAPACITY_MASK == MAX_PACKED + 1
    }

    /// The packed capacity.
    pub(crate) fn as_usize(&self) -> (res: usize)
        ensures
            res == self.packed(),
    {
        self.word & CAPACITY_MASK
    }

    /// The marker is the topmost byte.
    pub(crate) proof fn lemma_top_byte(self)
        requires
            self.wf(),
        ensures
            self.top_byte() == HEAP_MASK,
    {
    }

    /// The topmost byte of the word.
    pub(crate) fn last_byte(&self) -> (res: u8)
        ensures
            res == self.top_byte(),
    {
        (self.word >> CAPACITY_BITS) as u8
    }
}

} // verus!
