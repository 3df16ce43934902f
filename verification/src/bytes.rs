//! Writing bytes into the middle of a buffer.

use vstd::prelude::*;

verus! {

/// `buffer` with the bytes from `at` on replaced by `src`.
pub open spec fn written(buffer: Seq<u8>, at: int, src: Seq<u8>) -> Seq<u8> {
    buffer.take(at) + src + buffer.skip(at + src.len())
}

/// Copies `src` into `dst`, to the place that starts at `at`.
pub(crate) fn write_at(dst: &mut [u8], at: usize, src: &[u8])
    requires
        at + src@.len() <= old(dst)@.len(),
    ensures
        final(dst)@ == written(old(dst)@, at as int, src@),
{
    let end: usize = dst.len();
    let mut i: usize = 0;
    while i < src.len()
        invariant
            i <= src@.len(),
            dst@.len() == old(dst)@.len(),
            at + src@.len() <= dst@.len() == end,
            forall|k: int| 0 <= k < dst@.len() ==> #[trigger] dst@[k] == if at <= k < at + i {
                src@[k - at]
            } else {
                old(dst)@[k]
            },
        decreases src@.len() - i,
    {
        dst[at + i] = src[i];
        i += 1;
    }
    assert(dst@ =~= written(old(dst)@, at as int, src@));
}

} // verus!
