//! What holds of every string, whatever was done to it before.

use crate::bytes::written;
use crate::layout::{
    adopted_layout, allocatable, amortized_capacity, can_push, can_reserve, fits_inline,
    heap_layout, inline_layout, inline_len, is_inline_byte, is_packable, keeps_spare_bytes,
    pushed_layout, reserved_layout, shrunk_layout, stored_layout, with_len, Layout, MAX_PACKED,
};
use crate::repr::Repr;
use crate::text::{
    encoded_chars, encoded_strs, joined, lemma_decode_concat, lemma_encode_concat,
    lemma_encode_one, lemma_joined, lemma_last_byte_of_text,
};
use crate::{HEAP_MASK, LENGTH_MASK, MAX_SIZE};
use vstd::prelude::*;
use vstd::utf8::*;

verus! {

/// A byte that ends some text, a byte that holds a length and the heap marker are three different
/// things: the last byte of valid UTF-8 reads as a full inline buffer, each shorter length can be
/// read back from its byte, and the heap marker stands in no inline string.
pub proof fn law_last_byte_is_unambiguous(text: Seq<u8>, len: int)
    requires
        valid_utf8(text),
        text.len() > 0,
        0 <= len < MAX_SIZE,
    ensures
        is_inline_byte(text.last()),
        inline_len(text.last()) == MAX_SIZE,
        is_inline_byte((LENGTH_MASK + len) as u8),
        inline_len((LENGTH_MASK + len) as u8) == len,
        !is_inline_byte(HEAP_MASK),
        text.last() != (LENGTH_MASK + len) as u8,
{
    lemma_last_byte_of_text(text);
}

/// The values of the last byte. Below 192 it belongs to a text that fills the three words of the
/// buffer; from 192 on it stands for the length that it exceeds 192 by, as long as that is less
/// than three words; the greater values, of which 254 marks the heap, stand in no inline string.
pub proof fn law_values_of_the_last_byte(last: u8)
    ensures
        MAX_SIZE == 3 * (usize::BITS / 8),
        last < 192 ==> is_inline_byte(last) && inline_len(last) == 3 * (usize::BITS / 8),
        192 <= last < 192 + 3 * (usize::BITS / 8) ==> is_inline_byte(last) && inline_len(last)
            == last - 192,
        last >= 192 + 3 * (usize::BITS / 8) ==> !is_inline_byte(last),
        last == LENGTH_MASK <==> last == 192,
        last == HEAP_MASK <==> last == 254,
{
}

/// An inline layout has room for three words, and a heap layout for what it says.
pub proof fn law_layouts(capacity: int)
    ensures
        !inline_layout().heap,
        inline_layout().capacity == 3 * (usize::BITS / 8),
        heap_layout(capacity).heap,
        heap_layout(capacity).capacity == capacity,
{
}

/// Contents go to the heap if and only if they are longer than `MAX_SIZE`, or as long and end in a
/// byte from 192 on. There they get a buffer of their own size, or in the second case one byte
/// more.
pub proof fn law_contents_inline_or_not(bytes: Seq<u8>)
    ensures
        bytes.len() < MAX_SIZE ==> fits_inline(bytes),
        bytes.len() > MAX_SIZE ==> !fits_inline(bytes),
        bytes.len() == MAX_SIZE ==> (fits_inline(bytes) <==> bytes.last() < 192),
        stored_layout(bytes).heap <==> !fits_inline(bytes),
        !stored_layout(bytes).heap ==> stored_layout(bytes).capacity == MAX_SIZE,
        bytes.len() > MAX_SIZE ==> stored_layout(bytes).capacity == bytes.len(),
        bytes.len() == MAX_SIZE && bytes.last() >= 192 ==> stored_layout(bytes).capacity
            == bytes.len() + 1,
{
}

/// Fresh text is inline if and only if it is at most `MAX_SIZE` bytes long. On the heap it gets a
/// buffer of exactly its own size.
pub proof fn law_short_text_is_inline(text: Seq<u8>)
    requires
        valid_utf8(text),
    ensures
        fits_inline(text) <==> text.len() <= MAX_SIZE,
        stored_layout(text) == if text.len() <= MAX_SIZE {
            inline_layout()
        } else {
            heap_layout(text.len() as int)
        },
{
    if text.len() > 0 {
        lemma_last_byte_of_text(text);
    }
}

/// Fresh contents, be they text or not, fit into the buffer that they get.
pub proof fn law_contents_fit(bytes: Seq<u8>)
    ensures
        bytes.len() <= stored_layout(bytes).capacity,
        stored_layout(bytes).capacity >= MAX_SIZE,
{
}

/// A string is its text: the characters can be read back from the bytes that encode them, and
/// give the same bytes again.
pub proof fn law_text_round_trip(repr: Repr, text: Seq<char>)
    requires
        repr.wf(),
    ensures
        repr@ == encode_utf8(text) <==> repr.is_text() && repr.text() == text,
{
    encode_utf8_valid_utf8(text);
    encode_utf8_decode_utf8(text);
    if valid_utf8(repr@) {
        decode_utf8_encode_utf8(repr@);
    }
}

/// Two strings hold the same characters if and only if they hold the same bytes, wherever they
/// are stored.
pub proof fn law_same_text_same_bytes(a: Repr, b: Repr)
    requires
        a.is_text(),
        b.is_text(),
    ensures
        a.text() == b.text() <==> a@ == b@,
{
    decode_utf8_encode_utf8(a@);
    decode_utf8_encode_utf8(b@);
}

/// Reserving makes room for what was asked for, and never takes room away.
pub proof fn law_reserve_makes_room(from: Layout, len: int, additional: int)
    requires
        0 <= len <= from.capacity,
        0 <= additional,
    ensures
        reserved_layout(from, len, additional).capacity >= len + additional,
        reserved_layout(from, len, additional).capacity >= from.capacity,
{
}

/// Reserving changes nothing if there is enough room already, so a second time it never does.
pub proof fn law_reserve_twice(from: Layout, len: int, additional: int)
    requires
        0 <= len <= from.capacity,
        0 <= additional,
    ensures
        len + additional <= from.capacity ==> reserved_layout(from, len, additional) == from,
        reserved_layout(reserved_layout(from, len, additional), len, additional)
            == reserved_layout(from, len, additional),
{
}

/// A string that has to grow and does not fit inline grows at least by half its length.
pub proof fn law_growth_is_amortized(from: Layout, len: int, additional: int)
    requires
        0 <= len <= from.capacity < len + additional,
        MAX_SIZE < len + additional,
    ensures
        reserved_layout(from, len, additional) == heap_layout(amortized_capacity(len, additional)),
        reserved_layout(from, len, additional).capacity >= len + len / 2,
{
}

/// The room after reserving, in numbers. Enough room stays as it is. Otherwise, what fits into
/// `MAX_SIZE` bytes goes inline, and anything larger to a heap buffer whose capacity is the
/// greater of two numbers: what is needed, and one and a half times the length.
pub proof fn law_room_after_reserving(from: Layout, len: int, additional: int)
    requires
        0 <= len <= from.capacity,
        0 <= additional,
    ensures
        ({
            let to = reserved_layout(from, len, additional);
            &&& len + additional <= from.capacity ==> to.heap == from.heap && to.capacity
                == from.capacity
            &&& from.capacity < len + additional <= MAX_SIZE ==> !to.heap && to.capacity == MAX_SIZE
            &&& from.capacity < len + additional && MAX_SIZE < len + additional ==> {
                &&& to.heap
                &&& to.capacity >= len + additional
                &&& to.capacity >= len + len / 2
                &&& to.capacity == len + additional || to.capacity == len + len / 2
            }
        }),
        amortized_capacity(len, additional) >= len + additional,
        amortized_capacity(len, additional) >= len + len / 2,
        amortized_capacity(len, additional) == len + additional || amortized_capacity(
            len,
            additional,
        ) == len + len / 2,
{
}

/// Room can be reserved if and only if the length does not overflow and, where a new heap buffer
/// is needed, both what is needed and one and a half times the length are within `isize::MAX`.
pub proof fn law_what_can_be_reserved(from: Layout, len: int, additional: int)
    requires
        0 <= len <= from.capacity,
        0 <= additional,
    ensures
        can_reserve(from, len, additional) <==> {
            &&& len + additional <= usize::MAX
            &&& {
                ||| len + additional <= from.capacity
                ||| len + additional <= MAX_SIZE
                ||| len + additional <= isize::MAX && len + len / 2 <= isize::MAX
            }
        },
        allocatable(len) <==> len <= isize::MAX,
        !allocatable(-1 - len),
{
}

/// Appending nothing keeps the layout, and appending one piece reserves room for it.
pub proof fn law_push_one_piece(from: Layout, len: int, piece: Seq<u8>)
    ensures
        pushed_layout(from, len, seq![]) == from,
        can_push(from, len, seq![]),
        pushed_layout(from, len, seq![piece]) == reserved_layout(from, len, piece.len() as int),
        can_push(from, len, seq![piece]) <==> can_reserve(from, len, piece.len() as int),
{
    reveal_with_fuel(pushed_layout, 2);
    reveal_with_fuel(can_push, 2);
    assert(seq![piece].drop_first() =~= seq![]);
}

/// Appending some pieces and then some more is appending all of them.
pub proof fn law_push_in_two_steps(
    from: Layout,
    len: int,
    first: Seq<Seq<u8>>,
    second: Seq<Seq<u8>>,
)
    ensures
        pushed_layout(from, len, first + second) == pushed_layout(
            pushed_layout(from, len, first),
            len + first.flatten().len(),
            second,
        ),
        can_push(from, len, first + second) <==> can_push(from, len, first) && can_push(
            pushed_layout(from, len, first),
            len + first.flatten().len(),
            second,
        ),
    decreases first.len(),
{
    if first.len() == 0 {
        assert(first + second =~= second);
    } else {
        law_push_in_two_steps(
            reserved_layout(from, len, first[0].len() as int),
            len + first[0].len(),
            first.drop_first(),
            second,
        );
        assert((first + second).drop_first() =~= first.drop_first() + second);
    }
}

/// Appending what there is room for keeps the layout.
pub proof fn law_push_within_room(from: Layout, len: int, pieces: Seq<Seq<u8>>)
    requires
        0 <= len,
        len + pieces.flatten().len() <= from.capacity,
    ensures
        pushed_layout(from, len, pieces) == from,
    decreases pieces.len(),
{
    if pieces.len() > 0 {
        law_push_within_room(from, len + pieces[0].len(), pieces.drop_first());
    }
}

/// There is room for everything that was appended, and no room was taken away.
pub proof fn law_push_makes_room(from: Layout, len: int, pieces: Seq<Seq<u8>>)
    requires
        0 <= len <= from.capacity,
    ensures
        pushed_layout(from, len, pieces).capacity >= len + pieces.flatten().len(),
        pushed_layout(from, len, pieces).capacity >= from.capacity,
    decreases pieces.len(),
{
    if pieces.len() > 0 {
        law_push_makes_room(
            reserved_layout(from, len, pieces[0].len() as int),
            len + pieces[0].len(),
            pieces.drop_first(),
        );
    }
}

/// There is one encoding for each character, and it is that of the character alone.
pub proof fn law_each_char_is_encoded(chars: Seq<char>, i: int)
    requires
        0 <= i < chars.len(),
    ensures
        encoded_chars(chars).len() == chars.len(),
        encoded_chars(chars)[i] == encode_utf8(seq![chars[i]]),
{
    lemma_encode_one(chars[i]);
}

/// There is one encoding for each string, and it is that of the whole string.
pub proof fn law_each_str_is_encoded(strs: Seq<&str>, i: int)
    requires
        0 <= i < strs.len(),
    ensures
        encoded_strs(strs).len() == strs.len(),
        encoded_strs(strs)[i] == encode_utf8(strs[i]@),
{
}

/// There are as many encodings as there are characters or strings, no matter how many that is.
pub proof fn law_encodings_are_as_many(chars: Seq<char>, strs: Seq<&str>)
    ensures
        encoded_chars(chars).len() == chars.len(),
        encoded_strs(strs).len() == strs.len(),
{
}

/// Joining keeps every character of every string in its place: the strings in `a` and then those
/// in `b` give the text of `a` and then that of `b`, and one string gives its own text.
pub proof fn law_joining(a: Seq<&str>, b: Seq<&str>, s: &str)
    ensures
        joined(a + b) == joined(a) + joined(b),
        joined(seq![s]) == s@,
        joined(a) == a.map_values(|t: &str| t@).flatten(),
    decreases b.len(),
{
    lemma_joined(a);
    assert(seq![s].drop_last() =~= seq![]);
    assert(joined(seq![s]) =~= joined(seq![]) + s@);
    assert(joined(seq![s]) =~= s@);
    if b.len() == 0 {
        assert(a + b =~= a);
        assert(joined(a) + joined(b) =~= joined(a));
    } else {
        law_joining(a, b.drop_last(), s);
        assert((a + b).drop_last() =~= a + b.drop_last());
        assert(joined(a + b) =~= joined(a) + joined(b));
    }
}

/// The encodings of some characters, one after the other, are the encoding of the text that they
/// form.
pub proof fn law_encoded_chars_are_the_text(chars: Seq<char>)
    ensures
        encoded_chars(chars).flatten() == encode_utf8(chars),
    decreases chars.len(),
{
    if chars.len() > 0 {
        law_encoded_chars_are_the_text(chars.drop_first());
        assert(encoded_chars(chars).drop_first() =~= encoded_chars(chars.drop_first()));
    }
}

/// The encodings of some strings, one after the other, are the encoding of all of them together.
pub proof fn law_encoded_strs_are_the_text(strs: Seq<&str>)
    ensures
        encoded_strs(strs).flatten() == encode_utf8(joined(strs)),
    decreases strs.len(),
{
    if strs.len() > 0 {
        let pieces = encoded_strs(strs);
        law_encoded_strs_are_the_text(strs.drop_last());
        lemma_encode_concat(joined(strs.drop_last()), strs.last()@);
        assert(pieces.drop_last() =~= encoded_strs(strs.drop_last()));
        pieces.lemma_flatten_and_flatten_alt_are_equivalent();
        pieces.drop_last().lemma_flatten_and_flatten_alt_are_equivalent();
    }
}

/// A string that was inline is on the heap after something was appended if and only if it is now
/// longer than `MAX_SIZE`.
pub proof fn law_push_leaves_inline_when_too_long(len: int, pieces: Seq<Seq<u8>>)
    requires
        0 <= len <= MAX_SIZE,
    ensures
        pushed_layout(inline_layout(), len, pieces).heap <==> len + pieces.flatten().len()
            > MAX_SIZE,
        len + pieces.flatten().len() <= MAX_SIZE ==> pushed_layout(inline_layout(), len, pieces)
            == inline_layout(),
    decreases pieces.len(),
{
    if pieces.len() > 0 {
        let next = len + pieces[0].len();
        let from = reserved_layout(inline_layout(), len, pieces[0].len() as int);
        if next <= MAX_SIZE {
            law_push_leaves_inline_when_too_long(next, pieces.drop_first());
        } else {
            lemma_push_stays_on_heap(from, next, pieces.drop_first());
        }
    }
}

/// A heap string with room for `MAX_SIZE` bytes, or longer than that, never moves inline by
/// growing.
pub proof fn lemma_push_stays_on_heap(from: Layout, len: int, pieces: Seq<Seq<u8>>)
    requires
        from.heap,
        0 <= len,
        MAX_SIZE < len || MAX_SIZE <= from.capacity,
    ensures
        pushed_layout(from, len, pieces).heap,
    decreases pieces.len(),
{
    if pieces.len() > 0 {
        lemma_push_stays_on_heap(
            reserved_layout(from, len, pieces[0].len() as int),
            len + pieces[0].len(),
            pieces.drop_first(),
        );
    }
}

/// Pieces can be appended whenever there is room for them already, or half as much again as all
/// the text together can be allocated.
pub proof fn law_push_is_possible(from: Layout, len: int, pieces: Seq<Seq<u8>>)
    requires
        0 <= len <= from.capacity,
        ({
            let total = len + pieces.flatten().len();
            ||| total <= from.capacity <= usize::MAX
            ||| allocatable(total + total / 2)
        }),
    ensures
        can_push(from, len, pieces),
    decreases pieces.len(),
{
    if pieces.len() > 0 {
        law_push_is_possible(
            reserved_layout(from, len, pieces[0].len() as int),
            len + pieces[0].len(),
            pieces.drop_first(),
        );
    }
}

/// A string that takes over an allocation has room for its text. It is on the heap if and only if
/// there was an allocation, and keeps its size if the size can be packed.
pub proof fn law_adopted_text_fits(len: int, capacity: int)
    requires
        0 <= len <= capacity,
    ensures
        adopted_layout(len, capacity).capacity >= len,
        adopted_layout(len, capacity).heap <==> capacity > 0,
        0 < capacity && is_packable(capacity) ==> adopted_layout(len, capacity) == heap_layout(
            capacity,
        ),
{
}

/// The layout of adopted text, in numbers: inline without an allocation, an allocation of less
/// than `usize::MAX / 256` bytes as it is, and a copy of the exact size of the text in place of a
/// larger one.
pub proof fn law_adopted_room(len: int, capacity: int)
    requires
        0 <= len <= capacity,
    ensures
        ({
            let to = adopted_layout(len, capacity);
            &&& to.heap <==> capacity > 0
            &&& capacity == 0 ==> to.capacity == MAX_SIZE
            &&& 0 < capacity < usize::MAX / 256 ==> to.capacity == capacity
            &&& capacity >= usize::MAX / 256 ==> to.capacity == len
        }),
{
}

/// What `String::capacity` answers for `s` is the capacity that [`Repr::from_string`] goes by:
/// with some answer of it, [`Repr::from_string_with_capacity`] gives the same layout.
pub proof fn law_from_string_asks_for_the_capacity(s: String, res: Repr)
    requires
        call_ensures(Repr::from_string, (s,), res),
    ensures
        res.text() == s@,
        exists|capacity: usize|
            {
                &&& #[trigger] call_ensures(String::capacity, (&s,), capacity)
                &&& forall|other: Repr| #[trigger]
                    call_ensures(Repr::from_string_with_capacity, (s, capacity), other)
                        ==> other.layout() == res.layout()
                &&& 0 < capacity < usize::MAX / 256 ==> res.layout().heap && res.layout().capacity
                    == capacity
                &&& capacity == 0 ==> !res.layout().heap
                &&& capacity >= usize::MAX / 256 ==> res.layout().heap && res.layout().capacity
                    == encode_utf8(s@).len()
            },
{
    let capacity = choose|capacity: usize|
        {
            &&& #[trigger] call_ensures(String::capacity, (&s,), capacity)
            &&& res.layout().heap <==> capacity > 0
            &&& res.layout().capacity == if capacity == 0 {
                MAX_SIZE as int
            } else if capacity < usize::MAX / 256 {
                capacity as int
            } else {
                encode_utf8(s@).len() as int
            }
        };
    assert(call_ensures(String::capacity, (&s,), capacity));
}

/// Text that is appended piece by piece is the text that is appended at once.
pub proof fn law_push_is_associative(bytes: Seq<u8>, first: Seq<char>, second: Seq<char>)
    ensures
        (bytes + encode_utf8(first)) + encode_utf8(second) == bytes + encode_utf8(first + second),
{
    lemma_encode_concat(first, second);
    assert((bytes + encode_utf8(first)) + encode_utf8(second) =~= bytes + encode_utf8(
        first + second,
    ));
}

/// After a character was appended, taking off the last character gives it back and leaves the
/// text from before.
pub proof fn law_push_then_pop(before: Repr, c: char, after: Repr)
    requires
        before.is_text(),
        after.wf(),
        after@ == before@ + encode_utf8(seq![c]),
    ensures
        after.is_text(),
        after.text().len() > 0,
        after.text().last() == c,
        after.text().drop_last() == before.text(),
{
    encode_utf8_valid_utf8(seq![c]);
    encode_utf8_decode_utf8(seq![c]);
    lemma_decode_concat(before@, encode_utf8(seq![c]));
    assert(after.text().drop_last() =~= before.text());
}

/// After the last character was taken off, appending it again restores the bytes. What was taken
/// off is as many bytes as the character has in UTF-8.
pub proof fn law_pop_then_push(before: Repr, after: Repr)
    requires
        before.is_text(),
        before.text().len() > 0,
        after.is_text(),
        after.text() == before.text().drop_last(),
    ensures
        after@ + encode_utf8(seq![before.text().last()]) == before@,
        after@.len() == before@.len() - encode_scalar(before.text().last() as u32).len(),
{
    let c = before.text().last();
    assert(before.text() =~= after.text() + seq![c]);
    lemma_encode_concat(after.text(), seq![c]);
    lemma_encode_one(c);
    decode_utf8_encode_utf8(before@);
    decode_utf8_encode_utf8(after@);
}

/// Shrinking leaves room for the text, and for `min_capacity` bytes if there was that much room
/// before. It never leaves more room than there was, except that moving inline gives `MAX_SIZE`.
pub proof fn law_shrink_keeps_what_is_needed(from: Layout, len: int, min_capacity: int)
    requires
        0 <= len <= from.capacity,
        !from.heap ==> from == inline_layout(),
    ensures
        shrunk_layout(from, len, min_capacity).capacity >= len,
        min_capacity <= from.capacity ==> shrunk_layout(from, len, min_capacity).capacity
            >= min_capacity,
        shrunk_layout(from, len, min_capacity).capacity <= from.capacity || shrunk_layout(
            from,
            len,
            min_capacity,
        ) == inline_layout(),
{
}

/// Exactly the capacities below `usize::MAX / 256` are packed next to the heap marker.
pub proof fn law_what_can_be_packed(capacity: int)
    requires
        0 <= capacity,
    ensures
        is_packable(capacity) <==> capacity < usize::MAX / 256,
        capacity <= MAX_PACKED <==> capacity < usize::MAX / 256,
{
}

/// The room after shrinking, in numbers, for every `min_capacity`. With `needed` the greater of
/// the length and `min_capacity`: a heap string with `needed` at most `MAX_SIZE` moves inline, and
/// one that has more room than `needed` is left with `needed`, except where only the old capacity
/// is too large to be packed.
pub proof fn law_room_after_shrinking(from: Layout, len: int, min_capacity: int, needed: int)
    requires
        0 <= len <= from.capacity,
        0 <= min_capacity,
        len <= needed,
        min_capacity <= needed,
        needed == len || needed == min_capacity,
    ensures
        ({
            let to = shrunk_layout(from, len, min_capacity);
            &&& !from.heap ==> to == from
            &&& from.heap && needed <= MAX_SIZE ==> !to.heap && to.capacity == MAX_SIZE
            &&& from.heap && needed > MAX_SIZE ==> to.heap
            &&& from.heap && MAX_SIZE < needed < from.capacity < usize::MAX / 256 ==> to.capacity
                == needed
            &&& from.heap && MAX_SIZE < needed < from.capacity && usize::MAX / 256 <= needed
                ==> to.capacity == needed
            &&& from.heap && MAX_SIZE < needed < usize::MAX / 256 <= from.capacity ==> to == from
            &&& from.heap && MAX_SIZE < needed && from.capacity <= needed ==> to == from
        }),
{
}

/// Shrinking a heap string without a minimum leaves exactly the room of its text, whenever the
/// text is longer than `MAX_SIZE` and the old capacity is below `usize::MAX / 256`.
pub proof fn law_shrink_to_exact_size(from: Layout, len: int)
    requires
        from.heap,
        MAX_SIZE < len <= from.capacity < usize::MAX / 256,
    ensures
        shrunk_layout(from, len, 0).heap,
        shrunk_layout(from, len, 0).capacity == len,
{
}

/// Writing replaces the bytes that it is given the place of, and no others.
pub proof fn law_written_bytes(buffer: Seq<u8>, at: int, src: Seq<u8>, k: int)
    requires
        0 <= at,
        at + src.len() <= buffer.len(),
        0 <= k < buffer.len(),
    ensures
        written(buffer, at, src).len() == buffer.len(),
        at <= k < at + src.len() ==> written(buffer, at, src)[k] == src[k - at],
        k < at || at + src.len() <= k ==> written(buffer, at, src)[k] == buffer[k],
{
}

/// Setting the length touches one byte at most: the last one of an inline buffer that the text
/// does not fill, where the length can be read back.
pub proof fn law_setting_the_length(layout: Layout, buffer: Seq<u8>, len: int, k: int)
    requires
        buffer.len() == layout.capacity,
        0 <= len <= layout.capacity,
        !layout.heap ==> layout.capacity == MAX_SIZE,
        0 <= k < buffer.len(),
    ensures
        with_len(layout, buffer, len).len() == buffer.len(),
        layout.heap || len == MAX_SIZE || k < MAX_SIZE - 1 ==> with_len(layout, buffer, len)[k]
            == buffer[k],
        !layout.heap && len < MAX_SIZE ==> with_len(layout, buffer, len)[MAX_SIZE - 1] == 192 + len,
        !layout.heap && len < MAX_SIZE ==> inline_len(with_len(layout, buffer, len).last()) == len,
{
}

/// A byte behind the text keeps its value if the buffer stays where it is, or is resized on the
/// heap with a capacity on the same side of `usize::MAX / 256`.
pub proof fn law_spare_bytes_are_kept(
    from: Layout,
    before: Seq<u8>,
    to: Layout,
    after: Seq<u8>,
    len: int,
    k: int,
)
    requires
        keeps_spare_bytes(from, before, to, after, len),
        from.heap == to.heap,
        from.capacity < usize::MAX / 256 <==> to.capacity < usize::MAX / 256,
        0 <= len <= k < from.capacity,
        k < to.capacity,
        to.heap || k < MAX_SIZE - 1,
    ensures
        after[k] == before[k],
{
}

/// Shrinking an inline string changes nothing, and shrinking twice is shrinking once.
pub proof fn law_shrink_twice(from: Layout, len: int, min_capacity: int)
    ensures
        !from.heap ==> shrunk_layout(from, len, min_capacity) == from,
        shrunk_layout(shrunk_layout(from, len, min_capacity), len, min_capacity) == shrunk_layout(
            from,
            len,
            min_capacity,
        ),
{
}

/// Shrinking without a minimum brings text of at most `MAX_SIZE` bytes inline, and gives longer
/// text a buffer of exactly its size, if a capacity of that size is recorded in the same way as
/// the old one.
pub proof fn law_shrink_to_fit(from: Layout, len: int)
    requires
        0 <= len <= from.capacity,
        !from.heap ==> from == inline_layout(),
        len > MAX_SIZE ==> is_packable(len) == is_packable(from.capacity),
    ensures
        shrunk_layout(from, len, 0) == if len <= MAX_SIZE {
            inline_layout()
        } else {
            heap_layout(len)
        },
{
}

} // verus!
