//! Text as UTF-8: facts about its encoding, and the parts of the standard library that convert
//! between bytes, characters and strings.

use crate::LENGTH_MASK;
use vstd::prelude::*;
use vstd::std_specs::iter::IteratorSpec;
use vstd::utf8::*;

verus! {

/// Why some bytes are not UTF-8.
#[derive(Debug, Clone, Copy, PartialEq, Eq)]
pub struct Utf8Error {
    /// The number of bytes up to which the input is valid.
    pub valid_up_to: usize,
    /// The number of bytes that are invalid there, or `None` if the input ends in the middle of a
    /// character.
    pub error_len: Option<usize>,
}

/// The first `index` bytes are valid UTF-8, and no longer prefix of `bytes` is.
pub open spec fn longest_valid_prefix(bytes: Seq<u8>, index: int) -> bool {
    &&& 0 <= index <= bytes.len()
    &&& valid_utf8(bytes.take(index))
    &&& forall|i: int| index < i <= bytes.len() ==> !valid_utf8(#[trigger] bytes.take(i))
}

/// True of bytes that break off inside a character: with more bytes behind them they can still
/// become valid UTF-8.
pub open spec fn can_be_completed(bytes: Seq<u8>) -> bool {
    exists|more: Seq<u8>| valid_utf8(#[trigger] (bytes + more))
}

/// The `error_len` of the error that `core::str::from_utf8` reports for `bytes`.
pub uninterp spec fn utf8_error_len(bytes: Seq<u8>) -> Option<usize>;

/// `core::str::from_utf8`: succeeds on valid UTF-8 only, with the text that the bytes encode.
///
/// On other bytes the error tells how long the longest valid prefix is. Its `error_len` is `None`
/// if and only if the input ends inside a character, and then that prefix is one to three bytes
/// from the end. Otherwise it counts bytes that follow the prefix; how many of them it counts is
/// left to [`utf8_error_len`].
#[verifier::external_body]
pub(crate) fn str_from_utf8(bytes: &[u8]) -> (res: Result<&str, Utf8Error>)
    ensures
        match res {
            Ok(s) => valid_utf8(bytes@) && encode_utf8(s@) == bytes@,
            Err(e) => {
                &&& !valid_utf8(bytes@)
                &&& longest_valid_prefix(bytes@, e.valid_up_to as int)
                &&& e.error_len == utf8_error_len(bytes@)
                &&& e.error_len is None <==> can_be_completed(bytes@)
                &&& match e.error_len {
                    None => 1 <= bytes@.len() - e.valid_up_to <= 3,
                    Some(n) => 1 <= n <= bytes@.len() - e.valid_up_to,
                }
            },
        },
{
    match core::str::from_utf8(bytes) {
        Ok(s) => Ok(s),
        Err(e) => Err(Utf8Error { valid_up_to: e.valid_up_to(), error_len: e.error_len() }),
    }
}

/// `String::from_utf8`, without the error: turns bytes that are valid UTF-8, and no others, into
/// the string that they encode.
#[verifier::external_body]
pub(crate) fn string_from_utf8(bytes: Vec<u8>) -> (res: Option<String>)
    ensures
        res is Some <==> valid_utf8(bytes@),
        res matches Some(s) ==> encode_utf8(s@) == bytes@,
{
    String::from_utf8(bytes).ok()
}

/// `String::into_bytes`: the UTF-8 encoding of the string.
pub assume_specification[ String::into_bytes ](s: String) -> (bytes: Vec<u8>)
    ensures
        bytes@ == encode_utf8(s@),
;

/// `String::capacity`: some number of bytes that the string fits into and that one allocation can
/// have. How large it is depends on how the string came about.
pub assume_specification[ String::capacity ](s: &String) -> (capacity: usize)
    ensures
        encode_utf8(s@).len() <= capacity <= isize::MAX,
;

/// `str::into_string`: the same text.
pub assume_specification[ str::into_string ](s: Box<str>) -> (res: String)
    ensures
        res@ == s@,
;

/// `Chars::next_back`: removes the last of the remaining characters and returns it.
#[verifier::external_body]
pub(crate) fn chars_next_back<'a>(chars: &mut core::str::Chars<'a>) -> (res: Option<char>)
    ensures
        ({
            let before = <core::str::Chars<'a> as IteratorSpec>::remaining(old(chars));
            let after = <core::str::Chars<'a> as IteratorSpec>::remaining(final(chars));
            if before.len() == 0 {
                res is None && after == before
            } else {
                res == Some(before.last()) && after == before.drop_last()
            }
        }),
{
    chars.next_back()
}

/// `char::len_utf8`: the number of bytes in the UTF-8 encoding of the character.
pub assume_specification[ char::len_utf8 ](c: char) -> (len: usize)
    ensures
        len == encode_scalar(c as u32).len(),
;

/// `char::encode_utf8`: the character as a string, for which `dst` gives the room. It panics if
/// there is not enough of it. What `dst` holds afterwards is left open here.
#[verifier::external_body]
pub(crate) fn char_encode_utf8<'a>(c: char, dst: &'a mut [u8]) -> (res: &'a str)
    requires
        old(dst)@.len() >= encode_scalar(c as u32).len(),
    ensures
        res@ == seq![c],
{
    c.encode_utf8(dst)
}

/// The encoding of each of the characters.
pub open spec fn encoded_chars(chars: Seq<char>) -> Seq<Seq<u8>> {
    chars.map_values(|c: char| encode_scalar(c as u32))
}

/// The encoding of each of the strings.
pub open spec fn encoded_strs(strs: Seq<&str>) -> Seq<Seq<u8>> {
    strs.map_values(|s: &str| encode_utf8(s@))
}

/// All the strings, one after the other.
pub open spec fn joined(strs: Seq<&str>) -> Seq<char>
    decreases strs.len(),
{
    if strs.len() == 0 {
        seq![]
    } else {
        joined(strs.drop_last()) + strs.last()@
    }
}

/// The encoding of one character is the encoding of the string that holds nothing else.
pub proof fn lemma_encode_one(c: char)
    ensures
        encode_utf8(seq![c]) == encode_scalar(c as u32),
        1 <= encode_scalar(c as u32).len() <= 4,
{
    assert(seq![c].drop_first() =~= seq![]);
    assert(encode_utf8(seq![]) =~= seq![]);
    assert(encode_utf8(seq![c]) =~= encode_scalar(c as u32) + encode_utf8(seq![c].drop_first()));
}

/// Encoding one text after the other is encoding both together.
pub proof fn lemma_encode_concat(a: Seq<char>, b: Seq<char>)
    ensures
        encode_utf8(a + b) == encode_utf8(a) + encode_utf8(b),
    decreases a.len(),
{
    if a.len() == 0 {
        assert(a + b =~= b);
        assert(encode_utf8(a) + encode_utf8(b) =~= encode_utf8(b));
    } else {
        lemma_encode_concat(a.drop_first(), b);
        assert((a + b).drop_first() =~= a.drop_first() + b);
        assert(encode_utf8(a + b) =~= encode_utf8(a) + encode_utf8(b));
    }
}

/// The encodings of some strings, one after the other, are the encoding of all of them together.
pub proof fn lemma_encoded_strs(strs: Seq<&str>)
    ensures
        strs.map_values(|s: &str| encode_utf8(s@)).flatten() == encode_utf8(joined(strs)),
    decreases strs.len(),
{
    let pieces = strs.map_values(|s: &str| encode_utf8(s@));
    if strs.len() > 0 {
        let rest = strs.drop_last();
        lemma_encoded_strs(rest);
        lemma_encode_concat(joined(rest), strs.last()@);
        assert(pieces.drop_last() =~= rest.map_values(|s: &str| encode_utf8(s@)));
        pieces.lemma_flatten_and_flatten_alt_are_equivalent();
        pieces.drop_last().lemma_flatten_and_flatten_alt_are_equivalent();
    }
}

/// The joined strings are the characters of each, in order.
pub proof fn lemma_joined(strs: Seq<&str>)
    ensures
        joined(strs) == strs.map_values(|s: &str| s@).flatten(),
    decreases strs.len(),
{
    let texts = strs.map_values(|s: &str| s@);
    if strs.len() > 0 {
        let rest = strs.drop_last();
        lemma_joined(rest);
        assert(texts.drop_last() =~= rest.map_values(|s: &str| s@));
        texts.lemma_flatten_and_flatten_alt_are_equivalent();
        texts.drop_last().lemma_flatten_and_flatten_alt_are_equivalent();
    }
}

/// Text that is followed by text decodes to the one followed by the other.
pub proof fn lemma_decode_concat(a: Seq<u8>, b: Seq<u8>)
    requires
        valid_utf8(a),
        valid_utf8(b),
    ensures
        valid_utf8(a + b),
        decode_utf8(a + b) == decode_utf8(a) + decode_utf8(b),
{
    valid_utf8_concat(a, b);
    decode_utf8_encode_utf8(a);
    decode_utf8_encode_utf8(b);
    lemma_encode_concat(decode_utf8(a), decode_utf8(b));
    encode_utf8_decode_utf8(decode_utf8(a) + decode_utf8(b));
}

/// Valid UTF-8 never ends in a byte from [`LENGTH_MASK`] on.
pub proof fn lemma_last_byte_of_text(bytes: Seq<u8>)
    requires
        valid_utf8(bytes),
        bytes.len() > 0,
    ensures
        bytes.last() < LENGTH_MASK,
{
    valid_utf8_last(bytes);
}

} // verus!
