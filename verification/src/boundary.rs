//! Where a UTF-8 byte sequence may be cut.

use vstd::prelude::*;
use vstd::utf8::{is_char_boundary, is_continuation_byte, valid_utf8};
use vstd::utf8::{is_char_boundary_iff_not_is_continuation_byte, is_char_boundary_start_end_of_seq};
use vstd::utf8::{decode_utf8, decode_utf8_split, valid_utf8_concat, valid_utf8_split};
use vstd::utf8::{encode_utf8, encode_utf8_valid_utf8};

verus! {

/// The test that decides a boundary by looking at no more than one byte:
/// the two ends always qualify, an offset in between qualifies when the byte
/// there does not continue a character, and an offset past the end never does.
pub open spec fn boundary_at(bytes: Seq<u8>, index: int) -> bool {
    ||| index == 0
    ||| index == bytes.len()
    ||| (0 < index < bytes.len() && !is_continuation_byte(bytes[index]))
}

/// Reading a byte as a signed number, the continuation bytes are exactly
/// those below -64.
pub proof fn lemma_signed_byte_test(b: u8)
    ensures
        ((b as i8) >= -0x40i8) <==> !is_continuation_byte(b),
{
    assert(((b as i8) >= -0x40i8) <==> !(0x80u8 <= b && b <= 0xbfu8)) by (bit_vector);
}

/// On valid UTF-8 the one-byte test finds exactly the offsets that lie
/// between two encoded characters, for every offset whatever.
pub proof fn lemma_boundary_at_is_char_boundary(bytes: Seq<u8>, index: int)
    requires
        valid_utf8(bytes),
    ensures
        boundary_at(bytes, index) == is_char_boundary(bytes, index),
{
    if index == 0 || index == bytes.len() {
        is_char_boundary_start_end_of_seq(bytes);
    } else if 0 < index < bytes.len() {
        is_char_boundary_iff_not_is_continuation_byte(bytes, index);
    }
}

/// Cutting valid UTF-8 at a boundary leaves two valid pieces that together
/// are the whole, in bytes and in characters.
pub proof fn lemma_cut_at_boundary(bytes: Seq<u8>, mid: int)
    requires
        valid_utf8(bytes),
        is_char_boundary(bytes, mid),
    ensures
        0 <= mid <= bytes.len(),
        valid_utf8(bytes.subrange(0, mid)),
        valid_utf8(bytes.subrange(mid, bytes.len() as int)),
        bytes.subrange(0, mid) + bytes.subrange(mid, bytes.len() as int) == bytes,
        decode_utf8(bytes.subrange(0, mid)) + decode_utf8(bytes.subrange(mid, bytes.len() as int))
            == decode_utf8(bytes),
{
    valid_utf8_split(bytes, mid);
    decode_utf8_split(bytes, mid);
}

/// The bytes between two boundaries of valid UTF-8 are valid UTF-8.
pub proof fn lemma_valid_between_boundaries(bytes: Seq<u8>, begin: int, end: int)
    requires
        valid_utf8(bytes),
        begin <= end,
        is_char_boundary(bytes, begin),
        is_char_boundary(bytes, end),
    ensures
        0 <= begin <= end <= bytes.len(),
        valid_utf8(bytes.subrange(0, begin)),
        valid_utf8(bytes.subrange(begin, end)),
        valid_utf8(bytes.subrange(end, bytes.len() as int)),
{
    lemma_cut_at_boundary(bytes, begin);
    lemma_cut_at_boundary(bytes, end);
    let head = bytes.subrange(0, end);
    lemma_boundary_at_is_char_boundary(head, begin);
    lemma_cut_at_boundary(head, begin);
    assert(head.subrange(begin, head.len() as int) == bytes.subrange(begin, end));
}

/// Where one piece of valid UTF-8 ends and the next begins is a boundary of
/// the two put together.
pub proof fn lemma_joint_is_boundary(front: Seq<u8>, back: Seq<u8>)
    requires
        valid_utf8(front),
        valid_utf8(back),
    ensures
        valid_utf8(front + back),
        is_char_boundary(front + back, front.len() as int),
{
    // Unless the second piece is empty, the byte at the joint is its first
    // byte, which starts a character.
    valid_utf8_concat(front, back);
    lemma_boundary_at_is_char_boundary(front + back, front.len() as int);
}

/// Encoding one run of characters after another is encoding the two runs
/// and putting the bytes together.
pub proof fn lemma_encode_concat(front: Seq<char>, back: Seq<char>)
    ensures
        encode_utf8(front + back) == encode_utf8(front) + encode_utf8(back),
    decreases front.len(),
{
    if front.len() > 0 {
        lemma_encode_concat(front.drop_first(), back);
        assert((front + back).drop_first() == front.drop_first() + back);
    }
}

/// Where the encoding of character `k` starts in the encoding of `chars`:
/// at a boundary, before the end.
pub proof fn lemma_char_starts_at_boundary(chars: Seq<char>, k: int)
    requires
        0 <= k < chars.len(),
    ensures
        encode_utf8(chars.take(k)).len() < encode_utf8(chars).len(),
        is_char_boundary(encode_utf8(chars), encode_utf8(chars.take(k)).len() as int),
{
    let front = chars.take(k);
    let back = chars.skip(k);
    assert(chars == front + back);
    lemma_encode_concat(front, back);
    encode_utf8_valid_utf8(front);
    encode_utf8_valid_utf8(back);
    lemma_joint_is_boundary(encode_utf8(front), encode_utf8(back));
}

/// The other way round: three valid pieces make valid UTF-8.
pub proof fn lemma_valid_three_pieces(head: Seq<u8>, middle: Seq<u8>, tail: Seq<u8>)
    requires
        valid_utf8(head),
        valid_utf8(middle),
        valid_utf8(tail),
    ensures
        valid_utf8(head + middle + tail),
{
    valid_utf8_concat(head, middle);
    valid_utf8_concat(head + middle, tail);
}

} // verus!
