//! Reading UTF-8 one encoded character at a time.

use vstd::prelude::*;
use vstd::pervasive::unreached;
use vstd::utf8::{codepoint_width_1, codepoint_width_2, codepoint_width_3};
use vstd::utf8::{decode_first_scalar, is_scalar, length_of_first_scalar, valid_first_scalar};
use vstd::utf8::{decode_utf8, decode_utf8_first_scalar, pop_first_scalar};
use vstd::utf8::{encode_scalar, encode_utf8, is_continuation_byte, valid_utf8};
use vstd::utf8::{encode_utf8_decode_utf8, encode_utf8_valid_utf8, is_ascii_chars_encode_utf8};
use vstd::utf8::{partial_valid_partial_invalid_utf8, partial_valid_utf8_extend};

verus! {

/// The bytes of `bytes` from `pos` on.
pub open spec fn tail_from(bytes: Seq<u8>, pos: int) -> Seq<u8> {
    bytes.subrange(pos, bytes.len() as int)
}

/// The number of bytes that the encoding of `c` takes: from one to four.
pub open spec fn width_of(c: char) -> nat {
    encode_scalar(c as u32).len()
}

/// The characters `chars`, each with the offset at which its encoding starts
/// once all of them are encoded one after the other from offset `base` on:
/// the offset of a character is `base` plus the number of bytes that the
/// characters before it take.
pub open spec fn chars_with_offsets(chars: Seq<char>, base: int) -> Seq<(int, char)> {
    Seq::new(chars.len(), |k: int| (base + encode_utf8(chars.take(k)).len(), chars[k]))
}

/// The characters that valid UTF-8 encodes, each with the offset of its
/// first byte, where the first byte of `bytes` counts as offset `base`.
pub open spec fn indexed_chars(bytes: Seq<u8>, base: int) -> Seq<(int, char)>
    decreases bytes.len(),
    when valid_utf8(bytes)
{
    if bytes.len() == 0 {
        seq![]
    } else {
        seq![(base, decode_first_scalar(bytes) as char)] + indexed_chars(
            pop_first_scalar(bytes),
            base + length_of_first_scalar(bytes),
        )
    }
}

/// Whether `b` can only stand inside an encoded character, after its first
/// byte.
pub fn is_continuation(b: u8) -> (r: bool)
    ensures
        r == is_continuation_byte(b),
{
    0x80 <= b && b <= 0xbf
}

/// Reads the encoded character that starts at `pos`.
///
/// Gives its scalar value and the number of bytes that it takes, or `None`
/// where the bytes from `pos` on do not start with a well-formed encoding:
/// a stray or missing continuation byte, a byte that no encoding starts
/// with, a value encoded in more bytes than it needs, a surrogate, or a
/// value past the last code point.
pub fn scalar_at(bytes: &[u8], pos: usize) -> (r: Option<(u32, usize)>)
    requires
        pos < bytes@.len(),
    ensures
        r is Some <==> valid_first_scalar(tail_from(bytes@, pos as int)),
        r matches Some((scalar, width)) ==> {
            &&& scalar == decode_first_scalar(tail_from(bytes@, pos as int))
            &&& width == length_of_first_scalar(tail_from(bytes@, pos as int))
            &&& 1 <= width <= 4
            &&& pos + width <= bytes@.len()
            &&& is_scalar(scalar)
        },
{
    let avail: usize = bytes.len() - pos;
    let b0: u8 = bytes[pos];
    if b0 < 0x80 {
        let scalar: u32 = (b0 & 0x7f) as u32;
        Some((scalar, 1))
    } else if b0 < 0xc0 {
        None
    } else if b0 < 0xe0 {
        if avail < 2 {
            return None;
        }
        let b1: u8 = bytes[pos + 1];
        if !is_continuation(b1) {
            return None;
        }
        let scalar: u32 = (((b0 & 0x1f) as u32) << 6) | ((b1 & 0x3f) as u32);
        proof {
            lemma_short_encodings_bounded(b0, b1, 0);
        }
        if scalar < 0x80 {
            None
        } else {
            Some((scalar, 2))
        }
    } else if b0 < 0xf0 {
        if avail < 3 {
            return None;
        }
        let b1: u8 = bytes[pos + 1];
        let b2: u8 = bytes[pos + 2];
        if !is_continuation(b1) || !is_continuation(b2) {
            return None;
        }
        let scalar: u32 = (((b0 & 0x0f) as u32) << 12) | (((b1 & 0x3f) as u32) << 6) | ((b2
            & 0x3f) as u32);
        proof {
            lemma_short_encodings_bounded(b0, b1, b2);
        }
        if scalar < 0x800 || (0xd800 <= scalar && scalar <= 0xdfff) {
            None
        } else {
            Some((scalar, 3))
        }
    } else if b0 < 0xf8 {
        if avail < 4 {
            return None;
        }
        let b1: u8 = bytes[pos + 1];
        let b2: u8 = bytes[pos + 2];
        let b3: u8 = bytes[pos + 3];
        if !is_continuation(b1) || !is_continuation(b2) || !is_continuation(b3) {
            return None;
        }
        let scalar: u32 = (((b0 & 0x07) as u32) << 18) | (((b1 & 0x3f) as u32) << 12) | (((b2
            & 0x3f) as u32) << 6) | ((b3 & 0x3f) as u32);
        if scalar < 0x10000 || scalar > 0x10ffff {
            None
        } else {
            Some((scalar, 4))
        }
    } else {
        None
    }
}

/// Decodes the character that starts at `pos`, where the bytes from `pos` on
/// are known to start with a well-formed encoding. Gives the character and
/// the number of bytes that it takes.
pub fn char_at(bytes: &[u8], pos: usize) -> (r: (char, usize))
    requires
        pos < bytes@.len(),
        valid_first_scalar(tail_from(bytes@, pos as int)),
    ensures
        r.0 == decode_first_scalar(tail_from(bytes@, pos as int)) as char,
        r.1 == length_of_first_scalar(tail_from(bytes@, pos as int)),
        1 <= r.1 <= 4,
        pos + r.1 <= bytes@.len(),
{
    match scalar_at(bytes, pos) {
        Some((scalar, width)) => match char::from_u32(scalar) {
            Some(c) => (c, width),
            None => unreached(),
        },
        None => unreached(),
    }
}

/// Whether `bytes` is valid UTF-8 from its first byte to its last.
pub fn is_valid_utf8(bytes: &[u8]) -> (ok: bool)
    ensures
        ok == valid_utf8(bytes@),
{
    let len: usize = bytes.len();
    let mut pos: usize = 0;
    while pos < len
        invariant
            len == bytes@.len(),
            pos <= len,
            valid_utf8(bytes@.subrange(0, pos as int)),
        decreases len - pos,
    {
        match scalar_at(bytes, pos) {
            Some((_, width)) => {
                proof {
                    partial_valid_utf8_extend(bytes@, pos as int);
                }
                pos = pos + width;
            },
            None => {
                proof {
                    partial_valid_partial_invalid_utf8(bytes@, pos as int);
                }
                return false;
            },
        }
    }
    assert(bytes@.subrange(0, pos as int) == bytes@);
    true
}

/// How large the value of an encoding of one, two or three bytes can get,
/// whatever the bytes are.
proof fn lemma_short_encodings_bounded(b0: u8, b1: u8, b2: u8)
    by (bit_vector)
    ensures
        codepoint_width_1(b0) <= 0x7f,
        codepoint_width_2(b0, b1) <= 0x7ff,
        codepoint_width_3(b0, b1, b2) <= 0xffff,
{
}

/// One step of decoding: what valid, non-empty UTF-8 from `pos` on starts
/// with, and what is left after it.
pub proof fn lemma_decode_step(bytes: Seq<u8>, pos: int)
    requires
        0 <= pos < bytes.len(),
        valid_utf8(tail_from(bytes, pos)),
    ensures
        valid_first_scalar(tail_from(bytes, pos)),
        ({
            let width = length_of_first_scalar(tail_from(bytes, pos));
            let first = decode_first_scalar(tail_from(bytes, pos)) as char;
            &&& 1 <= width <= 4
            &&& pos + width <= bytes.len()
            &&& valid_utf8(tail_from(bytes, pos + width))
            &&& decode_utf8(tail_from(bytes, pos)) == seq![first] + decode_utf8(
                tail_from(bytes, pos + width),
            )
            &&& indexed_chars(tail_from(bytes, pos), pos) == seq![(pos, first)] + indexed_chars(
                tail_from(bytes, pos + width),
                pos + width,
            )
        }),
{
    let rest = tail_from(bytes, pos);
    let width = length_of_first_scalar(rest);
    assert(pop_first_scalar(rest) == tail_from(bytes, pos + width));
}

/// Walking valid UTF-8 character by character finds each character at the
/// offset that the lengths of the encodings before it add up to.
pub proof fn lemma_indexed_chars_offsets(bytes: Seq<u8>, base: int)
    requires
        valid_utf8(bytes),
    ensures
        indexed_chars(bytes, base) == chars_with_offsets(decode_utf8(bytes), base),
    decreases bytes.len(),
{
    let chars = decode_utf8(bytes);
    if bytes.len() > 0 {
        let width = length_of_first_scalar(bytes);
        let rest = pop_first_scalar(bytes);
        let later = decode_utf8(rest);
        lemma_indexed_chars_offsets(rest, base + width);
        decode_utf8_first_scalar(bytes);
        assert forall|k: int| 1 <= k < chars.len() implies encode_utf8(chars.take(k)).len()
            == width + encode_utf8(later.take(k - 1)).len() by {
            assert(chars.take(k).drop_first() == later.take(k - 1));
        }
    }
}

/// Any number of zero bytes is valid UTF-8, and encodes as many NUL
/// characters.
pub proof fn lemma_zero_bytes(n: nat)
    ensures
        valid_utf8(Seq::new(n, |i: int| 0u8)),
        decode_utf8(Seq::new(n, |i: int| 0u8)) == Seq::new(n, |i: int| '\0'),
{
    let bytes = Seq::new(n, |i: int| 0u8);
    let chars = Seq::new(n, |i: int| '\0');
    is_ascii_chars_encode_utf8(chars);
    assert(encode_utf8(chars) == bytes);
    encode_utf8_valid_utf8(chars);
    encode_utf8_decode_utf8(chars);
}

} // verus!
