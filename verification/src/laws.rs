//! Laws of the string type that span more than one of its functions.
//!
//! Where a law speaks of what a function returns, it takes the result as a
//! parameter and asks, by `call_ensures`, that it be one that the function
//! can return on the arguments given.

use vstd::prelude::*;
use vstd::utf8::{decode_utf8, encode_utf8, is_char_boundary, valid_utf8};
use vstd::utf8::{decode_utf8_encode_utf8, encode_scalar, encode_utf8_decode_utf8};
use vstd::utf8::encode_utf8_valid_utf8;
use crate::boundary::{lemma_char_starts_at_boundary, lemma_cut_at_boundary, lemma_encode_concat};
use crate::error::BoundaryViolation;
use crate::fixed::Str;
use crate::iter::{Bytes, CharIndices, Chars};
use crate::scalar::{chars_with_offsets, width_of};

verus! {

/// Bytes that are valid UTF-8 make a string, and the bytes read back from
/// that string are the bytes it was made from.
pub proof fn law_bytes_round_trip<const SIZE: usize>(
    bytes: [u8; SIZE],
    made: Option<Str<SIZE>>,
    read: &[u8; SIZE],
)
    requires
        valid_utf8(bytes@),
        call_ensures(Str::<SIZE>::from_utf8, (bytes,), made),
        made matches Some(s) ==> call_ensures(Str::<SIZE>::as_bytes, (&s,), read),
    ensures
        made matches Some(s) && s.wf(),
        read@ == bytes@,
{
}

/// The zeroed string is valid whatever `SIZE` is, and the bytes read back
/// from it are `SIZE` zero bytes.
pub proof fn law_zeroed_reads_zero<const SIZE: usize>(made: Str<SIZE>, read: &[u8; SIZE])
    requires
        call_ensures(Str::<SIZE>::zeroed, (), made),
        call_ensures(Str::<SIZE>::as_bytes, (&made,), read),
    ensures
        made.wf(),
        read@.len() == SIZE,
        forall|i: int| 0 <= i < SIZE ==> read@[i] == 0u8,
{
}

/// A cut is made exactly at the offsets that pass the boundary test. At
/// every other offset the answer is the violation that names that offset,
/// as out of range when it lies past the end and as inside a character
/// otherwise.
pub proof fn law_cut_only_at_boundaries<'a, const SIZE: usize>(
    s: &'a Str<SIZE>,
    mid: usize,
    tested: bool,
    cut: Result<(&'a str, &'a str), BoundaryViolation>,
)
    requires
        s.wf(),
        call_ensures(Str::<SIZE>::is_char_boundary, (s, mid), tested),
        call_ensures(Str::<SIZE>::split_at_checked, (s, mid), cut),
    ensures
        cut is Ok <==> tested,
        cut matches Err(e) ==> e.spec_index() == mid && (e is OutOfRange <==> mid > SIZE),
{
}

/// The walks over a string and its two views agree: the byte walk hands out
/// the bytes that the byte view shows, the character walk the characters
/// that the string slice holds, and the indexed walk those same characters.
pub proof fn law_walks_agree<'a, const SIZE: usize>(
    s: &'a Str<SIZE>,
    bytes: Bytes<'a, SIZE>,
    chars: Chars<'a, SIZE>,
    indexed: CharIndices<'a, SIZE>,
    raw: &'a [u8; SIZE],
    text: &'a str,
)
    requires
        s.wf(),
        call_ensures(Str::<SIZE>::bytes, (s,), bytes),
        call_ensures(Str::<SIZE>::chars, (s,), chars),
        call_ensures(Str::<SIZE>::char_indices, (s,), indexed),
        call_ensures(Str::<SIZE>::as_bytes, (s,), raw),
        call_ensures(Str::<SIZE>::as_slice, (s,), text),
    ensures
        bytes.remaining() == raw@,
        bytes.remaining().len() == SIZE,
        chars.remaining() == text@,
        indexed.remaining().len() == chars.remaining().len(),
        forall|k: int|
            0 <= k < chars.remaining().len() ==> (#[trigger] indexed.remaining()[k]).1
                == chars.remaining()[k],
{
}

/// A string that holds the encoding of some characters reads as those
/// characters, in order, each at the offset that the encodings before it
/// add up to.
pub proof fn law_reads_what_was_encoded<const SIZE: usize>(s: Str<SIZE>, chars: Seq<char>)
    requires
        s.spec_bytes() == encode_utf8(chars),
    ensures
        s.wf(),
        s@ == chars,
        s.spec_char_indices() == chars_with_offsets(chars, 0),
{
    encode_utf8_valid_utf8(chars);
    encode_utf8_decode_utf8(chars);
}

/// The offsets below `SIZE` that are boundaries are the offsets at which the
/// characters of the string start, no more and no fewer.
pub proof fn law_boundaries_are_char_starts<const SIZE: usize>(s: Str<SIZE>, index: int)
    requires
        s.wf(),
    ensures
        (0 <= index < SIZE && is_char_boundary(s.spec_bytes(), index)) <==> (exists|k: int|
            0 <= k < s@.len() && (#[trigger] s.spec_char_indices()[k]).0 == index),
{
    broadcast use Str::lemma_spec_bytes_len;

    let bytes = s.spec_bytes();
    let chars = s@;
    decode_utf8_encode_utf8(bytes);
    if 0 <= index < SIZE && is_char_boundary(bytes, index) {
        lemma_cut_at_boundary(bytes, index);
        let front = bytes.subrange(0, index);
        let k = decode_utf8(front).len() as int;
        decode_utf8_encode_utf8(front);
        assert(chars.take(k) == decode_utf8(front));
        assert(s.spec_char_indices()[k].0 == index);
    }
    if exists|k: int| 0 <= k < s@.len() && (#[trigger] s.spec_char_indices()[k]).0 == index {
        let k = choose|k: int| 0 <= k < s@.len() && (#[trigger] s.spec_char_indices()[k]).0
            == index;
        lemma_char_starts_at_boundary(chars, k);
    }
}

/// The characters start at increasing offsets: the first at 0, each of the
/// others where the one before it ends.
pub proof fn law_char_offsets_add_up<const SIZE: usize>(s: Str<SIZE>, k: int)
    requires
        s.wf(),
        0 <= k < s@.len(),
    ensures
        s.spec_char_indices()[0].0 == 0,
        s.spec_char_indices()[k].1 == s@[k],
        k + 1 < s@.len() ==> s.spec_char_indices()[k + 1].0 == s.spec_char_indices()[k].0
            + width_of(s@[k]),
        k + 1 == s@.len() ==> SIZE == s.spec_char_indices()[k].0 + width_of(s@[k]),
        1 <= width_of(s@[k]) <= 4,
{
    broadcast use Str::lemma_spec_bytes_len;

    let chars = s@;
    let one = seq![chars[k]];
    decode_utf8_encode_utf8(s.spec_bytes());
    assert(chars.take(k + 1) == chars.take(k) + one);
    lemma_encode_concat(chars.take(k), one);
    assert(chars.take(chars.len() as int) == chars);
    assert(encode_utf8(one) == encode_scalar(chars[k] as u32)) by {
        reveal_with_fuel(encode_utf8, 2);
    }
}

} // verus!
