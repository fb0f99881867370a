//! The fixed-size string type.

use vstd::prelude::*;
use vstd::pervasive::unreached;
use vstd::string::StringSliceAdditionalSpecFns;
use vstd::utf8::{decode_utf8, is_char_boundary, is_continuation_byte, valid_utf8};
use vstd::utf8::{encode_utf8_decode_utf8, encode_utf8_valid_utf8, valid_utf8_concat};
use crate::boundary::{boundary_at, lemma_boundary_at_is_char_boundary, lemma_signed_byte_test};
use crate::boundary::{lemma_cut_at_boundary, lemma_valid_between_boundaries};
use crate::boundary::lemma_valid_three_pieces;
use crate::error::{slice_error_fail, violation_of, BoundaryViolation};
use crate::iter::{Bytes, CharIndices, Chars};
use crate::scalar::{chars_with_offsets, is_valid_utf8, lemma_zero_bytes};
use crate::std_specs::{str_from_utf8, str_from_utf8_mut};

verus! {

/// A string of exactly `SIZE` bytes of UTF-8 text, held in place.
///
/// The length is part of the type and never changes. That the bytes are
/// valid UTF-8 is the invariant [`Str::wf`]: the constructors establish it,
/// the views handed out for writing text keep it, and the functions that read
/// the bytes as text require it.
pub struct Str<const SIZE: usize> {
    buf: [u8; SIZE],
}

impl<const SIZE: usize> View for Str<SIZE> {
    type V = Seq<char>;

    /// The characters that the bytes encode.
    open spec fn view(&self) -> Seq<char> {
        decode_utf8(self.spec_bytes())
    }
}

/// Reads valid UTF-8 as a string slice over the same bytes.
fn as_str(bytes: &[u8]) -> (s: &str)
    requires
        valid_utf8(bytes@),
    ensures
        s.spec_bytes() == bytes@,
        s@ == decode_utf8(bytes@),
{
    match str_from_utf8(bytes) {
        Some(s) => {
            proof {
                encode_utf8_decode_utf8(s@);
            }
            s
        },
        None => unreached(),
    }
}

/// Reads valid UTF-8 as a string slice through which the same bytes can be
/// written.
fn as_str_mut(bytes: &mut [u8]) -> (s: &mut str)
    requires
        valid_utf8(old(bytes)@),
    ensures
        s.spec_bytes() == old(bytes)@,
        s@ == decode_utf8(old(bytes)@),
        final(bytes)@ == final(s).spec_bytes(),
{
    match str_from_utf8_mut(bytes) {
        Some(s) => {
            proof {
                encode_utf8_decode_utf8(s@);
            }
            s
        },
        None => unreached(),
    }
}

impl<const SIZE: usize> Str<SIZE> {
    /// The bytes held, in storage order.
    pub closed spec fn spec_bytes(&self) -> Seq<u8> {
        self.buf@
    }

    /// The invariant of the type: the bytes held are valid UTF-8.
    ///
    /// Every constructor establishes it. Only writing through
    /// [`Str::as_bytes_mut`] can break it, and whoever does so has to restore
    /// it before calling a function that requires it.
    pub open spec fn wf(&self) -> bool {
        valid_utf8(self.spec_bytes())
    }

    /// The characters that the bytes encode, each with the offset of its
    /// first byte.
    pub open spec fn spec_char_indices(&self) -> Seq<(int, char)> {
        chars_with_offsets(self@, 0)
    }

    /// The string of `SIZE` zero bytes, which reads as `SIZE` NUL characters.
    pub fn zeroed() -> (s: Self)
        ensures
            s.wf(),
            s.spec_bytes() == Seq::new(SIZE as nat, |i: int| 0u8),
            s@ == Seq::new(SIZE as nat, |i: int| '\0'),
    {
        proof {
            lemma_zero_bytes(SIZE as nat);
        }
        let s = Str { buf: [0u8; SIZE] };
        assert(s.spec_bytes() == Seq::new(SIZE as nat, |i: int| 0u8));
        s
    }

    /// The string that holds `bytes`, where they are valid UTF-8; `None`
    /// where they are not.
    pub fn from_utf8(bytes: [u8; SIZE]) -> (r: Option<Self>)
        ensures
            r is Some <==> valid_utf8(bytes@),
            r matches Some(s) ==> s.wf() && s.spec_bytes() == bytes@ && s@ == decode_utf8(bytes@),
    {
        if is_valid_utf8(&bytes) {
            Some(Str { buf: bytes })
        } else {
            None
        }
    }

    /// The string that holds `bytes`, with no test of them: that they are
    /// valid UTF-8 is the caller's to show.
    pub fn from_utf8_unchecked(bytes: [u8; SIZE]) -> (s: Self)
        requires
            valid_utf8(bytes@),
        ensures
            s.wf(),
            s.spec_bytes() == bytes@,
            s@ == decode_utf8(bytes@),
    {
        Str { buf: bytes }
    }

    /// There are always exactly `SIZE` bytes.
    pub broadcast proof fn lemma_spec_bytes_len(&self)
        ensures
            #[trigger] self.spec_bytes().len() == SIZE,
    {
    }

    /// The length in bytes, which is always `SIZE`.
    pub fn len(&self) -> (n: usize)
        ensures
            n == SIZE,
            n == self.spec_bytes().len(),
    {
        self.buf.len()
    }

    /// Whether the string holds no bytes at all.
    pub fn is_empty(&self) -> (b: bool)
        ensures
            b == (SIZE == 0),
            b == (self.spec_bytes().len() == 0),
    {
        self.len() == 0
    }

    /// Whether `index` is the start of the string, its end, or the first byte
    /// of an encoded character.
    ///
    /// An index past the end is not a boundary: the answer is `false`.
    pub fn is_char_boundary(&self, index: usize) -> (b: bool)
        ensures
            b == boundary_at(self.spec_bytes(), index as int),
            index == 0 || index == SIZE ==> b,
            0 < index < SIZE ==> b == !is_continuation_byte(self.spec_bytes()[index as int]),
            index > SIZE ==> !b,
            self.wf() ==> b == is_char_boundary(self.spec_bytes(), index as int),
    {
        proof {
            if self.wf() {
                lemma_boundary_at_is_char_boundary(self.spec_bytes(), index as int);
            }
        }
        // The two ends need no look at the bytes.
        if index == 0 || index == self.len() {
            true
        } else {
            match self.as_bytes().get(index) {
                None => false,
                Some(b) => {
                    proof {
                        lemma_signed_byte_test(*b);
                    }
                    (*b as i8) >= -0x40
                },
            }
        }
    }

    /// The bytes held, as an array of `SIZE` bytes.
    pub fn as_bytes(&self) -> (bytes: &[u8; SIZE])
        ensures
            bytes@ == self.spec_bytes(),
    {
        &self.buf
    }

    /// The bytes held, open to any change.
    ///
    /// This is the one way around the invariant: nothing is asked of what
    /// gets written. Afterwards the string holds whatever the returned array
    /// holds, and [`Str::wf`] is the caller's to prove again before the next
    /// call that requires it.
    pub fn as_bytes_mut(&mut self) -> (bytes: &mut [u8; SIZE])
        ensures
            bytes@ == old(self).spec_bytes(),
            final(self).spec_bytes() == final(bytes)@,
    {
        &mut self.buf
    }

    /// The bytes `begin..end` as a string slice, with no test of the two
    /// ends: that both are boundaries is the caller's to show.
    pub fn slice_unchecked(&self, begin: usize, end: usize) -> (s: &str)
        requires
            self.wf(),
            begin <= end,
            is_char_boundary(self.spec_bytes(), begin as int),
            is_char_boundary(self.spec_bytes(), end as int),
        ensures
            s.spec_bytes() == self.spec_bytes().subrange(begin as int, end as int),
            s@ == decode_utf8(self.spec_bytes().subrange(begin as int, end as int)),
    {
        proof {
            lemma_valid_between_boundaries(self.spec_bytes(), begin as int, end as int);
        }
        as_str(&self.buf[begin..end])
    }

    /// The bytes `begin..end` as a string slice that can be written through,
    /// with no test of the two ends. The bytes outside the range stay as they
    /// are, and the string stays valid.
    pub fn slice_mut_unchecked(&mut self, begin: usize, end: usize) -> (s: &mut str)
        requires
            old(self).wf(),
            begin <= end,
            is_char_boundary(old(self).spec_bytes(), begin as int),
            is_char_boundary(old(self).spec_bytes(), end as int),
        ensures
            s.spec_bytes() == old(self).spec_bytes().subrange(begin as int, end as int),
            s@ == decode_utf8(old(self).spec_bytes().subrange(begin as int, end as int)),
            final(self).spec_bytes() == old(self).spec_bytes().subrange(0, begin as int) + final(
                s
            ).spec_bytes() + old(self).spec_bytes().subrange(end as int, SIZE as int),
            final(self).wf(),
    {
        proof {
            lemma_valid_between_boundaries(self.spec_bytes(), begin as int, end as int);
        }
        let ghost before = self.spec_bytes();
        let (head, rest) = self.buf.split_at_mut(begin);
        let (middle, tail) = rest.split_at_mut(end - begin);
        assert(middle@ == before.subrange(begin as int, end as int));
        let s = as_str_mut(middle);
        proof {
            encode_utf8_valid_utf8(final(s)@);
            lemma_valid_three_pieces(
                before.subrange(0, begin as int),
                final(s).spec_bytes(),
                before.subrange(end as int, SIZE as int),
            );
            assert(final(self).spec_bytes() == before.subrange(0, begin as int) + final(
                s
            ).spec_bytes() + before.subrange(end as int, SIZE as int));
        }
        s
    }

    /// Cuts the string in two at `mid`, or says why it cannot be cut there.
    ///
    /// The cut is made exactly when `mid` is a boundary. The two parts are
    /// then the bytes before `mid` and the bytes from `mid` on: each is valid
    /// UTF-8, and one after the other they are the whole string.
    pub fn split_at_checked(&self, mid: usize) -> (r: Result<(&str, &str), BoundaryViolation>)
        requires
            self.wf(),
        ensures
            r is Ok <==> is_char_boundary(self.spec_bytes(), mid as int),
            r matches Ok((front, back)) ==> {
                &&& front.spec_bytes() == self.spec_bytes().subrange(0, mid as int)
                &&& back.spec_bytes() == self.spec_bytes().subrange(mid as int, SIZE as int)
                &&& front.spec_bytes() + back.spec_bytes() == self.spec_bytes()
                &&& valid_utf8(front.spec_bytes())
                &&& valid_utf8(back.spec_bytes())
                &&& front@ + back@ == self@
            },
            r matches Err(e) ==> {
                &&& e == violation_of(self.spec_bytes(), 0, mid)
                &&& mid > SIZE ==> e == (BoundaryViolation::OutOfRange {
                    index: mid,
                    begin: 0,
                    end: mid,
                })
                &&& mid <= SIZE ==> e == (BoundaryViolation::InsideChar {
                    index: mid,
                    begin: 0,
                    end: mid,
                })
            },
    {
        if self.is_char_boundary(mid) {
            proof {
                lemma_cut_at_boundary(self.spec_bytes(), mid as int);
            }
            let (front, back) = self.buf.split_at(mid);
            Ok((as_str(front), as_str(back)))
        } else {
            Err(slice_error_fail(self, 0, mid))
        }
    }

    /// Cuts the string in two at the boundary `mid`.
    ///
    /// An offset that is no boundary is not accepted here: see
    /// [`Str::split_at_checked`] for the call that tests it.
    pub fn split_at(&self, mid: usize) -> (r: (&str, &str))
        requires
            self.wf(),
            is_char_boundary(self.spec_bytes(), mid as int),
        ensures
            r.0.spec_bytes() == self.spec_bytes().subrange(0, mid as int),
            r.1.spec_bytes() == self.spec_bytes().subrange(mid as int, SIZE as int),
            r.0.spec_bytes() + r.1.spec_bytes() == self.spec_bytes(),
            valid_utf8(r.0.spec_bytes()),
            valid_utf8(r.1.spec_bytes()),
            r.0@ + r.1@ == self@,
    {
        match self.split_at_checked(mid) {
            Ok(r) => r,
            Err(_) => unreached(),
        }
    }

    /// Cuts the string in two at `mid` for writing, or says why it cannot be
    /// cut there.
    ///
    /// The cut is made exactly when `mid` is a boundary. Afterwards the
    /// string holds what the first part holds, followed by what the second
    /// holds, and is valid. Where no cut is made the string is untouched.
    pub fn split_at_mut_checked(&mut self, mid: usize) -> (r: Result<
        (&mut str, &mut str),
        BoundaryViolation,
    >)
        requires
            old(self).wf(),
        ensures
            r is Ok <==> is_char_boundary(old(self).spec_bytes(), mid as int),
            r matches Ok((front, back)) ==> {
                &&& front.spec_bytes() == old(self).spec_bytes().subrange(0, mid as int)
                &&& back.spec_bytes() == old(self).spec_bytes().subrange(mid as int, SIZE as int)
                &&& front.spec_bytes() + back.spec_bytes() == old(self).spec_bytes()
                &&& valid_utf8(front.spec_bytes())
                &&& valid_utf8(back.spec_bytes())
                &&& front@ + back@ == old(self)@
                &&& final(self).spec_bytes() == final(front).spec_bytes() + final(
                    back
                ).spec_bytes()
                &&& final(self).wf()
            },
            r matches Err(e) ==> {
                &&& e == violation_of(old(self).spec_bytes(), 0, mid)
                &&& mid > SIZE ==> e == (BoundaryViolation::OutOfRange {
                    index: mid,
                    begin: 0,
                    end: mid,
                })
                &&& mid <= SIZE ==> e == (BoundaryViolation::InsideChar {
                    index: mid,
                    begin: 0,
                    end: mid,
                })
                &&& final(self).spec_bytes() == old(self).spec_bytes()
            },
    {
        if self.is_char_boundary(mid) {
            proof {
                lemma_cut_at_boundary(self.spec_bytes(), mid as int);
            }
            let (front, back) = self.buf.split_at_mut(mid);
            let front = as_str_mut(front);
            let back = as_str_mut(back);
            proof {
                encode_utf8_valid_utf8(final(front)@);
                encode_utf8_valid_utf8(final(back)@);
                valid_utf8_concat(final(front).spec_bytes(), final(back).spec_bytes());
            }
            Ok((front, back))
        } else {
            Err(slice_error_fail(self, 0, mid))
        }
    }

    /// Cuts the string in two at the boundary `mid`, for writing.
    ///
    /// An offset that is no boundary is not accepted here: see
    /// [`Str::split_at_mut_checked`] for the call that tests it.
    pub fn split_at_mut(&mut self, mid: usize) -> (r: (&mut str, &mut str))
        requires
            old(self).wf(),
            is_char_boundary(old(self).spec_bytes(), mid as int),
        ensures
            r.0.spec_bytes() == old(self).spec_bytes().subrange(0, mid as int),
            r.1.spec_bytes() == old(self).spec_bytes().subrange(mid as int, SIZE as int),
            r.0.spec_bytes() + r.1.spec_bytes() == old(self).spec_bytes(),
            valid_utf8(r.0.spec_bytes()),
            valid_utf8(r.1.spec_bytes()),
            r.0@ + r.1@ == old(self)@,
            final(self).spec_bytes() == final(r.0).spec_bytes() + final(r.1).spec_bytes(),
            final(self).wf(),
    {
        match self.split_at_mut_checked(mid) {
            Ok(r) => r,
            Err(_) => unreached(),
        }
    }

    /// A walk over the characters, from the first on.
    pub fn chars(&self) -> (it: Chars<'_, SIZE>)
        requires
            self.wf(),
        ensures
            it.remaining() == self@,
    {
        Chars::new(self)
    }

    /// A walk over the characters, from the first on, that also gives the
    /// offset at which each one starts.
    pub fn char_indices(&self) -> (it: CharIndices<'_, SIZE>)
        requires
            self.wf(),
        ensures
            it.remaining() == self.spec_char_indices(),
    {
        CharIndices::new(self)
    }

    /// A walk over the bytes, from the first on.
    pub fn bytes(&self) -> (it: Bytes<'_, SIZE>)
        ensures
            it.remaining() == self.spec_bytes(),
    {
        Bytes::new(self)
    }

    /// The whole string as a string slice.
    pub fn as_slice(&self) -> (s: &str)
        requires
            self.wf(),
        ensures
            s.spec_bytes() == self.spec_bytes(),
            s@ == self@,
    {
        as_str(&self.buf)
    }

    /// The whole string as a string slice that can be written through.
    /// Whatever is written, the string stays valid.
    pub fn as_slice_mut(&mut self) -> (s: &mut str)
        requires
            old(self).wf(),
        ensures
            s.spec_bytes() == old(self).spec_bytes(),
            s@ == old(self)@,
            final(self).spec_bytes() == final(s).spec_bytes(),
            final(self)@ == final(s)@,
            final(self).wf(),
    {
        let s = as_str_mut(&mut self.buf);
        proof {
            encode_utf8_valid_utf8(final(s)@);
            encode_utf8_decode_utf8(final(s)@);
        }
        s
    }
}

} // verus!
