//! Walking over the bytes and the characters of a [`Str`].
//!
//! Each walker is made afresh by the string, borrows it, and hands out one
//! item per call of `next` until none is left. What is still to come is a
//! sequence, `remaining`, of which every `next` takes the head.

use vstd::prelude::*;
use vstd::utf8::{decode_utf8, valid_utf8};
use crate::fixed::Str;
use crate::scalar::{char_at, indexed_chars, lemma_decode_step, tail_from};
use crate::scalar::lemma_indexed_chars_offsets;

verus! {

/// The bytes of a string, from first to last.
pub struct Bytes<'a, const SIZE: usize> {
    src: &'a Str<SIZE>,
    pos: usize,
}

impl<'a, const SIZE: usize> Bytes<'a, SIZE> {
    #[verifier::type_invariant]
    spec fn inv(self) -> bool {
        self.pos <= SIZE
    }

    /// The bytes that have not been handed out yet.
    pub closed spec fn remaining(&self) -> Seq<u8> {
        tail_from(self.src.spec_bytes(), self.pos as int)
    }

    /// A walk over all the bytes of `src`.
    pub(crate) fn new(src: &'a Str<SIZE>) -> (it: Self)
        ensures
            it.remaining() == src.spec_bytes(),
    {

        Bytes { src, pos: 0 }
    }

    /// The next byte, or `None` when all have been handed out.
    pub fn next(&mut self) -> (item: Option<u8>)
        ensures
            old(self).remaining().len() == 0 ==> {
                &&& item is None
                &&& final(self).remaining() == old(self).remaining()
            },
            old(self).remaining().len() > 0 ==> {
                &&& item == Some(old(self).remaining()[0])
                &&& final(self).remaining() == old(self).remaining().drop_first()
            },
    {
        broadcast use Str::lemma_spec_bytes_len;

        proof {
            use_type_invariant(&*self);
        }
        if self.pos < SIZE {
            let b: u8 = self.src.as_bytes()[self.pos];
            self.pos = self.pos + 1;
            Some(b)
        } else {
            None
        }
    }
}

/// The characters of a string, from first to last.
pub struct Chars<'a, const SIZE: usize> {
    src: &'a Str<SIZE>,
    pos: usize,
}

impl<'a, const SIZE: usize> Chars<'a, SIZE> {
    #[verifier::type_invariant]
    spec fn inv(self) -> bool {
        &&& self.pos <= SIZE
        &&& valid_utf8(tail_from(self.src.spec_bytes(), self.pos as int))
    }

    /// The characters that have not been handed out yet.
    pub closed spec fn remaining(&self) -> Seq<char> {
        decode_utf8(tail_from(self.src.spec_bytes(), self.pos as int))
    }

    /// A walk over all the characters of `src`.
    pub(crate) fn new(src: &'a Str<SIZE>) -> (it: Self)
        requires
            src.wf(),
        ensures
            it.remaining() == src@,
    {

        assert(tail_from(src.spec_bytes(), 0) == src.spec_bytes());
        Chars { src, pos: 0 }
    }

    /// The next character, or `None` when all have been handed out.
    pub fn next(&mut self) -> (item: Option<char>)
        ensures
            old(self).remaining().len() == 0 ==> {
                &&& item is None
                &&& final(self).remaining() == old(self).remaining()
            },
            old(self).remaining().len() > 0 ==> {
                &&& item == Some(old(self).remaining()[0])
                &&& final(self).remaining() == old(self).remaining().drop_first()
            },
    {
        broadcast use Str::lemma_spec_bytes_len;

        proof {
            use_type_invariant(&*self);
        }
        if self.pos < SIZE {
            proof {
                lemma_decode_step(self.src.spec_bytes(), self.pos as int);
            }
            let (c, width) = char_at(self.src.as_bytes(), self.pos);
            self.pos = self.pos + width;
            Some(c)
        } else {
            None
        }
    }
}

/// The characters of a string, each with the offset of its first byte.
pub struct CharIndices<'a, const SIZE: usize> {
    src: &'a Str<SIZE>,
    pos: usize,
}

impl<'a, const SIZE: usize> CharIndices<'a, SIZE> {
    #[verifier::type_invariant]
    spec fn inv(self) -> bool {
        &&& self.pos <= SIZE
        &&& valid_utf8(tail_from(self.src.spec_bytes(), self.pos as int))
    }

    /// The characters that have not been handed out yet, each with the
    /// offset of its first byte in the string.
    pub closed spec fn remaining(&self) -> Seq<(int, char)> {
        indexed_chars(tail_from(self.src.spec_bytes(), self.pos as int), self.pos as int)
    }

    /// A walk over all the characters of `src`.
    pub(crate) fn new(src: &'a Str<SIZE>) -> (it: Self)
        requires
            src.wf(),
        ensures
            it.remaining() == src.spec_char_indices(),
    {

        proof {
            lemma_indexed_chars_offsets(src.spec_bytes(), 0);
        }
        assert(tail_from(src.spec_bytes(), 0) == src.spec_bytes());
        CharIndices { src, pos: 0 }
    }

    /// The next character and the offset of its first byte, or `None` when
    /// all have been handed out.
    pub fn next(&mut self) -> (item: Option<(usize, char)>)
        ensures
            old(self).remaining().len() == 0 ==> {
                &&& item is None
                &&& final(self).remaining() == old(self).remaining()
            },
            old(self).remaining().len() > 0 ==> {
                &&& item matches Some((at, c))
                &&& (at as int, c) == old(self).remaining()[0]
                &&& final(self).remaining() == old(self).remaining().drop_first()
            },
    {
        broadcast use Str::lemma_spec_bytes_len;

        proof {
            use_type_invariant(&*self);
        }
        if self.pos < SIZE {
            proof {
                lemma_decode_step(self.src.spec_bytes(), self.pos as int);
            }
            let at: usize = self.pos;
            let (c, width) = char_at(self.src.as_bytes(), at);
            self.pos = at + width;
            Some((at, c))
        } else {
            None
        }
    }
}

} // verus!
