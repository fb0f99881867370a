//! The error of a cut that is not allowed.

use vstd::prelude::*;
use crate::boundary::boundary_at;
use crate::fixed::Str;

verus! {

/// Why the bytes `begin..end` of a string cannot be taken as a string of
/// their own. `index` is the end of the range that is at fault.
#[derive(Debug, Clone, Copy, PartialEq, Eq, Structural)]
pub enum BoundaryViolation {
    /// `index` lies past the end of the string.
    OutOfRange { index: usize, begin: usize, end: usize },
    /// `index` falls inside an encoded character.
    InsideChar { index: usize, begin: usize, end: usize },
}

impl BoundaryViolation {
    /// The offset that is at fault.
    pub open spec fn spec_index(&self) -> usize {
        match *self {
            BoundaryViolation::OutOfRange { index, .. } => index,
            BoundaryViolation::InsideChar { index, .. } => index,
        }
    }

    /// The offset that is at fault.
    pub fn index(&self) -> (i: usize)
        ensures
            i == self.spec_index(),
    {
        match *self {
            BoundaryViolation::OutOfRange { index, .. } => index,
            BoundaryViolation::InsideChar { index, .. } => index,
        }
    }
}

/// The violation reported for a range that cannot be cut out of `bytes`.
/// An end past the last byte is reported before one inside a character,
/// and `begin` before `end`.
pub open spec fn violation_of(bytes: Seq<u8>, begin: usize, end: usize) -> BoundaryViolation {
    if begin > bytes.len() {
        BoundaryViolation::OutOfRange { index: begin, begin, end }
    } else if end > bytes.len() {
        BoundaryViolation::OutOfRange { index: end, begin, end }
    } else if !boundary_at(bytes, begin as int) {
        BoundaryViolation::InsideChar { index: begin, begin, end }
    } else {
        BoundaryViolation::InsideChar { index: end, begin, end }
    }
}

/// Describes what is wrong with cutting `begin..end` out of `s`, where at
/// least one of the two ends is no boundary.
///
/// The offset named in the result is always one of the two ends, and it
/// never passes the boundary test.
pub fn slice_error_fail<const SIZE: usize>(s: &Str<SIZE>, begin: usize, end: usize) -> (e:
    BoundaryViolation)
    requires
        begin <= end,
        !boundary_at(s.spec_bytes(), begin as int) || !boundary_at(s.spec_bytes(), end as int),
    ensures
        e == violation_of(s.spec_bytes(), begin, end),
        e.spec_index() == begin || e.spec_index() == end,
        !boundary_at(s.spec_bytes(), e.spec_index() as int),
        e is OutOfRange <==> e.spec_index() > SIZE,
{
    let len: usize = s.len();
    if begin > len {
        BoundaryViolation::OutOfRange { index: begin, begin, end }
    } else if end > len {
        BoundaryViolation::OutOfRange { index: end, begin, end }
    } else if !s.is_char_boundary(begin) {
        BoundaryViolation::InsideChar { index: begin, begin, end }
    } else {
        BoundaryViolation::InsideChar { index: end, begin, end }
    }
}

} // verus!
