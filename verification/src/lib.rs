//! Strings of a fixed number of bytes.
//!
//! [`Str`] owns exactly `SIZE` bytes of UTF-8 text and offers the reading and
//! slicing interface of a string slice over them. What the bytes must satisfy,
//! where a cut between them is allowed, and which characters they decode to
//! are stated over `vstd::utf8` and proved for every function here.

pub mod boundary;
pub mod error;
pub mod fixed;
pub mod iter;
pub mod laws;
pub mod scalar;
pub mod std_specs;

pub use error::BoundaryViolation;
pub use fixed::Str;
pub use iter::{Bytes, CharIndices, Chars};
