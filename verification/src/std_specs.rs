//! What this crate takes on trust from the standard library.
//!
//! Nothing here is proved. Each item names the function of `core` that it
//! stands for and states what that function is documented to do.

use vstd::prelude::*;
use vstd::string::StringSliceAdditionalSpecFns;
use vstd::utf8::{is_scalar, valid_utf8};

verus! {

/// `core::str::from_utf8`, with its error dropped.
///
/// Trusted: the call succeeds exactly on valid UTF-8, and the string slice
/// that it then returns covers the very bytes that were passed in.
#[verifier::external_body]
pub(crate) fn str_from_utf8(bytes: &[u8]) -> (res: Option<&str>)
    ensures
        res is Some <==> valid_utf8(bytes@),
        res matches Some(s) ==> s.spec_bytes() == bytes@,
{
    match core::str::from_utf8(bytes) {
        Ok(s) => Some(s),
        Err(_) => None,
    }
}

/// `core::str::from_utf8_mut`, with its error dropped.
///
/// Trusted: the call succeeds exactly on valid UTF-8. The string slice that it
/// then returns starts out as the bytes passed in, and whatever is written
/// through it is what those bytes hold afterwards. On failure the bytes are
/// left as they were.
#[verifier::external_body]
pub(crate) fn str_from_utf8_mut(bytes: &mut [u8]) -> (res: Option<&mut str>)
    ensures
        res is Some <==> valid_utf8(old(bytes)@),
        res matches Some(s) ==> s.spec_bytes() == old(bytes)@,
        res matches Some(s) ==> final(bytes)@ == final(s).spec_bytes(),
        res is None ==> final(bytes)@ == old(bytes)@,
{
    match core::str::from_utf8_mut(bytes) {
        Ok(s) => Some(s),
        Err(_) => None,
    }
}

/// `char::from_u32`.
///
/// Trusted: a number is turned into the character with that value when it is
/// a Unicode scalar value, and refused otherwise.
pub assume_specification[ char::from_u32 ](i: u32) -> (c: Option<char>)
    ensures
        c == (if is_scalar(i) {
            Some(i as char)
        } else {
            None
        }),
;

} // verus!
