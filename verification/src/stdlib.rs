//! Thin wrappers around the two standard library calls that vstd leaves
//! unspecified.

use crate::digits::is_scalar_value;
use vstd::prelude::*;

verus! {

/// Relies on `char::from_u32`: it returns `Some` exactly when the value is a
/// Unicode scalar (at most U+10FFFF and not in the surrogate range), and the
/// returned character has that value.
#[verifier::external_body]
pub(crate) fn char_from_u32(v: u32) -> (r: Option<char>)
    ensures
        r is Some <==> is_scalar_value(v as nat),
        r matches Some(c) ==> c as u32 == v,
{
    char::from_u32(v)
}

/// Relies on `String::push`: it appends one character at the end of the
/// string.
#[verifier::external_body]
pub(crate) fn push_char(s: &mut String, c: char)
    ensures
        final(s)@ == old(s)@.push(c),
{
    s.push(c);
}

} // verus!
