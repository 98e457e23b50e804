//! Trusted wrappers around the string-building operations of `std` that
//! `vstd` gives no specification to.

use vstd::prelude::*;

verus! {

/// Relies on `String::push`: appends the character to the end of the string.
#[verifier::external_body]
pub(crate) fn push_char(s: &mut String, c: char)
    ensures
        final(s)@ == old(s)@.push(c),
{
    s.push(c)
}

/// Relies on `String::push_str`: appends the slice's characters to the end
/// of the string.
#[verifier::external_body]
pub(crate) fn push_str(s: &mut String, other: &str)
    ensures
        final(s)@ == old(s)@ + other@,
{
    s.push_str(other)
}

/// Relies on `String::pop`: removes the last character and returns it, or
/// returns `None` when the string is empty.
#[verifier::external_body]
pub(crate) fn pop_char(s: &mut String) -> (r: Option<char>)
    ensures
        old(s)@.len() > 0 ==> final(s)@ == old(s)@.drop_last() && r == Some(old(s)@.last()),
        old(s)@.len() == 0 ==> final(s)@ == old(s)@ && r is None,
{
    s.pop()
}

} // verus!
