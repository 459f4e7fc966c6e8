//! Conversions between owned strings and their character sequences.
use vstd::prelude::*;

verus! {

/// Relies on `String`'s `FromIterator<char>`: collecting characters yields
/// the string with exactly those characters, in order.
#[verifier::external_body]
pub(crate) fn chars_to_string(v: Vec<char>) -> (r: String)
    ensures
        r@ == v@,
{
    v.into_iter().collect()
}

/// Relies on `str::chars`: the characters of the slice, in order.
#[verifier::external_body]
pub(crate) fn str_chars(s: &str) -> (r: Vec<char>)
    ensures
        r@ == s@,
{
    s.chars().collect()
}

} // verus!
