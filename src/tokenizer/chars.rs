use vstd::prelude::*;

verus! {

/// What `char::is_whitespace` says of `c`.
pub uninterp spec fn whitespace_char(c: char) -> bool;

/// What `char::is_alphabetic` says of `c`.
pub uninterp spec fn alphabetic_char(c: char) -> bool;

/// What `char::is_alphanumeric` says of `c`.
pub uninterp spec fn alphanumeric_char(c: char) -> bool;

/// Relies on `char::is_whitespace`: Unicode's White_Space property.
#[verifier::external_body]
pub(crate) fn is_whitespace(c: char) -> (r: bool)
    ensures
        r == whitespace_char(c),
{
    c.is_whitespace()
}

/// Relies on `char::is_alphabetic`: Unicode's Alphabetic property.
#[verifier::external_body]
pub(crate) fn is_alphabetic(c: char) -> (r: bool)
    ensures
        r == alphabetic_char(c),
{
    c.is_alphabetic()
}

/// Relies on `char::is_alphanumeric`: alphabetic or numeric in Unicode, so
/// true of every alphabetic character.
#[verifier::external_body]
pub(crate) fn is_alphanumeric(c: char) -> (r: bool)
    ensures
        r == alphanumeric_char(c),
        alphabetic_char(c) ==> r,
{
    c.is_alphanumeric()
}

/// Relies on `str::chars`, collected: the characters of `s` in order.
#[verifier::external_body]
pub(crate) fn chars_of(s: &str) -> (r: Vec<char>)
    ensures
        r@ == s@,
{
    s.chars().collect()
}

pub open spec fn is_digit(c: char) -> bool {
    '0' <= c <= '9'
}

/// The value of a run of decimal digits.
pub open spec fn digits_value(s: Seq<char>) -> int
    decreases s.len(),
{
    if s.len() == 0 {
        0
    } else {
        digits_value(s.drop_last()) * 10 + (s.last() as int - '0' as int)
    }
}

} // verus!
