//! Unicode character classes, as the standard library decides them.
use vstd::prelude::*;

verus! {

/// Whether `char::is_numeric` holds of `c` (a Unicode numeric general category).
pub uninterp spec fn numeric_char(c: char) -> bool;

/// Whether `char::is_alphabetic` holds of `c` (the Unicode `Alphabetic` property).
pub uninterp spec fn alphabetic_char(c: char) -> bool;

/// Whether `char::is_whitespace` holds of `c` (the Unicode `White_Space` property).
pub uninterp spec fn whitespace_char(c: char) -> bool;

/// Whether `c` is one of the ASCII digits `0` to `9`.
pub open spec fn is_ascii_digit(c: char) -> bool {
    48 <= (c as u32) <= 57
}

/// Whether `c` is one of the ASCII letters `a` to `z` and `A` to `Z`.
pub open spec fn is_ascii_letter(c: char) -> bool {
    65 <= (c as u32) <= 90 || 97 <= (c as u32) <= 122
}

/// Whether `c` is alphabetic or numeric, as `char::is_alphanumeric` is documented to decide.
pub open spec fn alphanumeric_char(c: char) -> bool {
    alphabetic_char(c) || numeric_char(c)
}

/// Calls `char::is_numeric`; of the ASCII characters only the digits `0` to `9` are
/// numeric.
#[verifier::external_body]
pub fn is_numeric(c: char) -> (res: bool)
    ensures
        res == numeric_char(c),
        (c as u32) < 128 ==> (res <==> is_ascii_digit(c)),
{
    c.is_numeric()
}

/// Calls `char::is_alphabetic`; of the ASCII characters only the letters `a` to `z`
/// and `A` to `Z` are alphabetic.
#[verifier::external_body]
pub fn is_alphabetic(c: char) -> (res: bool)
    ensures
        res == alphabetic_char(c),
        (c as u32) < 128 ==> (res <==> is_ascii_letter(c)),
{
    c.is_alphabetic()
}

/// Calls `char::is_alphanumeric`, which the standard library documents as
/// "`is_alphabetic()` or `is_numeric()`": of the ASCII characters, the letters and
/// the digits.
#[verifier::external_body]
pub fn is_alphanumeric(c: char) -> (res: bool)
    ensures
        res == alphanumeric_char(c),
        (c as u32) < 128 ==> (res <==> is_ascii_letter(c) || is_ascii_digit(c)),
{
    c.is_alphanumeric()
}

/// Whether `char::is_uppercase` holds of `c` (the Unicode `Uppercase` property).
pub uninterp spec fn uppercase_char(c: char) -> bool;

/// Calls `char::is_uppercase`; of the ASCII characters only `A` to `Z` are uppercase.
#[verifier::external_body]
pub fn is_uppercase(c: char) -> (res: bool)
    ensures
        res == uppercase_char(c),
        (c as u32) < 128 ==> (res <==> 65 <= (c as u32) <= 90),
{
    c.is_uppercase()
}

/// Calls `char::is_whitespace`; of the ASCII characters the space, tab, line feed,
/// vertical tab, form feed and carriage return are white space.
#[verifier::external_body]
pub fn is_whitespace(c: char) -> (res: bool)
    ensures
        res == whitespace_char(c),
        (c as u32) < 128 ==> (res <==> (c as u32) == 32 || 9 <= (c as u32) <= 13),
{
    c.is_whitespace()
}

} // verus!
