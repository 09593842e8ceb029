//! Character classification and small string-building helpers.
//!
//! Decimal digits are pinned down exactly; the Unicode-defined classes
//! (alphabetic, whitespace) and Unicode lowercasing are taken from std
//! behind named results.

use vstd::prelude::*;

verus! {

/// An ASCII decimal digit, `'0'` through `'9'`.
pub open spec fn is_digit_char(c: char) -> bool {
    48 <= c as u32 <= 57
}

/// Executable digit test; matches `is_digit_char` exactly.
pub(crate) fn is_digit(c: char) -> (r: bool)
    ensures
        r == is_digit_char(c),
{
    let u = c as u32;
    48 <= u && u <= 57
}

/// Whether `c` is alphabetic in the Unicode sense.
pub uninterp spec fn is_alpha_of(c: char) -> bool;

/// Relies on `char::is_alphabetic`: a pure function of the character.
#[verifier::external_body]
pub(crate) fn is_alpha(c: char) -> (r: bool)
    ensures
        r == is_alpha_of(c),
{
    c.is_alphabetic()
}

/// Whether `c` is whitespace in the Unicode sense.
pub uninterp spec fn is_space_of(c: char) -> bool;

/// Relies on `char::is_whitespace`: a pure function of the character.
#[verifier::external_body]
pub(crate) fn is_space(c: char) -> (r: bool)
    ensures
        r == is_space_of(c),
{
    c.is_whitespace()
}

/// The Unicode lowercase form of a sequence of characters.
pub uninterp spec fn lower_of(s: Seq<char>) -> Seq<char>;

/// Relies on `str::to_lowercase`: a pure function of the characters.
#[verifier::external_body]
pub(crate) fn to_lower(s: &str) -> (r: String)
    ensures
        r@ == lower_of(s@),
{
    s.to_lowercase()
}

/// Relies on `String::push`: appends one character.
#[verifier::external_body]
pub(crate) fn push_char(s: &mut String, c: char)
    ensures
        final(s)@ == old(s)@.push(c),
{
    s.push(c);
}

} // verus!
