//! Double-precision values carried as their IEEE-754 bit patterns.
//!
//! The calculator's numbers are 64-bit floating-point values.  Inside the
//! verified code each number is its bit pattern, a `u64`: the classification
//! predicates (zero, infinite, not-a-number) are then plain integer
//! arithmetic, stated and proved here, while the arithmetic operations
//! themselves are std calls.  An operation whose result IEEE 754 pins down
//! exactly — `+ - * /` on finite operands, the square root of a
//! non-negative value — carries a named result, a deterministic function
//! of the operand bits; the others (`powf` and the trigonometric
//! functions, whose precision std documents as platform-defined) promise
//! only what holds of every outcome.

use crate::text::is_digit_char;
use vstd::prelude::*;

verus! {

/// The bit pattern with the sign bit cleared.
pub open spec fn abs_bits(b: u64) -> u64 {
    b & 0x7fff_ffff_ffff_ffff
}

/// A not-a-number pattern: exponent all ones, fraction non-zero.
pub open spec fn is_nan_bits(b: u64) -> bool {
    abs_bits(b) > 0x7ff0_0000_0000_0000
}

/// An infinity: exponent all ones, fraction zero.
pub open spec fn is_inf_bits(b: u64) -> bool {
    abs_bits(b) == 0x7ff0_0000_0000_0000
}

/// Positive or negative zero; exactly the patterns that compare equal to
/// zero under the `==` of the carried values.
pub open spec fn is_zero_bits(b: u64) -> bool {
    abs_bits(b) == 0
}

/// The sign bit is set.
pub open spec fn is_neg_bits(b: u64) -> bool {
    b >= 0x8000_0000_0000_0000
}

/// Executable counterpart of `is_nan_bits`.
pub(crate) fn is_nan(b: u64) -> (r: bool)
    ensures
        r == is_nan_bits(b),
{
    (b & 0x7fff_ffff_ffff_ffff) > 0x7ff0_0000_0000_0000
}

/// Executable counterpart of `is_inf_bits`.
pub(crate) fn is_inf(b: u64) -> (r: bool)
    ensures
        r == is_inf_bits(b),
{
    (b & 0x7fff_ffff_ffff_ffff) == 0x7ff0_0000_0000_0000
}

/// Executable counterpart of `is_zero_bits`.
pub(crate) fn is_zero(b: u64) -> (r: bool)
    ensures
        r == is_zero_bits(b),
{
    (b & 0x7fff_ffff_ffff_ffff) == 0
}

/// The sum of the two finite values with bit patterns `a` and `b`.  Named
/// only where `add_bits` may be called: on finite operands the sum is the
/// IEEE-correctly-rounded result, a deterministic function of the bits.
pub uninterp spec fn sum_bits_of(a: u64, b: u64) -> u64;

/// The difference of the finite value with pattern `a` and the one with
/// pattern `b`; deterministic on the domain `sub_bits` admits.
pub uninterp spec fn diff_bits_of(a: u64, b: u64) -> u64;

/// The product of the two finite values with bit patterns `a` and `b`;
/// deterministic on the domain `mul_bits` admits.
pub uninterp spec fn prod_bits_of(a: u64, b: u64) -> u64;

/// The quotient of the finite value with pattern `a` by the finite
/// non-zero one with pattern `b`; deterministic on the domain `div_bits`
/// admits.
pub uninterp spec fn quot_bits_of(a: u64, b: u64) -> u64;

/// The square root of the value with bit pattern `b`, named only for
/// inputs that are neither not-a-number nor negative (a negative zero is
/// allowed): there the square root is IEEE-exact and deterministic.
pub uninterp spec fn sqrt_bits_of(b: u64) -> u64;

/// Relies on the `+` of the primitive 64-bit float: on finite operands the
/// sum is IEEE-correctly-rounded, a pure function of the operands' bit
/// patterns.  Not-a-number and infinite operands are excluded: they could
/// produce a not-a-number result whose bit pattern the documentation
/// leaves non-deterministic.  `byteorder::LittleEndian::read_f64` only
/// reinterprets the bits.
#[verifier::external_body]
pub(crate) fn add_bits(a: u64, b: u64) -> (r: u64)
    requires
        !is_nan_bits(a),
        !is_nan_bits(b),
        !is_inf_bits(a),
        !is_inf_bits(b),
    ensures
        r == sum_bits_of(a, b),
{
    let x = <byteorder::LittleEndian as byteorder::ByteOrder>::read_f64(&a.to_le_bytes());
    let y = <byteorder::LittleEndian as byteorder::ByteOrder>::read_f64(&b.to_le_bytes());
    (x + y).to_bits()
}

/// Relies on the `-` of the primitive 64-bit float, as `add_bits` does on
/// `+`, with the same exclusions for the same reason.
#[verifier::external_body]
pub(crate) fn sub_bits(a: u64, b: u64) -> (r: u64)
    requires
        !is_nan_bits(a),
        !is_nan_bits(b),
        !is_inf_bits(a),
        !is_inf_bits(b),
    ensures
        r == diff_bits_of(a, b),
{
    let x = <byteorder::LittleEndian as byteorder::ByteOrder>::read_f64(&a.to_le_bytes());
    let y = <byteorder::LittleEndian as byteorder::ByteOrder>::read_f64(&b.to_le_bytes());
    (x - y).to_bits()
}

/// Relies on the `*` of the primitive 64-bit float, as `add_bits` does on
/// `+`, with the same exclusions for the same reason.
#[verifier::external_body]
pub(crate) fn mul_bits(a: u64, b: u64) -> (r: u64)
    requires
        !is_nan_bits(a),
        !is_nan_bits(b),
        !is_inf_bits(a),
        !is_inf_bits(b),
    ensures
        r == prod_bits_of(a, b),
{
    let x = <byteorder::LittleEndian as byteorder::ByteOrder>::read_f64(&a.to_le_bytes());
    let y = <byteorder::LittleEndian as byteorder::ByteOrder>::read_f64(&b.to_le_bytes());
    (x * y).to_bits()
}

/// Relies on the `/` of the primitive 64-bit float, as `add_bits` does on
/// `+`.  A zero divisor is excluded too, so no division here yields a
/// not-a-number; division never panics.
#[verifier::external_body]
pub(crate) fn div_bits(a: u64, b: u64) -> (r: u64)
    requires
        !is_nan_bits(a),
        !is_nan_bits(b),
        !is_inf_bits(a),
        !is_inf_bits(b),
        !is_zero_bits(b),
    ensures
        r == quot_bits_of(a, b),
{
    let x = <byteorder::LittleEndian as byteorder::ByteOrder>::read_f64(&a.to_le_bytes());
    let y = <byteorder::LittleEndian as byteorder::ByteOrder>::read_f64(&b.to_le_bytes());
    (x / y).to_bits()
}

/// Relies on the `powf` method of the primitive 64-bit float.  Its
/// precision is documented as non-deterministic — it may differ by
/// platform and even between invocations — so nothing is promised of the
/// result beyond its being returned; the call never panics.
#[verifier::external_body]
pub(crate) fn pow_bits(a: u64, b: u64) -> u64 {
    let x = <byteorder::LittleEndian as byteorder::ByteOrder>::read_f64(&a.to_le_bytes());
    let y = <byteorder::LittleEndian as byteorder::ByteOrder>::read_f64(&b.to_le_bytes());
    x.powf(y).to_bits()
}

/// Relies on the `sin` method of the primitive 64-bit float.  Its
/// precision is documented as non-deterministic, so only what every
/// outcome satisfies is stated: a not-a-number input propagates.
#[verifier::external_body]
pub(crate) fn sin_bits(b: u64) -> (r: u64)
    ensures
        is_nan_bits(b) ==> is_nan_bits(r),
{
    let x = <byteorder::LittleEndian as byteorder::ByteOrder>::read_f64(&b.to_le_bytes());
    x.sin().to_bits()
}

/// Relies on the `cos` method of the primitive 64-bit float, as `sin_bits`
/// does on `sin`: only not-a-number propagation is stated.
#[verifier::external_body]
pub(crate) fn cos_bits(b: u64) -> (r: u64)
    ensures
        is_nan_bits(b) ==> is_nan_bits(r),
{
    let x = <byteorder::LittleEndian as byteorder::ByteOrder>::read_f64(&b.to_le_bytes());
    x.cos().to_bits()
}

/// Relies on the `tan` method of the primitive 64-bit float, as `sin_bits`
/// does on `sin`: only not-a-number propagation is stated.
#[verifier::external_body]
pub(crate) fn tan_bits(b: u64) -> (r: u64)
    ensures
        is_nan_bits(b) ==> is_nan_bits(r),
{
    let x = <byteorder::LittleEndian as byteorder::ByteOrder>::read_f64(&b.to_le_bytes());
    x.tan().to_bits()
}

/// Relies on the `sqrt` method of the primitive 64-bit float: IEEE-exact
/// and deterministic on inputs that are neither not-a-number nor negative
/// (the square root of a negative zero is that zero itself); every other
/// input — not-a-number, or negative and non-zero — yields a not-a-number
/// pattern, propagated without a panic.
#[verifier::external_body]
pub(crate) fn sqrt_bits(b: u64) -> (r: u64)
    ensures
        !is_nan_bits(b) && !(is_neg_bits(b) && !is_zero_bits(b)) ==> r == sqrt_bits_of(b),
        is_nan_bits(b) || (is_neg_bits(b) && !is_zero_bits(b)) ==> is_nan_bits(r),
{
    let x = <byteorder::LittleEndian as byteorder::ByteOrder>::read_f64(&b.to_le_bytes());
    x.sqrt().to_bits()
}

/// A character that may continue a numeric literal: a digit or a decimal
/// point.
pub open spec fn digdot(c: char) -> bool {
    is_digit_char(c) || c == '.'
}

/// Whether the sequence holds two distinct decimal points.
pub open spec fn has_two_dots(s: Seq<char>) -> bool {
    exists|k1: int, k2: int| 0 <= k1 < k2 < s.len() && s[k1] == '.' && s[k2] == '.'
}

/// The shape of a numeric literal as the tokenizer produces it: an optional
/// leading minus sign, then a digit, then digits with at most one decimal
/// point among them — that is, an integer part, optionally followed by a
/// point and a (possibly empty) fractional part.
pub open spec fn num_lit_shape(s: Seq<char>) -> bool {
    let body = if s.len() > 0 && s[0] == '-' {
        s.skip(1)
    } else {
        s
    };
    body.len() >= 1 && is_digit_char(body[0]) && (forall|k: int|
        0 <= k < body.len() ==> digdot(#[trigger] body[k])) && !has_two_dots(body)
}

/// The bit pattern of the 64-bit float that the decimal literal `s` denotes.
pub uninterp spec fn parse_bits_of(s: Seq<char>) -> u64;

/// Relies on `str::parse` for the primitive 64-bit float: a pure function of
/// the characters.  Every literal of `num_lit_shape` parses successfully, so
/// the call cannot panic.
#[verifier::external_body]
pub(crate) fn parse_bits(s: &str) -> (r: u64)
    requires
        num_lit_shape(s@),
    ensures
        r == parse_bits_of(s@),
{
    let v = s.parse().unwrap();
    let mut buf = [0u8; 8];
    <byteorder::LittleEndian as byteorder::ByteOrder>::write_f64(&mut buf, v);
    u64::from_le_bytes(buf)
}

/// The default decimal rendering of the value with bit pattern `b`.
pub uninterp spec fn fmt_bits_of(b: u64) -> Seq<char>;

/// Relies on the `Display` of the primitive 64-bit float: a pure function of
/// the bit pattern.
#[verifier::external_body]
pub(crate) fn fmt_bits(b: u64) -> (r: String)
    ensures
        r@ == fmt_bits_of(b),
{
    let x = <byteorder::LittleEndian as byteorder::ByteOrder>::read_f64(&b.to_le_bytes());
    format!("{x}")
}

} // verus!
