//! Metric values as IEEE-754 bit patterns.
//!
//! A metric value is a double-precision number, stored and carried as its
//! 64-bit pattern. Comparison-based combination (`min`, `max`) is
//! implemented here as verified code: a NaN operand is ignored in favour of
//! the other, as the floating-point `min`/`max` operations do, and two
//! numbers compare by the sign-magnitude total order on bit patterns, which
//! orders every pair of non-NaN values exactly as the floating-point `<`
//! does. Addition, truncation, parsing and rendering need real
//! floating-point arithmetic and rely on the software implementation in
//! `rustc_apfloat`, through the trusted functions below.

use rustc_apfloat::Float;
use vstd::prelude::*;

verus! {

/// Whether the bit pattern is a NaN: every exponent bit set and a nonzero
/// mantissa.
pub open spec fn spec_is_nan(bits: u64) -> bool {
    (bits >> 52) & 0x7ff == 0x7ff && bits & 0xf_ffff_ffff_ffff != 0
}

/// The sort key of a bit pattern under the sign-magnitude total order:
/// ordering keys by `<` on integers orders the values they stand for.
pub open spec fn spec_sort_key(bits: u64) -> int {
    if bits < 0x8000_0000_0000_0000 {
        bits + 0x8000_0000_0000_0000
    } else {
        0xffff_ffff_ffff_ffff - bits
    }
}

/// The smaller of two values: a NaN is ignored in favour of the other
/// operand; two numbers (or two NaNs) compare by the sign-magnitude order.
pub open spec fn spec_min(a: u64, b: u64) -> u64 {
    if spec_is_nan(a) && !spec_is_nan(b) {
        b
    } else if !spec_is_nan(a) && spec_is_nan(b) {
        a
    } else if spec_sort_key(a) <= spec_sort_key(b) {
        a
    } else {
        b
    }
}

/// The larger of two values: a NaN is ignored in favour of the other
/// operand; two numbers (or two NaNs) compare by the sign-magnitude order.
pub open spec fn spec_max(a: u64, b: u64) -> u64 {
    if spec_is_nan(a) && !spec_is_nan(b) {
        b
    } else if !spec_is_nan(a) && spec_is_nan(b) {
        a
    } else if spec_sort_key(a) >= spec_sort_key(b) {
        a
    } else {
        b
    }
}

fn is_nan(bits: u64) -> (r: bool)
    ensures
        r == spec_is_nan(bits),
{
    (bits >> 52) & 0x7ff == 0x7ff && bits & 0xf_ffff_ffff_ffff != 0
}

fn sort_key(bits: u64) -> (r: u64)
    ensures
        r == spec_sort_key(bits),
{
    if bits < 0x8000_0000_0000_0000 {
        bits + 0x8000_0000_0000_0000
    } else {
        0xffff_ffff_ffff_ffff - bits
    }
}

/// The smaller of the two values whose bit patterns are given; a NaN
/// operand is ignored in favour of the other, as `min` of floats does.
pub fn value_min(a: u64, b: u64) -> (r: u64)
    ensures
        r == spec_min(a, b),
{
    let a_nan = is_nan(a);
    let b_nan = is_nan(b);
    if a_nan && !b_nan {
        b
    } else if !a_nan && b_nan {
        a
    } else if sort_key(a) <= sort_key(b) {
        a
    } else {
        b
    }
}

/// The larger of the two values whose bit patterns are given; a NaN
/// operand is ignored in favour of the other, as `max` of floats does.
pub fn value_max(a: u64, b: u64) -> (r: u64)
    ensures
        r == spec_max(a, b),
{
    let a_nan = is_nan(a);
    let b_nan = is_nan(b);
    if a_nan && !b_nan {
        b
    } else if !a_nan && b_nan {
        a
    } else if sort_key(a) >= sort_key(b) {
        a
    } else {
        b
    }
}

/// The bit pattern of the IEEE-754 sum of the two values whose bit patterns
/// are given.
pub uninterp spec fn f64_add(a: u64, b: u64) -> u64;

/// Relies on `rustc_apfloat::ieee::Double`: `from_bits`, addition with
/// round-to-nearest-even, and `to_bits`. The sum is a function of the two
/// bit patterns alone.
#[verifier::external_body]
pub fn value_add(a: u64, b: u64) -> (r: u64)
    ensures
        r == f64_add(a, b),
{
    let x = rustc_apfloat::ieee::Double::from_bits(a as u128);
    let y = rustc_apfloat::ieee::Double::from_bits(b as u128);
    (x + y).value.to_bits() as u64
}

/// The decimal rendering of the value whose bit pattern is given.
pub uninterp spec fn f64_text(bits: u64) -> Seq<u8>;

/// Relies on `rustc_apfloat::ieee::Double`'s `Display`: a decimal rendering
/// that is a function of the bit pattern alone. A large width is requested
/// so that plain decimal notation is used wherever seventeen significant
/// digits suffice; magnitudes beyond that fall back to scientific notation
/// (`1.0E+18`), and infinities render as `+Inf` / `-Inf`, a NaN as `NaN`.
#[verifier::external_body]
pub fn value_text(bits: u64) -> (r: Vec<u8>)
    ensures
        r@ == f64_text(bits),
{
    let v = rustc_apfloat::ieee::Double::from_bits(bits as u128);
    format!("{:65535}", v).into_bytes()
}

/// The bit pattern parsed from a decimal rendering, or `None` where the
/// bytes are not one.
pub uninterp spec fn f64_parse(s: Seq<u8>) -> Option<u64>;

/// Relies on `rustc_apfloat::ieee::Double::from_str`: correctly rounded
/// decimal parsing, a function of the input bytes alone (`str::from_utf8`
/// only converts the argument). Not-UTF-8 and not-a-number inputs give
/// `None`.
#[verifier::external_body]
pub fn value_parse(s: &[u8]) -> (r: Option<u64>)
    ensures
        r == f64_parse(s@),
{
    match core::str::from_utf8(s) {
        Ok(t) => match <rustc_apfloat::ieee::Double as core::str::FromStr>::from_str(t) {
            Ok(v) => Some(v.to_bits() as u64),
            Err(_) => None,
        },
        Err(_) => None,
    }
}

/// The value whose bit pattern is given, truncated toward zero into a
/// `u64`; saturates at the type's bounds, and a NaN truncates to zero.
pub uninterp spec fn f64_trunc(bits: u64) -> u64;

/// Relies on `rustc_apfloat::ieee::Double::to_u128`: truncation toward zero
/// with deterministic saturation, a function of the bit pattern alone.
#[verifier::external_body]
pub fn value_trunc(bits: u64) -> (r: u64)
    ensures
        r == f64_trunc(bits),
{
    let v = rustc_apfloat::ieee::Double::from_bits(bits as u128);
    v.to_u128(64).value as u64
}

} // verus!
