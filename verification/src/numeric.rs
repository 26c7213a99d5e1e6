//! Numbers as IEEE-754 binary64 bit patterns.
//!
//! A cell number is carried as the 64-bit pattern of an IEEE-754 double.
//! Negation, absolute value and equality are bit-level operations and are
//! implemented and verified here. The four rounding arithmetic operations
//! and the conversions are delegated to the `rustc_apfloat` software
//! implementation of IEEE-754; their results are named by uninterpreted
//! spec functions, since stating correctly rounded arithmetic in full would
//! restate the standard.
use vstd::prelude::*;

use rustc_apfloat::Float;

verus! {

/// Bit pattern of +1.0.
pub const ONE_BITS: u64 = 0x3FF0_0000_0000_0000;

/// Bit pattern of +0.0.
pub const ZERO_BITS: u64 = 0;

/// Mask of the sign bit.
pub const SIGN_MASK: u64 = 0x8000_0000_0000_0000;

/// Mask of the exponent and significand bits.
pub const MAGNITUDE_MASK: u64 = 0x7FFF_FFFF_FFFF_FFFF;

/// Bit pattern of +infinity; every magnitude above it is a NaN.
pub const INF_BITS: u64 = 0x7FF0_0000_0000_0000;

/// Whether the bit pattern encodes a NaN: exponent all ones, significand non-zero.
pub open spec fn spec_is_nan(a: u64) -> bool {
    a & MAGNITUDE_MASK > INF_BITS
}

/// Whether the bit pattern encodes a zero (of either sign).
pub open spec fn spec_is_zero(a: u64) -> bool {
    a & MAGNITUDE_MASK == 0
}

/// IEEE-754 equality on bit patterns: a NaN equals nothing, the two zeroes
/// are equal, and every other value has a unique encoding.
pub open spec fn spec_ieee_eq(a: u64, b: u64) -> bool {
    &&& !spec_is_nan(a)
    &&& !spec_is_nan(b)
    &&& (a == b || (spec_is_zero(a) && spec_is_zero(b)))
}

/// IEEE-754 negation on bit patterns: the sign bit is reversed, for every
/// operand, NaN included.
pub open spec fn spec_neg_bits(a: u64) -> u64 {
    a ^ SIGN_MASK
}

/// IEEE-754 absolute value on bit patterns: the sign bit is cleared.
pub open spec fn spec_abs_bits(a: u64) -> u64 {
    a & MAGNITUDE_MASK
}

pub fn ieee_eq(a: u64, b: u64) -> (r: bool)
    ensures
        r == spec_ieee_eq(a, b),
{
    let a_mag: u64 = a & MAGNITUDE_MASK;
    let b_mag: u64 = b & MAGNITUDE_MASK;
    a_mag <= INF_BITS && b_mag <= INF_BITS && (a == b || (a_mag == 0 && b_mag == 0))
}

pub fn neg_bits(a: u64) -> (r: u64)
    ensures
        r == spec_neg_bits(a),
{
    a ^ SIGN_MASK
}

pub fn abs_bits(a: u64) -> (r: u64)
    ensures
        r == spec_abs_bits(a),
{
    a & MAGNITUDE_MASK
}

/// The bit pattern of the correctly rounded sum of two doubles.
pub uninterp spec fn add_bits(a: u64, b: u64) -> u64;

/// The bit pattern of the correctly rounded difference of two doubles.
pub uninterp spec fn sub_bits(a: u64, b: u64) -> u64;

/// The bit pattern of the correctly rounded product of two doubles.
pub uninterp spec fn mul_bits(a: u64, b: u64) -> u64;

/// The bit pattern of the correctly rounded quotient of two doubles.
pub uninterp spec fn div_bits(a: u64, b: u64) -> u64;

/// The bit pattern of the double nearest to the given integer.
pub uninterp spec fn bits_of_u64(n: u64) -> u64;

/// The integer obtained from a double by truncation toward zero, clamped
/// to the range of `u64`, with NaN taken to zero.
pub uninterp spec fn trunc_bits(a: u64) -> u64;

/// Relies on rustc_apfloat::ieee::Double and its Add impl: IEEE-754
/// binary64 addition, rounding to nearest with ties to even.
#[verifier::external_body]
pub(crate) fn add_bits_exec(a: u64, b: u64) -> (r: u64)
    ensures
        r == add_bits(a, b),
{
    let x = rustc_apfloat::ieee::Double::from_bits(a as u128);
    let y = rustc_apfloat::ieee::Double::from_bits(b as u128);
    (x + y).value.to_bits() as u64
}

/// Relies on rustc_apfloat::ieee::Double and its Sub impl: IEEE-754
/// binary64 subtraction, rounding to nearest with ties to even.
#[verifier::external_body]
pub(crate) fn sub_bits_exec(a: u64, b: u64) -> (r: u64)
    ensures
        r == sub_bits(a, b),
{
    let x = rustc_apfloat::ieee::Double::from_bits(a as u128);
    let y = rustc_apfloat::ieee::Double::from_bits(b as u128);
    (x - y).value.to_bits() as u64
}

/// Relies on rustc_apfloat::ieee::Double and its Mul impl: IEEE-754
/// binary64 multiplication, rounding to nearest with ties to even.
#[verifier::external_body]
pub(crate) fn mul_bits_exec(a: u64, b: u64) -> (r: u64)
    ensures
        r == mul_bits(a, b),
{
    let x = rustc_apfloat::ieee::Double::from_bits(a as u128);
    let y = rustc_apfloat::ieee::Double::from_bits(b as u128);
    (x * y).value.to_bits() as u64
}

/// Relies on rustc_apfloat::ieee::Double and its Div impl: IEEE-754
/// binary64 division, rounding to nearest with ties to even; a zero divisor
/// yields an infinity or a NaN, as the standard directs.
#[verifier::external_body]
pub(crate) fn div_bits_exec(a: u64, b: u64) -> (r: u64)
    ensures
        r == div_bits(a, b),
{
    let x = rustc_apfloat::ieee::Double::from_bits(a as u128);
    let y = rustc_apfloat::ieee::Double::from_bits(b as u128);
    (x / y).value.to_bits() as u64
}

/// Relies on rustc_apfloat::Float::from_u128: conversion of an unsigned
/// integer to the nearest double.
#[verifier::external_body]
pub(crate) fn bits_of_u64_exec(n: u64) -> (r: u64)
    ensures
        r == bits_of_u64(n),
{
    rustc_apfloat::ieee::Double::from_u128(n as u128).value.to_bits() as u64
}

/// Relies on rustc_apfloat::Float::to_u128: conversion of a double to an
/// unsigned integer, truncating toward zero; out-of-range values saturate
/// and a NaN yields zero.
#[verifier::external_body]
pub(crate) fn trunc_bits_exec(a: u64) -> (r: u64)
    ensures
        r == trunc_bits(a),
{
    let x = rustc_apfloat::ieee::Double::from_bits(a as u128);
    let wide: u128 = x.to_u128(64).value;
    wide as u64
}

} // verus!
