//! IEEE-754 double-precision values, carried as their 64-bit patterns.
//!
//! Predicates that are pure bit logic (zero, NaN, sign, ordering) are defined
//! and verified here directly. Arithmetic and decimal conversion are soft
//! float computations delegated to `rustc_apfloat`, which works on the same
//! bit patterns; those calls stand behind trusted wrappers whose results are
//! named, since IEEE arithmetic is a function of the operand bits alone.

use vstd::prelude::*;
use vstd::string::StringExecFns;
use rustc_apfloat::Float;
use rustc_apfloat::Round;
use rustc_apfloat::ieee::Double;

verus! {

/// The sign bit is set.
pub open spec fn f64_is_neg(b: u64) -> bool {
    b >= 0x8000_0000_0000_0000
}

/// The magnitude bits: everything but the sign.
pub open spec fn f64_magnitude(b: u64) -> u64 {
    b & 0x7FFF_FFFF_FFFF_FFFF
}

/// The pattern encodes positive or negative zero.
pub open spec fn f64_is_zero(b: u64) -> bool {
    f64_magnitude(b) == 0
}

/// The pattern encodes a NaN: exponent all ones, mantissa not zero.
pub open spec fn f64_is_nan(b: u64) -> bool {
    (b >> 52) & 0x7FF == 0x7FF && b & 0x000F_FFFF_FFFF_FFFF != 0
}

/// The pattern encodes an infinity: exponent all ones, mantissa zero.
pub open spec fn f64_is_inf(b: u64) -> bool {
    (b >> 52) & 0x7FF == 0x7FF && b & 0x000F_FFFF_FFFF_FFFF == 0
}

/// A key that orders finite and infinite doubles numerically: magnitude,
/// negated for negative values. Both zeros map to zero.
pub open spec fn f64_order_key(b: u64) -> int {
    if f64_is_neg(b) {
        -(f64_magnitude(b) as int)
    } else {
        f64_magnitude(b) as int
    }
}

/// IEEE numeric equality: false on any NaN, both zeros equal, otherwise
/// equality of the patterns.
pub open spec fn f64_eq(a: u64, b: u64) -> bool {
    !f64_is_nan(a) && !f64_is_nan(b) && f64_order_key(a) == f64_order_key(b)
}

/// IEEE ordered less-than: false on any NaN.
pub open spec fn f64_lt(a: u64, b: u64) -> bool {
    !f64_is_nan(a) && !f64_is_nan(b) && f64_order_key(a) < f64_order_key(b)
}

/// IEEE ordered less-or-equal: false on any NaN.
pub open spec fn f64_le(a: u64, b: u64) -> bool {
    !f64_is_nan(a) && !f64_is_nan(b) && f64_order_key(a) <= f64_order_key(b)
}

/// The bit pattern of the negated value: the sign bit flipped.
pub open spec fn f64_neg_bits(b: u64) -> u64 {
    b ^ 0x8000_0000_0000_0000
}

pub fn f64_is_zero_exec(b: u64) -> (r: bool)
    ensures
        r == f64_is_zero(b),
{
    b & 0x7FFF_FFFF_FFFF_FFFF == 0
}

pub fn f64_is_nan_exec(b: u64) -> (r: bool)
    ensures
        r == f64_is_nan(b),
{
    (b >> 52u64) & 0x7FF == 0x7FF && b & 0x000F_FFFF_FFFF_FFFF != 0
}

pub fn f64_is_inf_exec(b: u64) -> (r: bool)
    ensures
        r == f64_is_inf(b),
{
    (b >> 52u64) & 0x7FF == 0x7FF && b & 0x000F_FFFF_FFFF_FFFF == 0
}

pub fn f64_is_neg_exec(b: u64) -> (r: bool)
    ensures
        r == f64_is_neg(b),
{
    b >= 0x8000_0000_0000_0000
}

pub fn f64_neg_exec(b: u64) -> (r: u64)
    ensures
        r == f64_neg_bits(b),
{
    b ^ 0x8000_0000_0000_0000
}

/// The ordering key as a machine integer; every magnitude fits in `i128`.
fn f64_key_exec(b: u64) -> (r: i128)
    ensures
        r as int == f64_order_key(b),
{
    let mag: u64 = b & 0x7FFF_FFFF_FFFF_FFFF;
    if b >= 0x8000_0000_0000_0000 {
        -(mag as i128)
    } else {
        mag as i128
    }
}

pub fn f64_eq_exec(a: u64, b: u64) -> (r: bool)
    ensures
        r == f64_eq(a, b),
{
    if f64_is_nan_exec(a) || f64_is_nan_exec(b) {
        false
    } else {
        f64_key_exec(a) == f64_key_exec(b)
    }
}

pub fn f64_lt_exec(a: u64, b: u64) -> (r: bool)
    ensures
        r == f64_lt(a, b),
{
    if f64_is_nan_exec(a) || f64_is_nan_exec(b) {
        false
    } else {
        f64_key_exec(a) < f64_key_exec(b)
    }
}

pub fn f64_le_exec(a: u64, b: u64) -> (r: bool)
    ensures
        r == f64_le(a, b),
{
    if f64_is_nan_exec(a) || f64_is_nan_exec(b) {
        false
    } else {
        f64_key_exec(a) <= f64_key_exec(b)
    }
}

/// The IEEE sum of the two patterns, round to nearest, ties to even.
pub uninterp spec fn f64_add_of(a: u64, b: u64) -> u64;

/// The IEEE difference of the two patterns, round to nearest, ties to even.
pub uninterp spec fn f64_sub_of(a: u64, b: u64) -> u64;

/// The IEEE product of the two patterns, round to nearest, ties to even.
pub uninterp spec fn f64_mul_of(a: u64, b: u64) -> u64;

/// The IEEE quotient of the two patterns, round to nearest, ties to even.
pub uninterp spec fn f64_div_of(a: u64, b: u64) -> u64;

/// The C `fmod` remainder of the two patterns.
pub uninterp spec fn f64_fmod_of(a: u64, b: u64) -> u64;

/// The double nearest to the given signed integer.
pub uninterp spec fn f64_of_i64(i: i64) -> u64;

/// The pattern converted to a signed integer, rounding toward zero and
/// saturating; NaN converts to zero.
pub uninterp spec fn i64_of_f64(b: u64) -> i64;

/// The decimal rendering of the pattern with the given count of significant
/// digits, falling back to scientific notation only past the given width.
pub uninterp spec fn f64_digits_of(b: u64, precision: usize, width: usize) -> Seq<char>;

/// The pattern that the decimal string parses to, if it parses.
pub uninterp spec fn f64_parse_of(s: Seq<char>) -> Option<u64>;

/// Relies on rustc_apfloat's `add_r`: IEEE double addition on bit patterns.
#[verifier::external_body]
pub fn f64_add(a: u64, b: u64) -> (r: u64)
    ensures
        r == f64_add_of(a, b),
{
    Double::from_bits(a as u128).add_r(Double::from_bits(b as u128), Round::NearestTiesToEven).value.to_bits() as u64
}

/// Relies on rustc_apfloat's `sub_r`: IEEE double subtraction on bit patterns.
#[verifier::external_body]
pub fn f64_sub(a: u64, b: u64) -> (r: u64)
    ensures
        r == f64_sub_of(a, b),
{
    Double::from_bits(a as u128).sub_r(Double::from_bits(b as u128), Round::NearestTiesToEven).value.to_bits() as u64
}

/// Relies on rustc_apfloat's `mul_r`: IEEE double multiplication on bit patterns.
#[verifier::external_body]
pub fn f64_mul(a: u64, b: u64) -> (r: u64)
    ensures
        r == f64_mul_of(a, b),
{
    Double::from_bits(a as u128).mul_r(Double::from_bits(b as u128), Round::NearestTiesToEven).value.to_bits() as u64
}

/// Relies on rustc_apfloat's `div_r`: IEEE double division on bit patterns.
#[verifier::external_body]
pub fn f64_div(a: u64, b: u64) -> (r: u64)
    ensures
        r == f64_div_of(a, b),
{
    Double::from_bits(a as u128).div_r(Double::from_bits(b as u128), Round::NearestTiesToEven).value.to_bits() as u64
}

/// Relies on rustc_apfloat's `c_fmod`: the C remainder on bit patterns.
#[verifier::external_body]
pub fn f64_fmod(a: u64, b: u64) -> (r: u64)
    ensures
        r == f64_fmod_of(a, b),
{
    Double::from_bits(a as u128).c_fmod(Double::from_bits(b as u128)).value.to_bits() as u64
}

/// Relies on rustc_apfloat's `from_i128`: the double nearest to an integer.
#[verifier::external_body]
pub fn f64_from_i64(i: i64) -> (r: u64)
    ensures
        r == f64_of_i64(i),
{
    Double::from_i128(i as i128).value.to_bits() as u64
}

/// Relies on rustc_apfloat's `to_i128`: conversion toward zero, saturating,
/// with NaN going to zero.
#[verifier::external_body]
pub fn f64_to_i64(b: u64) -> (r: i64)
    ensures
        r == i64_of_f64(b),
{
    Double::from_bits(b as u128).to_i128(64).value as i64
}

/// Relies on rustc_apfloat's `Display`: decimal rendering of a double with a
/// chosen significant-digit count and zero-padding width.
#[verifier::external_body]
fn f64_fmt(b: u64, precision: usize, width: usize) -> (r: String)
    ensures
        r@ == f64_digits_of(b, precision, width),
{
    format!("{:w$.p$}", Double::from_bits(b as u128), w = width, p = precision)
}

/// Relies on rustc_apfloat's `FromStr`: parsing a decimal string back to a
/// double, round to nearest, ties to even.
#[verifier::external_body]
fn f64_parse(s: &str) -> (r: Option<u64>)
    ensures
        r == f64_parse_of(s@),
{
    match s.parse::<Double>() {
        Ok(d) => Some(d.to_bits() as u64),
        Err(_) => None,
    }
}

/// The decimal rendering that `f64_string` chooses for a finite pattern: the
/// fewest significant digits, from fifteen up to seventeen, whose rendering
/// parses back to the same pattern.
pub open spec fn f64_finite_string_of(b: u64) -> Seq<char> {
    if f64_parse_of(f64_digits_of(b, 15, 20000)) == Some(b) {
        f64_digits_of(b, 15, 20000)
    } else if f64_parse_of(f64_digits_of(b, 16, 20000)) == Some(b) {
        f64_digits_of(b, 16, 20000)
    } else {
        f64_digits_of(b, 17, 20000)
    }
}

/// The decimal rendering of any pattern: NaN and the infinities are spelled
/// as Rust spells them, finite values render via `f64_finite_string_of`.
pub open spec fn f64_string_of(b: u64) -> Seq<char> {
    if f64_is_nan(b) {
        "NaN"@
    } else if f64_is_inf(b) {
        if f64_is_neg(b) {
            "-inf"@
        } else {
            "inf"@
        }
    } else {
        f64_finite_string_of(b)
    }
}

/// Render a double bit pattern as Rust renders the value: the shortest
/// decimal string that reads back to the same value.
pub fn f64_string(b: u64) -> (r: String)
    ensures
        r@ == f64_string_of(b),
{
    if f64_is_nan_exec(b) {
        "NaN".to_owned()
    } else if f64_is_inf_exec(b) {
        if f64_is_neg_exec(b) {
            "-inf".to_owned()
        } else {
            "inf".to_owned()
        }
    } else {
        let fifteen = f64_fmt(b, 15, 20000);
        if let Some(back) = f64_parse(fifteen.as_str()) {
            if back == b {
                return fifteen;
            }
        }
        let sixteen = f64_fmt(b, 16, 20000);
        if let Some(back) = f64_parse(sixteen.as_str()) {
            if back == b {
                return sixteen;
            }
        }
        f64_fmt(b, 17, 20000)
    }
}

} // verus!
