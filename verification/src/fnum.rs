//! Single-precision numbers, carried as their IEEE-754 bit patterns.
//!
//! The interpreter's `Num` values hold the 32 bits of an IEEE-754
//! single-precision number. All arithmetic on those bits is done by the
//! `rustc_apfloat` software implementation of IEEE-754, behind the trusted
//! wrappers below. Each operation is deterministic in its operand bits, so
//! its result is given a name (an uninterpreted spec function) that the
//! callers' contracts can speak of.

use vstd::prelude::*;
use core::str::FromStr;
use rustc_apfloat::Float;
use rustc_apfloat::Round;
use rustc_apfloat::ieee::Single;

verus! {

/// The IEEE-754 single-precision bit pattern of pi.
pub const PI_BITS: u32 = 0x4049_0FDB;

/// The bits of the IEEE-754 single-precision sum of two numbers given by
/// their bits (round to nearest, ties to even).
pub uninterp spec fn num_add(a: u32, b: u32) -> u32;

/// The bits of the IEEE-754 single-precision difference.
pub uninterp spec fn num_sub(a: u32, b: u32) -> u32;

/// The bits of the IEEE-754 single-precision product.
pub uninterp spec fn num_mul(a: u32, b: u32) -> u32;

/// The bits of the IEEE-754 single-precision quotient.
pub uninterp spec fn num_div(a: u32, b: u32) -> u32;

/// Whether the number with bits `a` orders strictly below the number with
/// bits `b` (false whenever either is a NaN).
pub uninterp spec fn num_lt(a: u32, b: u32) -> bool;

/// The bits of the IEEE-754 single-precision number nearest to an `i32`.
pub uninterp spec fn num_from_int(i: i32) -> u32;

/// The number with the given bits, truncated toward zero and clamped to the
/// `i32` range; zero for a NaN.
pub uninterp spec fn num_to_int(b: u32) -> i32;

/// The bits parsed from a token's bytes, or `None` where the bytes do not
/// spell a number.
pub uninterp spec fn num_of_text(s: Seq<u8>) -> Option<u32>;

/// Whether `p` is a prefix of `s`.
pub open spec fn starts_with(s: Seq<u8>, p: Seq<u8>) -> bool {
    p.len() <= s.len() && s.subrange(0, p.len() as int) == p
}

/// A token after an optional sign byte (`+` or `-`), then an optional `s`
/// or `S` (the signalling-NaN marker).
pub open spec fn num_word_core(s: Seq<u8>) -> Seq<u8> {
    let t = if s.len() > 0 && (s[0] == 43 || s[0] == 45) {
        s.subrange(1, s.len() as int)
    } else {
        s
    };
    if t.len() > 0 && (t[0] == 115 || t[0] == 83) {
        t.subrange(1, t.len() as int)
    } else {
        t
    }
}

/// Whether a token has the shape of a number at all: a decimal digit
/// somewhere, or one of the infinity or NaN spellings — "inf", "Inf",
/// "INFINITY", "nan", "NaN" — as a prefix of its core. Every token the
/// number grammar accepts has this shape.
pub open spec fn looks_numeric(s: Seq<u8>) -> bool {
    ||| exists|i: int| 0 <= i < s.len() && 48 <= #[trigger] s[i] <= 57
    ||| starts_with(num_word_core(s), seq![105u8, 110u8, 102u8])
    ||| starts_with(num_word_core(s), seq![73u8, 110u8, 102u8])
    ||| starts_with(num_word_core(s), seq![73u8, 78u8, 70u8])
    ||| starts_with(num_word_core(s), seq![110u8, 97u8, 110u8])
    ||| starts_with(num_word_core(s), seq![78u8, 97u8, 78u8])
}

/// The decimal text of the number with the given bits.
pub uninterp spec fn num_text(b: u32) -> Seq<u8>;

/// Relies on rustc_apfloat's `Single::add_r`: IEEE-754 single-precision
/// addition, round to nearest, ties to even; the result depends on the
/// operand bits alone.
#[verifier::external_body]
pub(crate) fn num_add_bits(a: u32, b: u32) -> (r: u32)
    ensures
        r == num_add(a, b),
{
    let x = Single::from_bits(a as u128);
    let y = Single::from_bits(b as u128);
    x.add_r(y, Round::NearestTiesToEven).value.to_bits() as u32
}

/// Relies on rustc_apfloat's `Single::sub_r`: IEEE-754 single-precision
/// subtraction; the result depends on the operand bits alone.
#[verifier::external_body]
pub(crate) fn num_sub_bits(a: u32, b: u32) -> (r: u32)
    ensures
        r == num_sub(a, b),
{
    let x = Single::from_bits(a as u128);
    let y = Single::from_bits(b as u128);
    x.sub_r(y, Round::NearestTiesToEven).value.to_bits() as u32
}

/// Relies on rustc_apfloat's `Single::mul_r`: IEEE-754 single-precision
/// multiplication; the result depends on the operand bits alone.
#[verifier::external_body]
pub(crate) fn num_mul_bits(a: u32, b: u32) -> (r: u32)
    ensures
        r == num_mul(a, b),
{
    let x = Single::from_bits(a as u128);
    let y = Single::from_bits(b as u128);
    x.mul_r(y, Round::NearestTiesToEven).value.to_bits() as u32
}

/// Relies on rustc_apfloat's `Single::div_r`: IEEE-754 single-precision
/// division (a zero divisor gives an infinity or a NaN, never a fault); the
/// result depends on the operand bits alone.
#[verifier::external_body]
pub(crate) fn num_div_bits(a: u32, b: u32) -> (r: u32)
    ensures
        r == num_div(a, b),
{
    let x = Single::from_bits(a as u128);
    let y = Single::from_bits(b as u128);
    x.div_r(y, Round::NearestTiesToEven).value.to_bits() as u32
}

/// Relies on rustc_apfloat's `PartialOrd for IeeeFloat`: the IEEE-754
/// ordering, under which a NaN compares below nothing.
#[verifier::external_body]
pub(crate) fn num_lt_bits(a: u32, b: u32) -> (r: bool)
    ensures
        r == num_lt(a, b),
{
    let x = Single::from_bits(a as u128);
    let y = Single::from_bits(b as u128);
    matches!(x.partial_cmp(&y), Some(core::cmp::Ordering::Less))
}

/// Relies on rustc_apfloat's `Single::from_i128`: conversion of an integer
/// to the nearest single-precision number.
#[verifier::external_body]
pub(crate) fn num_from_int_bits(i: i32) -> (r: u32)
    ensures
        r == num_from_int(i),
{
    Single::from_i128(i as i128).value.to_bits() as u32
}

/// Relies on rustc_apfloat's `Single::to_i128` with a 32-bit width: rounds
/// toward zero, returns the nearest representable `i32` on overflow and zero
/// for a NaN.
#[verifier::external_body]
pub(crate) fn num_to_int_bits(b: u32) -> (r: i32)
    ensures
        r == num_to_int(b),
{
    Single::from_bits(b as u128).to_i128(32).value as i32
}

/// Relies on rustc_apfloat's `Single::from_str` (round to nearest): it
/// accepts or rejects a token by its own grammar, and it never faults on a
/// token shorter than 2^31 bytes (its hexadecimal path cannot size a larger
/// exponent offset); its result depends on the bytes alone. Bytes that are
/// not UTF-8 text spell no number, and neither does a token without the
/// shape of one: the grammar demands a decimal digit or an infinity or NaN
/// spelling.
#[verifier::external_body]
pub(crate) fn parse_num_bytes(s: &[u8]) -> (r: Option<u32>)
    requires
        s@.len() < 0x8000_0000,
    ensures
        r == num_of_text(s@),
        !looks_numeric(s@) ==> r is None,
{
    match core::str::from_utf8(s) {
        Ok(t) => match Single::from_str(t) {
            Ok(v) => Some(v.to_bits() as u32),
            Err(_) => None,
        },
        Err(_) => None,
    }
}

/// Relies on rustc_apfloat's `Display for IeeeFloat`: a decimal rendering
/// that depends on the bits alone.
#[verifier::external_body]
pub(crate) fn num_text_bytes(b: u32) -> (r: Vec<u8>)
    ensures
        r@ == num_text(b),
{
    format!("{}", Single::from_bits(b as u128)).into_bytes()
}

} // verus!
