//! Numbers in this language are IEEE 754 doubles. The verifier does not model
//! floating point, so the library carries each number as its 64-bit pattern
//! and reaches the native operations only through the trusted wrappers below.
//!
//! What each contract claims follows what the standard library documents.
//! The basic operations are correctly rounded and deterministic except for
//! the payload of a NaN result, which may differ between platforms and even
//! between two evaluations; each result is therefore named and the returned
//! bits pinned to the name only up to NaN-ness (`float_matches`). `powf` has
//! platform- and invocation-dependent precision, so nothing is promised of
//! it at all. Comparison and the parser's verdict are fully specified.

use vstd::prelude::*;

use core::primitive::f64 as NativeDouble;

verus! {

/// The bit pattern is one of a NaN: exponent all ones, mantissa non-zero.
pub open spec fn is_nan_bits(b: u64) -> bool {
    (b >> 52) & 0x7ff == 0x7ff && b & 0xf_ffff_ffff_ffff != 0
}

/// The magnitude of a bit pattern: everything but the sign bit.
pub open spec fn magnitude_bits(b: u64) -> u64 {
    b & 0x7fff_ffff_ffff_ffff
}

/// The sign bit is set.
pub open spec fn is_negative_bits(b: u64) -> bool {
    b >> 63 == 1
}

/// The returned bits agree with a named result: equal, except that any NaN
/// may stand for a named NaN (payloads of NaN results are not deterministic).
pub open spec fn float_matches(r: u64, named: u64) -> bool {
    if is_nan_bits(named) {
        is_nan_bits(r)
    } else {
        r == named
    }
}

/// The IEEE 754 ordered `<` on two double bit patterns: false whenever an
/// operand is NaN, the two zeroes are equal, and otherwise same-signed
/// doubles order as their magnitude bits do.
pub open spec fn ieee_lt(a: u64, b: u64) -> bool {
    !is_nan_bits(a) && !is_nan_bits(b) && !(magnitude_bits(a) == 0 && magnitude_bits(b) == 0)
        && (if is_negative_bits(a) && is_negative_bits(b) {
        magnitude_bits(b) < magnitude_bits(a)
    } else if !is_negative_bits(a) && !is_negative_bits(b) {
        magnitude_bits(a) < magnitude_bits(b)
    } else {
        is_negative_bits(a)
    })
}

/// A decimal digit.
pub open spec fn is_digit_char(c: char) -> bool {
    '0' <= c && c <= '9'
}

/// One or more decimal digits and nothing else.
pub open spec fn digit_run(s: Seq<char>) -> bool {
    s.len() >= 1 && forall|i: int| 0 <= i < s.len() ==> is_digit_char(#[trigger] s[i])
}

/// The text with one leading sign removed, if any.
pub open spec fn signless(s: Seq<char>) -> Seq<char> {
    if s.len() >= 1 && (s[0] == '+' || s[0] == '-') {
        s.subrange(1, s.len() as int)
    } else {
        s
    }
}

/// The character matches a lower-case letter, case-insensitively.
pub open spec fn letter_ci(c: char, lower: char) -> bool {
    c == lower || c as u32 == lower as u32 - 32
}

/// The word `inf`, case-insensitively.
pub open spec fn inf_text(s: Seq<char>) -> bool {
    s.len() == 3 && letter_ci(s[0], 'i') && letter_ci(s[1], 'n') && letter_ci(s[2], 'f')
}

/// The word `infinity`, case-insensitively.
pub open spec fn infinity_text(s: Seq<char>) -> bool {
    s.len() == 8 && letter_ci(s[0], 'i') && letter_ci(s[1], 'n') && letter_ci(s[2], 'f')
        && letter_ci(s[3], 'i') && letter_ci(s[4], 'n') && letter_ci(s[5], 'i') && letter_ci(
        s[6],
        't',
    ) && letter_ci(s[7], 'y')
}

/// The word `nan`, case-insensitively.
pub open spec fn nan_text(s: Seq<char>) -> bool {
    s.len() == 3 && letter_ci(s[0], 'n') && letter_ci(s[1], 'a') && letter_ci(s[2], 'n')
}

/// An exponent part: `e` or `E`, an optional sign, then digits.
pub open spec fn exp_text(s: Seq<char>) -> bool {
    s.len() >= 2 && (s[0] == 'e' || s[0] == 'E') && digit_run(signless(s.subrange(1, s.len() as int)))
}

/// A mantissa: digits with an optional point and optional fraction digits,
/// or a point followed by digits.
pub open spec fn mantissa_text(s: Seq<char>) -> bool {
    (exists|k: int|
        1 <= k <= s.len() && #[trigger] digit_run(s.subrange(0, k)) && (k == s.len() || (s[k]
            == '.' && (k + 1 == s.len() || digit_run(s.subrange(k + 1, s.len() as int)))))) || (
    s.len() >= 2 && s[0] == '.' && digit_run(s.subrange(1, s.len() as int)))
}

/// A number: a mantissa, optionally followed by an exponent part.
pub open spec fn number_text(s: Seq<char>) -> bool {
    mantissa_text(s) || exists|k: int|
        1 <= k < s.len() && #[trigger] mantissa_text(s.subrange(0, k)) && exp_text(
            s.subrange(k, s.len() as int),
        )
}

/// The texts the standard library's double parser accepts: an optional
/// sign, then `inf`, `infinity`, `nan` (case-insensitively) or a number.
pub open spec fn float_text(s: Seq<char>) -> bool {
    inf_text(signless(s)) || infinity_text(signless(s)) || nan_text(signless(s)) || number_text(
        signless(s),
    )
}

pub uninterp spec fn fp_add(a: u64, b: u64) -> u64;

pub uninterp spec fn fp_sub(a: u64, b: u64) -> u64;

pub uninterp spec fn fp_mul(a: u64, b: u64) -> u64;

pub uninterp spec fn fp_div(a: u64, b: u64) -> u64;

pub uninterp spec fn fp_rem(a: u64, b: u64) -> u64;

pub uninterp spec fn fp_parse_value(s: Seq<char>) -> u64;

pub uninterp spec fn fp_display(a: u64) -> Seq<char>;

/// What parsing a token as a double yields: the correctly rounded value of
/// a text the documented grammar accepts, nothing otherwise.
pub open spec fn spec_parse_float(s: Seq<char>) -> Option<u64> {
    if float_text(s) {
        Some(fp_parse_value(s))
    } else {
        None
    }
}

/// Relies on the native `+` of the 64-bit float type: IEEE 754 addition, a
/// function of the two operand bit patterns up to the payload of a NaN.
#[verifier::external_body]
pub fn add_bits(a: u64, b: u64) -> (r: u64)
    ensures
        float_matches(r, fp_add(a, b)),
{
    NativeDouble::to_bits(NativeDouble::from_bits(a) + NativeDouble::from_bits(b))
}

/// Relies on the native `-` of the 64-bit float type: IEEE 754 subtraction,
/// deterministic up to the payload of a NaN.
#[verifier::external_body]
pub fn sub_bits(a: u64, b: u64) -> (r: u64)
    ensures
        float_matches(r, fp_sub(a, b)),
{
    NativeDouble::to_bits(NativeDouble::from_bits(a) - NativeDouble::from_bits(b))
}

/// Relies on the native `*` of the 64-bit float type: IEEE 754
/// multiplication, deterministic up to the payload of a NaN.
#[verifier::external_body]
pub fn mul_bits(a: u64, b: u64) -> (r: u64)
    ensures
        float_matches(r, fp_mul(a, b)),
{
    NativeDouble::to_bits(NativeDouble::from_bits(a) * NativeDouble::from_bits(b))
}

/// Relies on the native `/` of the 64-bit float type: IEEE 754 division
/// (division by zero yields an infinity or NaN, it does not raise),
/// deterministic up to the payload of a NaN.
#[verifier::external_body]
pub fn div_bits(a: u64, b: u64) -> (r: u64)
    ensures
        float_matches(r, fp_div(a, b)),
{
    NativeDouble::to_bits(NativeDouble::from_bits(a) / NativeDouble::from_bits(b))
}

/// Relies on the native `%` of the 64-bit float type: the floating-point
/// remainder with the sign of the dividend, deterministic up to the payload
/// of a NaN.
#[verifier::external_body]
pub fn rem_bits(a: u64, b: u64) -> (r: u64)
    ensures
        float_matches(r, fp_rem(a, b)),
{
    NativeDouble::to_bits(NativeDouble::from_bits(a) % NativeDouble::from_bits(b))
}

/// Relies on `powf` of the 64-bit float type: raises the first operand to
/// the power of the second. Its precision is documented as platform- and
/// invocation-dependent, so nothing is promised of the result.
#[verifier::external_body]
pub fn pow_bits(a: u64, b: u64) -> (r: u64) {
    NativeDouble::to_bits(NativeDouble::from_bits(a).powf(NativeDouble::from_bits(b)))
}

/// Relies on the native `<` of the 64-bit float type: the IEEE 754 ordered
/// comparison written out in `ieee_lt`.
#[verifier::external_body]
pub fn lt_bits(a: u64, b: u64) -> (r: bool)
    ensures
        r == ieee_lt(a, b),
{
    NativeDouble::from_bits(a) < NativeDouble::from_bits(b)
}

/// Relies on the native `>` of the 64-bit float type: `a > b` is the IEEE
/// 754 ordered comparison `b < a`.
#[verifier::external_body]
pub fn gt_bits(a: u64, b: u64) -> (r: bool)
    ensures
        r == ieee_lt(b, a),
{
    NativeDouble::from_bits(a) > NativeDouble::from_bits(b)
}

/// Relies on `str::parse` for the 64-bit float type: `Some` exactly on the
/// texts of the documented grammar (`float_text`), with the correctly
/// rounded — hence deterministic — value.
#[verifier::external_body]
pub fn parse_bits(s: &[char]) -> (r: Option<u64>)
    ensures
        r == spec_parse_float(s@),
        float_text(s@) ==> r == Some(fp_parse_value(s@)),
{
    let text: String = s.iter().collect();
    text.parse::<NativeDouble>().ok().map(NativeDouble::to_bits)
}

/// Relies on the `Display` form of the 64-bit float type: the shortest
/// decimal text that reads back as the same value, a function of the bits
/// (every NaN displays as `NaN`).
#[verifier::external_body]
pub fn display_bits(a: u64) -> (r: String)
    ensures
        r@ == fp_display(a),
{
    format!("{}", NativeDouble::from_bits(a))
}

} // verus!
