//! Numeric values of the calculator.
//!
//! A value is an IEEE-754 binary64 number, held as its 64-bit encoding
//! (`bits`).  The verified code works on the encoding alone: sign tests,
//! zero tests, NaN tests, negation and the ordering comparison are plain
//! bit operations, while the rounded arithmetic itself is delegated to
//! outside soft-float crates through the trusted wrappers below.  Every wrapper's result is a pure
//! function of its arguments, so each is named by an uninterpreted spec
//! function that the contracts of the evaluator build on.

use vstd::prelude::*;

use astro_float::BigFloat;
use rustc_apfloat::Float;
use rustc_apfloat::Round;
use rustc_apfloat::ieee::Double;
use astro_float::Consts;
use astro_float::RoundingMode;
use astro_float::Sign;

verus! {

/// Mask of the sign bit of a binary64 encoding.
pub const SIGN_MASK: u64 = 0x8000_0000_0000_0000;

/// Mask of the exponent and fraction bits (everything but the sign).
pub const MAG_MASK: u64 = 0x7FFF_FFFF_FFFF_FFFF;

/// Mask of the 52 fraction bits.
pub const FRAC_MASK: u64 = 0x000F_FFFF_FFFF_FFFF;

/// Encoding of a quiet NaN.
pub const NAN_BITS: u64 = 0x7FF8_0000_0000_0000;

/// Encoding of positive infinity.
pub const INF_BITS: u64 = 0x7FF0_0000_0000_0000;

/// Encoding of 1.0.
pub const ONE_BITS: u64 = 0x3FF0_0000_0000_0000;

/// Encoding of 0.0 (positive zero).
pub const ZERO_BITS: u64 = 0;

/// A binary64 value, carried as its bit pattern.
#[derive(Clone, Copy, PartialEq, Eq, Structural, Debug)]
pub struct Number {
    pub bits: u64,
}

/// True when the encoding denotes a zero (either sign).
pub open spec fn spec_is_zero(bits: u64) -> bool {
    bits & MAG_MASK == 0
}

/// True when the encoding denotes a NaN: exponent field all ones and a
/// non-zero fraction.
pub open spec fn spec_is_nan(bits: u64) -> bool {
    bits & MAG_MASK > INF_BITS
}

/// True when the encoding denotes an infinity of either sign.
pub open spec fn spec_is_inf(bits: u64) -> bool {
    bits & MAG_MASK == INF_BITS
}

/// True when the sign bit is set.
pub open spec fn spec_is_neg(bits: u64) -> bool {
    bits & SIGN_MASK != 0
}

/// Negation of a binary64 value is exactly a flip of its sign bit.
pub open spec fn spec_neg(bits: u64) -> u64 {
    bits ^ SIGN_MASK
}

// ---------------------------------------------------------------------------
// Trusted wrappers over rustc_apfloat: exact IEEE-754 binary64 arithmetic on
// bit patterns.  Each result is a function of the argument bits alone, named
// by an uninterpreted spec function.
// ---------------------------------------------------------------------------

/// The binary64 sum of the two encoded values, rounded to nearest, ties to
/// even.
pub uninterp spec fn dbl_add(a: u64, b: u64) -> u64;

/// The binary64 difference of the two encoded values, rounded to nearest,
/// ties to even.
pub uninterp spec fn dbl_sub(a: u64, b: u64) -> u64;

/// The binary64 product of the two encoded values, rounded to nearest, ties
/// to even.
pub uninterp spec fn dbl_mul(a: u64, b: u64) -> u64;

/// The binary64 quotient of the two encoded values, rounded to nearest, ties
/// to even.
pub uninterp spec fn dbl_div(a: u64, b: u64) -> u64;

/// The signed ordinal of a non-NaN encoding: magnitudes are ordered by
/// their encodings (the binary64 encoding is monotone in magnitude), the
/// ordinal is negated for a set sign bit, and both zeros share the ordinal
/// zero.
pub open spec fn cmp_key(a: u64) -> int {
    if spec_is_neg(a) {
        -((a & MAG_MASK) as int)
    } else {
        (a & MAG_MASK) as int
    }
}

/// The IEEE-754 comparison of two encoded values: `None` when unordered (a
/// NaN operand), otherwise the order of the signed ordinals — `Some(-1)`,
/// `Some(0)` or `Some(1)`.
pub open spec fn dbl_cmp(a: u64, b: u64) -> Option<i8> {
    if spec_is_nan(a) || spec_is_nan(b) {
        None
    } else if cmp_key(a) == cmp_key(b) {
        Some(0i8)
    } else if cmp_key(a) < cmp_key(b) {
        Some(-1i8)
    } else {
        Some(1i8)
    }
}

/// The binary64 value nearest to the decimal numeral `s`, or `None` when `s`
/// is not a numeral the soft-float parser accepts.
pub uninterp spec fn dbl_parse(s: Seq<char>) -> Option<u64>;

/// The decimal rendering of the encoded value.
pub uninterp spec fn dbl_fmt(a: u64) -> Seq<char>;

/// The result of rounding `m` to binary64 and then scaling by `2^e`, each
/// step rounding to nearest, ties to even — in the subnormal range the two
/// roundings may differ from a single rounding of `m * 2^e` by one unit.
/// Overflow yields infinity; underflow passes through the subnormals to
/// zero.
pub uninterp spec fn dbl_from_scaled(m: u64, e: i32) -> u64;

/// Relies on rustc_apfloat's `Double::add_r` (round to nearest, ties to
/// even), entered and left through `from_bits`/`to_bits`.
#[verifier::external_body]
fn apf_add(a: u64, b: u64) -> (r: u64)
    ensures
        r == dbl_add(a, b),
{
    let x = Double::from_bits(a as u128);
    let y = Double::from_bits(b as u128);
    x.add_r(y, Round::NearestTiesToEven).value.to_bits() as u64
}

/// Relies on rustc_apfloat's `Double::sub_r` (round to nearest, ties to
/// even), entered and left through `from_bits`/`to_bits`.
#[verifier::external_body]
fn apf_sub(a: u64, b: u64) -> (r: u64)
    ensures
        r == dbl_sub(a, b),
{
    let x = Double::from_bits(a as u128);
    let y = Double::from_bits(b as u128);
    x.sub_r(y, Round::NearestTiesToEven).value.to_bits() as u64
}

/// Relies on rustc_apfloat's `Double::mul_r` (round to nearest, ties to
/// even), entered and left through `from_bits`/`to_bits`.
#[verifier::external_body]
fn apf_mul(a: u64, b: u64) -> (r: u64)
    ensures
        r == dbl_mul(a, b),
{
    let x = Double::from_bits(a as u128);
    let y = Double::from_bits(b as u128);
    x.mul_r(y, Round::NearestTiesToEven).value.to_bits() as u64
}

/// Relies on rustc_apfloat's `Double::div_r` (round to nearest, ties to
/// even), entered and left through `from_bits`/`to_bits`.
#[verifier::external_body]
fn apf_div(a: u64, b: u64) -> (r: u64)
    ensures
        r == dbl_div(a, b),
{
    let x = Double::from_bits(a as u128);
    let y = Double::from_bits(b as u128);
    x.div_r(y, Round::NearestTiesToEven).value.to_bits() as u64
}

/// Relies on rustc_apfloat's `Double::from_str` (correctly rounded decimal
/// conversion); a rejected numeral becomes `None`.
#[verifier::external_body]
fn apf_parse(s: &str) -> (r: Option<u64>)
    ensures
        r == dbl_parse(s@),
{
    match s.parse::<Double>() {
        Ok(v) => Some(v.to_bits() as u64),
        Err(_) => None,
    }
}

/// Relies on rustc_apfloat's `Display` for `Double`, which renders the
/// value in decimal with enough digits to identify it.
#[verifier::external_body]
fn apf_fmt(a: u64) -> (r: String)
    ensures
        r@ == dbl_fmt(a),
{
    format!("{}", Double::from_bits(a as u128))
}

/// Relies on rustc_apfloat's `Double::from_u128_r` followed by `scalbn_r`
/// (both rounding to nearest, ties to even): the composition rounds
/// `m * 2^e` to binary64, overflowing to infinity and underflowing through
/// the subnormal range.
#[verifier::external_body]
fn apf_from_scaled(m: u64, e: i32) -> (r: u64)
    ensures
        r == dbl_from_scaled(m, e),
{
    let x = Double::from_u128_r(
        m as u128,
        Round::NearestTiesToEven,
    ).value;
    x.scalbn_r(e, Round::NearestTiesToEven).to_bits() as u64
}

// ---------------------------------------------------------------------------
// Trusted wrappers over astro-float: the power function and the builtin
// trigonometric functions, which no bit-exact soft-float crate offers.
// A finite non-zero operand crosses the boundary as a mantissa word `m`, a
// binary exponent `e` and a sign, denoting `(-1)^neg * m * 2^(e-64)`; a
// result comes back as `(m, e, code)` with code 0 for a positive finite
// value, 1 for a negative finite value, 2 for +Inf, 3 for -Inf and 4 for
// NaN.  Each such result is deterministic in the arguments and is therefore
// named by an uninterpreted spec function.
// ---------------------------------------------------------------------------

/// `x^y` for finite `x = (-1)^an * am * 2^(ae-64)`, `y = (-1)^bn * bm *
/// 2^(be-64)`, computed by astro-float to 64 significant bits (truncated;
/// the bridge back to binary64 rounds to nearest).
pub uninterp spec fn big_pow(am: u64, ae: i32, an: bool, bm: u64, be: i32, bn: bool) -> (
    u64,
    i32,
    u8,
);

/// The sine of the finite value `(-1)^neg * m * 2^(e-64)`, computed by
/// astro-float to 64 significant bits (truncated; the bridge back to
/// binary64 rounds to nearest).
pub uninterp spec fn big_sin(m: u64, e: i32, neg: bool) -> (u64, i32, u8);

/// The cosine, under the same conventions as the sine.
pub uninterp spec fn big_cos(m: u64, e: i32, neg: bool) -> (u64, i32, u8);

/// The tangent, under the same conventions as the sine.
pub uninterp spec fn big_tan(m: u64, e: i32, neg: bool) -> (u64, i32, u8);

/// The arcsine, under the same conventions as the sine; an argument outside
/// [-1, 1] comes back as NaN.
pub uninterp spec fn big_asin(m: u64, e: i32, neg: bool) -> (u64, i32, u8);

/// The arccosine, under the same conventions as the arcsine.
pub uninterp spec fn big_acos(m: u64, e: i32, neg: bool) -> (u64, i32, u8);

/// The arctangent, under the same conventions as the sine.
pub uninterp spec fn big_atan(m: u64, e: i32, neg: bool) -> (u64, i32, u8);

/// Relies on astro-float's `BigFloat::pow` (64 significant bits, truncated); operands and result cross as raw mantissa/exponent/sign
/// parts via `from_words` and `as_raw_parts`.
#[verifier::external_body]
fn astro_pow(am: u64, ae: i32, an: bool, bm: u64, be: i32, bn: bool) -> (r: (u64, i32, u8))
    ensures
        r == big_pow(am, ae, an, bm, be, bn),
{
    let x = BigFloat::from_words(&[am], if an { Sign::Neg } else { Sign::Pos }, ae);
    let y = BigFloat::from_words(&[bm], if bn { Sign::Neg } else { Sign::Pos }, be);
    let mut cc = Consts::new().expect("constants cache");
    let v = x.pow(&y, 64, RoundingMode::None, &mut cc);
    if v.is_inf_pos() { return (0, 0, 2); }
    if v.is_inf_neg() { return (0, 0, 3); }
    match v.as_raw_parts() {
        Some((w, _, s, re, _)) => (w[0], re, if s.is_negative() { 1 } else { 0 }),
        None => (0, 0, 4),
    }
}

/// Relies on astro-float's `BigFloat::sin` (64 significant bits, truncated); operand and result cross as raw parts.
#[verifier::external_body]
fn astro_sin_call(m: u64, e: i32, neg: bool) -> (r: (u64, i32, u8))
    ensures
        r == big_sin(m, e, neg),
{
    let x = BigFloat::from_words(&[m], if neg { Sign::Neg } else { Sign::Pos }, e);
    let mut cc = Consts::new().expect("constants cache");
    let v = x.sin(64, RoundingMode::None, &mut cc);
    if v.is_inf_pos() { return (0, 0, 2); }
    if v.is_inf_neg() { return (0, 0, 3); }
    match v.as_raw_parts() {
        Some((w, _, s, re, _)) => (w[0], re, if s.is_negative() { 1 } else { 0 }),
        None => (0, 0, 4),
    }
}

/// Relies on astro-float's `BigFloat::cos` (64 significant bits, truncated); operand and result cross as raw parts.
#[verifier::external_body]
fn astro_cos_call(m: u64, e: i32, neg: bool) -> (r: (u64, i32, u8))
    ensures
        r == big_cos(m, e, neg),
{
    let x = BigFloat::from_words(&[m], if neg { Sign::Neg } else { Sign::Pos }, e);
    let mut cc = Consts::new().expect("constants cache");
    let v = x.cos(64, RoundingMode::None, &mut cc);
    if v.is_inf_pos() { return (0, 0, 2); }
    if v.is_inf_neg() { return (0, 0, 3); }
    match v.as_raw_parts() {
        Some((w, _, s, re, _)) => (w[0], re, if s.is_negative() { 1 } else { 0 }),
        None => (0, 0, 4),
    }
}

/// Relies on astro-float's `BigFloat::tan` (64 significant bits, truncated); operand and result cross as raw parts.
#[verifier::external_body]
fn astro_tan_call(m: u64, e: i32, neg: bool) -> (r: (u64, i32, u8))
    ensures
        r == big_tan(m, e, neg),
{
    let x = BigFloat::from_words(&[m], if neg { Sign::Neg } else { Sign::Pos }, e);
    let mut cc = Consts::new().expect("constants cache");
    let v = x.tan(64, RoundingMode::None, &mut cc);
    if v.is_inf_pos() { return (0, 0, 2); }
    if v.is_inf_neg() { return (0, 0, 3); }
    match v.as_raw_parts() {
        Some((w, _, s, re, _)) => (w[0], re, if s.is_negative() { 1 } else { 0 }),
        None => (0, 0, 4),
    }
}

/// Relies on astro-float's `BigFloat::asin` (64 significant bits, truncated); operand and result cross as raw parts.
#[verifier::external_body]
fn astro_asin_call(m: u64, e: i32, neg: bool) -> (r: (u64, i32, u8))
    ensures
        r == big_asin(m, e, neg),
{
    let x = BigFloat::from_words(&[m], if neg { Sign::Neg } else { Sign::Pos }, e);
    let mut cc = Consts::new().expect("constants cache");
    let v = x.asin(64, RoundingMode::None, &mut cc);
    if v.is_inf_pos() { return (0, 0, 2); }
    if v.is_inf_neg() { return (0, 0, 3); }
    match v.as_raw_parts() {
        Some((w, _, s, re, _)) => (w[0], re, if s.is_negative() { 1 } else { 0 }),
        None => (0, 0, 4),
    }
}

/// Relies on astro-float's `BigFloat::acos` (64 significant bits, truncated); operand and result cross as raw parts.
#[verifier::external_body]
fn astro_acos_call(m: u64, e: i32, neg: bool) -> (r: (u64, i32, u8))
    ensures
        r == big_acos(m, e, neg),
{
    let x = BigFloat::from_words(&[m], if neg { Sign::Neg } else { Sign::Pos }, e);
    let mut cc = Consts::new().expect("constants cache");
    let v = x.acos(64, RoundingMode::None, &mut cc);
    if v.is_inf_pos() { return (0, 0, 2); }
    if v.is_inf_neg() { return (0, 0, 3); }
    match v.as_raw_parts() {
        Some((w, _, s, re, _)) => (w[0], re, if s.is_negative() { 1 } else { 0 }),
        None => (0, 0, 4),
    }
}

/// Relies on astro-float's `BigFloat::atan` (64 significant bits, truncated); operand and result cross as raw parts.
#[verifier::external_body]
fn astro_atan_call(m: u64, e: i32, neg: bool) -> (r: (u64, i32, u8))
    ensures
        r == big_atan(m, e, neg),
{
    let x = BigFloat::from_words(&[m], if neg { Sign::Neg } else { Sign::Pos }, e);
    let mut cc = Consts::new().expect("constants cache");
    let v = x.atan(64, RoundingMode::None, &mut cc);
    if v.is_inf_pos() { return (0, 0, 2); }
    if v.is_inf_neg() { return (0, 0, 3); }
    match v.as_raw_parts() {
        Some((w, _, s, re, _)) => (w[0], re, if s.is_negative() { 1 } else { 0 }),
        None => (0, 0, 4),
    }
}

// ---------------------------------------------------------------------------
// Verified bridge between binary64 encodings and the mantissa/exponent parts
// that cross the astro-float boundary.
// ---------------------------------------------------------------------------

/// The 11-bit exponent field of the encoding.
pub open spec fn exp_field(bits: u64) -> u64 {
    (bits >> 52) & 0x7FF
}

/// The significand of a finite encoding, with the implicit leading bit made
/// explicit for normal values: the encoded magnitude is
/// `dec_m(bits) * 2^(dec_e(bits) - 64)`.
pub open spec fn dec_m(bits: u64) -> u64 {
    if exp_field(bits) == 0 {
        bits & FRAC_MASK
    } else {
        (bits & FRAC_MASK) | 0x0010_0000_0000_0000
    }
}

/// The binary exponent that pairs with `dec_m` under the `m * 2^(e-64)`
/// convention of the astro-float boundary.
pub open spec fn dec_e(bits: u64) -> i32 {
    if exp_field(bits) == 0 {
        -1010i32
    } else {
        (exp_field(bits) - 1011) as i32
    }
}

/// The exponent clamped to a band that already decides overflow and
/// underflow, so that the scaled conversion stays within `i32` arithmetic.
pub open spec fn clamp_e(e: i32) -> i32 {
    if e > 2000 {
        2000
    } else if e < -2000 {
        -2000i32
    } else {
        e
    }
}

/// The binary64 encoding of a result that came back from the astro-float
/// boundary as `(m, e, code)`.
pub open spec fn encode_parts(p: (u64, i32, u8)) -> u64 {
    let (m, e, code) = p;
    if code == 2 {
        INF_BITS
    } else if code == 3 {
        INF_BITS | SIGN_MASK
    } else if code == 4 {
        NAN_BITS
    } else {
        let mag = dbl_from_scaled(m, (clamp_e(e) - 64) as i32);
        if code == 1 {
            mag | SIGN_MASK
        } else {
            mag
        }
    }
}

/// True when the encoded value is an odd integer; false for non-integers,
/// even integers, zeros, infinities and NaNs.
pub open spec fn spec_odd_int(bits: u64) -> bool {
    let ef = exp_field(bits);
    if ef < 1023 || ef >= 1076 {
        false
    } else {
        let shift = (1075 - ef) as u64;
        let m = dec_m(bits);
        (m >> shift) << shift == m && (m >> shift) & 1 == 1
    }
}

/// The power function on encodings: the special cases of the usual `pow`
/// contract are decided on the bits, and finite operands are handed to
/// astro-float.
pub open spec fn dbl_pow(a: u64, b: u64) -> u64 {
    if a == ONE_BITS {
        ONE_BITS
    } else if spec_is_zero(b) {
        ONE_BITS
    } else if spec_is_nan(a) || spec_is_nan(b) {
        NAN_BITS
    } else if spec_is_inf(b) {
        if a & MAG_MASK == ONE_BITS {
            ONE_BITS
        } else if a & MAG_MASK < ONE_BITS {
            if spec_is_neg(b) {
                INF_BITS
            } else {
                ZERO_BITS
            }
        } else {
            if spec_is_neg(b) {
                ZERO_BITS
            } else {
                INF_BITS
            }
        }
    } else if spec_is_inf(a) {
        if !spec_is_neg(a) {
            if spec_is_neg(b) {
                ZERO_BITS
            } else {
                INF_BITS
            }
        } else {
            if spec_is_neg(b) {
                if spec_odd_int(b) {
                    SIGN_MASK
                } else {
                    ZERO_BITS
                }
            } else {
                if spec_odd_int(b) {
                    INF_BITS | SIGN_MASK
                } else {
                    INF_BITS
                }
            }
        }
    } else {
        encode_parts(
            big_pow(dec_m(a), dec_e(a), spec_is_neg(a), dec_m(b), dec_e(b), spec_is_neg(b)),
        )
    }
}

/// The sine on encodings: NaN for NaN or infinite arguments, astro-float
/// otherwise.
pub open spec fn dbl_sin(a: u64) -> u64 {
    if spec_is_nan(a) || spec_is_inf(a) {
        NAN_BITS
    } else {
        encode_parts(big_sin(dec_m(a), dec_e(a), spec_is_neg(a)))
    }
}

/// The cosine on encodings, under the same conventions as the sine.
pub open spec fn dbl_cos(a: u64) -> u64 {
    if spec_is_nan(a) || spec_is_inf(a) {
        NAN_BITS
    } else {
        encode_parts(big_cos(dec_m(a), dec_e(a), spec_is_neg(a)))
    }
}

/// The tangent on encodings, under the same conventions as the sine.
pub open spec fn dbl_tan(a: u64) -> u64 {
    if spec_is_nan(a) || spec_is_inf(a) {
        NAN_BITS
    } else {
        encode_parts(big_tan(dec_m(a), dec_e(a), spec_is_neg(a)))
    }
}

/// The arcsine on encodings, under the same conventions as the sine.
pub open spec fn dbl_asin(a: u64) -> u64 {
    if spec_is_nan(a) || spec_is_inf(a) {
        NAN_BITS
    } else {
        encode_parts(big_asin(dec_m(a), dec_e(a), spec_is_neg(a)))
    }
}

/// The arccosine on encodings, under the same conventions as the sine.
pub open spec fn dbl_acos(a: u64) -> u64 {
    if spec_is_nan(a) || spec_is_inf(a) {
        NAN_BITS
    } else {
        encode_parts(big_acos(dec_m(a), dec_e(a), spec_is_neg(a)))
    }
}

/// Encoding of the arctangent's limit at positive infinity: the binary64
/// value nearest to half pi.
pub const HALF_PI_BITS: u64 = 0x3FF9_21FB_5444_2D18;

/// The arctangent on encodings: an infinite argument gives the nearest
/// encoding of its limit, plus or minus half pi.
pub open spec fn dbl_atan(a: u64) -> u64 {
    if spec_is_nan(a) {
        NAN_BITS
    } else if spec_is_inf(a) {
        if spec_is_neg(a) {
            HALF_PI_BITS | SIGN_MASK
        } else {
            HALF_PI_BITS
        }
    } else {
        encode_parts(big_atan(dec_m(a), dec_e(a), spec_is_neg(a)))
    }
}

/// The smaller of two encoded values: a NaN operand yields the other
/// operand, and operands that compare equal (including the two zeros) yield
/// the first.
pub open spec fn dbl_min(a: u64, b: u64) -> u64 {
    if spec_is_nan(a) {
        b
    } else if spec_is_nan(b) {
        a
    } else if dbl_cmp(a, b) == Some(1i8) {
        b
    } else {
        a
    }
}

/// The larger of two encoded values, under the same conventions as
/// `dbl_min`.
pub open spec fn dbl_max(a: u64, b: u64) -> u64 {
    if spec_is_nan(a) {
        b
    } else if spec_is_nan(b) {
        a
    } else if dbl_cmp(a, b) == Some(-1i8) {
        b
    } else {
        a
    }
}

/// Rebuilds a binary64 encoding from boundary parts.
fn number_from_parts(p: (u64, i32, u8)) -> (r: Number)
    ensures
        r.bits == encode_parts(p),
{
    let (m, e, code): (u64, i32, u8) = p;
    if code == 2 {
        Number { bits: INF_BITS }
    } else if code == 3 {
        Number { bits: INF_BITS | SIGN_MASK }
    } else if code == 4 {
        Number { bits: NAN_BITS }
    } else {
        let ec: i32 = if e > 2000 {
            2000
        } else if e < -2000 {
            -2000
        } else {
            e
        };
        let mag = apf_from_scaled(m, ec - 64);
        Number { bits: if code == 1 { mag | SIGN_MASK } else { mag } }
    }
}

impl Number {
    /// Splits a finite value into the mantissa and exponent that cross the
    /// astro-float boundary.
    fn decode_finite(&self) -> (r: (u64, i32))
        requires
            !spec_is_nan(self.bits),
            !spec_is_inf(self.bits),
        ensures
            r.0 == dec_m(self.bits),
            r.1 == dec_e(self.bits),
    {
        let bits = self.bits;
        let ef = (bits >> 52) & 0x7FF;
        proof {
            assert((bits >> 52) & 0x7FF <= 0x7FF) by (bit_vector);
        }
        if ef == 0 {
            (bits & FRAC_MASK, -1010)
        } else {
            ((bits & FRAC_MASK) | 0x0010_0000_0000_0000, (ef as i32) - 1011)
        }
    }

    /// Wraps a raw binary64 encoding.
    pub fn from_bits(bits: u64) -> (r: Number)
        ensures
            r.bits == bits,
    {
        Number { bits }
    }

    /// The raw binary64 encoding of this value.
    pub fn to_bits(&self) -> (r: u64)
        ensures
            r == self.bits,
    {
        self.bits
    }

    /// Whether this value is a zero (of either sign).
    pub fn is_zero(&self) -> (r: bool)
        ensures
            r == spec_is_zero(self.bits),
    {
        self.bits & MAG_MASK == 0
    }

    /// Whether this value is a NaN.
    pub fn is_nan(&self) -> (r: bool)
        ensures
            r == spec_is_nan(self.bits),
    {
        self.bits & MAG_MASK > INF_BITS
    }

    /// The negated value: the sign bit flipped, all other bits kept.
    pub fn neg(&self) -> (r: Number)
        ensures
            r.bits == spec_neg(self.bits),
    {
        Number { bits: self.bits ^ SIGN_MASK }
    }

    /// The rounded binary64 sum.
    pub fn add(&self, o: &Number) -> (r: Number)
        ensures
            r.bits == dbl_add(self.bits, o.bits),
    {
        Number { bits: apf_add(self.bits, o.bits) }
    }

    /// The rounded binary64 difference.
    pub fn sub(&self, o: &Number) -> (r: Number)
        ensures
            r.bits == dbl_sub(self.bits, o.bits),
    {
        Number { bits: apf_sub(self.bits, o.bits) }
    }

    /// The rounded binary64 product.
    pub fn mul(&self, o: &Number) -> (r: Number)
        ensures
            r.bits == dbl_mul(self.bits, o.bits),
    {
        Number { bits: apf_mul(self.bits, o.bits) }
    }

    /// The rounded binary64 quotient; callers rule out a zero divisor
    /// before dividing.
    pub fn div(&self, o: &Number) -> (r: Number)
        requires
            !spec_is_zero(o.bits),
        ensures
            r.bits == dbl_div(self.bits, o.bits),
    {
        Number { bits: apf_div(self.bits, o.bits) }
    }

    /// The power `self ^ o`, as `dbl_pow` states it.
    pub fn pow(&self, o: &Number) -> (r: Number)
        ensures
            r.bits == dbl_pow(self.bits, o.bits),
    {
        if self.bits == ONE_BITS {
            return Number { bits: ONE_BITS };
        }
        if o.is_zero() {
            return Number { bits: ONE_BITS };
        }
        if self.is_nan() || o.is_nan() {
            return Number { bits: NAN_BITS };
        }
        if o.bits & MAG_MASK == INF_BITS {
            let amag = self.bits & MAG_MASK;
            if amag == ONE_BITS {
                return Number { bits: ONE_BITS };
            }
            let below_one = amag < ONE_BITS;
            let want_zero = (below_one && !o.is_negative()) || (!below_one && o.is_negative());
            return Number { bits: if want_zero { ZERO_BITS } else { INF_BITS } };
        }
        if self.bits & MAG_MASK == INF_BITS {
            if !self.is_negative() {
                return Number {
                    bits: if o.is_negative() {
                        ZERO_BITS
                    } else {
                        INF_BITS
                    },
                };
            }
            let odd = o.is_odd_int();
            if o.is_negative() {
                return Number { bits: if odd { SIGN_MASK } else { ZERO_BITS } };
            }
            return Number { bits: if odd { INF_BITS | SIGN_MASK } else { INF_BITS } };
        }
        let (am, ae) = self.decode_finite();
        let (bm, be) = o.decode_finite();
        number_from_parts(astro_pow(am, ae, self.is_negative(), bm, be, o.is_negative()))
    }

    /// Whether the sign bit is set.
    pub fn is_negative(&self) -> (r: bool)
        ensures
            r == spec_is_neg(self.bits),
    {
        self.bits & SIGN_MASK != 0
    }

    /// Whether the value is an odd integer.
    fn is_odd_int(&self) -> (r: bool)
        ensures
            r == spec_odd_int(self.bits),
    {
        let bits = self.bits;
        let ef = (bits >> 52) & 0x7FF;
        proof {
            assert((bits >> 52) & 0x7FF <= 0x7FF) by (bit_vector);
        }
        if ef < 1023 || ef >= 1076 {
            return false;
        }
        let shift = 1075 - ef;
        let m = if ef == 0 {
            bits & FRAC_MASK
        } else {
            (bits & FRAC_MASK) | 0x0010_0000_0000_0000
        };
        proof {
            assert(m >> shift <= m) by (bit_vector);
        }
        (m >> shift) << shift == m && (m >> shift) & 1 == 1
    }

    /// The sine of the value.
    pub fn sin(&self) -> (r: Number)
        ensures
            r.bits == dbl_sin(self.bits),
    {
        if self.is_nan() || self.bits & MAG_MASK == INF_BITS {
            return Number { bits: NAN_BITS };
        }
        let (m, e) = self.decode_finite();
        number_from_parts(astro_sin_call(m, e, self.is_negative()))
    }

    /// The cosine of the value.
    pub fn cos(&self) -> (r: Number)
        ensures
            r.bits == dbl_cos(self.bits),
    {
        if self.is_nan() || self.bits & MAG_MASK == INF_BITS {
            return Number { bits: NAN_BITS };
        }
        let (m, e) = self.decode_finite();
        number_from_parts(astro_cos_call(m, e, self.is_negative()))
    }

    /// The tangent of the value.
    pub fn tan(&self) -> (r: Number)
        ensures
            r.bits == dbl_tan(self.bits),
    {
        if self.is_nan() || self.bits & MAG_MASK == INF_BITS {
            return Number { bits: NAN_BITS };
        }
        let (m, e) = self.decode_finite();
        number_from_parts(astro_tan_call(m, e, self.is_negative()))
    }

    /// The arcsine of the value.
    pub fn asin(&self) -> (r: Number)
        ensures
            r.bits == dbl_asin(self.bits),
    {
        if self.is_nan() || self.bits & MAG_MASK == INF_BITS {
            return Number { bits: NAN_BITS };
        }
        let (m, e) = self.decode_finite();
        number_from_parts(astro_asin_call(m, e, self.is_negative()))
    }

    /// The arccosine of the value.
    pub fn acos(&self) -> (r: Number)
        ensures
            r.bits == dbl_acos(self.bits),
    {
        if self.is_nan() || self.bits & MAG_MASK == INF_BITS {
            return Number { bits: NAN_BITS };
        }
        let (m, e) = self.decode_finite();
        number_from_parts(astro_acos_call(m, e, self.is_negative()))
    }

    /// The arctangent of the value.
    pub fn atan(&self) -> (r: Number)
        ensures
            r.bits == dbl_atan(self.bits),
    {
        if self.is_nan() {
            return Number { bits: NAN_BITS };
        }
        if self.bits & MAG_MASK == INF_BITS {
            return Number {
                bits: if self.is_negative() {
                    HALF_PI_BITS | SIGN_MASK
                } else {
                    HALF_PI_BITS
                },
            };
        }
        let (m, e) = self.decode_finite();
        number_from_parts(astro_atan_call(m, e, self.is_negative()))
    }

    /// Compares two values as IEEE-754 orders them, exactly as `dbl_cmp`
    /// states: `None` when either operand is a NaN, the two zeros equal,
    /// and otherwise sign-magnitude order of the encodings.
    pub fn compare(&self, o: &Number) -> (r: Option<i8>)
        ensures
            r == dbl_cmp(self.bits, o.bits),
    {
        if self.is_nan() || o.is_nan() {
            return None;
        }
        let am = self.bits & MAG_MASK;
        let bm = o.bits & MAG_MASK;
        let an = self.is_negative();
        let bn = o.is_negative();
        if an && bn {
            if am == bm {
                Some(0)
            } else if bm < am {
                Some(-1)
            } else {
                Some(1)
            }
        } else if !an && !bn {
            if am == bm {
                Some(0)
            } else if am < bm {
                Some(-1)
            } else {
                Some(1)
            }
        } else if an {
            // Negative against non-negative: smaller, unless both encode a
            // zero.
            if am == 0 && bm == 0 {
                Some(0)
            } else {
                Some(-1)
            }
        } else {
            if am == 0 && bm == 0 {
                Some(0)
            } else {
                Some(1)
            }
        }
    }

    /// The smaller value, as `dbl_min` states it.
    pub fn min(&self, o: &Number) -> (r: Number)
        ensures
            r.bits == dbl_min(self.bits, o.bits),
    {
        if self.is_nan() {
            return *o;
        }
        if o.is_nan() {
            return *self;
        }
        match self.compare(o) {
            Some(c) => if c == 1 {
                *o
            } else {
                *self
            },
            None => *self,
        }
    }

    /// The larger value, as `dbl_max` states it.
    pub fn max(&self, o: &Number) -> (r: Number)
        ensures
            r.bits == dbl_max(self.bits, o.bits),
    {
        if self.is_nan() {
            return *o;
        }
        if o.is_nan() {
            return *self;
        }
        match self.compare(o) {
            Some(c) => if c == -1 {
                *o
            } else {
                *self
            },
            None => *self,
        }
    }

    /// Parses a decimal numeral into a value.
    pub fn parse(s: &str) -> (r: Option<Number>)
        ensures
            match r {
                Some(n) => dbl_parse(s@) == Some(n.bits),
                None => dbl_parse(s@) is None,
            },
    {
        match apf_parse(s) {
            Some(bits) => Some(Number { bits }),
            None => None,
        }
    }

    /// Renders the value in decimal.
    pub fn to_text(&self) -> (r: String)
        ensures
            r@ == dbl_fmt(self.bits),
    {
        apf_fmt(self.bits)
    }
}

} // verus!
