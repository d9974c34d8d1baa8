//! Decimal numbers of `rust_decimal`, held as mantissa and scale: parsing,
//! comparison and checked arithmetic go to `rust_decimal`.
use vstd::prelude::*;
use rust_decimal::Decimal;
use std::str::FromStr;

verus! {

/// The largest mantissa of a `rust_decimal::Decimal`: `2^96 - 1`.
pub const MAX_DECIMAL_MANTISSA: i128 = 79228162514264337593543950335;
/// The largest scale of a `rust_decimal::Decimal`.
pub const MAX_DECIMAL_SCALE: u32 = 28;

/// A decimal number `mantissa / 10^scale`.
#[derive(Debug, Clone, Copy, PartialEq, Eq, Structural)]
pub struct DecimalValue {
    pub mantissa: i128,
    pub scale: u32,
}

/// `10` to the power `n`.
pub open spec fn pow10(n: nat) -> int
    decreases n,
{
    if n == 0 {
        1
    } else {
        10 * pow10((n - 1) as nat)
    }
}

/// `d` can be a `rust_decimal::Decimal`.
pub open spec fn valid_decimal(d: DecimalValue) -> bool {
    &&& d.scale <= MAX_DECIMAL_SCALE
    &&& -MAX_DECIMAL_MANTISSA <= d.mantissa <= MAX_DECIMAL_MANTISSA
}

/// The value of `a` is less than that of `b`.
pub open spec fn decimal_less(a: DecimalValue, b: DecimalValue) -> bool {
    a.mantissa * pow10(b.scale as nat) < b.mantissa * pow10(a.scale as nat)
}

/// The value of `d` is greater than zero.
pub open spec fn decimal_positive(d: DecimalValue) -> bool {
    d.mantissa > 0
}

/// `d` as mantissa and scale.
pub open spec fn decimal_parts(d: Option<(i128, u32)>) -> Option<DecimalValue> {
    match d {
        Some((m, s)) => Some(DecimalValue { mantissa: m, scale: s }),
        None => None,
    }
}

/// What `Decimal::from_str` gives for `s`, as mantissa and scale.
pub uninterp spec fn rust_decimal_from_str(s: Seq<char>) -> Option<(i128, u32)>;

/// What `Decimal::checked_mul` gives for two decimals, as mantissa and scale.
pub uninterp spec fn rust_decimal_checked_mul(am: i128, ascale: u32, bm: i128, bscale: u32) -> Option<(i128, u32)>;

/// What `Decimal::checked_add` gives for two decimals, as mantissa and scale.
pub uninterp spec fn rust_decimal_checked_add(am: i128, ascale: u32, bm: i128, bscale: u32) -> Option<(i128, u32)>;

/// What `Decimal::checked_sub` gives for two decimals, as mantissa and scale.
pub uninterp spec fn rust_decimal_checked_sub(am: i128, ascale: u32, bm: i128, bscale: u32) -> Option<(i128, u32)>;

/// What `Decimal::checked_div` gives for two decimals, as mantissa and scale.
pub uninterp spec fn rust_decimal_checked_div(am: i128, ascale: u32, bm: i128, bscale: u32) -> Option<(i128, u32)>;

/// What `Decimal::normalize` followed by `to_string` gives for a decimal.
pub uninterp spec fn rust_decimal_normalized_text(m: i128, scale: u32) -> Seq<char>;

/// Parses `s` with `Decimal::from_str` of `rust_decimal`. Claims that the
/// result is the named function of `s`, and that a parsed decimal has a scale of
/// at most 28 and a mantissa of at most 96 bits, as every `Decimal` has.
#[verifier::external_body]
pub(crate) fn parse_decimal(s: &str) -> (r: Option<DecimalValue>)
    ensures
        r == decimal_parts(rust_decimal_from_str(s@)),
        r matches Some(d) ==> valid_decimal(d),
{
    match Decimal::from_str(s) {
        Ok(d) => Some(DecimalValue { mantissa: d.mantissa(), scale: d.scale() }),
        Err(_) => None,
    }
}

/// Compares with `<` of `rust_decimal`, which orders decimals by their value.
#[verifier::external_body]
pub(crate) fn decimal_lt(a: DecimalValue, b: DecimalValue) -> (r: bool)
    requires
        valid_decimal(a),
        valid_decimal(b),
    ensures
        r == decimal_less(a, b),
{
    Decimal::from_i128_with_scale(a.mantissa, a.scale) < Decimal::from_i128_with_scale(b.mantissa, b.scale)
}

/// `Decimal::checked_mul` of `rust_decimal`: the product, or `None` on
/// overflow. Claims that the result is the named function of the operands and a
/// valid decimal.
#[verifier::external_body]
pub(crate) fn decimal_checked_mul(a: DecimalValue, b: DecimalValue) -> (r: Option<DecimalValue>)
    requires
        valid_decimal(a),
        valid_decimal(b),
    ensures
        r == decimal_parts(rust_decimal_checked_mul(a.mantissa, a.scale, b.mantissa, b.scale)),
        r matches Some(d) ==> valid_decimal(d),
{
    match Decimal::from_i128_with_scale(a.mantissa, a.scale).checked_mul(Decimal::from_i128_with_scale(b.mantissa, b.scale)) {
        Some(d) => Some(DecimalValue { mantissa: d.mantissa(), scale: d.scale() }),
        None => None,
    }
}

/// `Decimal::checked_add` of `rust_decimal`: the sum, or `None` on overflow.
/// Claims that the result is the named function of the operands and a valid
/// decimal.
#[verifier::external_body]
pub(crate) fn decimal_checked_add(a: DecimalValue, b: DecimalValue) -> (r: Option<DecimalValue>)
    requires
        valid_decimal(a),
        valid_decimal(b),
    ensures
        r == decimal_parts(rust_decimal_checked_add(a.mantissa, a.scale, b.mantissa, b.scale)),
        r matches Some(d) ==> valid_decimal(d),
{
    match Decimal::from_i128_with_scale(a.mantissa, a.scale).checked_add(Decimal::from_i128_with_scale(b.mantissa, b.scale)) {
        Some(d) => Some(DecimalValue { mantissa: d.mantissa(), scale: d.scale() }),
        None => None,
    }
}

/// `Decimal::checked_sub` of `rust_decimal`: the difference, or `None` on
/// overflow. Claims that the result is the named function of the operands and a
/// valid decimal.
#[verifier::external_body]
pub(crate) fn decimal_checked_sub(a: DecimalValue, b: DecimalValue) -> (r: Option<DecimalValue>)
    requires
        valid_decimal(a),
        valid_decimal(b),
    ensures
        r == decimal_parts(rust_decimal_checked_sub(a.mantissa, a.scale, b.mantissa, b.scale)),
        r matches Some(d) ==> valid_decimal(d),
{
    match Decimal::from_i128_with_scale(a.mantissa, a.scale).checked_sub(Decimal::from_i128_with_scale(b.mantissa, b.scale)) {
        Some(d) => Some(DecimalValue { mantissa: d.mantissa(), scale: d.scale() }),
        None => None,
    }
}

/// `Decimal::checked_div` of `rust_decimal`: the quotient, or `None` on
/// overflow or division by zero. Claims that the result is the named function
/// of the operands, a valid decimal, and `None` for a zero divisor.
#[verifier::external_body]
pub(crate) fn decimal_checked_div(a: DecimalValue, b: DecimalValue) -> (r: Option<DecimalValue>)
    requires
        valid_decimal(a),
        valid_decimal(b),
    ensures
        r == decimal_parts(rust_decimal_checked_div(a.mantissa, a.scale, b.mantissa, b.scale)),
        r matches Some(d) ==> valid_decimal(d),
        b.mantissa == 0 ==> r is None,
{
    match Decimal::from_i128_with_scale(a.mantissa, a.scale).checked_div(Decimal::from_i128_with_scale(b.mantissa, b.scale)) {
        Some(d) => Some(DecimalValue { mantissa: d.mantissa(), scale: d.scale() }),
        None => None,
    }
}

/// The text of `d` without trailing zeros of its fraction, as `normalize` and
/// `to_string` of `rust_decimal` give it. Claims that the result is the named
/// function of `d`.
#[verifier::external_body]
pub(crate) fn decimal_normalized_string(d: DecimalValue) -> (r: String)
    requires
        valid_decimal(d),
    ensures
        r@ == rust_decimal_normalized_text(d.mantissa, d.scale),
{
    Decimal::from_i128_with_scale(d.mantissa, d.scale).normalize().to_string()
}

/// Zero.
pub fn decimal_zero() -> (r: DecimalValue)
    ensures
        r.mantissa == 0,
        r.scale == 0,
        valid_decimal(r),
{
    DecimalValue { mantissa: 0, scale: 0 }
}

/// Whether `d` is greater than zero.
pub fn decimal_is_positive(d: DecimalValue) -> (r: bool)
    requires
        valid_decimal(d),
    ensures
        r == decimal_positive(d),
{
    decimal_lt(decimal_zero(), d)
}

} // verus!
