//! Exact rationals from `rust_decimal` decimals.

use vstd::prelude::*;
use rust_decimal::Decimal;
use crate::rational::{decimal_to_rational, RationalInteger};
use crate::text::pow10;

verus! {

#[verifier::external_type_specification]
#[verifier::external_body]
pub struct ExDecimal(Decimal);

/// The rational `mantissa / 10^scale`.
pub open spec fn decimal_rational(mantissa: int, scale: nat) -> RationalInteger {
    RationalInteger::from_parts(mantissa, pow10(scale) as int)
}

/// The mantissa `Decimal::mantissa` reports for a decimal.
pub uninterp spec fn decimal_mantissa_of(d: Decimal) -> int;

/// The scale `Decimal::scale` reports for a decimal.
pub uninterp spec fn decimal_scale_of(d: Decimal) -> int;

/// The exact value of a decimal: its mantissa over ten to its scale.
pub open spec fn decimal_value(d: Decimal) -> RationalInteger {
    decimal_rational(decimal_mantissa_of(d), decimal_scale_of(d) as nat)
}

/// `Decimal::mantissa`: the integer `m` of the decimal's value `m / 10^e`, a
/// function of the decimal alone, with `-2^96 < m < 2^96` (the 96-bit raw value
/// with its sign).
#[verifier::external_body]
fn decimal_mantissa(d: &Decimal) -> (m: i128)
    ensures
        -79228162514264337593543950336 < m < 79228162514264337593543950336,
        m as int == decimal_mantissa_of(*d),
{
    d.mantissa()
}

/// `Decimal::scale`: the exponent `e` of the decimal's value `m / 10^e`, a function
/// of the decimal alone, at most 28.
#[verifier::external_body]
fn decimal_scale(d: &Decimal) -> (e: u32)
    ensures
        e <= 28,
        e as int == decimal_scale_of(*d),
{
    d.scale()
}

/// The exact value of a decimal as a rational.
pub fn rational_from_decimal(d: &Decimal) -> (r: RationalInteger)
    ensures
        r == decimal_value(*d),
{
    let mantissa = decimal_mantissa(d);
    let scale = decimal_scale(d);
    match decimal_to_rational(mantissa, scale) {
        Ok(r) => {
            proof {
                assert(r == decimal_rational(mantissa as int, scale as nat));
            }
            r
        },
        Err(_) => vstd::pervasive::unreached(),
    }
}

} // verus!
