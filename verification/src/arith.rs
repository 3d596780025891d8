//! Fixed-precision ratio arithmetic, performed by `cosmwasm_std`'s
//! full-precision (256-bit intermediate) integer routines.
//!
//! A conversion ratio is carried as the number of `10^-18` atomic units of a
//! `cosmwasm_std::Decimal`.  The functions here are the only places where the
//! library leaves verified code for arithmetic; each trusted wrapper states
//! exactly the floor-division result that the wrapped routine documents.

use vstd::prelude::*;

verus! {

/// Number of atomic units in a ratio of one (`Decimal::one().atomics()`).
pub const DECIMAL_ONE: u128 = 1_000_000_000_000_000_000;

/// `DECIMAL_ONE` as a spec-level integer.
pub open spec fn dec_one() -> int {
    1_000_000_000_000_000_000
}

/// Floored full-precision product-quotient `x * num / den`.
pub open spec fn mul_ratio_spec(x: int, num: int, den: int) -> int {
    x * num / den
}

/// Atomics of the ratio `num / den`, with a ratio of one as the fallback for
/// a zero denominator.
pub open spec fn ratio_spec(num: int, den: int) -> int {
    if den == 0 {
        dec_one()
    } else {
        num * dec_one() / den
    }
}

/// Floored product of `x` with a ratio given in atomics.
pub open spec fn mul_dec_spec(x: int, atomics: int) -> int {
    x * atomics / dec_one()
}

/// Relies on `cosmwasm_std::Uint128::checked_multiply_ratio`: the result is
/// `self * numerator / denominator` computed without intermediate overflow
/// and floored; `Err(DivideByZero)` for a zero denominator and
/// `Err(Overflow)` when the quotient exceeds `u128::MAX`.
#[verifier::external_body]
pub fn mul_ratio(x: u128, num: u128, den: u128) -> (r: Option<u128>)
    ensures
        match r {
            Some(v) => den != 0 && v == mul_ratio_spec(x as int, num as int, den as int)
                && mul_ratio_spec(x as int, num as int, den as int) <= u128::MAX,
            None => den == 0 || mul_ratio_spec(x as int, num as int, den as int) > u128::MAX,
        },
{
    cosmwasm_std::Uint128::new(x).checked_multiply_ratio(num, den).ok().map(|v| v.u128())
}

/// Relies on `cosmwasm_std::Decimal::checked_from_ratio`: the result is the
/// decimal `numerator / denominator`, whose atomics are
/// `numerator * 10^18 / denominator` floored; `Err(DivideByZero)` for a zero
/// denominator and `Err(Overflow)` when the atomics exceed `u128::MAX`.
#[verifier::external_body]
pub fn dec_from_ratio(num: u128, den: u128) -> (r: Option<u128>)
    ensures
        match r {
            Some(v) => den != 0 && v == ratio_spec(num as int, den as int)
                && ratio_spec(num as int, den as int) <= u128::MAX,
            None => den == 0 || mul_ratio_spec(num as int, dec_one(), den as int) > u128::MAX,
        },
{
    cosmwasm_std::Decimal::checked_from_ratio(num, den).ok().map(|d| d.atomics().u128())
}

/// Relies on `cosmwasm_std::Uint128::checked_mul_floor` applied to a
/// `cosmwasm_std::Decimal` built with `Decimal::new` from raw atomics: the
/// result is `x * atomics / 10^18`, computed without intermediate overflow
/// and floored, with an error exactly when it exceeds `u128::MAX`.
#[verifier::external_body]
pub fn mul_dec(x: u128, atomics: u128) -> (r: Option<u128>)
    ensures
        match r {
            Some(v) => v == mul_dec_spec(x as int, atomics as int)
                && mul_dec_spec(x as int, atomics as int) <= u128::MAX,
            None => mul_dec_spec(x as int, atomics as int) > u128::MAX,
        },
{
    let d = cosmwasm_std::Decimal::new(cosmwasm_std::Uint128::new(atomics));
    cosmwasm_std::Uint128::new(x).checked_mul_floor(d).ok().map(|v| v.u128())
}

} // verus!
