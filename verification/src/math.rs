//! Fixed-point decimals with 18 fractional digits, and the arithmetic on them
//! that the contract performs with a 256-bit intermediate.

use vstd::prelude::*;

verus! {

/// 10^18: the number of atomic units in one whole `Decimal`.
pub const DECIMAL_FRACTIONAL: u128 = 1_000_000_000_000_000_000u128;

/// A fixed-point decimal: `atomics / 10^18`.
#[derive(Clone, Copy, Debug, PartialEq, Eq, Structural)]
pub struct Decimal {
    pub atomics: u128,
}

/// Floor of `value * numerator / denominator`, as a mathematical integer.
pub open spec fn ratio_floor(value: int, numerator: int, denominator: int) -> int {
    value * numerator / denominator
}

/// The atomics of `a * b` (floored).
pub open spec fn spec_mul(a: Decimal, b: Decimal) -> int {
    ratio_floor(a.atomics as int, b.atomics as int, DECIMAL_FRACTIONAL as int)
}

/// The atomics of `a / b` (floored).
pub open spec fn spec_div(a: Decimal, b: Decimal) -> int {
    ratio_floor(a.atomics as int, DECIMAL_FRACTIONAL as int, b.atomics as int)
}

/// The atomics of `numerator / denominator` for two integers.
pub open spec fn spec_ratio(numerator: int, denominator: int) -> int {
    ratio_floor(numerator, DECIMAL_FRACTIONAL as int, denominator)
}

/// The whole part of a decimal.
pub open spec fn spec_floor(d: Decimal) -> int {
    d.atomics as int / DECIMAL_FRACTIONAL as int
}

/// `cosmwasm_std::Uint128::multiply_ratio`: the floor of `value * numerator / denominator`,
/// computed with a 256-bit intermediate. It panics when the denominator is zero or when the
/// quotient does not fit in 128 bits; `requires` leaves both out.
#[verifier::external_body]
fn cw_multiply_ratio(value: u128, numerator: u128, denominator: u128) -> (r: u128)
    requires
        denominator > 0,
        ratio_floor(value as int, numerator as int, denominator as int) <= u128::MAX,
    ensures
        r == ratio_floor(value as int, numerator as int, denominator as int),
{
    cosmwasm_std::Uint128::new(value).multiply_ratio(numerator, denominator).u128()
}

/// `cosmwasm_std::Decimal::from_ratio`: the decimal whose atomics are
/// `numerator * 10^18 / denominator` (floored). It panics on a zero denominator and on a quotient
/// that does not fit in 128 bits; `requires` leaves both out.
#[verifier::external_body]
fn cw_decimal_from_ratio(numerator: u128, denominator: u128) -> (r: Decimal)
    requires
        denominator > 0,
        spec_ratio(numerator as int, denominator as int) <= u128::MAX,
    ensures
        r.atomics == spec_ratio(numerator as int, denominator as int),
{
    let d = cosmwasm_std::Decimal::from_ratio(numerator, denominator);
    Decimal { atomics: cosmwasm_std::Fraction::numerator(&d) }
}

/// `value * numerator / denominator` through `cosmwasm_std::Uint128::full_mul`, the division of
/// `cosmwasm_std::Uint256` and the conversion back to `cosmwasm_std::Uint128`: the floored quotient
/// when it fits in 128 bits, `None` when it does not. The division panics on a zero denominator;
/// `requires` leaves that out.
#[verifier::external_body]
fn cw_checked_multiply_ratio(value: u128, numerator: u128, denominator: u128) -> (r: Option<u128>)
    requires
        denominator > 0,
    ensures
        ratio_floor(value as int, numerator as int, denominator as int) <= u128::MAX ==> r == Some(
            ratio_floor(value as int, numerator as int, denominator as int) as u128,
        ),
        ratio_floor(value as int, numerator as int, denominator as int) > u128::MAX ==> r is None,
{
    let q = cosmwasm_std::Uint128::new(value).full_mul(numerator)
        / cosmwasm_std::Uint256::from(denominator);
    match cosmwasm_std::Uint128::try_from(q) {
        Ok(v) => Some(v.u128()),
        Err(_) => None,
    }
}

impl Decimal {
    /// 0.0
    pub fn zero() -> (r: Decimal)
        ensures
            r.atomics == 0,
    {
        Decimal { atomics: 0 }
    }

    /// 1.0
    pub fn one() -> (r: Decimal)
        ensures
            r.atomics == DECIMAL_FRACTIONAL,
    {
        Decimal { atomics: DECIMAL_FRACTIONAL }
    }

    pub fn is_zero(&self) -> (r: bool)
        ensures
            r == (self.atomics == 0),
    {
        self.atomics == 0
    }

    /// The decimal `numerator / denominator`, floored to 18 fractional digits.
    pub fn from_ratio(numerator: u128, denominator: u128) -> (r: Decimal)
        requires
            denominator > 0,
            spec_ratio(numerator as int, denominator as int) <= u128::MAX,
        ensures
            r.atomics == spec_ratio(numerator as int, denominator as int),
    {
        cw_decimal_from_ratio(numerator, denominator)
    }

    /// `self > other`
    pub fn gt(&self, other: &Decimal) -> (r: bool)
        ensures
            r == (self.atomics > other.atomics),
    {
        self.atomics > other.atomics
    }
}

/// The shares-per-token ratio a strategy starts with: 10.
pub fn get_default_s_t_ratio() -> (r: Decimal)
    ensures
        r.atomics == 10 * DECIMAL_FRACTIONAL,
{
    Decimal { atomics: 10 * DECIMAL_FRACTIONAL }
}

/// `a * b`, computed with a 256-bit intermediate and floored.
pub fn decimal_multiplication_in_256(a: Decimal, b: Decimal) -> (r: Decimal)
    requires
        spec_mul(a, b) <= u128::MAX,
    ensures
        r.atomics == spec_mul(a, b),
{
    Decimal { atomics: cw_multiply_ratio(a.atomics, b.atomics, DECIMAL_FRACTIONAL) }
}

/// `a / b`, computed with a 256-bit intermediate and floored.
pub fn decimal_division_in_256(a: Decimal, b: Decimal) -> (r: Decimal)
    requires
        b.atomics > 0,
        spec_div(a, b) <= u128::MAX,
    ensures
        r.atomics == spec_div(a, b),
{
    Decimal { atomics: cw_multiply_ratio(a.atomics, DECIMAL_FRACTIONAL, b.atomics) }
}

/// `a + b`.
pub fn decimal_summation_in_256(a: Decimal, b: Decimal) -> (r: Decimal)
    requires
        a.atomics + b.atomics <= u128::MAX,
    ensures
        r.atomics == a.atomics + b.atomics,
{
    Decimal { atomics: a.atomics + b.atomics }
}

/// `a - b`.
pub fn decimal_subtraction_in_256(a: Decimal, b: Decimal) -> (r: Decimal)
    requires
        a.atomics >= b.atomics,
    ensures
        r.atomics == a.atomics - b.atomics,
{
    Decimal { atomics: a.atomics - b.atomics }
}

/// The decimal with the same value as the integer `a`.
pub fn get_decimal_from_uint128(a: u128) -> (r: Decimal)
    requires
        a * DECIMAL_FRACTIONAL <= u128::MAX,
    ensures
        r.atomics == a * DECIMAL_FRACTIONAL,
{
    proof {
        assert(spec_ratio(a as int, 1) == a * DECIMAL_FRACTIONAL) by (nonlinear_arith);
    }
    Decimal::from_ratio(a, 1)
}

/// The whole part of a decimal.
pub fn uint128_from_decimal(a: Decimal) -> (r: u128)
    ensures
        r == spec_floor(a),
{
    a.atomics / DECIMAL_FRACTIONAL
}

/// `a * b` floored, or `None` when it does not fit in 128 bits.
pub fn checked_decimal_multiplication(a: Decimal, b: Decimal) -> (r: Option<Decimal>)
    ensures
        spec_mul(a, b) <= u128::MAX ==> r == Some(Decimal { atomics: spec_mul(a, b) as u128 }),
        spec_mul(a, b) > u128::MAX ==> r is None,
{
    match cw_checked_multiply_ratio(a.atomics, b.atomics, DECIMAL_FRACTIONAL) {
        Some(v) => Some(Decimal { atomics: v }),
        None => None,
    }
}

/// `a / b` floored, or `None` when it does not fit in 128 bits.
pub fn checked_decimal_division(a: Decimal, b: Decimal) -> (r: Option<Decimal>)
    requires
        b.atomics > 0,
    ensures
        spec_div(a, b) <= u128::MAX ==> r == Some(Decimal { atomics: spec_div(a, b) as u128 }),
        spec_div(a, b) > u128::MAX ==> r is None,
{
    match cw_checked_multiply_ratio(a.atomics, DECIMAL_FRACTIONAL, b.atomics) {
        Some(v) => Some(Decimal { atomics: v }),
        None => None,
    }
}

/// `numerator / denominator` as a decimal, or `None` when it does not fit in 128 bits.
pub fn checked_decimal_from_ratio(numerator: u128, denominator: u128) -> (r: Option<Decimal>)
    requires
        denominator > 0,
    ensures
        spec_ratio(numerator as int, denominator as int) <= u128::MAX ==> r == Some(
            Decimal { atomics: spec_ratio(numerator as int, denominator as int) as u128 },
        ),
        spec_ratio(numerator as int, denominator as int) > u128::MAX ==> r is None,
{
    if ratio_fits(numerator, denominator) {
        Some(Decimal::from_ratio(numerator, denominator))
    } else {
        None
    }
}

/// Whether `numerator * 10^18 / denominator` fits in 128 bits.
fn ratio_fits(numerator: u128, denominator: u128) -> (r: bool)
    requires
        denominator > 0,
    ensures
        r == (spec_ratio(numerator as int, denominator as int) <= u128::MAX),
{
    cw_checked_multiply_ratio(numerator, DECIMAL_FRACTIONAL, denominator).is_some()
}

/// `a + b`, or `None` when it does not fit in 128 bits.
pub fn checked_decimal_summation(a: Decimal, b: Decimal) -> (r: Option<Decimal>)
    ensures
        a.atomics + b.atomics <= u128::MAX ==> r == Some(Decimal { atomics: (a.atomics + b.atomics) as u128 }),
        a.atomics + b.atomics > u128::MAX ==> r is None,
{
    match a.atomics.checked_add(b.atomics) {
        Some(v) => Some(Decimal { atomics: v }),
        None => None,
    }
}

/// The decimal value of an integer, or `None` when it does not fit.
pub fn checked_decimal_from_uint128(a: u128) -> (r: Option<Decimal>)
    ensures
        a * DECIMAL_FRACTIONAL <= u128::MAX ==> r == Some(Decimal { atomics: (a * DECIMAL_FRACTIONAL) as u128 }),
        a * DECIMAL_FRACTIONAL > u128::MAX ==> r is None,
{
    match a.checked_mul(DECIMAL_FRACTIONAL) {
        Some(_) => Some(get_decimal_from_uint128(a)),
        None => None,
    }
}

/// Timestamps in nanoseconds since the epoch.
#[derive(Clone, Copy, Debug, PartialEq, Eq, Structural)]
pub struct Timestamp {
    pub nanos: u64,
}

impl Timestamp {
    pub fn from_nanos(nanos: u64) -> (r: Timestamp)
        ensures
            r.nanos == nanos,
    {
        Timestamp { nanos }
    }

    pub fn from_seconds(seconds: u64) -> (r: Timestamp)
        requires
            seconds * 1_000_000_000 <= u64::MAX,
        ensures
            r.nanos == seconds * 1_000_000_000,
    {
        Timestamp { nanos: seconds * 1_000_000_000 }
    }

    /// This timestamp moved `seconds` into the future.
    pub fn plus_seconds(&self, seconds: u64) -> (r: Timestamp)
        requires
            self.nanos + seconds * 1_000_000_000 <= u64::MAX,
        ensures
            r.nanos == self.nanos + seconds * 1_000_000_000,
    {
        Timestamp { nanos: self.nanos + seconds * 1_000_000_000 }
    }

    /// This timestamp moved `seconds` into the future, or `None` when that leaves 64 bits of
    /// nanoseconds.
    pub fn checked_plus_seconds(&self, seconds: u64) -> (r: Option<Timestamp>)
        ensures
            self.nanos + seconds * 1_000_000_000 <= u64::MAX ==> r == Some(
                Timestamp { nanos: (self.nanos + seconds * 1_000_000_000) as u64 },
            ),
            self.nanos + seconds * 1_000_000_000 > u64::MAX ==> r is None,
    {
        match seconds.checked_mul(1_000_000_000) {
            Some(n) => match self.nanos.checked_add(n) {
                Some(t) => Some(Timestamp { nanos: t }),
                None => None,
            },
            None => None,
        }
    }
}

} // verus!
