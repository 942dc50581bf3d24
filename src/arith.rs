//! Arithmetic on amounts and times provided by `cosmwasm_std`.
use cosmwasm_std::{CheckedMultiplyRatioError, Decimal, Timestamp, Uint128};
use vstd::prelude::*;

verus! {

#[verifier::external_type_specification]
#[verifier::external_body]
pub struct ExCheckedMultiplyRatioError(CheckedMultiplyRatioError);

/// Relies on `cosmwasm_std::Uint128::checked_multiply_ratio`: the floor of
/// `a * b / (c as int)` computed without intermediate overflow, an error when `c` is
/// zero or the quotient does not fit in 128 bits.
#[verifier::external_body]
pub(crate) fn checked_multiply_ratio(a: u128, b: u128, c: u128) -> (r: Result<
    u128,
    CheckedMultiplyRatioError,
>)
    ensures
        r is Ok <==> (c > 0 && a * b / (c as int) <= u128::MAX),
        r is Ok ==> r->Ok_0 == a * b / (c as int),
{
    match Uint128::new(a).checked_multiply_ratio(b, c) {
        Ok(v) => Ok(v.u128()),
        Err(e) => Err(e),
    }
}

/// Relies on `cosmwasm_std::Uint128::multiply_ratio`: the floor of
/// `a * b / (c as int)`; it panics when `c` is zero or the quotient overflows.
#[verifier::external_body]
pub(crate) fn multiply_ratio(a: u128, b: u128, c: u128) -> (r: u128)
    requires
        c > 0,
        a * b / (c as int) <= u128::MAX,
    ensures
        r == a * b / (c as int),
{
    Uint128::new(a).multiply_ratio(b, c).u128()
}

/// Relies on `Uint128 * Decimal` of `cosmwasm_std`, where `Decimal::raw(ratio)`
/// stands for `ratio / 10^18`: the floor of `a * ratio / 10^18`; it panics
/// when that overflows.
#[verifier::external_body]
pub(crate) fn mul_ratio(a: u128, ratio: u128) -> (r: u128)
    requires
        a * ratio / 1_000_000_000_000_000_000 <= u128::MAX,
    ensures
        r == a * ratio / 1_000_000_000_000_000_000,
{
    (Uint128::new(a) * Decimal::raw(ratio)).u128()
}

/// Relies on `cosmwasm_std::Timestamp::plus_seconds` on a timestamp given in
/// nanoseconds; it panics when the result leaves the range of `u64`.
#[verifier::external_body]
pub(crate) fn plus_seconds(nanos: u64, seconds: u64) -> (r: u64)
    requires
        seconds * 1_000_000_000 <= u64::MAX,
        nanos + seconds * 1_000_000_000 <= u64::MAX,
    ensures
        r == nanos + seconds * 1_000_000_000,
{
    Timestamp::from_nanos(nanos).plus_seconds(seconds).nanos()
}

} // verus!
