use vstd::prelude::*;

use cosmwasm_std::{OverflowError, Uint128};

verus! {

/// `cosmwasm_std::OverflowError`, carried through opaquely.
#[verifier::external_type_specification]
#[verifier::external_body]
pub struct ExOverflowError(OverflowError);

/// Adds two token amounts with `cosmwasm_std::Uint128::checked_add`.
///
/// Trusted: `Uint128::checked_add` computes `u128::checked_add` on the inner
/// values, returning the sum when it fits in a `u128` and an `OverflowError`
/// (operation `Add`, the two operands as strings) otherwise. The contract
/// states when each comes and the sum; it says nothing of the error's fields.
#[verifier::external_body]
pub(crate) fn uint128_checked_add(a: u128, b: u128) -> (res: Result<u128, OverflowError>)
    ensures
        match res {
            Ok(sum) => a + b <= u128::MAX && sum == a + b,
            Err(_) => a + b > u128::MAX,
        },
{
    Uint128::new(a).checked_add(Uint128::new(b)).map(|sum| sum.u128())
}

} // verus!
