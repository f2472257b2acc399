use vstd::prelude::*;

verus! {

/// Errors that the withdraw logic can return.
#[derive(Debug, PartialEq, Eq)]
pub enum ContractError {
    /// Adding `operand2` (the amount of a released position) to `operand1`
    /// (the amount released so far) overflowed a `Uint128`.
    OverflowError { operand1: u128, operand2: u128 },
}

} // verus!
