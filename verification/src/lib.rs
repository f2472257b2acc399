//! Verified core of the incentive contract's `withdraw` entry point.
//!
//! A user's closed positions wait out their unbonding period; once the block
//! time has passed a position's unbonding timestamp, `withdraw` releases it and
//! adds its amount of LP tokens to what is sent back to the user.

pub mod error;
pub mod laws;
pub mod math;
pub mod position;
pub mod withdraw;
