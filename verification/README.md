# incentive

The `withdraw` step of a liquidity-pool incentive contract, verified with Verus.

A user's closed positions unbond until their unbonding timestamp; `withdraw`
releases those whose timestamp the block time has passed, sums their LP-token
amounts with `cosmwasm_std::Uint128::checked_add`, and keeps the rest in order.

- `src/` — the verified library: `position.rs` (the position type and its spec
  functions), `withdraw.rs` (the withdrawal and the reply attributes),
  `math.rs` (the trusted call into cosmwasm-std), `error.rs`, and `laws.rs`
  (conservation of tokens, repeated withdrawals, composition over time).
- `app/` — the contract entry point: storage, block time, sender, response.
- `tests/` — tests of the library on concrete values.
