use vstd::prelude::*;

use crate::error::ContractError;
use crate::math::uint128_checked_add;
use crate::position::{
    ClosedPosition, first_overflow_at, is_unbonded, lemma_release_by_timestamp, lemma_unbonded_total_of_suffix, still_unbonding, total_amount,
    unbonded_total,
};

verus! {

/// What a withdrawal leaves behind and hands back.
#[derive(Debug)]
pub struct Withdrawal {
    /// The closed positions that are still unbonding, to be stored again.
    pub remaining: Vec<ClosedPosition>,
    /// The LP tokens to return to the user.
    pub return_amount: u128,
}

impl Withdrawal {
    /// Whether any LP tokens go back to the user; when none do, the reply
    /// says that no positions were closed.
    pub fn returns_tokens(&self) -> (res: bool)
        ensures
            res == (self.return_amount != 0),
    {
        self.return_amount != 0
    }
}

/// The attributes of the reply when tokens are returned: the action, then the
/// returned asset as rendered by `return_asset`.
pub fn returned_asset_attributes(return_asset: String) -> (attributes: Vec<(String, String)>)
    ensures
        attributes@.len() == 2,
        attributes@[0].0@ == "action"@,
        attributes@[0].1@ == "withdraw"@,
        attributes@[1].0@ == "return_asset"@,
        attributes@[1].1@ == return_asset@,
{
    broadcast use vstd::string::group_string_axioms;
    vec![("action".to_string(), "withdraw".to_string()), ("return_asset".to_string(), return_asset)]
}

/// The attributes of the reply when no tokens are returned.
pub fn nothing_closed_attributes() -> (attributes: Vec<(String, String)>)
    ensures
        attributes@.len() == 2,
        attributes@[0].0@ == "action"@,
        attributes@[0].1@ == "withdraw"@,
        attributes@[1].0@ == "result"@,
        attributes@[1].1@ == "no positions were closed"@,
{
    broadcast use vstd::string::group_string_axioms;
    vec![("action".to_string(), "withdraw".to_string()), ("result".to_string(), "no positions were closed".to_string())]
}

/// The closed positions stored for a user; none stored means none.
pub open spec fn stored_positions(closed_positions: Option<Vec<ClosedPosition>>) -> Seq<ClosedPosition> {
    match closed_positions {
        Some(positions) => positions@,
        None => Seq::empty(),
    }
}

/// Releases the closed positions that have finished unbonding at
/// `now_seconds`: their amounts are summed into the amount to return, and
/// the other positions are kept, in order. Fails when that sum overflows,
/// naming the two operands of the first addition that overflowed (walking
/// the positions from the last one, as the sum is built).
pub fn withdraw(closed_positions: Option<Vec<ClosedPosition>>, now_seconds: u64) -> (res: Result<Withdrawal, ContractError>)
    ensures
        ({
            let stored = stored_positions(closed_positions);
            match res {
                Ok(withdrawal) => {
                    &&& unbonded_total(stored, now_seconds) <= u128::MAX
                    &&& withdrawal.return_amount == unbonded_total(stored, now_seconds)
                    &&& withdrawal.remaining@ == still_unbonding(stored, now_seconds)
                    &&& withdrawal.remaining@
                        == stored.filter(|p: ClosedPosition| now_seconds <= p.unbonding_timestamp)
                    &&& withdrawal.return_amount
                        == total_amount(stored.filter(|p: ClosedPosition| now_seconds > p.unbonding_timestamp))
                    &&& forall|i: int| 0 <= i < withdrawal.remaining@.len()
                        ==> now_seconds <= #[trigger] withdrawal.remaining@[i].unbonding_timestamp
                    &&& forall|i: int| 0 <= i < stored.len() && now_seconds <= #[trigger] stored[i].unbonding_timestamp
                        ==> withdrawal.remaining@.contains(stored[i])
                },
                Err(ContractError::OverflowError { operand1, operand2 }) => {
                    &&& unbonded_total(stored, now_seconds) > u128::MAX
                    &&& total_amount(stored.filter(|p: ClosedPosition| now_seconds > p.unbonding_timestamp))
                        > u128::MAX
                    &&& exists|idx: int| {
                        &&& #[trigger] first_overflow_at(stored, now_seconds, idx)
                        &&& now_seconds > stored[idx].unbonding_timestamp
                        &&& operand1 == total_amount(
                            stored.skip(idx + 1).filter(|p: ClosedPosition| now_seconds > p.unbonding_timestamp),
                        )
                        &&& operand1 == unbonded_total(stored.skip(idx + 1), now_seconds)
                        &&& operand2 == stored[idx].amount
                    }
                },
            }
        }),
{
    let ghost stored = stored_positions(closed_positions);
    let mut positions = match closed_positions {
        Some(positions) => positions,
        None => Vec::new(),
    };
    let mut return_token_count: u128 = 0;
    let mut i: usize = positions.len();
    proof {
        assert(stored.take(i as int) =~= stored);
        assert(stored.skip(i as int) =~= Seq::<ClosedPosition>::empty());
        assert(positions@ =~= stored.take(i as int) + still_unbonding(stored.skip(i as int), now_seconds));
    }
    while i > 0
        invariant
            stored == stored_positions(closed_positions),
            i <= stored.len(),
            positions@ == stored.take(i as int) + still_unbonding(stored.skip(i as int), now_seconds),
            return_token_count == unbonded_total(stored.skip(i as int), now_seconds),
        decreases i,
    {
        let idx = i - 1;
        let ghost rest = still_unbonding(stored.skip(i as int), now_seconds);
        proof {
            assert(stored.skip(idx as int).drop_first() =~= stored.skip(i as int));
            assert(stored.skip(idx as int)[0] == stored[idx as int]);
            assert(positions@[idx as int] == stored[idx as int]);
        }
        if now_seconds > positions[idx].unbonding_timestamp {
            match uint128_checked_add(return_token_count, positions[idx].amount) {
                Ok(sum) => {
                    return_token_count = sum;
                },
                Err(_) => {
                    proof {
                        assert(unbonded_total(stored.skip(idx as int), now_seconds)
                            == stored[idx as int].amount + unbonded_total(stored.skip(i as int), now_seconds));
                        lemma_unbonded_total_of_suffix(stored, idx as int, now_seconds);
                        assert(first_overflow_at(stored, now_seconds, idx as int));
                        lemma_release_by_timestamp(stored, now_seconds);
                        lemma_release_by_timestamp(stored.skip(i as int), now_seconds);
                    }
                    return Err(
                        ContractError::OverflowError {
                            operand1: return_token_count,
                            operand2: positions[idx].amount,
                        },
                    );
                },
            }
            positions.remove(idx);
            proof {
                assert(positions@ =~= stored.take(idx as int) + rest);
            }
        } else {
            proof {
                assert(positions@ =~= stored.take(idx as int) + (seq![stored[idx as int]] + rest));
            }
        }
        i = idx;
    }
    proof {
        assert(stored.skip(0) =~= stored);
        assert(stored.take(0) =~= Seq::<ClosedPosition>::empty());
        assert(positions@ =~= still_unbonding(stored, now_seconds));
        lemma_release_by_timestamp(stored, now_seconds);
        let kept = |p: ClosedPosition| now_seconds <= p.unbonding_timestamp;
        assert forall|i: int| 0 <= i < positions@.len()
            implies now_seconds <= #[trigger] positions@[i].unbonding_timestamp by {
            stored.lemma_filter_pred(kept, i);
        }
        assert forall|i: int| 0 <= i < stored.len() && now_seconds <= #[trigger] stored[i].unbonding_timestamp
            implies positions@.contains(stored[i]) by {
            stored.lemma_filter_contains(kept, i);
        }
    }
    Ok(Withdrawal { remaining: positions, return_amount: return_token_count })
}

} // verus!
