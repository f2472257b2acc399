use vstd::prelude::*;

use crate::position::{
    ClosedPosition, is_unbonded, lemma_release_by_timestamp, still_unbonding, total_amount, unbonded_total,
};

verus! {

/// No tokens are created or lost by a withdrawal: the amount released plus
/// the amounts of the positions kept equals the amounts of the positions
/// stored before.
pub proof fn law_withdraw_conserves_tokens(positions: Seq<ClosedPosition>, now_seconds: u64)
    ensures
        unbonded_total(positions, now_seconds) + total_amount(still_unbonding(positions, now_seconds))
            == total_amount(positions),
    decreases positions.len(),
{
    if positions.len() > 0 {
        law_withdraw_conserves_tokens(positions.drop_first(), now_seconds);
        let rest = still_unbonding(positions.drop_first(), now_seconds);
        if !is_unbonded(positions[0], now_seconds) {
            assert((seq![positions[0]] + rest).drop_first() =~= rest);
        }
    }
}

/// Every position kept by a withdrawal is still unbonding at that time, and
/// every kept position is one of the positions stored before.
pub proof fn law_kept_positions_are_unbonding(positions: Seq<ClosedPosition>, now_seconds: u64)
    ensures
        forall|i: int|
            0 <= i < still_unbonding(positions, now_seconds).len() ==> {
                &&& !is_unbonded(#[trigger] still_unbonding(positions, now_seconds)[i], now_seconds)
                &&& positions.contains(still_unbonding(positions, now_seconds)[i])
            },
    decreases positions.len(),
{
    if positions.len() > 0 {
        let tail = positions.drop_first();
        law_kept_positions_are_unbonding(tail, now_seconds);
        let rest = still_unbonding(tail, now_seconds);
        let kept = still_unbonding(positions, now_seconds);
        assert forall|i: int| 0 <= i < kept.len() implies {
            &&& !is_unbonded(#[trigger] kept[i], now_seconds)
            &&& positions.contains(kept[i])
        } by {
            if is_unbonded(positions[0], now_seconds) {
                assert(kept[i] == rest[i]);
                assert(tail.contains(rest[i]));
                let j = choose|j: int| 0 <= j < tail.len() && tail[j] == rest[i];
                assert(positions[j + 1] == rest[i]);
            } else if i == 0 {
                assert(kept[0] == positions[0]);
            } else {
                assert(kept[i] == rest[i - 1]);
                assert(tail.contains(rest[i - 1]));
                let j = choose|j: int| 0 <= j < tail.len() && tail[j] == rest[i - 1];
                assert(positions[j + 1] == rest[i - 1]);
            }
        }
    }
}

/// Withdrawing again at the same time (or earlier) releases nothing and keeps
/// every remaining position: a second withdrawal right after the first has
/// no effect.
pub proof fn law_withdraw_again_releases_nothing(positions: Seq<ClosedPosition>, first_seconds: u64, again_seconds: u64)
    requires
        again_seconds <= first_seconds,
    ensures
        unbonded_total(still_unbonding(positions, first_seconds), again_seconds) == 0,
        still_unbonding(still_unbonding(positions, first_seconds), again_seconds)
            == still_unbonding(positions, first_seconds),
    decreases positions.len(),
{
    if positions.len() > 0 {
        let tail = positions.drop_first();
        law_withdraw_again_releases_nothing(tail, first_seconds, again_seconds);
        let rest = still_unbonding(tail, first_seconds);
        if !is_unbonded(positions[0], first_seconds) {
            assert((seq![positions[0]] + rest).drop_first() =~= rest);
            assert(still_unbonding(seq![positions[0]] + rest, again_seconds)
                =~= seq![positions[0]] + still_unbonding(rest, again_seconds));
        }
    }
}

/// Withdrawing at one time and then again at a later time releases, in all,
/// exactly what a single withdrawal at the later time releases, and keeps the
/// same positions.
pub proof fn law_withdrawals_compose_over_time(positions: Seq<ClosedPosition>, first_seconds: u64, later_seconds: u64)
    requires
        first_seconds <= later_seconds,
    ensures
        unbonded_total(positions, first_seconds)
            + unbonded_total(still_unbonding(positions, first_seconds), later_seconds)
            == unbonded_total(positions, later_seconds),
        still_unbonding(still_unbonding(positions, first_seconds), later_seconds)
            == still_unbonding(positions, later_seconds),
    decreases positions.len(),
{
    if positions.len() > 0 {
        let tail = positions.drop_first();
        law_withdrawals_compose_over_time(tail, first_seconds, later_seconds);
        let rest = still_unbonding(tail, first_seconds);
        if !is_unbonded(positions[0], first_seconds) {
            assert((seq![positions[0]] + rest).drop_first() =~= rest);
            if is_unbonded(positions[0], later_seconds) {
                assert(still_unbonding(seq![positions[0]] + rest, later_seconds)
                    =~= still_unbonding(rest, later_seconds));
            } else {
                assert(still_unbonding(seq![positions[0]] + rest, later_seconds)
                    =~= seq![positions[0]] + still_unbonding(rest, later_seconds));
            }
        }
    }
}

/// A position has finished unbonding exactly when the block time is strictly
/// after its unbonding timestamp; its amount plays no part.
pub proof fn law_unbonded_means_timestamp_passed(position: ClosedPosition, now_seconds: u64)
    ensures
        is_unbonded(position, now_seconds) <==> now_seconds > position.unbonding_timestamp,
{
}

/// Release follows the unbonding timestamp alone: a withdrawal keeps, in
/// order, exactly the positions whose unbonding timestamp is not before the
/// block time (whatever their amounts), none of the others, and returns the
/// sum of the amounts of the positions whose timestamp the block time has
/// passed.
pub proof fn law_release_follows_the_unbonding_timestamp(positions: Seq<ClosedPosition>, now_seconds: u64)
    ensures
        still_unbonding(positions, now_seconds)
            == positions.filter(|p: ClosedPosition| now_seconds <= p.unbonding_timestamp),
        unbonded_total(positions, now_seconds)
            == total_amount(positions.filter(|p: ClosedPosition| now_seconds > p.unbonding_timestamp)),
        forall|i: int|
            0 <= i < still_unbonding(positions, now_seconds).len()
                ==> now_seconds <= #[trigger] still_unbonding(positions, now_seconds)[i].unbonding_timestamp,
        forall|i: int|
            0 <= i < positions.len() ==> (
                still_unbonding(positions, now_seconds).contains(#[trigger] positions[i])
                    <==> now_seconds <= positions[i].unbonding_timestamp),
{
    lemma_release_by_timestamp(positions, now_seconds);
    let kept = |p: ClosedPosition| now_seconds <= p.unbonding_timestamp;
    let remaining = still_unbonding(positions, now_seconds);
    assert forall|i: int| 0 <= i < remaining.len()
        implies now_seconds <= #[trigger] remaining[i].unbonding_timestamp by {
        positions.lemma_filter_pred(kept, i);
    }
    assert forall|i: int| 0 <= i < positions.len()
        implies (remaining.contains(#[trigger] positions[i]) <==> now_seconds <= positions[i].unbonding_timestamp) by {
        if now_seconds <= positions[i].unbonding_timestamp {
            positions.lemma_filter_contains(kept, i);
        }
        if remaining.contains(positions[i]) {
            let j = choose|j: int| 0 <= j < remaining.len() && remaining[j] == positions[i];
            positions.lemma_filter_pred(kept, j);
        }
    }
}

} // verus!
