use vstd::prelude::*;

verus! {

/// A position that was closed and is unbonding: `amount` LP tokens that
/// become withdrawable once the block time passes `unbonding_timestamp`.
#[derive(Clone, Copy, Debug, PartialEq, Eq, Structural)]
pub struct ClosedPosition {
    pub amount: u128,
    pub unbonding_timestamp: u64,
}

/// A closed position has finished unbonding when the block time (in seconds)
/// is strictly after its unbonding timestamp.
pub open spec fn is_unbonded(position: ClosedPosition, now_seconds: u64) -> bool {
    now_seconds > position.unbonding_timestamp
}

/// The positions of `positions` that are still unbonding at `now_seconds`,
/// in their original order.
pub open spec fn still_unbonding(positions: Seq<ClosedPosition>, now_seconds: u64) -> Seq<ClosedPosition>
    decreases positions.len(),
{
    if positions.len() == 0 {
        Seq::empty()
    } else {
        let rest = still_unbonding(positions.drop_first(), now_seconds);
        if is_unbonded(positions[0], now_seconds) {
            rest
        } else {
            seq![positions[0]] + rest
        }
    }
}

/// The sum of the amounts of the positions of `positions` that have finished
/// unbonding at `now_seconds`.
pub open spec fn unbonded_total(positions: Seq<ClosedPosition>, now_seconds: u64) -> nat
    decreases positions.len(),
{
    if positions.len() == 0 {
        0
    } else {
        let rest = unbonded_total(positions.drop_first(), now_seconds);
        if is_unbonded(positions[0], now_seconds) {
            positions[0].amount as nat + rest
        } else {
            rest
        }
    }
}

/// The sum of the amounts of all positions of `positions`.
pub open spec fn total_amount(positions: Seq<ClosedPosition>) -> nat
    decreases positions.len(),
{
    if positions.len() == 0 {
        0
    } else {
        positions[0].amount as nat + total_amount(positions.drop_first())
    }
}

/// The released total of a suffix never exceeds that of the whole sequence.
pub proof fn lemma_unbonded_total_of_suffix(positions: Seq<ClosedPosition>, k: int, now_seconds: u64)
    requires
        0 <= k <= positions.len(),
    ensures
        unbonded_total(positions.skip(k), now_seconds) <= unbonded_total(positions, now_seconds),
    decreases k,
{
    if k > 0 {
        lemma_unbonded_total_of_suffix(positions, k - 1, now_seconds);
        assert(positions.skip(k - 1).drop_first() =~= positions.skip(k));
    } else {
        assert(positions.skip(0) =~= positions);
    }
}

/// Walking `positions` from the last one, adding the amount of the unbonded
/// position at `idx` to the total released after it is the first addition
/// that overflows a `u128`.
pub open spec fn first_overflow_at(positions: Seq<ClosedPosition>, now_seconds: u64, idx: int) -> bool {
    &&& 0 <= idx < positions.len()
    &&& is_unbonded(positions[idx], now_seconds)
    &&& unbonded_total(positions.skip(idx + 1), now_seconds) <= u128::MAX
    &&& unbonded_total(positions.skip(idx + 1), now_seconds) + positions[idx].amount > u128::MAX
}

/// At most one position is where the sum first overflows.
pub proof fn lemma_first_overflow_unique(positions: Seq<ClosedPosition>, now_seconds: u64, i: int, j: int)
    requires
        first_overflow_at(positions, now_seconds, i),
        first_overflow_at(positions, now_seconds, j),
    ensures
        i == j,
{
    if i < j {
        lemma_unbonded_total_between(positions, i + 1, j, now_seconds);
        assert(positions.skip(j).drop_first() =~= positions.skip(j + 1));
    } else if j < i {
        lemma_unbonded_total_between(positions, j + 1, i, now_seconds);
        assert(positions.skip(i).drop_first() =~= positions.skip(i + 1));
    }
}

/// The released total of a later suffix never exceeds that of an earlier one.
pub proof fn lemma_unbonded_total_between(positions: Seq<ClosedPosition>, j: int, k: int, now_seconds: u64)
    requires
        0 <= j <= k <= positions.len(),
    ensures
        unbonded_total(positions.skip(k), now_seconds) <= unbonded_total(positions.skip(j), now_seconds),
{
    lemma_unbonded_total_of_suffix(positions.skip(j), k - j, now_seconds);
    assert(positions.skip(j).skip(k - j) =~= positions.skip(k));
}

/// The amounts of a concatenation add up.
pub proof fn lemma_total_amount_of_concat(a: Seq<ClosedPosition>, b: Seq<ClosedPosition>)
    ensures
        total_amount(a + b) == total_amount(a) + total_amount(b),
    decreases a.len(),
{
    if a.len() == 0 {
        assert(a + b =~= b);
    } else {
        lemma_total_amount_of_concat(a.drop_first(), b);
        assert((a + b).drop_first() =~= a.drop_first() + b);
    }
}

/// The positions kept at `now_seconds` are exactly those whose unbonding
/// timestamp is not before `now_seconds`, in order, and the released total is
/// the sum of the amounts of those whose timestamp is before it.
pub proof fn lemma_release_by_timestamp(positions: Seq<ClosedPosition>, now_seconds: u64)
    ensures
        still_unbonding(positions, now_seconds)
            == positions.filter(|p: ClosedPosition| now_seconds <= p.unbonding_timestamp),
        unbonded_total(positions, now_seconds)
            == total_amount(positions.filter(|p: ClosedPosition| now_seconds > p.unbonding_timestamp)),
    decreases positions.len(),
{
    let kept = |p: ClosedPosition| now_seconds <= p.unbonding_timestamp;
    let released = |p: ClosedPosition| now_seconds > p.unbonding_timestamp;
    if positions.len() == 0 {
        reveal_with_fuel(Seq::filter, 1);
    } else {
        let head = seq![positions[0]];
        let tail = positions.drop_first();
        lemma_release_by_timestamp(tail, now_seconds);
        assert(positions =~= head + tail);
        Seq::filter_distributes_over_add(head, tail, kept);
        Seq::filter_distributes_over_add(head, tail, released);
        reveal_with_fuel(Seq::filter, 2);
        assert(head.drop_last() =~= Seq::<ClosedPosition>::empty());
        lemma_total_amount_of_concat(head.filter(released), tail.filter(released));
        if now_seconds > positions[0].unbonding_timestamp {
            assert(head.filter(kept) =~= Seq::<ClosedPosition>::empty());
            assert(head.filter(released) =~= head);
            assert(head.drop_first() =~= Seq::<ClosedPosition>::empty());
            assert(total_amount(head.drop_first()) == 0);
            assert(head[0] == positions[0]);
            assert(total_amount(head) == positions[0].amount);
        } else {
            assert(head.filter(kept) =~= head);
            assert(head.filter(released) =~= Seq::<ClosedPosition>::empty());
        }
        assert(still_unbonding(positions, now_seconds) =~= positions.filter(kept));
    }
}

} // verus!
