use incentive::error::ContractError;
use incentive::position::ClosedPosition;
use incentive::withdraw::{nothing_closed_attributes, returned_asset_attributes, withdraw};

fn position(amount: u128, unbonding_timestamp: u64) -> ClosedPosition {
    ClosedPosition { amount, unbonding_timestamp }
}

fn pair(key: &str, value: &str) -> (String, String) {
    (key.to_string(), value.to_string())
}

#[test]
fn withdraw_releases_an_unbonded_position_then_nothing() {
    // a closed position of 3_000 LP tokens whose unbonding ended long ago
    let closed = vec![position(3_000, 1_000)];
    let first = withdraw(Some(closed), 500_000).unwrap();
    assert_eq!(first.return_amount, 3_000);
    assert!(first.returns_tokens());
    assert!(first.remaining.is_empty());

    // withdrawing again: nothing left to release
    let again = withdraw(Some(first.remaining), 500_000).unwrap();
    assert_eq!(again.return_amount, 0);
    assert!(!again.returns_tokens());
    assert!(again.remaining.is_empty());
}

#[test]
fn withdraw_with_no_stored_positions_returns_nothing() {
    let w = withdraw(None, 42).unwrap();
    assert_eq!(w.return_amount, 0);
    assert!(w.remaining.is_empty());
    assert!(!w.returns_tokens());
}

#[test]
fn withdraw_at_the_unbonding_timestamp_keeps_the_position() {
    let w = withdraw(Some(vec![position(10, 100)]), 100).unwrap();
    assert_eq!(w.return_amount, 0);
    assert_eq!(w.remaining, vec![position(10, 100)]);

    let w = withdraw(Some(vec![position(10, 100)]), 101).unwrap();
    assert_eq!(w.return_amount, 10);
    assert!(w.remaining.is_empty());
}

#[test]
fn withdraw_keeps_unbonding_positions_in_order() {
    let closed = vec![
        position(1, 50),
        position(20, 500),
        position(300, 10),
        position(4_000, 700),
        position(50_000, 99),
    ];
    let w = withdraw(Some(closed), 100).unwrap();
    assert_eq!(w.return_amount, 1 + 300 + 50_000);
    assert_eq!(w.remaining, vec![position(20, 500), position(4_000, 700)]);
}

#[test]
fn withdraw_of_zero_amount_position_returns_nothing() {
    let w = withdraw(Some(vec![position(0, 1), position(7, 9_999)]), 2).unwrap();
    assert_eq!(w.return_amount, 0);
    assert!(!w.returns_tokens());
    assert_eq!(w.remaining, vec![position(7, 9_999)]);
}

#[test]
fn withdraw_reports_overflow() {
    let closed = vec![position(u128::MAX, 1), position(1, 1)];
    match withdraw(Some(closed), 5) {
        Err(err) => {
            // positions are walked from the last one: 0 + 1, then 1 + MAX overflows
            assert_eq!(err, ContractError::OverflowError { operand1: 1, operand2: u128::MAX });
        }
        Ok(_) => panic!("the sum overflows a Uint128"),
    }
}

#[test]
fn withdraw_reports_the_first_overflowing_addition() {
    // from the last: 0 + 5 = 5, 9 is still unbonding, 5 + (MAX - 2) overflows;
    // the first position is never reached
    let closed = vec![position(7, 1), position(u128::MAX - 2, 1), position(9, 100), position(5, 2)];
    assert_eq!(
        withdraw(Some(closed), 50).unwrap_err(),
        ContractError::OverflowError { operand1: 5, operand2: u128::MAX - 2 }
    );
}

#[test]
fn withdraw_up_to_the_maximum_does_not_overflow() {
    let closed = vec![position(u128::MAX - 5, 1), position(5, 1), position(9, 100)];
    let w = withdraw(Some(closed), 5).unwrap();
    assert_eq!(w.return_amount, u128::MAX);
    assert_eq!(w.remaining, vec![position(9, 100)]);
}

#[test]
fn withdraw_conserves_tokens_on_example() {
    let closed = vec![position(11, 3), position(22, 30), position(33, 4), position(44, 40)];
    let total: u128 = closed.iter().map(|p| p.amount).sum();
    let w = withdraw(Some(closed), 10).unwrap();
    let kept: u128 = w.remaining.iter().map(|p| p.amount).sum();
    assert_eq!(w.return_amount + kept, total);
    assert!(w.remaining.iter().all(|p| p.unbonding_timestamp >= 10));
}

#[test]
fn withdrawals_compose_over_time_on_example() {
    let closed = vec![position(5, 10), position(6, 20), position(7, 30), position(8, 40)];
    let early = withdraw(Some(closed.clone()), 15).unwrap();
    let later = withdraw(Some(early.remaining), 35).unwrap();
    let once = withdraw(Some(closed), 35).unwrap();
    assert_eq!(early.return_amount, 5);
    assert_eq!(later.return_amount, 13);
    assert_eq!(early.return_amount + later.return_amount, once.return_amount);
    assert_eq!(later.remaining, once.remaining);
    assert_eq!(once.remaining, vec![position(8, 40)]);
}

#[test]
fn returned_asset_attributes_name_the_asset() {
    let attributes = returned_asset_attributes("1000uwhale".to_string());
    assert_eq!(attributes, vec![pair("action", "withdraw"), pair("return_asset", "1000uwhale")]);
}

#[test]
fn nothing_closed_attributes_say_so() {
    assert_eq!(
        nothing_closed_attributes(),
        vec![pair("action", "withdraw"), pair("result", "no positions were closed")]
    );
}
