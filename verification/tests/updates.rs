use lending_pool::pool::{deposit_update, rate_for_risk, repay_update, withdraw_update, PoolError};

#[test]
fn deposit_update_adds_to_both() {
    assert_eq!(deposit_update(100, 400, 25), Ok((125, 425)));
    assert_eq!(deposit_update(0, 0, 0), Ok((0, 0)));
}

#[test]
fn deposit_update_checks_both_sums() {
    assert_eq!(deposit_update(i128::MAX, 0, 1), Err(PoolError::ArithmeticOverflow));
    assert_eq!(deposit_update(0, i128::MAX, 1), Err(PoolError::ArithmeticOverflow));
}

#[test]
fn withdraw_update_subtracts_from_both() {
    assert_eq!(withdraw_update(100, 400, 25), Ok((75, 375)));
    assert_eq!(withdraw_update(100, 400, 100), Ok((0, 300)));
}

#[test]
fn withdraw_update_refuses_overdraw() {
    assert_eq!(withdraw_update(100, 400, 101), Err(PoolError::InsufficientBalance));
}

#[test]
fn withdraw_update_checks_range() {
    assert_eq!(withdraw_update(1, i128::MAX, -1), Err(PoolError::ArithmeticOverflow));
    assert_eq!(withdraw_update(1, i128::MIN, 1), Err(PoolError::ArithmeticUnderflow));
}

#[test]
fn repay_update_adds_to_supply() {
    assert_eq!(repay_update(400, 600), Ok(1000));
    assert_eq!(repay_update(400, -500), Ok(-100));
}

#[test]
fn repay_update_checks_range() {
    assert_eq!(repay_update(i128::MAX, 1), Err(PoolError::ArithmeticOverflow));
    assert_eq!(repay_update(i128::MIN, -1), Err(PoolError::ArithmeticUnderflow));
}

#[test]
fn rate_formula_is_linear_in_risk() {
    assert_eq!(rate_for_risk(0), 500);
    assert_eq!(rate_for_risk(50), 1000);
    assert_eq!(rate_for_risk(100), 1500);
    assert_eq!(rate_for_risk(200), 2500);
    assert_eq!(rate_for_risk(429496679), 4294967290);
}
