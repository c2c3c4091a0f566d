//! The balance and allowance stores on their own: defaults, no partial
//! debits, lazy allowance expiry.

use veritixpay::allowance::Allowances;
use veritixpay::balance::Balances;
use veritixpay::errors::Error;

#[test]
fn read_balance_defaults_to_zero() {
    let b = Balances::new();
    assert_eq!(b.read_balance(42), 0);
    assert!(!b.is_frozen(42));
}

#[test]
fn receive_and_spend_balance_round_trip() {
    let mut b = Balances::new();
    b.receive_balance(7, 250).unwrap();
    assert_eq!(b.read_balance(7), 250);
    b.spend_balance(7, 100).unwrap();
    assert_eq!(b.read_balance(7), 150);
    // No partial debits: a failing spend leaves the balance untouched.
    assert_eq!(b.spend_balance(7, 151), Err(Error::InsufficientBalance));
    assert_eq!(b.read_balance(7), 150);
    assert_eq!(b.receive_balance(7, -1), Err(Error::InvalidAmount));
    assert_eq!(b.spend_balance(7, -1), Err(Error::InvalidAmount));
}

#[test]
fn receive_balance_detects_overflow() {
    let mut b = Balances::new();
    b.receive_balance(7, i128::MAX).unwrap();
    assert_eq!(b.receive_balance(7, 1), Err(Error::Overflow));
    assert_eq!(b.read_balance(7), i128::MAX);
}

#[test]
fn read_allowance_defaults_to_zero() {
    let a = Allowances::new();
    let v = a.read_allowance(1, 2, 50);
    assert_eq!(v.amount, 0);
    assert_eq!(v.expiration_ledger, 0);
}

#[test]
fn write_allowance_validates_the_expiration() {
    let mut a = Allowances::new();
    assert_eq!(
        a.write_allowance(1, 2, 100, 49, 50),
        Err(Error::InvalidExpiration)
    );
    assert_eq!(a.write_allowance(1, 2, -5, 60, 50), Err(Error::InvalidAmount));
    a.write_allowance(1, 2, 100, 60, 50).unwrap();
    assert_eq!(a.read_allowance(1, 2, 50).amount, 100);
}

#[test]
fn allowances_expire_lazily() {
    let mut a = Allowances::new();
    a.write_allowance(1, 2, 100, 60, 50).unwrap();
    // Past the expiration ledger the stored value reads as amount 0 and any
    // spend reports expiry, without the record being eagerly deleted.
    let v = a.read_allowance(1, 2, 61);
    assert_eq!(v.amount, 0);
    assert_eq!(v.expiration_ledger, 60);
    assert_eq!(a.spend_allowance(1, 2, 10, 61), Err(Error::AllowanceExpired));
    // At or before the expiration the allowance is live.
    assert_eq!(a.read_allowance(1, 2, 60).amount, 100);
    a.spend_allowance(1, 2, 30, 60).unwrap();
    assert_eq!(a.read_allowance(1, 2, 60).amount, 70);
    assert_eq!(
        a.spend_allowance(1, 2, 71, 60),
        Err(Error::InsufficientAllowance)
    );
}

#[test]
fn allowance_created_in_the_past_is_unusable() {
    // An expiration ledger of 0 is in the past at any positive ledger time:
    // the record cannot be stored, and a spend against the absent record
    // fails with expiry, even immediately after the attempted creation.
    let mut a = Allowances::new();
    assert_eq!(
        a.write_allowance(1, 2, 400, 0, 1),
        Err(Error::InvalidExpiration)
    );
    assert_eq!(a.spend_allowance(1, 2, 100, 1), Err(Error::AllowanceExpired));
}
