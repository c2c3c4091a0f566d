//! Recurring payments: setup stores the schedule, execution is gated by the
//! elapsed interval and advances the anchor to the execution time, and a
//! cancelled schedule never executes again.

use veritixpay::contract::VeritixToken;
use veritixpay::errors::Error;

const ADMIN: u64 = 100;
const PAYER: u64 = 1;
const RECEIVER: u64 = 2;
const HACKER: u64 = 66;

fn setup_test() -> VeritixToken {
    let mut t = VeritixToken::new();
    t.initialize(ADMIN, 7, "Veritix".to_string(), "VTX".to_string())
        .unwrap();
    t.mint(ADMIN, PAYER, 10_000).unwrap();
    t
}

#[test]
fn test_setup_recurring() {
    let mut t = setup_test();
    let amount = 500i128;
    let interval = 100u64;
    let id = t
        .setup_recurring(PAYER, RECEIVER, amount, interval, None, 100)
        .unwrap();
    let record = t.get_recurring(id).unwrap();
    assert_eq!(record.amount, amount);
    assert_eq!(record.interval, interval);
    assert!(record.active);
    assert_eq!(record.last_charged, 100);
    assert_eq!(record.completed, 0);
    // Setup itself transfers nothing.
    assert_eq!(t.balance(RECEIVER), 0);
}

#[test]
fn test_execute_recurring() {
    let mut t = setup_test();
    let id = t
        .setup_recurring(PAYER, RECEIVER, 500, 100, None, 100)
        .unwrap();
    // Set up at ledger 100 with interval 100, so 201 is valid.
    t.execute_recurring(id, 201).unwrap();
    let record = t.get_recurring(id).unwrap();
    assert_eq!(record.last_charged, 201);
    assert_eq!(record.completed, 1);
    assert_eq!(t.balance(RECEIVER), 500);
}

#[test]
fn test_execute_too_early_panics() {
    let mut t = setup_test();
    let id = t
        .setup_recurring(PAYER, RECEIVER, 500, 100, None, 100)
        .unwrap();
    // Only advance to 150, which is less than 100 + the interval of 100.
    let r = t.execute_recurring(id, 150);
    assert_eq!(r, Err(Error::TooEarly));
    assert_eq!(t.balance(RECEIVER), 0);
}

#[test]
fn test_cancel_recurring() {
    let mut t = setup_test();
    let id = t
        .setup_recurring(PAYER, RECEIVER, 500, 100, None, 100)
        .unwrap();
    t.cancel_recurring(PAYER, id).unwrap();
    let record = t.get_recurring(id).unwrap();
    assert!(!record.active);
}

#[test]
fn test_execute_after_cancel_panics() {
    let mut t = setup_test();
    let id = t
        .setup_recurring(PAYER, RECEIVER, 500, 100, None, 100)
        .unwrap();
    t.cancel_recurring(PAYER, id).unwrap();
    let r = t.execute_recurring(id, 300);
    assert_eq!(r, Err(Error::NotActive));
}

#[test]
fn test_cancel_unauthorized_panics() {
    let mut t = setup_test();
    let id = t
        .setup_recurring(PAYER, RECEIVER, 500, 100, None, 100)
        .unwrap();
    // Only the payer may cancel.
    let r = t.cancel_recurring(HACKER, id);
    assert_eq!(r, Err(Error::Unauthorized));
    assert!(t.get_recurring(id).unwrap().active);
}

#[test]
fn test_multiple_executions() {
    let mut t = setup_test();
    let id = t
        .setup_recurring(PAYER, RECEIVER, 500, 100, None, 100)
        .unwrap();
    t.execute_recurring(id, 201).unwrap();
    t.execute_recurring(id, 302).unwrap();
    let record = t.get_recurring(id).unwrap();
    assert_eq!(record.last_charged, 302);
    assert_eq!(record.completed, 2);
    assert_eq!(t.balance(RECEIVER), 1_000);
}

#[test]
fn recurring_interval_scenario() {
    // Interval 100, set up at time 100: executing at 150 is too early,
    // executing at 201 succeeds and advances the anchor to 201 itself.
    let mut t = setup_test();
    let id = t
        .setup_recurring(PAYER, RECEIVER, 500, 100, None, 100)
        .unwrap();
    assert_eq!(t.execute_recurring(id, 150), Err(Error::TooEarly));
    t.execute_recurring(id, 201).unwrap();
    assert_eq!(t.get_recurring(id).unwrap().last_charged, 201);
}

#[test]
fn iteration_cap_is_enforced() {
    let mut t = setup_test();
    let id = t
        .setup_recurring(PAYER, RECEIVER, 500, 100, Some(1), 100)
        .unwrap();
    t.execute_recurring(id, 201).unwrap();
    let r = t.execute_recurring(id, 302);
    assert_eq!(r, Err(Error::AllPaymentsCompleted));
    assert_eq!(t.balance(RECEIVER), 500);
}

#[test]
fn execution_revalidates_the_balance() {
    let mut t = setup_test();
    let id = t
        .setup_recurring(PAYER, RECEIVER, 8_000, 100, None, 100)
        .unwrap();
    t.execute_recurring(id, 201).unwrap();
    // The payer can no longer cover the second charge.
    let r = t.execute_recurring(id, 302);
    assert_eq!(r, Err(Error::InsufficientBalance));
}

#[test]
fn setup_requires_funds_for_the_first_charge() {
    let mut t = setup_test();
    let r = t.setup_recurring(PAYER, RECEIVER, 20_000, 100, None, 100);
    assert_eq!(r, Err(Error::InsufficientBalance));
}
