//! Token-level behaviour: initialization, admin rotation, mint, burn,
//! transfer, allowances and freezing.

use veritixpay::contract::VeritixToken;
use veritixpay::errors::Error;

const ADMIN: u64 = 100;
const USER: u64 = 1;
const SPENDER: u64 = 2;
const RECEIVER: u64 = 3;
const HACKER: u64 = 66;

fn setup() -> VeritixToken {
    let mut t = VeritixToken::new();
    t.initialize(ADMIN, 7, "Veritix".to_string(), "VTX".to_string())
        .unwrap();
    t
}

#[test]
fn test_initialize() {
    let t = setup();
    assert_eq!(t.name(), "Veritix".to_string());
    assert_eq!(t.symbol(), "VTX".to_string());
    assert_eq!(t.decimals(), 7u32);
}

#[test]
fn test_initialize_twice_panics() {
    let mut t = setup();
    let r = t.initialize(ADMIN, 7, "Veritix".to_string(), "VTX".to_string());
    assert_eq!(r, Err(Error::InvalidState));
}

#[test]
fn test_mint() {
    let mut t = setup();
    t.mint(ADMIN, USER, 1000i128).unwrap();
    assert_eq!(t.balance(USER), 1000i128);
}

#[test]
fn test_mint_unauthorized_panics() {
    let mut t = setup();
    let r = t.mint(USER, USER, 1000i128);
    assert_eq!(r, Err(Error::Unauthorized));
    assert_eq!(t.balance(USER), 0);
}

#[test]
fn test_burn() {
    let mut t = setup();
    t.mint(ADMIN, USER, 1000i128).unwrap();
    t.burn(USER, 500i128).unwrap();
    assert_eq!(t.balance(USER), 500i128);
}

#[test]
fn test_burn_insufficient_panics() {
    let mut t = setup();
    t.mint(ADMIN, USER, 100i128).unwrap();
    let r = t.burn(USER, 200i128);
    assert_eq!(r, Err(Error::InsufficientBalance));
    assert_eq!(t.balance(USER), 100i128);
}

#[test]
fn test_transfer() {
    let mut t = setup();
    t.mint(ADMIN, USER, 1000i128).unwrap();
    t.transfer(USER, RECEIVER, 400i128).unwrap();
    assert_eq!(t.balance(USER), 600i128);
    assert_eq!(t.balance(RECEIVER), 400i128);
}

#[test]
fn test_transfer_insufficient_balance_panics() {
    let mut t = setup();
    let r = t.transfer(USER, RECEIVER, 100i128);
    assert_eq!(r, Err(Error::InsufficientBalance));
}

#[test]
fn test_transfer_from() {
    let mut t = setup();
    t.mint(ADMIN, USER, 1000i128).unwrap();
    t.approve(USER, SPENDER, 500i128, 1000, 0).unwrap();
    t.transfer_from(SPENDER, USER, RECEIVER, 300i128, 0).unwrap();
    assert_eq!(t.balance(RECEIVER), 300i128);
}

#[test]
fn test_approve_and_spend_allowance() {
    let mut t = setup();
    t.mint(ADMIN, USER, 1000i128).unwrap();
    t.approve(USER, SPENDER, 400i128, 1000, 0).unwrap();
    t.transfer_from(SPENDER, USER, SPENDER, 200i128, 0).unwrap();
    assert_eq!(t.balance(SPENDER), 200i128);
    assert_eq!(t.allowance(USER, SPENDER, 0), 200i128);
}

#[test]
fn test_expired_allowance_panics() {
    let mut t = setup();
    t.mint(ADMIN, USER, 1000i128).unwrap();
    // An expiration ledger of 0 is already in the past at ledger 1, so the
    // allowance cannot even be stored, and spending it reports expiry.
    let r = t.approve(USER, SPENDER, 400i128, 0, 1);
    assert_eq!(r, Err(Error::InvalidExpiration));
    let r = t.transfer_from(SPENDER, USER, SPENDER, 100i128, 1);
    assert_eq!(r, Err(Error::AllowanceExpired));
}

#[test]
fn test_transfer_admin() {
    let mut t = VeritixToken::new();
    let admin: u64 = 10;
    let new_admin: u64 = 11;
    t.write_admin(admin);
    t.transfer_admin(admin, new_admin).unwrap();
    assert_eq!(t.read_admin(), Some(new_admin));
}

#[test]
fn test_transfer_admin_unauthorized_panics() {
    let mut t = VeritixToken::new();
    let admin: u64 = 10;
    let new_admin: u64 = 12;
    t.write_admin(admin);
    let r = t.transfer_admin(HACKER, new_admin);
    assert_eq!(r, Err(Error::Unauthorized));
    assert_eq!(t.read_admin(), Some(admin));
}

#[test]
fn insufficient_allowance_is_reported() {
    let mut t = setup();
    t.mint(ADMIN, USER, 1000i128).unwrap();
    t.approve(USER, SPENDER, 100i128, 1000, 0).unwrap();
    let r = t.transfer_from(SPENDER, USER, RECEIVER, 200i128, 0);
    assert_eq!(r, Err(Error::InsufficientAllowance));
}

#[test]
fn zero_allowance_removes_the_record() {
    let mut t = setup();
    t.mint(ADMIN, USER, 1000i128).unwrap();
    t.approve(USER, SPENDER, 200i128, 1000, 0).unwrap();
    t.approve(USER, SPENDER, 0i128, 1000, 0).unwrap();
    assert_eq!(t.allowance(USER, SPENDER, 0), 0i128);
    // Spending the whole remainder also removes the record: a fresh spend
    // then fails on the absent allowance.
    t.approve(USER, SPENDER, 50i128, 1000, 1).unwrap();
    t.transfer_from(SPENDER, USER, RECEIVER, 50i128, 1).unwrap();
    let r = t.transfer_from(SPENDER, USER, RECEIVER, 1i128, 1);
    assert_eq!(r, Err(Error::AllowanceExpired));
}

#[test]
fn frozen_account_cannot_move_funds() {
    let mut t = setup();
    t.mint(ADMIN, USER, 1000i128).unwrap();
    t.freeze(ADMIN, USER).unwrap();
    assert!(t.is_frozen(USER));
    assert_eq!(t.transfer(USER, RECEIVER, 10i128), Err(Error::AccountFrozen));
    assert_eq!(t.burn(USER, 10i128), Err(Error::AccountFrozen));
    // Admin clawback overrides the freeze.
    t.clawback(ADMIN, USER, 100i128).unwrap();
    assert_eq!(t.balance(USER), 900i128);
    t.unfreeze(ADMIN, USER).unwrap();
    assert!(!t.is_frozen(USER));
    t.transfer(USER, RECEIVER, 10i128).unwrap();
    assert_eq!(t.balance(RECEIVER), 10i128);
}

#[test]
fn freeze_requires_admin() {
    let mut t = setup();
    assert_eq!(t.freeze(HACKER, USER), Err(Error::Unauthorized));
    assert_eq!(t.unfreeze(HACKER, USER), Err(Error::Unauthorized));
}

#[test]
fn negative_amounts_are_rejected() {
    let mut t = setup();
    t.mint(ADMIN, USER, 1000i128).unwrap();
    assert_eq!(t.transfer(USER, RECEIVER, -5i128), Err(Error::InvalidAmount));
    assert_eq!(t.mint(ADMIN, USER, -5i128), Err(Error::InvalidAmount));
    assert_eq!(t.burn(USER, -5i128), Err(Error::InvalidAmount));
    assert_eq!(t.balance(USER), 1000i128);
}

#[test]
fn mint_beyond_supply_cap_overflows() {
    let mut t = setup();
    t.mint(ADMIN, USER, i128::MAX).unwrap();
    let r = t.mint(ADMIN, RECEIVER, 1i128);
    assert_eq!(r, Err(Error::Overflow));
    assert_eq!(t.total_supply(), i128::MAX);
}

#[test]
fn clawback_requires_admin_and_reduces_supply() {
    let mut t = setup();
    t.mint(ADMIN, USER, 1000i128).unwrap();
    assert_eq!(t.clawback(HACKER, USER, 100i128), Err(Error::Unauthorized));
    t.clawback(ADMIN, USER, 100i128).unwrap();
    assert_eq!(t.balance(USER), 900i128);
    assert_eq!(t.total_supply(), 900i128);
}

#[test]
fn burn_from_spends_the_allowance() {
    let mut t = setup();
    t.mint(ADMIN, USER, 1000i128).unwrap();
    t.approve(USER, SPENDER, 300i128, 1000, 0).unwrap();
    t.burn_from(SPENDER, USER, 200i128, 0).unwrap();
    assert_eq!(t.balance(USER), 800i128);
    assert_eq!(t.allowance(USER, SPENDER, 0), 100i128);
    assert_eq!(t.total_supply(), 800i128);
}

#[test]
fn conservation_across_operations() {
    // Total balances plus custody track minted minus burned across a mixed
    // sequence of operations.
    let mut t = setup();
    let total = |t: &VeritixToken| {
        t.balance(USER) + t.balance(SPENDER) + t.balance(RECEIVER) + t.balance(ADMIN)
            + t.custodial_balance()
    };
    t.mint(ADMIN, USER, 1000i128).unwrap();
    assert_eq!(total(&t), 1000);
    t.transfer(USER, RECEIVER, 100i128).unwrap();
    assert_eq!(total(&t), 1000);
    let escrow = t.create_escrow(USER, SPENDER, 300i128, 0, 0).unwrap();
    assert_eq!(total(&t), 1000);
    assert_eq!(t.custodial_balance(), 300);
    t.release_escrow(SPENDER, escrow, 0).unwrap();
    assert_eq!(total(&t), 1000);
    assert_eq!(t.custodial_balance(), 0);
    t.burn(USER, 100i128).unwrap();
    assert_eq!(total(&t), 900);
    assert_eq!(t.total_supply(), 900);
}
