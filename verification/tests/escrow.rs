//! Escrow lifecycle: creation locks funds in custody, release and refund
//! settle exactly once, timelocks and expiry gate the transitions.

use veritixpay::contract::VeritixToken;
use veritixpay::errors::Error;
use veritixpay::storage_types::SplitRecipient;

const ADMIN: u64 = 100;
const DEPOSITOR: u64 = 1;
const BENEFICIARY: u64 = 2;
const HACKER: u64 = 66;

fn setup(fund: i128) -> VeritixToken {
    let mut t = VeritixToken::new();
    t.initialize(ADMIN, 7, "Veritix".to_string(), "VTX".to_string())
        .unwrap();
    t.mint(ADMIN, DEPOSITOR, fund).unwrap();
    t
}

#[test]
fn test_create_escrow_stores_record() {
    let mut t = setup(1_000);
    let amount = 1_000i128;
    let escrow_id = t
        .create_escrow(DEPOSITOR, BENEFICIARY, amount, 500, 0)
        .unwrap();
    let record = t.get_escrow(escrow_id).unwrap();
    assert_eq!(record.id, escrow_id);
    assert_eq!(record.depositor, DEPOSITOR);
    assert_eq!(record.beneficiary, BENEFICIARY);
    assert_eq!(record.amount, amount);
    assert!(!record.released);
    assert!(!record.refunded);
    assert_eq!(record.expiration_ledger, 500);
    assert_eq!(record.release_after_ledger, 0);
}

#[test]
fn test_release_escrow_happy_path() {
    let mut t = setup(1_000);
    let amount = 1_000i128;
    let escrow_id = t
        .create_escrow(DEPOSITOR, BENEFICIARY, amount, 0, 0)
        .unwrap();

    let before_contract_balance = t.custodial_balance();
    let before_beneficiary_balance = t.balance(BENEFICIARY);

    t.release_escrow(BENEFICIARY, escrow_id, 0).unwrap();

    let record = t.get_escrow(escrow_id).unwrap();
    assert!(record.released);
    assert!(!record.refunded);

    assert_eq!(before_contract_balance - amount, t.custodial_balance());
    assert_eq!(before_beneficiary_balance + amount, t.balance(BENEFICIARY));
}

#[test]
fn test_refund_escrow_happy_path() {
    let mut t = setup(1_000);
    let amount = 1_000i128;
    let escrow_id = t
        .create_escrow(DEPOSITOR, BENEFICIARY, amount, 0, 0)
        .unwrap();

    let before_contract_balance = t.custodial_balance();
    let before_depositor_balance = t.balance(DEPOSITOR);

    t.refund_escrow(DEPOSITOR, escrow_id).unwrap();

    let record = t.get_escrow(escrow_id).unwrap();
    assert!(record.refunded);
    assert!(!record.released);

    assert_eq!(before_contract_balance - amount, t.custodial_balance());
    assert_eq!(before_depositor_balance + amount, t.balance(DEPOSITOR));
}

#[test]
fn test_release_unauthorized_panics() {
    let mut t = setup(1_000);
    let escrow_id = t
        .create_escrow(DEPOSITOR, BENEFICIARY, 1_000, 0, 0)
        .unwrap();
    let r = t.release_escrow(HACKER, escrow_id, 0);
    assert_eq!(r, Err(Error::Unauthorized));
}

#[test]
fn test_refund_unauthorized_panics() {
    let mut t = setup(1_000);
    let escrow_id = t
        .create_escrow(DEPOSITOR, BENEFICIARY, 1_000, 0, 0)
        .unwrap();
    let r = t.refund_escrow(BENEFICIARY, escrow_id);
    assert_eq!(r, Err(Error::Unauthorized));
}

#[test]
fn test_double_release_panics() {
    let mut t = setup(1_000);
    let escrow_id = t
        .create_escrow(DEPOSITOR, BENEFICIARY, 1_000, 0, 0)
        .unwrap();
    t.release_escrow(BENEFICIARY, escrow_id, 0).unwrap();
    let r = t.release_escrow(BENEFICIARY, escrow_id, 0);
    assert_eq!(r, Err(Error::AlreadySettled));
}

#[test]
fn test_double_refund_panics() {
    let mut t = setup(1_000);
    let escrow_id = t
        .create_escrow(DEPOSITOR, BENEFICIARY, 1_000, 0, 0)
        .unwrap();
    t.refund_escrow(DEPOSITOR, escrow_id).unwrap();
    let r = t.refund_escrow(DEPOSITOR, escrow_id);
    assert_eq!(r, Err(Error::AlreadySettled));
}

#[test]
fn test_release_after_refund_panics() {
    let mut t = setup(1_000);
    let escrow_id = t
        .create_escrow(DEPOSITOR, BENEFICIARY, 1_000, 0, 0)
        .unwrap();
    t.refund_escrow(DEPOSITOR, escrow_id).unwrap();
    let r = t.release_escrow(BENEFICIARY, escrow_id, 0);
    assert_eq!(r, Err(Error::AlreadySettled));
}

#[test]
fn create_escrow_requires_funds() {
    let mut t = setup(100);
    let r = t.create_escrow(DEPOSITOR, BENEFICIARY, 1_000, 0, 0);
    assert_eq!(r, Err(Error::InsufficientBalance));
}

#[test]
fn unknown_escrow_is_not_found() {
    let mut t = setup(100);
    assert_eq!(t.release_escrow(BENEFICIARY, 7, 0), Err(Error::NotFound));
    assert_eq!(t.refund_escrow(DEPOSITOR, 0), Err(Error::NotFound));
    assert!(t.get_escrow(1).is_none());
}

#[test]
fn timelock_gates_release() {
    let mut t = setup(1_000);
    let escrow_id = t
        .create_escrow(DEPOSITOR, BENEFICIARY, 1_000, 0, 100)
        .unwrap();
    let r = t.release_escrow(BENEFICIARY, escrow_id, 99);
    assert_eq!(r, Err(Error::TimelockActive));
    t.release_escrow(BENEFICIARY, escrow_id, 100).unwrap();
    assert_eq!(t.balance(BENEFICIARY), 1_000);
}

#[test]
fn expire_refunds_after_the_expiration_ledger() {
    let mut t = setup(1_000);
    let escrow_id = t
        .create_escrow(DEPOSITOR, BENEFICIARY, 1_000, 200, 0)
        .unwrap();
    assert_eq!(
        t.expire_escrow(BENEFICIARY, escrow_id, 300),
        Err(Error::Unauthorized)
    );
    assert_eq!(
        t.expire_escrow(DEPOSITOR, escrow_id, 199),
        Err(Error::TooEarly)
    );
    t.expire_escrow(DEPOSITOR, escrow_id, 200).unwrap();
    assert_eq!(t.balance(DEPOSITOR), 1_000);
    let record = t.get_escrow(escrow_id).unwrap();
    assert!(record.refunded);
}

#[test]
fn multi_escrow_distributes_with_exact_remainder() {
    let mut t = setup(10);
    let recipients = vec![
        SplitRecipient { address: 11, share_bps: 3333 },
        SplitRecipient { address: 12, share_bps: 3333 },
        SplitRecipient { address: 13, share_bps: 3334 },
    ];
    let id = t.create_multi_escrow(DEPOSITOR, recipients, 10).unwrap();
    assert_eq!(t.custodial_balance(), 10);
    t.release_multi_escrow(DEPOSITOR, id).unwrap();
    assert_eq!(t.balance(11), 3);
    assert_eq!(t.balance(12), 3);
    assert_eq!(t.balance(13), 4);
    assert_eq!(t.custodial_balance(), 0);
    let record = t.get_multi_escrow(id).unwrap();
    assert!(record.released);
}

#[test]
fn multi_escrow_admin_may_release() {
    let mut t = setup(100);
    let recipients = vec![SplitRecipient { address: 11, share_bps: 10000 }];
    let id = t.create_multi_escrow(DEPOSITOR, recipients, 100).unwrap();
    assert_eq!(t.release_multi_escrow(HACKER, id), Err(Error::Unauthorized));
    t.release_multi_escrow(ADMIN, id).unwrap();
    assert_eq!(t.balance(11), 100);
}

#[test]
fn multi_escrow_refund_is_depositor_only_and_final() {
    let mut t = setup(100);
    let recipients = vec![SplitRecipient { address: 11, share_bps: 10000 }];
    let id = t.create_multi_escrow(DEPOSITOR, recipients, 100).unwrap();
    assert_eq!(t.refund_multi_escrow(ADMIN, id), Err(Error::Unauthorized));
    t.refund_multi_escrow(DEPOSITOR, id).unwrap();
    assert_eq!(t.balance(DEPOSITOR), 100);
    assert_eq!(t.release_multi_escrow(DEPOSITOR, id), Err(Error::AlreadySettled));
    assert_eq!(t.refund_multi_escrow(DEPOSITOR, id), Err(Error::AlreadySettled));
}

#[test]
fn multi_escrow_rejects_bad_share_sums() {
    let mut t = setup(100);
    let recipients = vec![
        SplitRecipient { address: 11, share_bps: 5000 },
        SplitRecipient { address: 12, share_bps: 4999 },
    ];
    let r = t.create_multi_escrow(DEPOSITOR, recipients, 100);
    assert_eq!(r, Err(Error::InvalidShareSum));
    let none: Vec<SplitRecipient> = vec![];
    assert_eq!(
        t.create_multi_escrow(DEPOSITOR, none, 100),
        Err(Error::InvalidShareSum)
    );
}
