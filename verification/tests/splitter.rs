//! Proportional distribution: shares must sum to 10000 basis points, every
//! recipient gets its floored share except the last, who gets the exact
//! remainder, and a split distributes exactly once.

use veritixpay::contract::VeritixToken;
use veritixpay::errors::Error;
use veritixpay::splitter::calculate_distribution;
use veritixpay::storage_types::SplitRecipient;

const ADMIN: u64 = 100;
const SENDER: u64 = 1;
const HACKER: u64 = 66;

fn setup_env(fund: i128) -> VeritixToken {
    let mut t = VeritixToken::new();
    t.initialize(ADMIN, 7, "Veritix".to_string(), "VTX".to_string())
        .unwrap();
    t.mint(ADMIN, SENDER, fund).unwrap();
    t
}

#[test]
fn test_create_split() {
    let mut t = setup_env(10_000);
    let total_amount = 10_000i128;
    let recipients = vec![SplitRecipient { address: 11, share_bps: 10000 }];
    let split_id = t.create_split(SENDER, recipients, total_amount).unwrap();
    let split = t.get_split(split_id).unwrap();
    assert_eq!(split.sender, SENDER);
    assert_eq!(split.total_amount, total_amount);
    assert!(!split.distributed);
    // The sender's balance was deducted into custody.
    assert_eq!(t.balance(SENDER), 0);
    assert_eq!(t.custodial_balance(), total_amount);
}

#[test]
fn test_distribute_two_recipients() {
    let recipients = vec![
        SplitRecipient { address: 11, share_bps: 5000 },
        SplitRecipient { address: 12, share_bps: 5000 },
    ];
    let results = calculate_distribution(1000, &recipients).unwrap();
    assert_eq!(results[0].amount, 500);
    assert_eq!(results[1].amount, 500);
}

#[test]
fn test_distribute_three_recipients() {
    let recipients = vec![
        SplitRecipient { address: 11, share_bps: 5000 },
        SplitRecipient { address: 12, share_bps: 3000 },
        SplitRecipient { address: 13, share_bps: 2000 },
    ];
    let results = calculate_distribution(1000, &recipients).unwrap();
    assert_eq!(results[0].amount, 500);
    assert_eq!(results[1].amount, 300);
    assert_eq!(results[2].amount, 200);
}

#[test]
fn test_invalid_bps_panics() {
    let recipients = vec![SplitRecipient { address: 11, share_bps: 9999 }];
    let r = calculate_distribution(1000, &recipients);
    assert_eq!(r, Err(Error::InvalidShareSum));
}

#[test]
fn test_double_distribute_panics() {
    let mut t = setup_env(1_000);
    let recipients = vec![
        SplitRecipient { address: 11, share_bps: 5000 },
        SplitRecipient { address: 12, share_bps: 5000 },
    ];
    let split_id = t.create_split(SENDER, recipients, 1_000).unwrap();
    t.distribute(SENDER, split_id).unwrap();
    let r = t.distribute(SENDER, split_id);
    assert_eq!(r, Err(Error::AlreadyDistributed));
}

#[test]
fn test_distribute_unauthorized_panics() {
    let mut t = setup_env(1_000);
    let recipients = vec![SplitRecipient { address: 11, share_bps: 10000 }];
    let split_id = t.create_split(SENDER, recipients, 1_000).unwrap();
    let r = t.distribute(HACKER, split_id);
    assert_eq!(r, Err(Error::Unauthorized));
}

#[test]
fn test_distribute_rounds_correctly() {
    // 10 units split three ways (3333, 3333, 3334 bps): in integer math the
    // floored shares are 3 + 3 + 3 = 9, so the last recipient picks up the
    // remainder and the paid sum equals the total exactly.
    let recipients = vec![
        SplitRecipient { address: 11, share_bps: 3333 },
        SplitRecipient { address: 12, share_bps: 3333 },
        SplitRecipient { address: 13, share_bps: 3334 },
    ];
    let total = 10i128;
    let shares = calculate_distribution(total, &recipients).unwrap();
    let mut sum: i128 = 0;
    for s in &shares {
        sum += s.amount;
    }
    assert_eq!(sum, total, "Rounding error: Dust remaining in contract");
    assert_eq!(shares[0].amount, 3);
    assert_eq!(shares[1].amount, 3);
    assert_eq!(shares[2].amount, 4);
}

#[test]
fn distribute_pays_the_recipients() {
    let mut t = setup_env(10);
    let recipients = vec![
        SplitRecipient { address: 11, share_bps: 3333 },
        SplitRecipient { address: 12, share_bps: 3333 },
        SplitRecipient { address: 13, share_bps: 3334 },
    ];
    let split_id = t.create_split(SENDER, recipients, 10).unwrap();
    t.distribute(SENDER, split_id).unwrap();
    assert_eq!(t.balance(11), 3);
    assert_eq!(t.balance(12), 3);
    assert_eq!(t.balance(13), 4);
    assert_eq!(t.custodial_balance(), 0);
    assert!(t.get_split(split_id).unwrap().distributed);
}

#[test]
fn duplicate_recipients_accumulate() {
    let mut t = setup_env(100);
    let recipients = vec![
        SplitRecipient { address: 11, share_bps: 5000 },
        SplitRecipient { address: 11, share_bps: 5000 },
    ];
    let split_id = t.create_split(SENDER, recipients, 100).unwrap();
    t.distribute(SENDER, split_id).unwrap();
    assert_eq!(t.balance(11), 100);
}

#[test]
fn create_split_rejects_bad_configurations() {
    let mut t = setup_env(100);
    let too_much = vec![SplitRecipient { address: 11, share_bps: 10001 }];
    assert_eq!(
        t.create_split(SENDER, too_much, 100),
        Err(Error::InvalidShareSum)
    );
    let ok = vec![SplitRecipient { address: 11, share_bps: 10000 }];
    assert_eq!(
        t.create_split(SENDER, ok, -1),
        Err(Error::InvalidAmount)
    );
    let unfunded = vec![SplitRecipient { address: 11, share_bps: 10000 }];
    assert_eq!(
        t.create_split(SENDER, unfunded, 1_000),
        Err(Error::InsufficientBalance)
    );
}

#[test]
fn unknown_split_is_not_found() {
    let mut t = setup_env(100);
    assert_eq!(t.distribute(SENDER, 5), Err(Error::NotFound));
    assert!(t.get_split(5).is_none());
}

#[test]
fn oversized_totals_are_rejected_whole() {
    let recipients = vec![SplitRecipient { address: 11, share_bps: 10000 }];
    let r = calculate_distribution(i128::MAX, &recipients);
    assert_eq!(r, Err(Error::Overflow));
    let r = calculate_distribution(-1, &recipients);
    assert_eq!(r, Err(Error::InvalidAmount));
}
