//! Dispute lifecycle: only a party may open one, only the named resolver
//! may resolve it, resolution settles the escrow and is final.

use veritixpay::contract::VeritixToken;
use veritixpay::errors::Error;
use veritixpay::storage_types::{DisputeStatus, ResolutionOutcome};

const ADMIN: u64 = 100;
const DEPOSITOR: u64 = 1;
const BENEFICIARY: u64 = 2;
const RESOLVER: u64 = 3;
const EVE: u64 = 4;

fn setup_environment() -> (VeritixToken, u32) {
    let mut t = VeritixToken::new();
    t.initialize(ADMIN, 7, "Veritix".to_string(), "VTX".to_string())
        .unwrap();
    t.mint(ADMIN, DEPOSITOR, 100).unwrap();
    let escrow_id = t.create_escrow(DEPOSITOR, BENEFICIARY, 100, 0, 0).unwrap();
    (t, escrow_id)
}

#[test]
fn test_open_dispute() {
    let (mut t, escrow_id) = setup_environment();
    let dispute_id = t.open_dispute(DEPOSITOR, escrow_id, RESOLVER).unwrap();
    let dispute = t.get_dispute(dispute_id).unwrap();
    assert_eq!(dispute.claimant, DEPOSITOR);
    assert_eq!(dispute.respondent, BENEFICIARY);
    assert_eq!(dispute.resolver, RESOLVER);
    assert_eq!(dispute.status, DisputeStatus::Open);
    let escrow = t.get_escrow(escrow_id).unwrap();
    assert!(!escrow.released && !escrow.refunded);
}

#[test]
fn test_resolve_for_beneficiary() {
    let (mut t, escrow_id) = setup_environment();
    let dispute_id = t.open_dispute(DEPOSITOR, escrow_id, RESOLVER).unwrap();
    t.resolve_dispute(RESOLVER, dispute_id, ResolutionOutcome::Beneficiary)
        .unwrap();
    assert_eq!(t.balance(BENEFICIARY), 100);
    let escrow = t.get_escrow(escrow_id).unwrap();
    assert!(escrow.released);
    let dispute = t.get_dispute(dispute_id).unwrap();
    assert_eq!(dispute.status, DisputeStatus::ResolvedForBeneficiary);
}

#[test]
fn test_resolve_for_depositor() {
    let (mut t, escrow_id) = setup_environment();
    let dispute_id = t.open_dispute(DEPOSITOR, escrow_id, RESOLVER).unwrap();
    t.resolve_dispute(RESOLVER, dispute_id, ResolutionOutcome::Depositor)
        .unwrap();
    assert_eq!(t.balance(DEPOSITOR), 100);
    let escrow = t.get_escrow(escrow_id).unwrap();
    assert!(escrow.refunded);
    let dispute = t.get_dispute(dispute_id).unwrap();
    assert_eq!(dispute.status, DisputeStatus::ResolvedForDepositor);
}

#[test]
fn test_open_dispute_unauthorized_panics() {
    let (mut t, escrow_id) = setup_environment();
    // Eve is neither depositor nor beneficiary of this escrow.
    let r = t.open_dispute(EVE, escrow_id, RESOLVER);
    assert_eq!(r, Err(Error::Unauthorized));
}

#[test]
fn test_resolve_unauthorized_panics() {
    let (mut t, escrow_id) = setup_environment();
    let dispute_id = t.open_dispute(DEPOSITOR, escrow_id, RESOLVER).unwrap();
    let r = t.resolve_dispute(EVE, dispute_id, ResolutionOutcome::Depositor);
    assert_eq!(r, Err(Error::UnauthorizedResolver));
}

#[test]
fn test_double_resolve_panics() {
    let (mut t, escrow_id) = setup_environment();
    let dispute_id = t.open_dispute(DEPOSITOR, escrow_id, RESOLVER).unwrap();
    t.resolve_dispute(RESOLVER, dispute_id, ResolutionOutcome::Beneficiary)
        .unwrap();
    let r = t.resolve_dispute(RESOLVER, dispute_id, ResolutionOutcome::Depositor);
    assert_eq!(r, Err(Error::AlreadyResolved));
}

#[test]
fn test_dispute_already_released_escrow_panics() {
    let (mut t, escrow_id) = setup_environment();
    t.release_escrow(BENEFICIARY, escrow_id, 0).unwrap();
    let r = t.open_dispute(DEPOSITOR, escrow_id, RESOLVER);
    assert_eq!(r, Err(Error::InvalidState));
}

#[test]
fn resolver_cannot_be_the_disputing_party() {
    let (mut t, escrow_id) = setup_environment();
    let r = t.open_dispute(DEPOSITOR, escrow_id, DEPOSITOR);
    assert_eq!(r, Err(Error::Unauthorized));
}

#[test]
fn resolution_bypasses_timelock_and_parties() {
    let mut t = VeritixToken::new();
    t.initialize(ADMIN, 7, "Veritix".to_string(), "VTX".to_string())
        .unwrap();
    t.mint(ADMIN, DEPOSITOR, 100).unwrap();
    // The escrow is timelocked far in the future, yet arbitration settles it.
    let escrow_id = t
        .create_escrow(DEPOSITOR, BENEFICIARY, 100, 0, 1_000_000)
        .unwrap();
    let dispute_id = t.open_dispute(BENEFICIARY, escrow_id, RESOLVER).unwrap();
    let dispute = t.get_dispute(dispute_id).unwrap();
    assert_eq!(dispute.respondent, DEPOSITOR);
    t.resolve_dispute(RESOLVER, dispute_id, ResolutionOutcome::Beneficiary)
        .unwrap();
    assert_eq!(t.balance(BENEFICIARY), 100);
}

#[test]
fn resolution_after_external_settlement_fails() {
    let (mut t, escrow_id) = setup_environment();
    let dispute_id = t.open_dispute(DEPOSITOR, escrow_id, RESOLVER).unwrap();
    // The escrow settles through the normal path while the dispute is open.
    t.refund_escrow(DEPOSITOR, escrow_id).unwrap();
    let r = t.resolve_dispute(RESOLVER, dispute_id, ResolutionOutcome::Beneficiary);
    assert_eq!(r, Err(Error::AlreadySettled));
    // The dispute stays open as a historical annotation.
    assert_eq!(t.get_dispute(dispute_id).unwrap().status, DisputeStatus::Open);
}

#[test]
fn unknown_ids_are_not_found() {
    let (mut t, _escrow_id) = setup_environment();
    assert_eq!(t.open_dispute(DEPOSITOR, 9, RESOLVER), Err(Error::NotFound));
    assert_eq!(
        t.resolve_dispute(RESOLVER, 9, ResolutionOutcome::Depositor),
        Err(Error::NotFound)
    );
}
