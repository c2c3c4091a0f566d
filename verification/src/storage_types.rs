use vstd::prelude::*;

verus! {

/// One account's entry in the ledger store: its balance and whether the
/// admin has frozen outgoing movement from it.
#[derive(Clone, Copy, PartialEq, Eq, Structural, Debug)]
pub struct AccountEntry {
    pub addr: u64,
    pub amount: i128,
    pub frozen: bool,
}

/// Key of a spending allowance: the owner of the funds and the spender.
#[derive(Clone, Copy, PartialEq, Eq, Structural, Debug)]
pub struct AllowanceDataKey {
    pub from: u64,
    pub spender: u64,
}

/// A time-bounded spending allowance. An allowance whose expiration ledger
/// has passed is treated as amount 0 regardless of the stored value.
#[derive(Clone, Copy, PartialEq, Eq, Structural, Debug)]
pub struct AllowanceValue {
    pub amount: i128,
    pub expiration_ledger: u64,
}

/// One stored allowance record.
#[derive(Clone, Copy, PartialEq, Eq, Structural, Debug)]
pub struct AllowanceEntry {
    pub key: AllowanceDataKey,
    pub value: AllowanceValue,
}

/// A single-beneficiary conditional hold. Lifecycle: funded at creation,
/// then released or refunded exactly once; both flags set is never reached.
#[derive(Clone, Copy, PartialEq, Eq, Structural, Debug)]
pub struct EscrowRecord {
    pub id: u32,
    pub depositor: u64,
    pub beneficiary: u64,
    pub amount: i128,
    pub released: bool,
    pub refunded: bool,
    pub expiration_ledger: u64,
    pub release_after_ledger: u64,
}

/// One recipient of a proportional distribution, with its share in basis
/// points (10000 bps = 100%).
#[derive(Clone, Copy, PartialEq, Eq, Structural, Debug)]
pub struct SplitRecipient {
    pub address: u64,
    pub share_bps: u32,
}

/// One computed payout of a proportional distribution.
#[derive(Clone, Copy, PartialEq, Eq, Structural, Debug)]
pub struct Payout {
    pub address: u64,
    pub amount: i128,
}

/// A multi-recipient conditional hold: released proportionally to all
/// recipients, or refunded whole to the depositor.
#[derive(Clone, PartialEq, Eq, Debug)]
pub struct MultiEscrowRecord {
    pub id: u32,
    pub depositor: u64,
    pub recipients: Vec<SplitRecipient>,
    pub total_amount: i128,
    pub released: bool,
    pub refunded: bool,
}

/// Mathematical image of a `MultiEscrowRecord`.
#[verifier::ext_equal]
pub ghost struct MultiEscrowView {
    pub id: u32,
    pub depositor: u64,
    pub recipients: Seq<SplitRecipient>,
    pub total_amount: i128,
    pub released: bool,
    pub refunded: bool,
}

impl View for MultiEscrowRecord {
    type V = MultiEscrowView;

    open spec fn view(&self) -> MultiEscrowView {
        MultiEscrowView {
            id: self.id,
            depositor: self.depositor,
            recipients: self.recipients@,
            total_amount: self.total_amount,
            released: self.released,
            refunded: self.refunded,
        }
    }
}

/// A one-shot proportional distribution: funds are locked at creation and
/// paid out to all recipients exactly once.
#[derive(Clone, PartialEq, Eq, Debug)]
pub struct SplitRecord {
    pub id: u32,
    pub sender: u64,
    pub recipients: Vec<SplitRecipient>,
    pub total_amount: i128,
    pub distributed: bool,
}

/// Mathematical image of a `SplitRecord`.
#[verifier::ext_equal]
pub ghost struct SplitView {
    pub id: u32,
    pub sender: u64,
    pub recipients: Seq<SplitRecipient>,
    pub total_amount: i128,
    pub distributed: bool,
}

impl View for SplitRecord {
    type V = SplitView;

    open spec fn view(&self) -> SplitView {
        SplitView {
            id: self.id,
            sender: self.sender,
            recipients: self.recipients@,
            total_amount: self.total_amount,
            distributed: self.distributed,
        }
    }
}

/// Lifecycle state of a dispute. Resolution is final.
#[derive(Clone, Copy, PartialEq, Eq, Structural, Debug)]
pub enum DisputeStatus {
    Open,
    ResolvedForBeneficiary,
    ResolvedForDepositor,
}

/// The arbitration outcome a resolver hands in.
#[derive(Clone, Copy, PartialEq, Eq, Structural, Debug)]
pub enum ResolutionOutcome {
    Beneficiary,
    Depositor,
}

/// An arbitration record over a not-yet-settled escrow. The resolver is
/// fixed at creation; once resolved the record is a historical annotation
/// and the escrow's own flags are the source of truth.
#[derive(Clone, Copy, PartialEq, Eq, Structural, Debug)]
pub struct Dispute {
    pub id: u32,
    pub escrow_id: u32,
    pub claimant: u64,
    pub respondent: u64,
    pub resolver: u64,
    pub status: DisputeStatus,
}

/// A crank-style repeated transfer: anyone may execute it once the interval
/// since the last charge has elapsed.
#[derive(Clone, Copy, PartialEq, Eq, Debug)]
pub struct RecurringPayment {
    pub id: u32,
    pub payer: u64,
    pub payee: u64,
    pub amount: i128,
    pub interval: u64,
    pub last_charged: u64,
    pub iterations: Option<u32>,
    pub completed: u32,
    pub active: bool,
}

/// Token metadata: stored once at initialization, never interpreted by the
/// engine.
#[derive(Clone, PartialEq, Eq, Debug)]
pub struct TokenMetadata {
    pub decimal: u32,
    pub name: String,
    pub symbol: String,
}

} // verus!
