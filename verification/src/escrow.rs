//! Single-beneficiary and multi-recipient escrows. An escrow locks the
//! depositor's funds in the engine's custody at creation and settles exactly
//! once: released to the beneficiary (only the beneficiary may release, and
//! only once the timelock has passed) or refunded to the depositor (only the
//! depositor may refund; `expire` refunds once the expiration ledger has
//! been reached). Arbitration (see `dispute`) supersedes both paths.

use vstd::prelude::*;

use crate::contract::{multis_view, VeritixToken};
use crate::errors::Error;
use crate::model::{
    bal_of, lemma_bal_le_sum, lemma_escrows_locked_ge, lemma_escrows_locked_push,
    lemma_escrows_locked_update, lemma_multis_locked_ge, lemma_set_entry, lemma_splits_locked_ge,
    set_bal, share_sum, sum_bal, wf, LedgerView,
};
use crate::splitter::{apply_payouts, MAX_DISTRIBUTABLE};
use crate::storage_types::{AccountEntry, EscrowRecord, MultiEscrowRecord, MultiEscrowView, SplitRecipient};

verus! {

/// Creates an escrow: debits the depositor, credits the engine's custody and
/// appends the record under the next monotonic id. Fails with `Overflow`
/// when the id space is exhausted, `InvalidAmount` on a negative amount and
/// `InsufficientBalance` when the depositor holds less than `amount`.
pub open spec fn create_escrow_tr(
    v: LedgerView,
    depositor: u64,
    beneficiary: u64,
    amount: i128,
    expiration_ledger: u64,
    release_after_ledger: u64,
) -> (LedgerView, Result<u32, Error>) {
    if v.escrows.len() + 1 > u32::MAX {
        (v, Err(Error::Overflow))
    } else if amount < 0 {
        (v, Err(Error::InvalidAmount))
    } else if bal_of(v.balances, depositor) < amount {
        (v, Err(Error::InsufficientBalance))
    } else {
        let id = (v.escrows.len() + 1) as u32;
        let record = EscrowRecord {
            id,
            depositor,
            beneficiary,
            amount,
            released: false,
            refunded: false,
            expiration_ledger,
            release_after_ledger,
        };
        (
            LedgerView {
                balances: set_bal(v.balances, depositor, (bal_of(v.balances, depositor)
                    - amount) as i128),
                custodial: v.custodial + amount,
                escrows: v.escrows.push(record),
                ..v
            },
            Ok(id),
        )
    }
}

/// Creating an escrow preserves the invariant and the conserved total: the
/// debited amount moves into custody.
pub proof fn lemma_create_escrow_tr(
    v: LedgerView,
    depositor: u64,
    beneficiary: u64,
    amount: i128,
    expiration_ledger: u64,
    release_after_ledger: u64,
)
    requires
        wf(v),
    ensures
        wf(create_escrow_tr(v, depositor, beneficiary, amount, expiration_ledger,
            release_after_ledger).0),
        crate::model::total_value(create_escrow_tr(v, depositor, beneficiary, amount,
            expiration_ledger, release_after_ledger).0) == crate::model::total_value(v),
        create_escrow_tr(v, depositor, beneficiary, amount, expiration_ledger,
            release_after_ledger).1 is Ok ==> v.custodial + amount <= i128::MAX,
{
    if v.escrows.len() + 1 <= u32::MAX && amount >= 0 && bal_of(v.balances, depositor) >= amount {
        lemma_bal_le_sum(v.balances, depositor);
        let e = AccountEntry {
            addr: depositor,
            amount: (bal_of(v.balances, depositor) - amount) as i128,
            frozen: crate::model::frozen_of(v.balances, depositor),
        };
        lemma_set_entry(v.balances, e);
        let id = (v.escrows.len() + 1) as u32;
        let record = EscrowRecord {
            id,
            depositor,
            beneficiary,
            amount,
            released: false,
            refunded: false,
            expiration_ledger,
            release_after_ledger,
        };
        lemma_escrows_locked_push(v.escrows, record);
        let v2 = create_escrow_tr(v, depositor, beneficiary, amount, expiration_ledger,
            release_after_ledger).0;
        assert forall|i: int| 0 <= i < v2.escrows.len() implies v2.escrows[i].id == i + 1
            && v2.escrows[i].amount >= 0 && !(v2.escrows[i].released && v2.escrows[i].refunded) by {
            if i < v.escrows.len() {
                assert(v2.escrows[i] == v.escrows[i]);
            } else {
                assert(v2.escrows[i] == record);
            }
        }
    }
}

/// The state after settling the open escrow at index `i`: the winner is
/// credited from custody and the matching terminal flag is set.
pub open spec fn settle_escrow(v: LedgerView, i: int, to_beneficiary: bool) -> LedgerView {
    let e = v.escrows[i];
    let winner = if to_beneficiary {
        e.beneficiary
    } else {
        e.depositor
    };
    let e2 = if to_beneficiary {
        EscrowRecord { released: true, ..e }
    } else {
        EscrowRecord { refunded: true, ..e }
    };
    LedgerView {
        balances: set_bal(v.balances, winner, (bal_of(v.balances, winner) + e.amount) as i128),
        custodial: v.custodial - e.amount,
        escrows: v.escrows.update(i, e2),
        ..v
    }
}

/// Settling an open escrow preserves the invariant and the conserved total:
/// the credited amount leaves custody.
pub proof fn lemma_settle_escrow(v: LedgerView, i: int, to_beneficiary: bool)
    requires
        wf(v),
        0 <= i < v.escrows.len(),
        !v.escrows[i].released,
        !v.escrows[i].refunded,
    ensures
        wf(settle_escrow(v, i, to_beneficiary)),
        crate::model::total_value(settle_escrow(v, i, to_beneficiary))
            == crate::model::total_value(v),
        v.custodial - v.escrows[i].amount >= 0,
        ({
            let e = v.escrows[i];
            let winner = if to_beneficiary {
                e.beneficiary
            } else {
                e.depositor
            };
            0 <= bal_of(v.balances, winner) && bal_of(v.balances, winner) + e.amount <= i128::MAX
        }),
{
    let e = v.escrows[i];
    let winner = if to_beneficiary {
        e.beneficiary
    } else {
        e.depositor
    };
    let e2 = if to_beneficiary {
        EscrowRecord { released: true, ..e }
    } else {
        EscrowRecord { refunded: true, ..e }
    };
    lemma_escrows_locked_ge(v.escrows, i);
    if v.multis.len() > 0 {
        lemma_multis_locked_ge(v.multis, -1);
    }
    if v.splits.len() > 0 {
        lemma_splits_locked_ge(v.splits, -1);
    }
    lemma_bal_le_sum(v.balances, winner);
    let entry = AccountEntry {
        addr: winner,
        amount: (bal_of(v.balances, winner) + e.amount) as i128,
        frozen: crate::model::frozen_of(v.balances, winner),
    };
    lemma_set_entry(v.balances, entry);
    lemma_escrows_locked_update(v.escrows, i, e2);
    let v2 = settle_escrow(v, i, to_beneficiary);
    assert forall|j: int| 0 <= j < v2.escrows.len() implies v2.escrows[j].id == j + 1
        && v2.escrows[j].amount >= 0 && !(v2.escrows[j].released && v2.escrows[j].refunded) by {
        if j != i {
            assert(v2.escrows[j] == v.escrows[j]);
        } else {
            assert(v2.escrows[j] == e2);
        }
    }
}

/// Releases the escrowed funds to the beneficiary. Fails with `NotFound` on
/// an unknown id, `AlreadySettled` once the escrow is terminal (so a second
/// release, or a release after a refund, always reports exactly that),
/// `Unauthorized` unless the caller is the beneficiary, and `TimelockActive`
/// before the release-after ledger.
pub open spec fn release_escrow_tr(v: LedgerView, caller: u64, escrow_id: u32, now: u64) -> (
    LedgerView,
    Result<(), Error>,
) {
    if escrow_id < 1 || escrow_id > v.escrows.len() {
        (v, Err(Error::NotFound))
    } else {
        let i = escrow_id - 1;
        let e = v.escrows[i];
        if e.released || e.refunded {
            (v, Err(Error::AlreadySettled))
        } else if caller != e.beneficiary {
            (v, Err(Error::Unauthorized))
        } else if now < e.release_after_ledger {
            (v, Err(Error::TimelockActive))
        } else {
            (settle_escrow(v, i, true), Ok(()))
        }
    }
}

/// Refunds the escrowed funds back to the depositor. Fails with `NotFound`,
/// `AlreadySettled` on a terminal escrow, and `Unauthorized` unless the
/// caller is the depositor. There is no time condition on a refund.
pub open spec fn refund_escrow_tr(v: LedgerView, caller: u64, escrow_id: u32) -> (
    LedgerView,
    Result<(), Error>,
) {
    if escrow_id < 1 || escrow_id > v.escrows.len() {
        (v, Err(Error::NotFound))
    } else {
        let i = escrow_id - 1;
        let e = v.escrows[i];
        if e.released || e.refunded {
            (v, Err(Error::AlreadySettled))
        } else if caller != e.depositor {
            (v, Err(Error::Unauthorized))
        } else {
            (settle_escrow(v, i, false), Ok(()))
        }
    }
}

/// Expires an escrow: the depositor reclaims the funds once the expiration
/// ledger has been reached. Fails with `TooEarly` before it.
pub open spec fn expire_escrow_tr(v: LedgerView, caller: u64, escrow_id: u32, now: u64) -> (
    LedgerView,
    Result<(), Error>,
) {
    if escrow_id < 1 || escrow_id > v.escrows.len() {
        (v, Err(Error::NotFound))
    } else {
        let i = escrow_id - 1;
        let e = v.escrows[i];
        if e.released || e.refunded {
            (v, Err(Error::AlreadySettled))
        } else if caller != e.depositor {
            (v, Err(Error::Unauthorized))
        } else if now < e.expiration_ledger {
            (v, Err(Error::TooEarly))
        } else {
            (settle_escrow(v, i, false), Ok(()))
        }
    }
}

/// Creates a multi-recipient escrow: validates the share sum, debits the
/// depositor and locks the total in the engine's custody.
pub open spec fn create_multi_escrow_tr(
    v: LedgerView,
    depositor: u64,
    recipients: Seq<SplitRecipient>,
    total_amount: i128,
) -> (LedgerView, Result<u32, Error>) {
    if share_sum(recipients) != 10000 {
        (v, Err(Error::InvalidShareSum))
    } else if v.multis.len() + 1 > u32::MAX {
        (v, Err(Error::Overflow))
    } else if total_amount < 0 {
        (v, Err(Error::InvalidAmount))
    } else if bal_of(v.balances, depositor) < total_amount {
        (v, Err(Error::InsufficientBalance))
    } else {
        let id = (v.multis.len() + 1) as u32;
        let record = MultiEscrowView {
            id,
            depositor,
            recipients,
            total_amount,
            released: false,
            refunded: false,
        };
        (
            LedgerView {
                balances: set_bal(v.balances, depositor, (bal_of(v.balances, depositor)
                    - total_amount) as i128),
                custodial: v.custodial + total_amount,
                multis: v.multis.push(record),
                ..v
            },
            Ok(id),
        )
    }
}

/// Creating a multi-recipient escrow preserves the invariant and the
/// conserved total.
pub proof fn lemma_create_multi_escrow_tr(
    v: LedgerView,
    depositor: u64,
    recipients: Seq<SplitRecipient>,
    total_amount: i128,
)
    requires
        wf(v),
    ensures
        wf(create_multi_escrow_tr(v, depositor, recipients, total_amount).0),
        crate::model::total_value(create_multi_escrow_tr(v, depositor, recipients, total_amount).0)
            == crate::model::total_value(v),
        create_multi_escrow_tr(v, depositor, recipients, total_amount).1 is Ok ==> v.custodial
            + total_amount <= i128::MAX,
{
    if share_sum(recipients) == 10000 && v.multis.len() + 1 <= u32::MAX && total_amount >= 0
        && bal_of(v.balances, depositor) >= total_amount {
        lemma_bal_le_sum(v.balances, depositor);
        let e = AccountEntry {
            addr: depositor,
            amount: (bal_of(v.balances, depositor) - total_amount) as i128,
            frozen: crate::model::frozen_of(v.balances, depositor),
        };
        lemma_set_entry(v.balances, e);
        let id = (v.multis.len() + 1) as u32;
        let record = MultiEscrowView {
            id,
            depositor,
            recipients,
            total_amount,
            released: false,
            refunded: false,
        };
        crate::model::lemma_multis_locked_push(v.multis, record);
        let v2 = create_multi_escrow_tr(v, depositor, recipients, total_amount).0;
        assert forall|i: int| 0 <= i < v2.multis.len() implies v2.multis[i].id == i + 1
            && v2.multis[i].total_amount >= 0 && share_sum(v2.multis[i].recipients) == 10000 && !(
        v2.multis[i].released && v2.multis[i].refunded) by {
            if i < v.multis.len() {
                assert(v2.multis[i] == v.multis[i]);
            } else {
                assert(v2.multis[i] == record);
            }
        }
    }
}

/// Releases a multi-recipient escrow: pays every recipient its floored
/// share, the last one the exact remainder, out of custody. The caller must
/// be the depositor or the admin; a settled escrow reports `AlreadySettled`.
pub open spec fn release_multi_escrow_tr(v: LedgerView, caller: u64, escrow_id: u32) -> (
    LedgerView,
    Result<(), Error>,
) {
    if escrow_id < 1 || escrow_id > v.multis.len() {
        (v, Err(Error::NotFound))
    } else {
        let i = escrow_id - 1;
        let m = v.multis[i];
        if m.released || m.refunded {
            (v, Err(Error::AlreadySettled))
        } else if caller != m.depositor && v.admin != Some(caller) {
            (v, Err(Error::Unauthorized))
        } else if m.total_amount > MAX_DISTRIBUTABLE {
            (v, Err(Error::Overflow))
        } else {
            (
                LedgerView {
                    balances: apply_payouts(v.balances, m.total_amount as int, m.recipients,
                        m.recipients.len() as int),
                    custodial: v.custodial - m.total_amount,
                    multis: v.multis.update(i, MultiEscrowView { released: true, ..m }),
                    ..v
                },
                Ok(()),
            )
        }
    }
}

/// Releasing a multi-recipient escrow preserves the invariant and the
/// conserved total: the paid sum equals the total that leaves custody.
pub proof fn lemma_release_multi_escrow_tr(v: LedgerView, caller: u64, escrow_id: u32)
    requires
        wf(v),
    ensures
        wf(release_multi_escrow_tr(v, caller, escrow_id).0),
        crate::model::total_value(release_multi_escrow_tr(v, caller, escrow_id).0)
            == crate::model::total_value(v),
        release_multi_escrow_tr(v, caller, escrow_id).1 is Ok ==> {
            let m = v.multis[escrow_id - 1];
            sum_bal(v.balances) + m.total_amount <= i128::MAX && v.custodial - m.total_amount >= 0
        },
{
    if 1 <= escrow_id <= v.multis.len() {
        let i = escrow_id - 1;
        let m = v.multis[i];
        if !m.released && !m.refunded && (caller == m.depositor || v.admin == Some(caller))
            && m.total_amount <= MAX_DISTRIBUTABLE {
            let t = m.total_amount as int;
            lemma_multis_locked_ge(v.multis, i);
            if v.escrows.len() > 0 {
                lemma_escrows_locked_ge(v.escrows, 0);
            } else {
                crate::model::lemma_escrows_locked_nonneg(v.escrows);
            }
            lemma_splits_locked_ge(v.splits, -1);
            lemma_bal_le_sum(v.balances, 0);
            crate::splitter::lemma_apply_payouts(v.balances, t, m.recipients,
                m.recipients.len() as int);
            crate::splitter::lemma_payouts_sum_props(t, m.recipients, m.recipients.len() as int);
            crate::model::lemma_multis_locked_update(v.multis, i, MultiEscrowView {
                released: true,
                ..m
            });
            let v2 = release_multi_escrow_tr(v, caller, escrow_id).0;
            assert forall|j: int| 0 <= j < v2.multis.len() implies v2.multis[j].id == j + 1
                && v2.multis[j].total_amount >= 0 && share_sum(v2.multis[j].recipients) == 10000
                && !(v2.multis[j].released && v2.multis[j].refunded) by {
                if j != i {
                    assert(v2.multis[j] == v.multis[j]);
                } else {
                    assert(v2.multis[j] == MultiEscrowView { released: true, ..m });
                }
            }
        }
    }
}

/// Refunds a multi-recipient escrow whole to the depositor. Depositor only;
/// a settled escrow reports `AlreadySettled`.
pub open spec fn refund_multi_escrow_tr(v: LedgerView, caller: u64, escrow_id: u32) -> (
    LedgerView,
    Result<(), Error>,
) {
    if escrow_id < 1 || escrow_id > v.multis.len() {
        (v, Err(Error::NotFound))
    } else {
        let i = escrow_id - 1;
        let m = v.multis[i];
        if m.released || m.refunded {
            (v, Err(Error::AlreadySettled))
        } else if caller != m.depositor {
            (v, Err(Error::Unauthorized))
        } else {
            (
                LedgerView {
                    balances: set_bal(v.balances, m.depositor, (bal_of(v.balances, m.depositor)
                        + m.total_amount) as i128),
                    custodial: v.custodial - m.total_amount,
                    multis: v.multis.update(i, MultiEscrowView { refunded: true, ..m }),
                    ..v
                },
                Ok(()),
            )
        }
    }
}

/// Refunding a multi-recipient escrow preserves the invariant and the
/// conserved total.
pub proof fn lemma_refund_multi_escrow_tr(v: LedgerView, caller: u64, escrow_id: u32)
    requires
        wf(v),
    ensures
        wf(refund_multi_escrow_tr(v, caller, escrow_id).0),
        crate::model::total_value(refund_multi_escrow_tr(v, caller, escrow_id).0)
            == crate::model::total_value(v),
        refund_multi_escrow_tr(v, caller, escrow_id).1 is Ok ==> {
            let m = v.multis[escrow_id - 1];
            0 <= bal_of(v.balances, m.depositor) && bal_of(v.balances, m.depositor)
                + m.total_amount <= i128::MAX && v.custodial - m.total_amount >= 0
        },
{
    if 1 <= escrow_id <= v.multis.len() {
        let i = escrow_id - 1;
        let m = v.multis[i];
        if !m.released && !m.refunded && caller == m.depositor {
            lemma_multis_locked_ge(v.multis, i);
            if v.escrows.len() > 0 {
                lemma_escrows_locked_ge(v.escrows, 0);
            } else {
                crate::model::lemma_escrows_locked_nonneg(v.escrows);
            }
            lemma_splits_locked_ge(v.splits, -1);
            lemma_bal_le_sum(v.balances, m.depositor);
            let entry = AccountEntry {
                addr: m.depositor,
                amount: (bal_of(v.balances, m.depositor) + m.total_amount) as i128,
                frozen: crate::model::frozen_of(v.balances, m.depositor),
            };
            lemma_set_entry(v.balances, entry);
            crate::model::lemma_multis_locked_update(v.multis, i, MultiEscrowView {
                refunded: true,
                ..m
            });
            let v2 = refund_multi_escrow_tr(v, caller, escrow_id).0;
            assert forall|j: int| 0 <= j < v2.multis.len() implies v2.multis[j].id == j + 1
                && v2.multis[j].total_amount >= 0 && share_sum(v2.multis[j].recipients) == 10000
                && !(v2.multis[j].released && v2.multis[j].refunded) by {
                if j != i {
                    assert(v2.multis[j] == v.multis[j]);
                } else {
                    assert(v2.multis[j] == MultiEscrowView { refunded: true, ..m });
                }
            }
        }
    }
}

impl VeritixToken {
    /// Looks up the escrow record at index `escrow_id - 1`, if it exists.
    fn escrow_at(&self, escrow_id: u32) -> (r: Option<usize>)
        ensures
            match r {
                Some(i) => 1 <= escrow_id && escrow_id <= self@.escrows.len() && i as int
                    == escrow_id - 1,
                None => escrow_id < 1 || escrow_id > self@.escrows.len(),
            },
    {
        if escrow_id >= 1 && (escrow_id as usize) <= self.escrows.len() {
            Some((escrow_id - 1) as usize)
        } else {
            None
        }
    }

    /// Reads an escrow record by id.
    pub fn get_escrow(&self, escrow_id: u32) -> (r: Option<EscrowRecord>)
        ensures
            match r {
                Some(e) => 1 <= escrow_id <= self@.escrows.len() && e == self@.escrows[escrow_id
                    - 1],
                None => escrow_id < 1 || escrow_id > self@.escrows.len(),
            },
    {
        match self.escrow_at(escrow_id) {
            Some(i) => Some(self.escrows[i]),
            None => None,
        }
    }

    /// Creates a new escrow and locks the funds in the engine's custody.
    /// Returns the new monotonic id.
    pub fn create_escrow(
        &mut self,
        depositor: u64,
        beneficiary: u64,
        amount: i128,
        expiration_ledger: u64,
        release_after_ledger: u64,
    ) -> (r: Result<u32, Error>)
        requires
            old(self).wf(),
        ensures
            final(self).wf(),
            final(self)@ == create_escrow_tr(old(self)@, depositor, beneficiary, amount,
                expiration_ledger, release_after_ledger).0,
            r == create_escrow_tr(old(self)@, depositor, beneficiary, amount, expiration_ledger,
                release_after_ledger).1,
    {
        proof {
            lemma_create_escrow_tr(old(self)@, depositor, beneficiary, amount, expiration_ledger,
                release_after_ledger);
        }
        if self.escrows.len() >= u32::MAX as usize {
            return Err(Error::Overflow);
        }
        if amount < 0 {
            return Err(Error::InvalidAmount);
        }
        let bal = self.balances.read_balance(depositor);
        if bal < amount {
            return Err(Error::InsufficientBalance);
        }
        let id = (self.escrows.len() + 1) as u32;
        let record = EscrowRecord {
            id,
            depositor,
            beneficiary,
            amount,
            released: false,
            refunded: false,
            expiration_ledger,
            release_after_ledger,
        };
        self.balances.set_balance(depositor, bal - amount);
        self.custodial = self.custodial + amount;
        self.escrows.push(record);
        proof {
            assert(self@ =~~= create_escrow_tr(old(self)@, depositor, beneficiary, amount,
                expiration_ledger, release_after_ledger).0);
        }
        Ok(id)
    }

    /// Settles the validated open escrow at index `i`.
    pub(crate) fn settle_escrow_at(&mut self, i: usize, to_beneficiary: bool)
        requires
            old(self).wf(),
            i < old(self)@.escrows.len(),
            !old(self)@.escrows[i as int].released,
            !old(self)@.escrows[i as int].refunded,
        ensures
            final(self).wf(),
            final(self)@ == settle_escrow(old(self)@, i as int, to_beneficiary),
    {
        proof {
            lemma_settle_escrow(old(self)@, i as int, to_beneficiary);
        }
        let e = self.escrows[i];
        let winner = if to_beneficiary {
            e.beneficiary
        } else {
            e.depositor
        };
        let e2 = if to_beneficiary {
            EscrowRecord { released: true, ..e }
        } else {
            EscrowRecord { refunded: true, ..e }
        };
        let bal = self.balances.read_balance(winner);
        self.balances.set_balance(winner, bal + e.amount);
        self.custodial = self.custodial - e.amount;
        self.escrows.set(i, e2);
        proof {
            assert(self@ =~~= settle_escrow(old(self)@, i as int, to_beneficiary));
        }
    }

    /// Releases the escrowed funds to the beneficiary. Only the beneficiary
    /// may release, only after the release-after ledger, and only once.
    pub fn release_escrow(&mut self, caller: u64, escrow_id: u32, now: u64) -> (r: Result<
        (),
        Error,
    >)
        requires
            old(self).wf(),
        ensures
            final(self).wf(),
            final(self)@ == release_escrow_tr(old(self)@, caller, escrow_id, now).0,
            r == release_escrow_tr(old(self)@, caller, escrow_id, now).1,
    {
        proof {
            if 1 <= escrow_id <= old(self)@.escrows.len() {
                let e = old(self)@.escrows[escrow_id - 1];
                if !e.released && !e.refunded {
                    lemma_settle_escrow(old(self)@, escrow_id - 1, true);
                }
            }
        }
        let i = match self.escrow_at(escrow_id) {
            Some(i) => i,
            None => {
                return Err(Error::NotFound);
            },
        };
        let e = self.escrows[i];
        if e.released || e.refunded {
            return Err(Error::AlreadySettled);
        }
        if caller != e.beneficiary {
            return Err(Error::Unauthorized);
        }
        if now < e.release_after_ledger {
            return Err(Error::TimelockActive);
        }
        self.settle_escrow_at(i, true);
        Ok(())
    }

    /// Refunds the escrowed funds back to the depositor. Only the depositor
    /// may refund, and only once.
    pub fn refund_escrow(&mut self, caller: u64, escrow_id: u32) -> (r: Result<(), Error>)
        requires
            old(self).wf(),
        ensures
            final(self).wf(),
            final(self)@ == refund_escrow_tr(old(self)@, caller, escrow_id).0,
            r == refund_escrow_tr(old(self)@, caller, escrow_id).1,
    {
        let i = match self.escrow_at(escrow_id) {
            Some(i) => i,
            None => {
                return Err(Error::NotFound);
            },
        };
        let e = self.escrows[i];
        if e.released || e.refunded {
            return Err(Error::AlreadySettled);
        }
        if caller != e.depositor {
            return Err(Error::Unauthorized);
        }
        self.settle_escrow_at(i, false);
        Ok(())
    }

    /// Refunds an escrow whose expiration ledger has been reached. Only the
    /// depositor may call; fails with `TooEarly` before the expiration.
    pub fn expire_escrow(&mut self, caller: u64, escrow_id: u32, now: u64) -> (r: Result<
        (),
        Error,
    >)
        requires
            old(self).wf(),
        ensures
            final(self).wf(),
            final(self)@ == expire_escrow_tr(old(self)@, caller, escrow_id, now).0,
            r == expire_escrow_tr(old(self)@, caller, escrow_id, now).1,
    {
        let i = match self.escrow_at(escrow_id) {
            Some(i) => i,
            None => {
                return Err(Error::NotFound);
            },
        };
        let e = self.escrows[i];
        if e.released || e.refunded {
            return Err(Error::AlreadySettled);
        }
        if caller != e.depositor {
            return Err(Error::Unauthorized);
        }
        if now < e.expiration_ledger {
            return Err(Error::TooEarly);
        }
        self.settle_escrow_at(i, false);
        Ok(())
    }

    /// Looks up the multi-escrow record at index `escrow_id - 1`.
    fn multi_escrow_at(&self, escrow_id: u32) -> (r: Option<usize>)
        ensures
            match r {
                Some(i) => 1 <= escrow_id && escrow_id <= self@.multis.len() && i as int
                    == escrow_id - 1,
                None => escrow_id < 1 || escrow_id > self@.multis.len(),
            },
    {
        if escrow_id >= 1 && (escrow_id as usize) <= self.multi_escrows.len() {
            Some((escrow_id - 1) as usize)
        } else {
            None
        }
    }

    /// Reads a multi-recipient escrow record by id.
    pub fn get_multi_escrow(&self, escrow_id: u32) -> (r: Option<MultiEscrowRecord>)
        ensures
            match r {
                Some(m) => 1 <= escrow_id <= self@.multis.len() && m@ == self@.multis[escrow_id
                    - 1],
                None => escrow_id < 1 || escrow_id > self@.multis.len(),
            },
    {
        match self.multi_escrow_at(escrow_id) {
            Some(i) => {
                let m = &self.multi_escrows[i];
                Some(
                    MultiEscrowRecord {
                        id: m.id,
                        depositor: m.depositor,
                        recipients: crate::splitter::clone_recipients(&m.recipients),
                        total_amount: m.total_amount,
                        released: m.released,
                        refunded: m.refunded,
                    },
                )
            },
            None => None,
        }
    }

    /// Creates a multi-recipient escrow and locks the funds. Returns the new
    /// monotonic id.
    pub fn create_multi_escrow(
        &mut self,
        depositor: u64,
        recipients: Vec<SplitRecipient>,
        total_amount: i128,
    ) -> (r: Result<u32, Error>)
        requires
            old(self).wf(),
        ensures
            final(self).wf(),
            final(self)@ == create_multi_escrow_tr(old(self)@, depositor, recipients@,
                total_amount).0,
            r == create_multi_escrow_tr(old(self)@, depositor, recipients@, total_amount).1,
    {
        proof {
            lemma_create_multi_escrow_tr(old(self)@, depositor, recipients@, total_amount);
        }
        let sum = crate::splitter::compute_share_sum(&recipients);
        if sum != 10000 {
            return Err(Error::InvalidShareSum);
        }
        if self.multi_escrows.len() >= u32::MAX as usize {
            return Err(Error::Overflow);
        }
        if total_amount < 0 {
            return Err(Error::InvalidAmount);
        }
        let bal = self.balances.read_balance(depositor);
        if bal < total_amount {
            return Err(Error::InsufficientBalance);
        }
        let id = (self.multi_escrows.len() + 1) as u32;
        let ghost recipients_view = recipients@;
        let record = MultiEscrowRecord {
            id,
            depositor,
            recipients,
            total_amount,
            released: false,
            refunded: false,
        };
        self.balances.set_balance(depositor, bal - total_amount);
        self.custodial = self.custodial + total_amount;
        self.multi_escrows.push(record);
        proof {
            assert(multis_view(self.multi_escrows@) =~= old(self)@.multis.push(MultiEscrowView {
                id,
                depositor,
                recipients: recipients_view,
                total_amount,
                released: false,
                refunded: false,
            }));
            assert(self@ =~~= create_multi_escrow_tr(old(self)@, depositor, recipients_view,
                total_amount).0);
        }
        Ok(id)
    }

    /// Releases funds proportionally to all recipients: each gets its
    /// floored basis-point share, the last the exact remainder. The caller
    /// must be the depositor or the admin.
    pub fn release_multi_escrow(&mut self, caller: u64, escrow_id: u32) -> (r: Result<(), Error>)
        requires
            old(self).wf(),
        ensures
            final(self).wf(),
            final(self)@ == release_multi_escrow_tr(old(self)@, caller, escrow_id).0,
            r == release_multi_escrow_tr(old(self)@, caller, escrow_id).1,
    {
        proof {
            lemma_release_multi_escrow_tr(old(self)@, caller, escrow_id);
        }
        let i = match self.multi_escrow_at(escrow_id) {
            Some(i) => i,
            None => {
                return Err(Error::NotFound);
            },
        };
        if self.multi_escrows[i].released || self.multi_escrows[i].refunded {
            return Err(Error::AlreadySettled);
        }
        if caller != self.multi_escrows[i].depositor {
            let check = self.check_admin(caller);
            if check.is_err() {
                return Err(Error::Unauthorized);
            }
        }
        let total = self.multi_escrows[i].total_amount;
        let ghost rs = self@.multis[i as int].recipients;
        let payouts = match crate::splitter::calculate_distribution(
            total,
            &self.multi_escrows[i].recipients,
        ) {
            Ok(p) => p,
            Err(e) => {
                proof {
                    assert(e == Error::Overflow);
                }
                return Err(e);
            },
        };
        self.pay_out(&payouts, Ghost(rs), total);
        self.custodial = self.custodial - total;
        let recipients2 = crate::splitter::clone_recipients(&self.multi_escrows[i].recipients);
        let rec_id = self.multi_escrows[i].id;
        let rec_depositor = self.multi_escrows[i].depositor;
        let rec2 = MultiEscrowRecord {
            id: rec_id,
            depositor: rec_depositor,
            recipients: recipients2,
            total_amount: total,
            released: true,
            refunded: false,
        };
        self.multi_escrows.set(i, rec2);
        proof {
            assert(multis_view(self.multi_escrows@) =~= old(self)@.multis.update(
                i as int,
                MultiEscrowView { released: true, ..old(self)@.multis[i as int] },
            ));
            assert(self@ =~~= release_multi_escrow_tr(old(self)@, caller, escrow_id).0);
        }
        Ok(())
    }

    /// Refunds the entire amount back to the depositor. Depositor only.
    pub fn refund_multi_escrow(&mut self, caller: u64, escrow_id: u32) -> (r: Result<(), Error>)
        requires
            old(self).wf(),
        ensures
            final(self).wf(),
            final(self)@ == refund_multi_escrow_tr(old(self)@, caller, escrow_id).0,
            r == refund_multi_escrow_tr(old(self)@, caller, escrow_id).1,
    {
        proof {
            lemma_refund_multi_escrow_tr(old(self)@, caller, escrow_id);
        }
        let i = match self.multi_escrow_at(escrow_id) {
            Some(i) => i,
            None => {
                return Err(Error::NotFound);
            },
        };
        if self.multi_escrows[i].released || self.multi_escrows[i].refunded {
            return Err(Error::AlreadySettled);
        }
        if caller != self.multi_escrows[i].depositor {
            return Err(Error::Unauthorized);
        }
        let total = self.multi_escrows[i].total_amount;
        let depositor = self.multi_escrows[i].depositor;
        let bal = self.balances.read_balance(depositor);
        self.balances.set_balance(depositor, bal + total);
        self.custodial = self.custodial - total;
        let recipients2 = crate::splitter::clone_recipients(&self.multi_escrows[i].recipients);
        let rec_id = self.multi_escrows[i].id;
        let rec2 = MultiEscrowRecord {
            id: rec_id,
            depositor,
            recipients: recipients2,
            total_amount: total,
            released: false,
            refunded: true,
        };
        self.multi_escrows.set(i, rec2);
        proof {
            assert(multis_view(self.multi_escrows@) =~= old(self)@.multis.update(
                i as int,
                MultiEscrowView { refunded: true, ..old(self)@.multis[i as int] },
            ));
            assert(self@ =~~= refund_multi_escrow_tr(old(self)@, caller, escrow_id).0);
        }
        Ok(())
    }
}

} // verus!
