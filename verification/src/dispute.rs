//! Dispute resolution: an arbitration layer over not-yet-settled escrows.
//! Either party may open a dispute and name a resolver; only that resolver
//! may resolve it, exactly once. Resolution supersedes the escrow's own
//! authorization and timelock: favouring the beneficiary settles the escrow
//! as a release would, favouring the depositor as a refund would. The
//! escrow's own flags stay the source of truth, so a dispute resolved after
//! the escrow has settled by other means fails with `AlreadySettled` and
//! stays open as a historical annotation.

use vstd::prelude::*;

use crate::contract::VeritixToken;
use crate::errors::Error;
use crate::escrow::{lemma_settle_escrow, settle_escrow};
use crate::model::{wf, LedgerView};
use crate::storage_types::{Dispute, DisputeStatus, ResolutionOutcome};

verus! {

/// Opens a dispute against a not-yet-settled escrow. Fails with `NotFound`
/// on an unknown escrow, `InvalidState` once the escrow is terminal and
/// `Unauthorized` unless the caller is one of its parties and distinct from
/// the resolver it names.
pub open spec fn open_dispute_tr(v: LedgerView, caller: u64, escrow_id: u32, resolver: u64) -> (
    LedgerView,
    Result<u32, Error>,
) {
    if escrow_id < 1 || escrow_id > v.escrows.len() {
        (v, Err(Error::NotFound))
    } else {
        let e = v.escrows[escrow_id - 1];
        if e.released || e.refunded {
            (v, Err(Error::InvalidState))
        } else if (caller != e.depositor && caller != e.beneficiary) || resolver == caller {
            (v, Err(Error::Unauthorized))
        } else if v.disputes.len() + 1 > u32::MAX {
            (v, Err(Error::Overflow))
        } else {
            let id = (v.disputes.len() + 1) as u32;
            let respondent = if caller == e.depositor {
                e.beneficiary
            } else {
                e.depositor
            };
            let d = Dispute {
                id,
                escrow_id,
                claimant: caller,
                respondent,
                resolver,
                status: DisputeStatus::Open,
            };
            (LedgerView { disputes: v.disputes.push(d), ..v }, Ok(id))
        }
    }
}

/// Opening a dispute moves no funds and preserves the invariant.
pub proof fn lemma_open_dispute_tr(v: LedgerView, caller: u64, escrow_id: u32, resolver: u64)
    requires
        wf(v),
    ensures
        wf(open_dispute_tr(v, caller, escrow_id, resolver).0),
        crate::model::total_value(open_dispute_tr(v, caller, escrow_id, resolver).0)
            == crate::model::total_value(v),
{
    let v2 = open_dispute_tr(v, caller, escrow_id, resolver).0;
    if open_dispute_tr(v, caller, escrow_id, resolver).1 is Ok {
        assert forall|i: int| 0 <= i < v2.disputes.len() implies v2.disputes[i].id == i + 1 && 1
            <= v2.disputes[i].escrow_id <= v2.escrows.len() by {
            if i < v.disputes.len() {
                assert(v2.disputes[i] == v.disputes[i]);
            }
        }
    }
}

/// Resolves a dispute: the stored resolver hands in an outcome, which
/// settles the underlying escrow in favour of the beneficiary or the
/// depositor, bypassing the escrow's own authorization and timelock. Fails
/// with `NotFound` on an unknown dispute, `UnauthorizedResolver` unless the
/// caller is the stored resolver, `AlreadyResolved` once the dispute is
/// terminal, and `AlreadySettled` if the escrow settled by other means.
pub open spec fn resolve_dispute_tr(
    v: LedgerView,
    caller: u64,
    dispute_id: u32,
    outcome: ResolutionOutcome,
) -> (LedgerView, Result<(), Error>) {
    if dispute_id < 1 || dispute_id > v.disputes.len() {
        (v, Err(Error::NotFound))
    } else {
        let d = v.disputes[dispute_id - 1];
        if caller != d.resolver {
            (v, Err(Error::UnauthorizedResolver))
        } else if d.status != DisputeStatus::Open {
            (v, Err(Error::AlreadyResolved))
        } else if d.escrow_id < 1 || d.escrow_id > v.escrows.len() {
            (v, Err(Error::NotFound))
        } else {
            let i = d.escrow_id - 1;
            let e = v.escrows[i];
            if e.released || e.refunded {
                (v, Err(Error::AlreadySettled))
            } else {
                let to_beneficiary = outcome == ResolutionOutcome::Beneficiary;
                let status = if to_beneficiary {
                    DisputeStatus::ResolvedForBeneficiary
                } else {
                    DisputeStatus::ResolvedForDepositor
                };
                let settled = settle_escrow(v, i, to_beneficiary);
                (
                    LedgerView {
                        disputes: v.disputes.update(dispute_id - 1, Dispute { status, ..d }),
                        ..settled
                    },
                    Ok(()),
                )
            }
        }
    }
}

/// Resolving a dispute preserves the invariant and the conserved total: it
/// settles the escrow, moving the locked amount out of custody.
pub proof fn lemma_resolve_dispute_tr(
    v: LedgerView,
    caller: u64,
    dispute_id: u32,
    outcome: ResolutionOutcome,
)
    requires
        wf(v),
    ensures
        wf(resolve_dispute_tr(v, caller, dispute_id, outcome).0),
        crate::model::total_value(resolve_dispute_tr(v, caller, dispute_id, outcome).0)
            == crate::model::total_value(v),
{
    if 1 <= dispute_id <= v.disputes.len() {
        let d = v.disputes[dispute_id - 1];
        if caller == d.resolver && d.status == DisputeStatus::Open && 1 <= d.escrow_id
            <= v.escrows.len() {
            let i = d.escrow_id - 1;
            let e = v.escrows[i];
            if !e.released && !e.refunded {
                let to_beneficiary = outcome == ResolutionOutcome::Beneficiary;
                lemma_settle_escrow(v, i, to_beneficiary);
                let v2 = resolve_dispute_tr(v, caller, dispute_id, outcome).0;
                let status = if to_beneficiary {
                    DisputeStatus::ResolvedForBeneficiary
                } else {
                    DisputeStatus::ResolvedForDepositor
                };
                assert forall|j: int| 0 <= j < v2.disputes.len() implies v2.disputes[j].id == j + 1
                    && 1 <= v2.disputes[j].escrow_id <= v2.escrows.len() by {
                    if j != dispute_id - 1 {
                        assert(v2.disputes[j] == v.disputes[j]);
                    } else {
                        assert(v2.disputes[j] == Dispute { status, ..d });
                    }
                }
            }
        }
    }
}

impl VeritixToken {
    /// Reads a dispute record by id.
    pub fn get_dispute(&self, dispute_id: u32) -> (r: Option<Dispute>)
        ensures
            match r {
                Some(d) => 1 <= dispute_id <= self@.disputes.len() && d == self@.disputes[dispute_id
                    - 1],
                None => dispute_id < 1 || dispute_id > self@.disputes.len(),
            },
    {
        if dispute_id >= 1 && (dispute_id as usize) <= self.disputes.len() {
            Some(self.disputes[(dispute_id - 1) as usize])
        } else {
            None
        }
    }

    /// Opens a dispute against a not-yet-settled escrow, naming its
    /// resolver. Only the escrow's depositor or beneficiary may open one,
    /// and the resolver cannot be the disputing party. Returns the new
    /// dispute id.
    pub fn open_dispute(&mut self, caller: u64, escrow_id: u32, resolver: u64) -> (r: Result<
        u32,
        Error,
    >)
        requires
            old(self).wf(),
        ensures
            final(self).wf(),
            final(self)@ == open_dispute_tr(old(self)@, caller, escrow_id, resolver).0,
            r == open_dispute_tr(old(self)@, caller, escrow_id, resolver).1,
    {
        proof {
            lemma_open_dispute_tr(old(self)@, caller, escrow_id, resolver);
        }
        let e = match self.get_escrow(escrow_id) {
            Some(e) => e,
            None => {
                return Err(Error::NotFound);
            },
        };
        if e.released || e.refunded {
            return Err(Error::InvalidState);
        }
        if (caller != e.depositor && caller != e.beneficiary) || resolver == caller {
            return Err(Error::Unauthorized);
        }
        if self.disputes.len() >= u32::MAX as usize {
            return Err(Error::Overflow);
        }
        let id = (self.disputes.len() + 1) as u32;
        let respondent = if caller == e.depositor {
            e.beneficiary
        } else {
            e.depositor
        };
        let d = Dispute {
            id,
            escrow_id,
            claimant: caller,
            respondent,
            resolver,
            status: DisputeStatus::Open,
        };
        self.disputes.push(d);
        proof {
            assert(self@ =~~= open_dispute_tr(old(self)@, caller, escrow_id, resolver).0);
        }
        Ok(id)
    }

    /// Resolves an open dispute: settles the underlying escrow in favour of
    /// the given party. Only the dispute's stored resolver may call, once.
    pub fn resolve_dispute(
        &mut self,
        caller: u64,
        dispute_id: u32,
        outcome: ResolutionOutcome,
    ) -> (r: Result<(), Error>)
        requires
            old(self).wf(),
        ensures
            final(self).wf(),
            final(self)@ == resolve_dispute_tr(old(self)@, caller, dispute_id, outcome).0,
            r == resolve_dispute_tr(old(self)@, caller, dispute_id, outcome).1,
    {
        proof {
            lemma_resolve_dispute_tr(old(self)@, caller, dispute_id, outcome);
        }
        let d = match self.get_dispute(dispute_id) {
            Some(d) => d,
            None => {
                return Err(Error::NotFound);
            },
        };
        if caller != d.resolver {
            return Err(Error::UnauthorizedResolver);
        }
        if d.status != DisputeStatus::Open {
            return Err(Error::AlreadyResolved);
        }
        let e = match self.get_escrow(d.escrow_id) {
            Some(e) => e,
            None => {
                return Err(Error::NotFound);
            },
        };
        if e.released || e.refunded {
            return Err(Error::AlreadySettled);
        }
        let to_beneficiary = match outcome {
            ResolutionOutcome::Beneficiary => true,
            ResolutionOutcome::Depositor => false,
        };
        let status = if to_beneficiary {
            DisputeStatus::ResolvedForBeneficiary
        } else {
            DisputeStatus::ResolvedForDepositor
        };
        self.settle_escrow_at((d.escrow_id - 1) as usize, to_beneficiary);
        self.disputes.set((dispute_id - 1) as usize, Dispute { status, ..d });
        proof {
            assert(self@ =~~= resolve_dispute_tr(old(self)@, caller, dispute_id, outcome).0);
        }
        Ok(())
    }
}

} // verus!
