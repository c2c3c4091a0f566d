//! Recurring payments: crank-style repeated transfers. `setup` stores the
//! schedule with `last_charged = now` and does not transfer anything (it
//! only guarantees funds for the first charge); anyone may `execute` a due
//! payment, which re-validates the payer's balance, moves the funds and
//! advances `last_charged` to the execution time, so schedules never build
//! up drift against a missed crank. Only the payer may `cancel`; cancelling
//! twice is a no-op, and `execute` after `cancel` always fails with
//! `NotActive`.

use vstd::prelude::*;

use crate::balance::Balances;
use crate::contract::{move_bal, VeritixToken};
use crate::errors::Error;
use crate::model::{bal_of, lemma_bal_le_sum, sum_bal, wf, wf_bal, wf_recurring, LedgerView};
use crate::storage_types::{AccountEntry, RecurringPayment};

verus! {

/// The recurring payment schedule store.
pub struct RecurringPayments {
    records: Vec<RecurringPayment>,
}

impl View for RecurringPayments {
    type V = Seq<RecurringPayment>;

    closed spec fn view(&self) -> Seq<RecurringPayment> {
        self.records@
    }
}

/// Schedules a recurring payment under the next monotonic id, with
/// `last_charged = now` and no transfer yet. Fails with `Overflow` when the
/// id space is exhausted, `InvalidAmount` on a negative amount and
/// `InsufficientBalance` when the payer cannot cover the first charge.
pub open spec fn setup_recurring_tr(
    recs: Seq<RecurringPayment>,
    bals: Seq<AccountEntry>,
    payer: u64,
    payee: u64,
    amount: i128,
    interval: u64,
    iterations: Option<u32>,
    now: u64,
) -> (Seq<RecurringPayment>, Result<u32, Error>) {
    if recs.len() + 1 > u32::MAX {
        (recs, Err(Error::Overflow))
    } else if amount < 0 {
        (recs, Err(Error::InvalidAmount))
    } else if bal_of(bals, payer) < amount {
        (recs, Err(Error::InsufficientBalance))
    } else {
        let id = (recs.len() + 1) as u32;
        let p = RecurringPayment {
            id,
            payer,
            payee,
            amount,
            interval,
            last_charged: now,
            iterations,
            completed: 0,
            active: true,
        };
        (recs.push(p), Ok(id))
    }
}

/// Executes a due recurring payment: debits the payer, credits the payee,
/// increments the completed count and advances `last_charged` to `now`.
/// Fails with `NotFound` on an unknown id, `NotActive` once cancelled (in
/// every case, whatever the time), `TooEarly` before
/// `last_charged + interval`, `AllPaymentsCompleted` when a cap exists and
/// has been reached, `Overflow` if the completed count cannot grow, and
/// `InsufficientBalance` when the payer cannot cover the charge.
pub open spec fn execute_recurring_tr(
    recs: Seq<RecurringPayment>,
    bals: Seq<AccountEntry>,
    id: u32,
    now: u64,
) -> (Seq<RecurringPayment>, Seq<AccountEntry>, Result<(), Error>) {
    if id < 1 || id > recs.len() {
        (recs, bals, Err(Error::NotFound))
    } else {
        let p = recs[id - 1];
        if !p.active {
            (recs, bals, Err(Error::NotActive))
        } else if (now as int) < p.last_charged + p.interval {
            (recs, bals, Err(Error::TooEarly))
        } else if p.iterations is Some && p.completed >= p.iterations->0 {
            (recs, bals, Err(Error::AllPaymentsCompleted))
        } else if p.completed == u32::MAX {
            (recs, bals, Err(Error::Overflow))
        } else if bal_of(bals, p.payer) < p.amount {
            (recs, bals, Err(Error::InsufficientBalance))
        } else {
            let p2 = RecurringPayment {
                last_charged: now,
                completed: (p.completed + 1) as u32,
                ..p
            };
            (recs.update(id - 1, p2), move_bal(bals, p.payer, p.payee, p.amount), Ok(()))
        }
    }
}

/// Cancels a schedule: only the payer may cancel; cancelling an already
/// cancelled schedule is a no-op.
pub open spec fn cancel_recurring_tr(recs: Seq<RecurringPayment>, caller: u64, id: u32) -> (
    Seq<RecurringPayment>,
    Result<(), Error>,
) {
    if id < 1 || id > recs.len() {
        (recs, Err(Error::NotFound))
    } else {
        let p = recs[id - 1];
        if caller != p.payer {
            (recs, Err(Error::Unauthorized))
        } else {
            (recs.update(id - 1, RecurringPayment { active: false, ..p }), Ok(()))
        }
    }
}

impl RecurringPayments {
    /// Well-formed store: ids are dense, amounts non-negative.
    pub open spec fn wf(&self) -> bool {
        wf_recurring(self@)
    }

    /// An empty schedule store.
    pub fn new() -> (r: RecurringPayments)
        ensures
            r@ == Seq::<RecurringPayment>::empty(),
            r.wf(),
    {
        RecurringPayments { records: Vec::new() }
    }

    /// The stored schedules, for a host that persists them.
    pub fn records(&self) -> (r: &Vec<RecurringPayment>)
        ensures
            r@ == self@,
    {
        &self.records
    }

    /// Rebuilds the store from persisted schedules, re-validating the
    /// invariant rather than trusting the loaded data: fails with
    /// `InvalidState` on a gap in the ids or a negative amount.
    pub fn from_records(records: Vec<RecurringPayment>) -> (r: Result<RecurringPayments, Error>)
        ensures
            match r {
                Ok(s) => s@ == records@ && s.wf(),
                Err(e) => e == Error::InvalidState && !wf_recurring(records@),
            },
    {
        let n = records.len();
        if n > u32::MAX as usize {
            proof {
                let k = u32::MAX as int;
                assert(records@[k].id <= u32::MAX);
            }
            return Err(Error::InvalidState);
        }
        let mut i: usize = 0;
        while i < n
            invariant
                i <= n,
                n == records@.len(),
                n <= u32::MAX,
                forall|p: int|
                    0 <= p < i ==> records@[p].id == p + 1 && records@[p].amount >= 0,
            decreases n - i,
        {
            if records[i].id as usize != i + 1 || records[i].amount < 0 {
                return Err(Error::InvalidState);
            }
            i += 1;
        }
        Ok(RecurringPayments { records })
    }

    /// Retrieves a schedule by id.
    pub fn get_payment(&self, id: u32) -> (r: Option<RecurringPayment>)
        ensures
            match r {
                Some(p) => 1 <= id <= self@.len() && p == self@[id - 1],
                None => id < 1 || id > self@.len(),
            },
    {
        if id >= 1 && (id as usize) <= self.records.len() {
            Some(self.records[(id - 1) as usize])
        } else {
            None
        }
    }

    /// Schedules a recurring payment against the given balance ledger.
    /// Returns the new id.
    pub fn setup(
        &mut self,
        balances: &Balances,
        payer: u64,
        payee: u64,
        amount: i128,
        interval: u64,
        iterations: Option<u32>,
        now: u64,
    ) -> (r: Result<u32, Error>)
        requires
            old(self).wf(),
        ensures
            final(self).wf(),
            final(self)@ == setup_recurring_tr(old(self)@, balances@, payer, payee, amount,
                interval, iterations, now).0,
            r == setup_recurring_tr(old(self)@, balances@, payer, payee, amount, interval,
                iterations, now).1,
    {
        if self.records.len() >= u32::MAX as usize {
            return Err(Error::Overflow);
        }
        if amount < 0 {
            return Err(Error::InvalidAmount);
        }
        let bal = balances.read_balance(payer);
        if bal < amount {
            return Err(Error::InsufficientBalance);
        }
        let id = (self.records.len() + 1) as u32;
        let p = RecurringPayment {
            id,
            payer,
            payee,
            amount,
            interval,
            last_charged: now,
            iterations,
            completed: 0,
            active: true,
        };
        self.records.push(p);
        proof {
            assert forall|i: int| 0 <= i < self@.len() implies self@[i].id == i + 1 && self@[
            i].amount >= 0 by {
                if i < old(self)@.len() {
                    assert(self@[i] == old(self)@[i]);
                } else {
                    assert(self@[i] == p);
                }
            }
        }
        Ok(id)
    }

    /// Executes a due schedule against the given balance ledger: debits the
    /// payer, credits the payee, advances `last_charged` to `now`.
    pub fn execute(&mut self, balances: &mut Balances, id: u32, now: u64) -> (r: Result<(), Error>)
        requires
            old(self).wf(),
            old(balances).wf(),
            sum_bal(old(balances)@) <= i128::MAX,
        ensures
            final(self).wf(),
            final(balances).wf(),
            final(self)@ == execute_recurring_tr(old(self)@, old(balances)@, id, now).0,
            final(balances)@ == execute_recurring_tr(old(self)@, old(balances)@, id, now).1,
            r == execute_recurring_tr(old(self)@, old(balances)@, id, now).2,
            sum_bal(final(balances)@) == sum_bal(old(balances)@),
    {
        let p = match self.get_payment(id) {
            Some(p) => p,
            None => {
                return Err(Error::NotFound);
            },
        };
        if !p.active {
            return Err(Error::NotActive);
        }
        if (now as u128) < (p.last_charged as u128) + (p.interval as u128) {
            return Err(Error::TooEarly);
        }
        match p.iterations {
            Some(cap) => {
                if p.completed >= cap {
                    return Err(Error::AllPaymentsCompleted);
                }
            },
            None => {},
        }
        if p.completed == u32::MAX {
            return Err(Error::Overflow);
        }
        let bal = balances.read_balance(p.payer);
        if bal < p.amount {
            return Err(Error::InsufficientBalance);
        }
        proof {
            crate::contract::lemma_move_bal(old(balances)@, p.payer, p.payee, p.amount);
        }
        balances.set_balance(p.payer, bal - p.amount);
        let bal_to = balances.read_balance(p.payee);
        balances.set_balance(p.payee, bal_to + p.amount);
        let p2 = RecurringPayment { last_charged: now, completed: p.completed + 1, ..p };
        self.records.set((id - 1) as usize, p2);
        proof {
            assert forall|i: int| 0 <= i < self@.len() implies self@[i].id == i + 1 && self@[
            i].amount >= 0 by {
                if i != id - 1 {
                    assert(self@[i] == old(self)@[i]);
                } else {
                    assert(self@[i] == p2);
                }
            }
            assert(final(balances)@ =~= execute_recurring_tr(old(self)@, old(balances)@, id,
                now).1);
            assert(final(self)@ =~= execute_recurring_tr(old(self)@, old(balances)@, id, now).0);
        }
        Ok(())
    }

    /// Cancels a schedule. Only the payer may cancel; a second cancel is a
    /// no-op.
    pub fn cancel(&mut self, caller: u64, id: u32) -> (r: Result<(), Error>)
        requires
            old(self).wf(),
        ensures
            final(self).wf(),
            final(self)@ == cancel_recurring_tr(old(self)@, caller, id).0,
            r == cancel_recurring_tr(old(self)@, caller, id).1,
    {
        let p = match self.get_payment(id) {
            Some(p) => p,
            None => {
                return Err(Error::NotFound);
            },
        };
        if caller != p.payer {
            return Err(Error::Unauthorized);
        }
        let p2 = RecurringPayment { active: false, ..p };
        self.records.set((id - 1) as usize, p2);
        proof {
            assert forall|i: int| 0 <= i < self@.len() implies self@[i].id == i + 1 && self@[
            i].amount >= 0 by {
                if i != id - 1 {
                    assert(self@[i] == old(self)@[i]);
                } else {
                    assert(self@[i] == p2);
                }
            }
        }
        Ok(())
    }
}

impl VeritixToken {
    /// Schedules a recurring payment from `payer` to `payee`. The payer must
    /// cover the first charge; later charges are re-validated at execution.
    pub fn setup_recurring(
        &mut self,
        payer: u64,
        payee: u64,
        amount: i128,
        interval: u64,
        iterations: Option<u32>,
        now: u64,
    ) -> (r: Result<u32, Error>)
        requires
            old(self).wf(),
        ensures
            final(self).wf(),
            final(self)@ == (LedgerView {
                recurring: setup_recurring_tr(old(self)@.recurring, old(self)@.balances, payer,
                    payee, amount, interval, iterations, now).0,
                ..old(self)@
            }),
            r == setup_recurring_tr(old(self)@.recurring, old(self)@.balances, payer, payee,
                amount, interval, iterations, now).1,
    {
        let r = self.recurring.setup(&self.balances, payer, payee, amount, interval, iterations,
            now);
        proof {
            assert(self@ =~~= (LedgerView {
                recurring: setup_recurring_tr(old(self)@.recurring, old(self)@.balances, payer,
                    payee, amount, interval, iterations, now).0,
                ..old(self)@
            }));
        }
        r
    }

    /// Executes a due recurring payment. Callable by anyone: the schedule
    /// itself authorizes the charge.
    pub fn execute_recurring(&mut self, id: u32, now: u64) -> (r: Result<(), Error>)
        requires
            old(self).wf(),
        ensures
            final(self).wf(),
            final(self)@ == (LedgerView {
                recurring: execute_recurring_tr(old(self)@.recurring, old(self)@.balances, id,
                    now).0,
                balances: execute_recurring_tr(old(self)@.recurring, old(self)@.balances, id,
                    now).1,
                ..old(self)@
            }),
            r == execute_recurring_tr(old(self)@.recurring, old(self)@.balances, id, now).2,
    {
        proof {
            lemma_bal_le_sum(self@.balances, 0);
        }
        let r = self.recurring.execute(&mut self.balances, id, now);
        proof {
            assert(self@ =~~= (LedgerView {
                recurring: execute_recurring_tr(old(self)@.recurring, old(self)@.balances, id,
                    now).0,
                balances: execute_recurring_tr(old(self)@.recurring, old(self)@.balances, id,
                    now).1,
                ..old(self)@
            }));
        }
        r
    }

    /// Cancels a recurring payment. Only the payer may cancel; execution
    /// after a cancel always fails with `NotActive`.
    pub fn cancel_recurring(&mut self, caller: u64, id: u32) -> (r: Result<(), Error>)
        requires
            old(self).wf(),
        ensures
            final(self).wf(),
            final(self)@ == (LedgerView {
                recurring: cancel_recurring_tr(old(self)@.recurring, caller, id).0,
                ..old(self)@
            }),
            r == cancel_recurring_tr(old(self)@.recurring, caller, id).1,
    {
        let r = self.recurring.cancel(caller, id);
        proof {
            assert(self@ =~~= (LedgerView {
                recurring: cancel_recurring_tr(old(self)@.recurring, caller, id).0,
                ..old(self)@
            }));
        }
        r
    }

    /// Retrieves a recurring payment schedule by id.
    pub fn get_recurring(&self, id: u32) -> (r: Option<RecurringPayment>)
        ensures
            match r {
                Some(p) => 1 <= id <= self@.recurring.len() && p == self@.recurring[id - 1],
                None => id < 1 || id > self@.recurring.len(),
            },
    {
        self.recurring.get_payment(id)
    }
}

} // verus!
