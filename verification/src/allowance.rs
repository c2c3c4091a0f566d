//! The allowance ledger: per-(owner, spender) time-bounded spending
//! allowances with lazy expiry. An allowance past its expiration ledger is
//! treated as amount 0; it is not eagerly deleted.

use vstd::prelude::*;

use crate::errors::Error;
use crate::model::{allow_of, idx_of_allow, lemma_idx_of_allow, lemma_write_allow, wf_allow, write_allow};
use crate::storage_types::{AllowanceDataKey, AllowanceEntry, AllowanceValue};

verus! {

/// The allowance an owner-spender pair may still spend at ledger `now`:
/// the stored value, or amount 0 if the record is absent or expired. An
/// absent record reads as expiration 0.
pub open spec fn effective_allowance(
    s: Seq<AllowanceEntry>,
    k: AllowanceDataKey,
    now: u64,
) -> AllowanceValue {
    match allow_of(s, k) {
        None => AllowanceValue { amount: 0, expiration_ledger: 0 },
        Some(v) => {
            if v.expiration_ledger < now {
                AllowanceValue { amount: 0, expiration_ledger: v.expiration_ledger }
            } else {
                v
            }
        },
    }
}

/// The allowance store.
pub struct Allowances {
    entries: Vec<AllowanceEntry>,
}

impl View for Allowances {
    type V = Seq<AllowanceEntry>;

    closed spec fn view(&self) -> Seq<AllowanceEntry> {
        self.entries@
    }
}

impl Allowances {
    /// Well-formed store: one entry per key, no zero or negative amounts.
    pub open spec fn wf(&self) -> bool {
        wf_allow(self@)
    }

    /// An empty allowance store.
    pub fn new() -> (r: Allowances)
        ensures
            r@ == Seq::<AllowanceEntry>::empty(),
            r.wf(),
    {
        Allowances { entries: Vec::new() }
    }

    /// The stored entries, for a host that persists them.
    pub fn entries(&self) -> (r: &Vec<AllowanceEntry>)
        ensures
            r@ == self@,
    {
        &self.entries
    }

    /// Rebuilds the store from persisted entries, re-validating the
    /// invariant rather than trusting the loaded data: fails with
    /// `InvalidState` on a duplicate key or a non-positive amount.
    pub fn from_entries(entries: Vec<AllowanceEntry>) -> (r: Result<Allowances, Error>)
        ensures
            match r {
                Ok(a) => a@ == entries@ && a.wf(),
                Err(e) => e == Error::InvalidState && !wf_allow(entries@),
            },
    {
        let n = entries.len();
        let mut i: usize = 0;
        while i < n
            invariant
                i <= n,
                n == entries@.len(),
                forall|p: int, q: int| 0 <= p < q < i ==> entries@[p].key != entries@[q].key,
                forall|p: int| 0 <= p < i ==> entries@[p].value.amount > 0,
            decreases n - i,
        {
            if entries[i].value.amount <= 0 {
                return Err(Error::InvalidState);
            }
            let mut j: usize = 0;
            while j < i
                invariant
                    j <= i < n == entries@.len(),
                    forall|p: int| 0 <= p < j ==> entries@[p].key != entries@[i as int].key,
                decreases i - j,
            {
                if entries[j].key == entries[i].key {
                    return Err(Error::InvalidState);
                }
                j += 1;
            }
            i += 1;
        }
        Ok(Allowances { entries })
    }

    /// Index of the entry for `k`, if one exists.
    fn find(&self, k: AllowanceDataKey) -> (r: Option<usize>)
        ensures
            match r {
                Some(i) => i as int == idx_of_allow(self@, k) && i < self@.len()
                    && self@[i as int].key == k,
                None => idx_of_allow(self@, k) == -1,
            },
    {
        let n = self.entries.len();
        let mut i: usize = 0;
        while i < n
            invariant
                i <= n,
                n == self.entries.len(),
                forall|j: int| 0 <= j < i ==> self.entries@[j].key != k,
            decreases n - i,
        {
            if self.entries[i].key == k {
                proof {
                    lemma_idx_of_allow(self@, k);
                }
                return Some(i);
            }
            i += 1;
        }
        proof {
            lemma_idx_of_allow(self@, k);
        }
        None
    }

    /// Returns the allowance of (`from`, `spender`) as of ledger `now`,
    /// lazily expired: amount 0 if the record is absent or past its
    /// expiration.
    pub fn read_allowance(&self, from: u64, spender: u64, now: u64) -> (r: AllowanceValue)
        ensures
            r == effective_allowance(self@, AllowanceDataKey { from, spender }, now),
    {
        let k = AllowanceDataKey { from, spender };
        match self.find(k) {
            None => AllowanceValue { amount: 0, expiration_ledger: 0 },
            Some(i) => {
                let v = self.entries[i].value;
                if v.expiration_ledger < now {
                    AllowanceValue { amount: 0, expiration_ledger: v.expiration_ledger }
                } else {
                    v
                }
            },
        }
    }

    /// Writes the stored record: removes it when `v.amount` is 0, updates it
    /// in place otherwise.
    pub(crate) fn write_unchecked(&mut self, k: AllowanceDataKey, v: AllowanceValue)
        requires
            old(self).wf(),
            v.amount >= 0,
        ensures
            final(self)@ == write_allow(old(self)@, k, v),
            final(self).wf(),
            allow_of(final(self)@, k) == if v.amount == 0 {
                None::<AllowanceValue>
            } else {
                Some(v)
            },
            forall|b: AllowanceDataKey|
                b != k ==> allow_of(final(self)@, b) == allow_of(old(self)@, b),
    {
        proof {
            lemma_write_allow(self@, k, v);
        }
        match self.find(k) {
            Some(i) => {
                if v.amount == 0 {
                    self.entries.remove(i);
                } else {
                    self.entries.set(i, AllowanceEntry { key: k, value: v });
                }
            },
            None => {
                if v.amount != 0 {
                    self.entries.push(AllowanceEntry { key: k, value: v });
                }
            },
        }
    }

    /// Sets the allowance of (`from`, `spender`). Fails with
    /// `InvalidExpiration` if `expiration_ledger` is already in the past and
    /// with `InvalidAmount` on a negative amount; an amount of 0 removes the
    /// record entirely. On failure nothing changes.
    pub fn write_allowance(
        &mut self,
        from: u64,
        spender: u64,
        amount: i128,
        expiration_ledger: u64,
        now: u64,
    ) -> (r: Result<(), Error>)
        requires
            old(self).wf(),
        ensures
            final(self).wf(),
            match r {
                Ok(()) => expiration_ledger >= now && amount >= 0 && final(self)@ == write_allow(
                    old(self)@,
                    AllowanceDataKey { from, spender },
                    AllowanceValue { amount, expiration_ledger },
                ),
                Err(e) => final(self)@ == old(self)@ && ((e == Error::InvalidExpiration
                    && expiration_ledger < now) || (e == Error::InvalidAmount && expiration_ledger
                    >= now && amount < 0)),
            },
    {
        if expiration_ledger < now {
            return Err(Error::InvalidExpiration);
        }
        if amount < 0 {
            return Err(Error::InvalidAmount);
        }
        let k = AllowanceDataKey { from, spender };
        self.write_unchecked(k, AllowanceValue { amount, expiration_ledger });
        Ok(())
    }

    /// Spends `amount` of the allowance of (`from`, `spender`) as of ledger
    /// `now`: decrements it in place, removing the record if it reaches 0.
    /// Fails with `InvalidAmount` on a negative amount, `AllowanceExpired`
    /// if the (lazily read) allowance is past its expiration, and
    /// `InsufficientAllowance` if `amount` exceeds what remains. On failure
    /// nothing changes.
    pub fn spend_allowance(&mut self, from: u64, spender: u64, amount: i128, now: u64) -> (r:
        Result<(), Error>)
        requires
            old(self).wf(),
        ensures
            final(self).wf(),
            ({
                let k = AllowanceDataKey { from, spender };
                let a = effective_allowance(old(self)@, k, now);
                match r {
                    Ok(()) => amount >= 0 && a.expiration_ledger >= now && a.amount >= amount
                        && final(self)@ == write_allow(
                        old(self)@,
                        k,
                        AllowanceValue {
                            amount: (a.amount - amount) as i128,
                            expiration_ledger: a.expiration_ledger,
                        },
                    ),
                    Err(e) => final(self)@ == old(self)@ && ((e == Error::InvalidAmount && amount
                        < 0) || (e == Error::AllowanceExpired && amount >= 0 && a.expiration_ledger
                        < now) || (e == Error::InsufficientAllowance && amount >= 0
                        && a.expiration_ledger >= now && a.amount < amount)),
                }
            }),
    {
        if amount < 0 {
            return Err(Error::InvalidAmount);
        }
        let a = self.read_allowance(from, spender, now);
        if a.expiration_ledger < now {
            return Err(Error::AllowanceExpired);
        }
        if a.amount < amount {
            return Err(Error::InsufficientAllowance);
        }
        let k = AllowanceDataKey { from, spender };
        self.write_unchecked(
            k,
            AllowanceValue { amount: a.amount - amount, expiration_ledger: a.expiration_ledger },
        );
        Ok(())
    }
}

} // verus!
