//! The balance ledger: per-address non-negative balances with an admin
//! freeze flag, stored as a unique-keyed sequence of entries.

use vstd::prelude::*;

use crate::errors::Error;
use crate::model::{
    bal_of, frozen_of, idx_of_bal, lemma_bal_le_sum, lemma_idx_of_bal, lemma_set_entry, set_bal,
    set_entry, set_frozen, sum_bal, wf_bal,
};
use crate::storage_types::AccountEntry;

verus! {

/// The balance store. `read_balance` defaults to 0 for unknown addresses;
/// `spend_balance` never leaves a negative balance.
pub struct Balances {
    entries: Vec<AccountEntry>,
}

impl View for Balances {
    type V = Seq<AccountEntry>;

    closed spec fn view(&self) -> Seq<AccountEntry> {
        self.entries@
    }
}

impl Balances {
    /// Well-formed store: one entry per address, balances non-negative.
    pub open spec fn wf(&self) -> bool {
        wf_bal(self@)
    }

    /// An empty balance store.
    pub fn new() -> (r: Balances)
        ensures
            r@ == Seq::<AccountEntry>::empty(),
            r.wf(),
    {
        Balances { entries: Vec::new() }
    }

    /// Index of the entry for `addr`, if one exists.
    fn find(&self, addr: u64) -> (r: Option<usize>)
        ensures
            match r {
                Some(i) => i as int == idx_of_bal(self@, addr) && i < self@.len()
                    && self@[i as int].addr == addr,
                None => idx_of_bal(self@, addr) == -1,
            },
    {
        let n = self.entries.len();
        let mut i: usize = 0;
        while i < n
            invariant
                i <= n,
                n == self.entries.len(),
                forall|j: int| 0 <= j < i ==> self.entries@[j].addr != addr,
            decreases n - i,
        {
            if self.entries[i].addr == addr {
                proof {
                    lemma_idx_of_bal(self@, addr);
                }
                return Some(i);
            }
            i += 1;
        }
        proof {
            lemma_idx_of_bal(self@, addr);
        }
        None
    }

    /// The stored entries, for a host that persists them.
    pub fn entries(&self) -> (r: &Vec<AccountEntry>)
        ensures
            r@ == self@,
    {
        &self.entries
    }

    /// Rebuilds the store from persisted entries, re-validating the
    /// invariant rather than trusting the loaded data: fails with
    /// `InvalidState` on a duplicate address or a negative balance.
    pub fn from_entries(entries: Vec<AccountEntry>) -> (r: Result<Balances, Error>)
        ensures
            match r {
                Ok(b) => b@ == entries@ && b.wf(),
                Err(e) => e == Error::InvalidState && !wf_bal(entries@),
            },
    {
        let n = entries.len();
        let mut i: usize = 0;
        while i < n
            invariant
                i <= n,
                n == entries@.len(),
                forall|p: int, q: int| 0 <= p < q < i ==> entries@[p].addr != entries@[q].addr,
                forall|p: int| 0 <= p < i ==> entries@[p].amount >= 0,
            decreases n - i,
        {
            if entries[i].amount < 0 {
                return Err(Error::InvalidState);
            }
            let mut j: usize = 0;
            while j < i
                invariant
                    j <= i < n == entries@.len(),
                    forall|p: int| 0 <= p < j ==> entries@[p].addr != entries@[i as int].addr,
                decreases i - j,
            {
                if entries[j].addr == entries[i].addr {
                    return Err(Error::InvalidState);
                }
                j += 1;
            }
            i += 1;
        }
        Ok(Balances { entries })
    }

    /// Returns the balance of `addr`, or 0 if no entry exists.
    pub fn read_balance(&self, addr: u64) -> (r: i128)
        ensures
            r as int == bal_of(self@, addr),
    {
        match self.find(addr) {
            Some(i) => self.entries[i].amount,
            None => 0,
        }
    }

    /// Whether the admin has frozen outgoing movement from `addr`.
    pub fn is_frozen(&self, addr: u64) -> (r: bool)
        ensures
            r == frozen_of(self@, addr),
    {
        match self.find(addr) {
            Some(i) => self.entries[i].frozen,
            None => false,
        }
    }

    /// Writes `entry` under `entry.addr`, in place or appended.
    fn write_entry(&mut self, entry: AccountEntry)
        requires
            old(self).wf(),
        ensures
            final(self)@ == set_entry(old(self)@, entry),
    {
        match self.find(entry.addr) {
            Some(i) => {
                self.entries.set(i, entry);
            },
            None => {
                self.entries.push(entry);
            },
        }
    }

    /// Sets the balance of `addr` to `v`, keeping its frozen flag.
    pub(crate) fn set_balance(&mut self, addr: u64, v: i128)
        requires
            old(self).wf(),
            v >= 0,
        ensures
            final(self)@ == set_bal(old(self)@, addr, v),
            final(self).wf(),
            sum_bal(final(self)@) == sum_bal(old(self)@) - bal_of(old(self)@, addr) + v,
            bal_of(final(self)@, addr) == v as int,
            frozen_of(final(self)@, addr) == frozen_of(old(self)@, addr),
            forall|b: u64|
                b != addr ==> bal_of(final(self)@, b) == bal_of(old(self)@, b)
                    && frozen_of(final(self)@, b) == frozen_of(old(self)@, b),
    {
        let frozen = self.is_frozen(addr);
        let entry = AccountEntry { addr, amount: v, frozen };
        proof {
            lemma_set_entry(self@, entry);
        }
        self.write_entry(entry);
    }

    /// Sets the frozen flag of `addr`, keeping its balance.
    pub(crate) fn set_frozen_flag(&mut self, addr: u64, f: bool)
        requires
            old(self).wf(),
        ensures
            final(self)@ == set_frozen(old(self)@, addr, f),
            final(self).wf(),
            sum_bal(final(self)@) == sum_bal(old(self)@),
            frozen_of(final(self)@, addr) == f,
            bal_of(final(self)@, addr) == bal_of(old(self)@, addr),
            forall|b: u64|
                b != addr ==> bal_of(final(self)@, b) == bal_of(old(self)@, b)
                    && frozen_of(final(self)@, b) == frozen_of(old(self)@, b),
    {
        let amount = self.read_balance(addr);
        proof {
            lemma_idx_of_bal(self@, addr);
        }
        let entry = AccountEntry { addr, amount, frozen: f };
        proof {
            lemma_set_entry(self@, entry);
        }
        self.write_entry(entry);
    }

    /// Credits `amount` to `addr`. Fails with `InvalidAmount` on a negative
    /// amount and with `Overflow` if the balance would exceed `i128::MAX`;
    /// on failure nothing changes.
    pub fn receive_balance(&mut self, addr: u64, amount: i128) -> (r: Result<(), Error>)
        requires
            old(self).wf(),
        ensures
            final(self).wf(),
            match r {
                Ok(()) => amount >= 0 && bal_of(old(self)@, addr) + amount <= i128::MAX
                    && final(self)@ == set_bal(
                    old(self)@,
                    addr,
                    (bal_of(old(self)@, addr) + amount) as i128,
                ),
                Err(e) => final(self)@ == old(self)@ && ((e == Error::InvalidAmount && amount < 0)
                    || (e == Error::Overflow && amount >= 0 && bal_of(old(self)@, addr) + amount
                    > i128::MAX)),
            },
    {
        if amount < 0 {
            return Err(Error::InvalidAmount);
        }
        let bal = self.read_balance(addr);
        proof {
            lemma_bal_le_sum(self@, addr);
        }
        if amount > i128::MAX - bal {
            return Err(Error::Overflow);
        }
        self.set_balance(addr, bal + amount);
        Ok(())
    }

    /// Debits `amount` from `addr`. Fails with `InvalidAmount` on a negative
    /// amount and with `InsufficientBalance` if the balance is smaller than
    /// `amount`; on failure nothing changes. There are no partial debits.
    pub fn spend_balance(&mut self, addr: u64, amount: i128) -> (r: Result<(), Error>)
        requires
            old(self).wf(),
        ensures
            final(self).wf(),
            match r {
                Ok(()) => 0 <= amount <= bal_of(old(self)@, addr) && final(self)@ == set_bal(
                    old(self)@,
                    addr,
                    (bal_of(old(self)@, addr) - amount) as i128,
                ),
                Err(e) => final(self)@ == old(self)@ && ((e == Error::InvalidAmount && amount < 0)
                    || (e == Error::InsufficientBalance && amount >= 0 && bal_of(old(self)@, addr)
                    < amount)),
            },
    {
        if amount < 0 {
            return Err(Error::InvalidAmount);
        }
        let bal = self.read_balance(addr);
        if bal < amount {
            return Err(Error::InsufficientBalance);
        }
        self.set_balance(addr, bal - amount);
        Ok(())
    }
}

} // verus!
