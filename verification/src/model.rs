//! The mathematical model of the ledger store: lookup, update and sum
//! functions over the stored sequences, and the lemmas that the verified
//! operations are proved against.

use vstd::prelude::*;

use crate::storage_types::{
    AccountEntry, AllowanceDataKey, AllowanceEntry, AllowanceValue, Dispute, EscrowRecord,
    MultiEscrowView, RecurringPayment, SplitRecipient, SplitView, TokenMetadata,
};

verus! {

// ---------------------------------------------------------------------------
// Account entries: first-match lookup, point update, sum of balances.
// ---------------------------------------------------------------------------

/// Index of the first entry for `addr`, or -1 if there is none.
pub open spec fn idx_of_bal(s: Seq<AccountEntry>, addr: u64) -> int
    decreases s.len(),
{
    if s.len() == 0 {
        -1
    } else if s[0].addr == addr {
        0
    } else {
        let r = idx_of_bal(s.drop_first(), addr);
        if r < 0 {
            -1
        } else {
            1 + r
        }
    }
}

/// The balance of `addr`, defaulting to 0 for unknown addresses.
pub open spec fn bal_of(s: Seq<AccountEntry>, addr: u64) -> int {
    let i = idx_of_bal(s, addr);
    if i < 0 {
        0
    } else {
        s[i].amount as int
    }
}

/// Whether `addr` is frozen, defaulting to not frozen.
pub open spec fn frozen_of(s: Seq<AccountEntry>, addr: u64) -> bool {
    let i = idx_of_bal(s, addr);
    if i < 0 {
        false
    } else {
        s[i].frozen
    }
}

/// Sum of all stored balances.
pub open spec fn sum_bal(s: Seq<AccountEntry>) -> int
    decreases s.len(),
{
    if s.len() == 0 {
        0
    } else {
        s[0].amount + sum_bal(s.drop_first())
    }
}

/// Well-formed account store: one entry per address, balances non-negative.
pub open spec fn wf_bal(s: Seq<AccountEntry>) -> bool {
    &&& forall|i: int, j: int| 0 <= i < j < s.len() ==> s[i].addr != s[j].addr
    &&& forall|i: int| 0 <= i < s.len() ==> s[i].amount >= 0
}

/// The store after writing `entry` for address `entry.addr`: updated in
/// place if present, appended otherwise.
pub open spec fn set_entry(s: Seq<AccountEntry>, entry: AccountEntry) -> Seq<AccountEntry> {
    let i = idx_of_bal(s, entry.addr);
    if i < 0 {
        s.push(entry)
    } else {
        s.update(i, entry)
    }
}

/// The store after setting the balance of `addr` to `v`, keeping its frozen
/// flag.
pub open spec fn set_bal(s: Seq<AccountEntry>, addr: u64, v: i128) -> Seq<AccountEntry> {
    set_entry(s, AccountEntry { addr, amount: v, frozen: frozen_of(s, addr) })
}

/// The store after setting the frozen flag of `addr`, keeping its balance.
pub open spec fn set_frozen(s: Seq<AccountEntry>, addr: u64, f: bool) -> Seq<AccountEntry> {
    set_entry(s, AccountEntry { addr, amount: bal_of(s, addr) as i128, frozen: f })
}

/// What `idx_of_bal` finds: a valid first match, or proof of absence.
pub proof fn lemma_idx_of_bal(s: Seq<AccountEntry>, addr: u64)
    ensures
        idx_of_bal(s, addr) == -1 <==> (forall|j: int| 0 <= j < s.len() ==> s[j].addr != addr),
        idx_of_bal(s, addr) != -1 ==> {
            &&& 0 <= idx_of_bal(s, addr) < s.len()
            &&& s[idx_of_bal(s, addr)].addr == addr
            &&& forall|j: int| 0 <= j < idx_of_bal(s, addr) ==> s[j].addr != addr
        },
    decreases s.len(),
{
    if s.len() == 0 {
    } else if s[0].addr == addr {
    } else {
        lemma_idx_of_bal(s.drop_first(), addr);
        let r = idx_of_bal(s.drop_first(), addr);
        if r == -1 {
            assert forall|j: int| 0 <= j < s.len() implies s[j].addr != addr by {
                if j > 0 {
                    assert(s.drop_first()[j - 1] == s[j]);
                }
            }
        } else {
            assert(s[1 + r] == s.drop_first()[r]);
            assert forall|j: int| 0 <= j < 1 + r implies s[j].addr != addr by {
                if j > 0 {
                    assert(s.drop_first()[j - 1] == s[j]);
                }
            }
        }
    }
}

/// `idx_of_bal` depends only on the addresses, so a same-address update
/// leaves every lookup index unchanged.
pub proof fn lemma_idx_of_bal_update(s: Seq<AccountEntry>, i: int, e: AccountEntry, b: u64)
    requires
        0 <= i < s.len(),
        e.addr == s[i].addr,
    ensures
        idx_of_bal(s.update(i, e), b) == idx_of_bal(s, b),
    decreases s.len(),
{
    if s.len() == 0 {
    } else if i == 0 {
        assert(s.update(0, e).drop_first() =~= s.drop_first());
    } else {
        lemma_idx_of_bal_update(s.drop_first(), i - 1, e, b);
        assert(s.update(i, e).drop_first() =~= s.drop_first().update(i - 1, e));
    }
}

/// Lookup in a store extended by a fresh entry.
pub proof fn lemma_idx_of_bal_push(s: Seq<AccountEntry>, e: AccountEntry, b: u64)
    ensures
        idx_of_bal(s, b) >= 0 ==> idx_of_bal(s.push(e), b) == idx_of_bal(s, b),
        idx_of_bal(s, b) < 0 && e.addr == b ==> idx_of_bal(s.push(e), b) == s.len(),
        idx_of_bal(s, b) < 0 && e.addr != b ==> idx_of_bal(s.push(e), b) == -1,
    decreases s.len(),
{
    if s.len() == 0 {
        assert(s.push(e)[0] == e);
        assert(s.push(e).drop_first() =~= Seq::<AccountEntry>::empty());
        assert(idx_of_bal(Seq::<AccountEntry>::empty(), b) == -1);
    } else {
        lemma_idx_of_bal_push(s.drop_first(), e, b);
        assert(s.push(e)[0] == s[0]);
        assert(s.push(e).drop_first() =~= s.drop_first().push(e));
    }
}

/// Sum after a point update.
pub proof fn lemma_sum_bal_update(s: Seq<AccountEntry>, i: int, e: AccountEntry)
    requires
        0 <= i < s.len(),
    ensures
        sum_bal(s.update(i, e)) == sum_bal(s) - s[i].amount + e.amount,
    decreases s.len(),
{
    if i == 0 {
        assert(s.update(0, e).drop_first() =~= s.drop_first());
    } else {
        lemma_sum_bal_update(s.drop_first(), i - 1, e);
        assert(s.update(i, e).drop_first() =~= s.drop_first().update(i - 1, e));
    }
}

/// Sum after appending an entry.
pub proof fn lemma_sum_bal_push(s: Seq<AccountEntry>, e: AccountEntry)
    ensures
        sum_bal(s.push(e)) == sum_bal(s) + e.amount,
    decreases s.len(),
{
    if s.len() == 0 {
        assert(s.push(e)[0] == e);
        assert(s.push(e).drop_first() =~= Seq::<AccountEntry>::empty());
        assert(sum_bal(Seq::<AccountEntry>::empty()) == 0);
    } else {
        lemma_sum_bal_push(s.drop_first(), e);
        assert(s.push(e)[0] == s[0]);
        assert(s.push(e).drop_first() =~= s.drop_first().push(e));
    }
}

/// In a well-formed store every balance lies between 0 and the sum.
pub proof fn lemma_bal_le_sum(s: Seq<AccountEntry>, addr: u64)
    requires
        forall|i: int| 0 <= i < s.len() ==> s[i].amount >= 0,
    ensures
        0 <= bal_of(s, addr) <= sum_bal(s),
        sum_bal(s) >= 0,
    decreases s.len(),
{
    if s.len() == 0 {
    } else {
        assert forall|i: int| 0 <= i < s.drop_first().len() implies s.drop_first()[i].amount
            >= 0 by {
            assert(s.drop_first()[i] == s[i + 1]);
        }
        lemma_bal_le_sum(s.drop_first(), addr);
        if s[0].addr == addr {
        } else {
            let r = idx_of_bal(s.drop_first(), addr);
            if r >= 0 {
                lemma_idx_of_bal(s.drop_first(), addr);
                assert(s[1 + r] == s.drop_first()[r]);
            }
        }
    }
}

/// Everything the operations need about `set_entry` on a well-formed store.
pub proof fn lemma_set_entry(s: Seq<AccountEntry>, entry: AccountEntry)
    requires
        wf_bal(s),
    ensures
        bal_of(set_entry(s, entry), entry.addr) == entry.amount as int,
        frozen_of(set_entry(s, entry), entry.addr) == entry.frozen,
        forall|b: u64|
            b != entry.addr ==> bal_of(set_entry(s, entry), b) == bal_of(s, b) && frozen_of(
                set_entry(s, entry),
                b,
            ) == frozen_of(s, b),
        sum_bal(set_entry(s, entry)) == sum_bal(s) - bal_of(s, entry.addr) + entry.amount,
        entry.amount >= 0 ==> wf_bal(set_entry(s, entry)),
{
    let a = entry.addr;
    let i = idx_of_bal(s, a);
    lemma_idx_of_bal(s, a);
    if i < 0 {
        lemma_sum_bal_push(s, entry);
        assert forall|b: u64| b != a implies bal_of(set_entry(s, entry), b) == bal_of(s, b)
            && frozen_of(set_entry(s, entry), b) == frozen_of(s, b) by {
            lemma_idx_of_bal_push(s, entry, b);
            lemma_idx_of_bal(s.push(entry), b);
        }
        lemma_idx_of_bal_push(s, entry, a);
        if entry.amount >= 0 {
            assert forall|p: int, q: int|
                0 <= p < q < s.push(entry).len() implies s.push(entry)[p].addr != s.push(
                entry,
            )[q].addr by {
                if q < s.len() {
                } else {
                    assert(s[p].addr != a);
                }
            }
        }
    } else {
        lemma_sum_bal_update(s, i, entry);
        assert forall|b: u64| b != a implies bal_of(set_entry(s, entry), b) == bal_of(s, b)
            && frozen_of(set_entry(s, entry), b) == frozen_of(s, b) by {
            lemma_idx_of_bal_update(s, i, entry, b);
            lemma_idx_of_bal(s, b);
        }
        lemma_idx_of_bal_update(s, i, entry, a);
    }
}

// ---------------------------------------------------------------------------
// Allowance entries: first-match lookup, write-or-remove update.
// ---------------------------------------------------------------------------

/// Index of the first allowance entry for `k`, or -1 if there is none.
pub open spec fn idx_of_allow(s: Seq<AllowanceEntry>, k: AllowanceDataKey) -> int
    decreases s.len(),
{
    if s.len() == 0 {
        -1
    } else if s[0].key == k {
        0
    } else {
        let r = idx_of_allow(s.drop_first(), k);
        if r < 0 {
            -1
        } else {
            1 + r
        }
    }
}

/// The stored allowance for `k`, if any.
pub open spec fn allow_of(s: Seq<AllowanceEntry>, k: AllowanceDataKey) -> Option<AllowanceValue> {
    let i = idx_of_allow(s, k);
    if i < 0 {
        None
    } else {
        Some(s[i].value)
    }
}

/// Well-formed allowance store: one entry per key, no zero or negative
/// amounts occupy storage.
pub open spec fn wf_allow(s: Seq<AllowanceEntry>) -> bool {
    &&& forall|i: int, j: int| 0 <= i < j < s.len() ==> s[i].key != s[j].key
    &&& forall|i: int| 0 <= i < s.len() ==> s[i].value.amount > 0
}

/// The store after writing allowance `v` for `k`: an amount of 0 removes the
/// record entirely, anything else is stored in place or appended.
pub open spec fn write_allow(s: Seq<AllowanceEntry>, k: AllowanceDataKey, v: AllowanceValue) -> Seq<
    AllowanceEntry,
> {
    let i = idx_of_allow(s, k);
    if v.amount == 0 {
        if i < 0 {
            s
        } else {
            s.remove(i)
        }
    } else {
        if i < 0 {
            s.push(AllowanceEntry { key: k, value: v })
        } else {
            s.update(i, AllowanceEntry { key: k, value: v })
        }
    }
}

/// What `idx_of_allow` finds: a valid first match, or proof of absence.
pub proof fn lemma_idx_of_allow(s: Seq<AllowanceEntry>, k: AllowanceDataKey)
    ensures
        idx_of_allow(s, k) == -1 <==> (forall|j: int| 0 <= j < s.len() ==> s[j].key != k),
        idx_of_allow(s, k) != -1 ==> {
            &&& 0 <= idx_of_allow(s, k) < s.len()
            &&& s[idx_of_allow(s, k)].key == k
            &&& forall|j: int| 0 <= j < idx_of_allow(s, k) ==> s[j].key != k
        },
    decreases s.len(),
{
    if s.len() == 0 {
    } else if s[0].key == k {
    } else {
        lemma_idx_of_allow(s.drop_first(), k);
        let r = idx_of_allow(s.drop_first(), k);
        if r == -1 {
            assert forall|j: int| 0 <= j < s.len() implies s[j].key != k by {
                if j > 0 {
                    assert(s.drop_first()[j - 1] == s[j]);
                }
            }
        } else {
            assert(s[1 + r] == s.drop_first()[r]);
            assert forall|j: int| 0 <= j < 1 + r implies s[j].key != k by {
                if j > 0 {
                    assert(s.drop_first()[j - 1] == s[j]);
                }
            }
        }
    }
}

/// Dropping a non-matching head does not change a lookup.
pub proof fn lemma_allow_of_cons(s: Seq<AllowanceEntry>, k: AllowanceDataKey)
    requires
        s.len() > 0,
        s[0].key != k,
    ensures
        allow_of(s, k) == allow_of(s.drop_first(), k),
{
    let r = idx_of_allow(s.drop_first(), k);
    if r >= 0 {
        lemma_idx_of_allow(s.drop_first(), k);
        assert(s[1 + r] == s.drop_first()[r]);
    }
}

/// Removing the entry of one key does not change the lookup of another.
pub proof fn lemma_allow_of_remove(s: Seq<AllowanceEntry>, i: int, k: AllowanceDataKey)
    requires
        0 <= i < s.len(),
        s[i].key != k,
    ensures
        allow_of(s.remove(i), k) == allow_of(s, k),
    decreases s.len(),
{
    if i == 0 {
        assert(s.remove(0) =~= s.drop_first());
        lemma_allow_of_cons(s, k);
    } else {
        assert(s.remove(i)[0] == s[0]);
        if s[0].key == k {
        } else {
            assert(s.remove(i).drop_first() =~= s.drop_first().remove(i - 1));
            lemma_allow_of_cons(s, k);
            lemma_allow_of_cons(s.remove(i), k);
            lemma_allow_of_remove(s.drop_first(), i - 1, k);
        }
    }
}

/// A same-key update leaves every lookup index unchanged.
pub proof fn lemma_idx_of_allow_update(
    s: Seq<AllowanceEntry>,
    i: int,
    e: AllowanceEntry,
    b: AllowanceDataKey,
)
    requires
        0 <= i < s.len(),
        e.key == s[i].key,
    ensures
        idx_of_allow(s.update(i, e), b) == idx_of_allow(s, b),
    decreases s.len(),
{
    if s.len() == 0 {
    } else if i == 0 {
        assert(s.update(0, e).drop_first() =~= s.drop_first());
    } else {
        lemma_idx_of_allow_update(s.drop_first(), i - 1, e, b);
        assert(s.update(i, e).drop_first() =~= s.drop_first().update(i - 1, e));
    }
}

/// Lookup in a store extended by a fresh entry.
pub proof fn lemma_idx_of_allow_push(s: Seq<AllowanceEntry>, e: AllowanceEntry, b: AllowanceDataKey)
    ensures
        idx_of_allow(s, b) >= 0 ==> idx_of_allow(s.push(e), b) == idx_of_allow(s, b),
        idx_of_allow(s, b) < 0 && e.key == b ==> idx_of_allow(s.push(e), b) == s.len(),
        idx_of_allow(s, b) < 0 && e.key != b ==> idx_of_allow(s.push(e), b) == -1,
    decreases s.len(),
{
    if s.len() == 0 {
        assert(s.push(e)[0] == e);
        assert(s.push(e).drop_first() =~= Seq::<AllowanceEntry>::empty());
        assert(idx_of_allow(Seq::<AllowanceEntry>::empty(), b) == -1);
    } else {
        lemma_idx_of_allow_push(s.drop_first(), e, b);
        assert(s.push(e)[0] == s[0]);
        assert(s.push(e).drop_first() =~= s.drop_first().push(e));
    }
}

/// Everything the operations need about `write_allow` on a well-formed
/// store.
pub proof fn lemma_write_allow(s: Seq<AllowanceEntry>, k: AllowanceDataKey, v: AllowanceValue)
    requires
        wf_allow(s),
        v.amount >= 0,
    ensures
        allow_of(write_allow(s, k, v), k) == if v.amount == 0 {
            None::<AllowanceValue>
        } else {
            Some(v)
        },
        forall|b: AllowanceDataKey|
            b != k ==> allow_of(write_allow(s, k, v), b) == allow_of(s, b),
        wf_allow(write_allow(s, k, v)),
{
    let i = idx_of_allow(s, k);
    lemma_idx_of_allow(s, k);
    let s2 = write_allow(s, k, v);
    if v.amount == 0 {
        if i >= 0 {
            assert forall|b: AllowanceDataKey| b != k implies allow_of(s2, b) == allow_of(s, b) by {
                lemma_allow_of_remove(s, i, b);
            }
            lemma_idx_of_allow(s2, k);
            assert forall|j: int| 0 <= j < s2.len() implies s2[j].key != k by {
                if j < i {
                    assert(s2[j] == s[j]);
                } else {
                    assert(s2[j] == s[j + 1]);
                }
            }
            assert forall|p: int, q: int| 0 <= p < q < s2.len() implies s2[p].key != s2[q].key by {
                let p0 = if p < i { p } else { p + 1 };
                let q0 = if q < i { q } else { q + 1 };
                assert(s2[p] == s[p0]);
                assert(s2[q] == s[q0]);
            }
            assert forall|j: int| 0 <= j < s2.len() implies s2[j].value.amount > 0 by {
                if j < i {
                    assert(s2[j] == s[j]);
                } else {
                    assert(s2[j] == s[j + 1]);
                }
            }
        }
    } else {
        let e = AllowanceEntry { key: k, value: v };
        if i < 0 {
            lemma_idx_of_allow_push(s, e, k);
            assert(s.push(e)[s.len() as int] == e);
            assert forall|b: AllowanceDataKey| b != k implies allow_of(s2, b) == allow_of(s, b) by {
                lemma_idx_of_allow_push(s, e, b);
                lemma_idx_of_allow(s.push(e), b);
            }
            assert forall|p: int, q: int| 0 <= p < q < s2.len() implies s2[p].key != s2[q].key by {
                if q < s.len() {
                } else {
                    assert(s[p].key != k);
                }
            }
        } else {
            lemma_idx_of_allow_update(s, i, e, k);
            assert forall|b: AllowanceDataKey| b != k implies allow_of(s2, b) == allow_of(s, b) by {
                lemma_idx_of_allow_update(s, i, e, b);
                lemma_idx_of_allow(s, b);
            }
        }
    }
}

// ---------------------------------------------------------------------------
// Funds locked in open holds.
// ---------------------------------------------------------------------------

/// Funds a single escrow still locks: its amount until it settles.
pub open spec fn escrow_lock_amt(e: EscrowRecord) -> int {
    if e.released || e.refunded {
        0
    } else {
        e.amount as int
    }
}

/// Funds locked by all escrows.
pub open spec fn escrows_locked(s: Seq<EscrowRecord>) -> int
    decreases s.len(),
{
    if s.len() == 0 {
        0
    } else {
        escrow_lock_amt(s[0]) + escrows_locked(s.drop_first())
    }
}

/// Funds a multi-recipient escrow still locks.
pub open spec fn multi_lock_amt(m: MultiEscrowView) -> int {
    if m.released || m.refunded {
        0
    } else {
        m.total_amount as int
    }
}

/// Funds locked by all multi-recipient escrows.
pub open spec fn multis_locked(s: Seq<MultiEscrowView>) -> int
    decreases s.len(),
{
    if s.len() == 0 {
        0
    } else {
        multi_lock_amt(s[0]) + multis_locked(s.drop_first())
    }
}

/// Funds a split still locks: its total until it is distributed.
pub open spec fn split_lock_amt(p: SplitView) -> int {
    if p.distributed {
        0
    } else {
        p.total_amount as int
    }
}

/// Funds locked by all splits.
pub open spec fn splits_locked(s: Seq<SplitView>) -> int
    decreases s.len(),
{
    if s.len() == 0 {
        0
    } else {
        split_lock_amt(s[0]) + splits_locked(s.drop_first())
    }
}

/// Locked escrow funds after a point update.
pub proof fn lemma_escrows_locked_update(s: Seq<EscrowRecord>, i: int, e: EscrowRecord)
    requires
        0 <= i < s.len(),
    ensures
        escrows_locked(s.update(i, e)) == escrows_locked(s) - escrow_lock_amt(s[i])
            + escrow_lock_amt(e),
    decreases s.len(),
{
    if i == 0 {
        assert(s.update(0, e).drop_first() =~= s.drop_first());
    } else {
        lemma_escrows_locked_update(s.drop_first(), i - 1, e);
        assert(s.update(i, e).drop_first() =~= s.drop_first().update(i - 1, e));
    }
}

/// Locked escrow funds after appending a record.
pub proof fn lemma_escrows_locked_push(s: Seq<EscrowRecord>, e: EscrowRecord)
    ensures
        escrows_locked(s.push(e)) == escrows_locked(s) + escrow_lock_amt(e),
    decreases s.len(),
{
    if s.len() == 0 {
        assert(s.push(e)[0] == e);
        assert(s.push(e).drop_first() =~= Seq::<EscrowRecord>::empty());
        assert(escrows_locked(Seq::<EscrowRecord>::empty()) == 0);
    } else {
        lemma_escrows_locked_push(s.drop_first(), e);
        assert(s.push(e)[0] == s[0]);
        assert(s.push(e).drop_first() =~= s.drop_first().push(e));
    }
}

/// Each open escrow's amount is at most the locked total.
pub proof fn lemma_escrows_locked_ge(s: Seq<EscrowRecord>, i: int)
    requires
        forall|j: int| 0 <= j < s.len() ==> s[j].amount >= 0,
        0 <= i < s.len(),
    ensures
        escrows_locked(s) >= escrow_lock_amt(s[i]),
        escrows_locked(s) >= 0,
    decreases s.len(),
{
    assert forall|j: int| 0 <= j < s.drop_first().len() implies s.drop_first()[j].amount >= 0 by {
        assert(s.drop_first()[j] == s[j + 1]);
    }
    if i == 0 {
        lemma_escrows_locked_nonneg(s.drop_first());
    } else {
        lemma_escrows_locked_ge(s.drop_first(), i - 1);
        assert(s.drop_first()[i - 1] == s[i]);
    }
}

/// The locked escrow total is non-negative.
pub proof fn lemma_escrows_locked_nonneg(s: Seq<EscrowRecord>)
    requires
        forall|j: int| 0 <= j < s.len() ==> s[j].amount >= 0,
    ensures
        escrows_locked(s) >= 0,
    decreases s.len(),
{
    if s.len() == 0 {
    } else {
        assert forall|j: int| 0 <= j < s.drop_first().len() implies s.drop_first()[j].amount
            >= 0 by {
            assert(s.drop_first()[j] == s[j + 1]);
        }
        lemma_escrows_locked_nonneg(s.drop_first());
    }
}

/// Locked multi-escrow funds after a point update.
pub proof fn lemma_multis_locked_update(s: Seq<MultiEscrowView>, i: int, e: MultiEscrowView)
    requires
        0 <= i < s.len(),
    ensures
        multis_locked(s.update(i, e)) == multis_locked(s) - multi_lock_amt(s[i]) + multi_lock_amt(
            e,
        ),
    decreases s.len(),
{
    if i == 0 {
        assert(s.update(0, e).drop_first() =~= s.drop_first());
    } else {
        lemma_multis_locked_update(s.drop_first(), i - 1, e);
        assert(s.update(i, e).drop_first() =~= s.drop_first().update(i - 1, e));
    }
}

/// Locked multi-escrow funds after appending a record.
pub proof fn lemma_multis_locked_push(s: Seq<MultiEscrowView>, e: MultiEscrowView)
    ensures
        multis_locked(s.push(e)) == multis_locked(s) + multi_lock_amt(e),
    decreases s.len(),
{
    if s.len() == 0 {
        assert(s.push(e)[0] == e);
        assert(s.push(e).drop_first() =~= Seq::<MultiEscrowView>::empty());
        assert(multis_locked(Seq::<MultiEscrowView>::empty()) == 0);
    } else {
        lemma_multis_locked_push(s.drop_first(), e);
        assert(s.push(e)[0] == s[0]);
        assert(s.push(e).drop_first() =~= s.drop_first().push(e));
    }
}

/// Each open multi-escrow's total is at most the locked total, which is
/// non-negative.
pub proof fn lemma_multis_locked_ge(s: Seq<MultiEscrowView>, i: int)
    requires
        forall|j: int| 0 <= j < s.len() ==> s[j].total_amount >= 0,
        -1 <= i < s.len(),
    ensures
        0 <= i ==> multis_locked(s) >= multi_lock_amt(s[i]),
        multis_locked(s) >= 0,
    decreases s.len(),
{
    if s.len() == 0 {
    } else {
        assert forall|j: int|
            0 <= j < s.drop_first().len() implies s.drop_first()[j].total_amount >= 0 by {
            assert(s.drop_first()[j] == s[j + 1]);
        }
        if i <= 0 {
            lemma_multis_locked_ge(s.drop_first(), -1);
        } else {
            lemma_multis_locked_ge(s.drop_first(), i - 1);
            assert(s.drop_first()[i - 1] == s[i]);
        }
    }
}

/// Locked split funds after a point update.
pub proof fn lemma_splits_locked_update(s: Seq<SplitView>, i: int, e: SplitView)
    requires
        0 <= i < s.len(),
    ensures
        splits_locked(s.update(i, e)) == splits_locked(s) - split_lock_amt(s[i]) + split_lock_amt(
            e,
        ),
    decreases s.len(),
{
    if i == 0 {
        assert(s.update(0, e).drop_first() =~= s.drop_first());
    } else {
        lemma_splits_locked_update(s.drop_first(), i - 1, e);
        assert(s.update(i, e).drop_first() =~= s.drop_first().update(i - 1, e));
    }
}

/// Locked split funds after appending a record.
pub proof fn lemma_splits_locked_push(s: Seq<SplitView>, e: SplitView)
    ensures
        splits_locked(s.push(e)) == splits_locked(s) + split_lock_amt(e),
    decreases s.len(),
{
    if s.len() == 0 {
        assert(s.push(e)[0] == e);
        assert(s.push(e).drop_first() =~= Seq::<SplitView>::empty());
        assert(splits_locked(Seq::<SplitView>::empty()) == 0);
    } else {
        lemma_splits_locked_push(s.drop_first(), e);
        assert(s.push(e)[0] == s[0]);
        assert(s.push(e).drop_first() =~= s.drop_first().push(e));
    }
}

/// Each open split's total is at most the locked total, which is
/// non-negative.
pub proof fn lemma_splits_locked_ge(s: Seq<SplitView>, i: int)
    requires
        forall|j: int| 0 <= j < s.len() ==> s[j].total_amount >= 0,
        -1 <= i < s.len(),
    ensures
        0 <= i ==> splits_locked(s) >= split_lock_amt(s[i]),
        splits_locked(s) >= 0,
    decreases s.len(),
{
    if s.len() == 0 {
    } else {
        assert forall|j: int|
            0 <= j < s.drop_first().len() implies s.drop_first()[j].total_amount >= 0 by {
            assert(s.drop_first()[j] == s[j + 1]);
        }
        if i <= 0 {
            lemma_splits_locked_ge(s.drop_first(), -1);
        } else {
            lemma_splits_locked_ge(s.drop_first(), i - 1);
            assert(s.drop_first()[i - 1] == s[i]);
        }
    }
}

/// A prefix of a non-negative store sums to at most the whole store.
pub proof fn lemma_sum_bal_take_le(s: Seq<AccountEntry>, i: int)
    requires
        forall|j: int| 0 <= j < s.len() ==> s[j].amount >= 0,
        0 <= i <= s.len(),
    ensures
        sum_bal(s.take(i)) <= sum_bal(s),
        sum_bal(s.take(i)) >= 0,
    decreases s.len() - i,
{
    if i == s.len() {
        assert(s.take(i) =~= s);
        lemma_bal_le_sum(s, 0);
    } else {
        assert(s.take(i + 1) =~= s.take(i).push(s[i]));
        lemma_sum_bal_push(s.take(i), s[i]);
        lemma_sum_bal_take_le(s, i + 1);
        assert forall|j: int| 0 <= j < s.take(i).len() implies s.take(i)[j].amount >= 0 by {
            assert(s.take(i)[j] == s[j]);
        }
        lemma_bal_le_sum(s.take(i), 0);
    }
}

/// A prefix of the escrow store locks at most the whole locked total.
pub proof fn lemma_escrows_locked_take_le(s: Seq<EscrowRecord>, i: int)
    requires
        forall|j: int| 0 <= j < s.len() ==> s[j].amount >= 0,
        0 <= i <= s.len(),
    ensures
        escrows_locked(s.take(i)) <= escrows_locked(s),
        escrows_locked(s.take(i)) >= 0,
    decreases s.len() - i,
{
    if i == s.len() {
        assert(s.take(i) =~= s);
        lemma_escrows_locked_nonneg(s);
    } else {
        assert(s.take(i + 1) =~= s.take(i).push(s[i]));
        lemma_escrows_locked_push(s.take(i), s[i]);
        lemma_escrows_locked_take_le(s, i + 1);
        assert forall|j: int| 0 <= j < s.take(i).len() implies s.take(i)[j].amount >= 0 by {
            assert(s.take(i)[j] == s[j]);
        }
        lemma_escrows_locked_nonneg(s.take(i));
    }
}

/// A prefix of the multi-escrow store locks at most the whole locked total.
pub proof fn lemma_multis_locked_take_le(s: Seq<MultiEscrowView>, i: int)
    requires
        forall|j: int| 0 <= j < s.len() ==> s[j].total_amount >= 0,
        0 <= i <= s.len(),
    ensures
        multis_locked(s.take(i)) <= multis_locked(s),
        multis_locked(s.take(i)) >= 0,
    decreases s.len() - i,
{
    if i == s.len() {
        assert(s.take(i) =~= s);
        lemma_multis_locked_ge(s, -1);
    } else {
        assert(s.take(i + 1) =~= s.take(i).push(s[i]));
        lemma_multis_locked_push(s.take(i), s[i]);
        lemma_multis_locked_take_le(s, i + 1);
        assert forall|j: int| 0 <= j < s.take(i).len() implies s.take(i)[j].total_amount >= 0 by {
            assert(s.take(i)[j] == s[j]);
        }
        lemma_multis_locked_ge(s.take(i), -1);
    }
}

/// A prefix of the split store locks at most the whole locked total.
pub proof fn lemma_splits_locked_take_le(s: Seq<SplitView>, i: int)
    requires
        forall|j: int| 0 <= j < s.len() ==> s[j].total_amount >= 0,
        0 <= i <= s.len(),
    ensures
        splits_locked(s.take(i)) <= splits_locked(s),
        splits_locked(s.take(i)) >= 0,
    decreases s.len() - i,
{
    if i == s.len() {
        assert(s.take(i) =~= s);
        lemma_splits_locked_ge(s, -1);
    } else {
        assert(s.take(i + 1) =~= s.take(i).push(s[i]));
        lemma_splits_locked_push(s.take(i), s[i]);
        lemma_splits_locked_take_le(s, i + 1);
        assert forall|j: int| 0 <= j < s.take(i).len() implies s.take(i)[j].total_amount >= 0 by {
            assert(s.take(i)[j] == s[j]);
        }
        lemma_splits_locked_ge(s.take(i), -1);
    }
}

// ---------------------------------------------------------------------------
// Basis-point shares.
// ---------------------------------------------------------------------------

/// Sum of the first `k` recipients' shares, in basis points.
pub open spec fn bps_prefix_sum(rs: Seq<SplitRecipient>, k: int) -> int
    decreases k,
{
    if k <= 0 {
        0
    } else {
        bps_prefix_sum(rs, k - 1) + rs[k - 1].share_bps
    }
}

/// Sum of all recipients' shares, in basis points.
pub open spec fn share_sum(rs: Seq<SplitRecipient>) -> int {
    bps_prefix_sum(rs, rs.len() as int)
}

/// Prefix sums of shares grow monotonically.
pub proof fn lemma_bps_prefix_mono(rs: Seq<SplitRecipient>, k1: int, k2: int)
    requires
        0 <= k1 <= k2 <= rs.len(),
    ensures
        bps_prefix_sum(rs, k1) <= bps_prefix_sum(rs, k2),
        bps_prefix_sum(rs, k1) >= 0,
    decreases k2 - k1,
{
    if k1 == k2 {
        lemma_bps_prefix_nonneg(rs, k1);
    } else {
        lemma_bps_prefix_mono(rs, k1, k2 - 1);
    }
}

/// Prefix sums of shares are non-negative.
pub proof fn lemma_bps_prefix_nonneg(rs: Seq<SplitRecipient>, k: int)
    ensures
        bps_prefix_sum(rs, k) >= 0,
    decreases k,
{
    if k > 0 {
        lemma_bps_prefix_nonneg(rs, k - 1);
    }
}

// ---------------------------------------------------------------------------
// The whole engine state, as mathematics.
// ---------------------------------------------------------------------------

/// Mathematical image of the whole engine state.
#[verifier::ext_equal]
pub ghost struct LedgerView {
    pub admin: Option<u64>,
    pub metadata: Option<TokenMetadata>,
    pub balances: Seq<AccountEntry>,
    pub allowances: Seq<AllowanceEntry>,
    pub escrows: Seq<EscrowRecord>,
    pub multis: Seq<MultiEscrowView>,
    pub splits: Seq<SplitView>,
    pub disputes: Seq<Dispute>,
    pub recurring: Seq<RecurringPayment>,
    pub custodial: int,
    pub supply: int,
}

/// Total funds locked in open holds of every kind.
pub open spec fn locked_total(v: LedgerView) -> int {
    escrows_locked(v.escrows) + multis_locked(v.multis) + splits_locked(v.splits)
}

/// The conserved quantity: all account balances plus all locked funds.
pub open spec fn total_value(v: LedgerView) -> int {
    sum_bal(v.balances) + v.custodial
}

/// Well-formed recurring payment records: ids are positive and dense,
/// amounts non-negative.
pub open spec fn wf_recurring(s: Seq<RecurringPayment>) -> bool {
    forall|i: int| 0 <= i < s.len() ==> s[i].id == i + 1 && s[i].amount >= 0
}

/// The structural part of the engine's invariant: every store is
/// well-formed on its own.
pub open spec fn wf_stores(v: LedgerView) -> bool {
    &&& wf_bal(v.balances)
    &&& wf_allow(v.allowances)
    &&& (forall|i: int|
        0 <= i < v.escrows.len() ==> v.escrows[i].id == i + 1 && v.escrows[i].amount >= 0 && !(
        v.escrows[i].released && v.escrows[i].refunded))
    &&& (forall|i: int|
        0 <= i < v.multis.len() ==> v.multis[i].id == i + 1 && v.multis[i].total_amount >= 0
            && share_sum(v.multis[i].recipients) == 10000 && !(v.multis[i].released
            && v.multis[i].refunded))
    &&& (forall|i: int|
        0 <= i < v.splits.len() ==> v.splits[i].id == i + 1 && v.splits[i].total_amount >= 0
            && share_sum(v.splits[i].recipients) == 10000)
    &&& (forall|i: int|
        0 <= i < v.disputes.len() ==> v.disputes[i].id == i + 1 && 1 <= v.disputes[i].escrow_id
            <= v.escrows.len())
    &&& wf_recurring(v.recurring)
}

/// The engine's invariant. Every operation requires and preserves it.
pub open spec fn wf(v: LedgerView) -> bool {
    &&& wf_stores(v)
    &&& v.custodial == locked_total(v)
    &&& v.custodial >= 0
    &&& v.supply == total_value(v)
    &&& v.supply <= i128::MAX
}

} // verus!
