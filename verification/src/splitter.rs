//! Proportional one-shot distribution: splits lock the sender's funds at
//! creation; `distribute` pays every recipient its floored basis-point share
//! except the last, who receives the exact remainder, so the paid total
//! always equals the locked total and no dust is lost or created.

use vstd::prelude::*;

use vstd::arithmetic::div_mod::{
    lemma_div_by_multiple, lemma_div_is_ordered, lemma_div_pos_is_pos, lemma_fundamental_div_mod,
    lemma_mod_bound,
};
use vstd::arithmetic::mul::{
    lemma_mul_inequality, lemma_mul_is_distributive_add, lemma_mul_nonnegative,
};

use crate::contract::VeritixToken;
use crate::errors::Error;
use crate::model::{
    bal_of, bps_prefix_sum, frozen_of, lemma_bal_le_sum, lemma_bps_prefix_mono,
    lemma_bps_prefix_nonneg, lemma_set_entry, set_bal, share_sum, sum_bal, wf_bal,
};
use crate::model::LedgerView;
use crate::storage_types::{AccountEntry, Payout, SplitRecipient, SplitRecord, SplitView};

verus! {

/// The largest total a proportional distribution can handle: any more and
/// the basis-point products would overflow `i128`.
pub const MAX_DISTRIBUTABLE: i128 = 17014118346046923173168730371588410;

/// The floored basis-point share of `total`.
pub open spec fn floor_share(total: int, bps: u32) -> int {
    total * bps / 10000
}

/// Sum of the floored shares of the first `k` recipients.
pub open spec fn payout_prefix_sum(total: int, rs: Seq<SplitRecipient>, k: int) -> int
    decreases k,
{
    if k <= 0 {
        0
    } else {
        payout_prefix_sum(total, rs, k - 1) + floor_share(total, rs[k - 1].share_bps)
    }
}

/// What recipient `i` is paid: its floored share, except that the last
/// recipient receives the exact remainder.
pub open spec fn payout_at(total: int, rs: Seq<SplitRecipient>, i: int) -> int {
    if i == rs.len() - 1 {
        total - payout_prefix_sum(total, rs, i)
    } else {
        floor_share(total, rs[i].share_bps)
    }
}

/// Sum of the first `k` payouts.
pub open spec fn payouts_sum(total: int, rs: Seq<SplitRecipient>, k: int) -> int
    decreases k,
{
    if k <= 0 {
        0
    } else {
        payouts_sum(total, rs, k - 1) + payout_at(total, rs, k - 1)
    }
}

/// Floor division distributes sub-additively over a sum.
proof fn lemma_div_sum_le(x: int, y: int, d: int)
    requires
        x >= 0,
        y >= 0,
        d > 0,
    ensures
        x / d + y / d <= (x + y) / d,
{
    lemma_fundamental_div_mod(x, d);
    lemma_fundamental_div_mod(y, d);
    lemma_mod_bound(x, d);
    lemma_mod_bound(y, d);
    lemma_div_pos_is_pos(x, d);
    lemma_div_pos_is_pos(y, d);
    let q = x / d + y / d;
    lemma_mul_is_distributive_add(d, x / d, y / d);
    assert(d * q <= x + y);
    lemma_div_is_ordered(q * d, x + y, d);
    lemma_div_by_multiple(q, d);
}

/// The dust bound: the floored shares of any prefix sum to at most the
/// total's proportional part, hence at most the total itself.
pub proof fn lemma_payout_prefix_bounds(total: int, rs: Seq<SplitRecipient>, k: int)
    requires
        total >= 0,
        share_sum(rs) == 10000,
        0 <= k <= rs.len(),
    ensures
        0 <= payout_prefix_sum(total, rs, k),
        payout_prefix_sum(total, rs, k) <= total * bps_prefix_sum(rs, k) / 10000,
        payout_prefix_sum(total, rs, k) <= total,
    decreases k,
{
    lemma_bps_prefix_mono(rs, k, rs.len() as int);
    lemma_bps_prefix_nonneg(rs, k);
    lemma_mul_nonnegative(total, bps_prefix_sum(rs, k));
    lemma_div_pos_is_pos(total * bps_prefix_sum(rs, k), 10000);
    if k > 0 {
        lemma_payout_prefix_bounds(total, rs, k - 1);
        let b = rs[k - 1].share_bps as int;
        let bk1 = bps_prefix_sum(rs, k - 1);
        lemma_bps_prefix_mono(rs, k - 1, k);
        lemma_mul_nonnegative(total, b);
        lemma_div_pos_is_pos(total * b, 10000);
        lemma_mul_nonnegative(total, bk1);
        lemma_div_sum_le(total * bk1, total * b, 10000);
        lemma_mul_is_distributive_add(total, bk1, b);
    }
    lemma_mul_inequality(bps_prefix_sum(rs, k), 10000, total);
    lemma_div_is_ordered(total * bps_prefix_sum(rs, k), total * 10000, 10000);
    lemma_div_by_multiple(total, 10000);
}

/// Every payout is non-negative, and any prefix of payouts sums to at most
/// the total; all the payouts together sum to exactly the total.
pub proof fn lemma_payouts_sum_props(total: int, rs: Seq<SplitRecipient>, k: int)
    requires
        total >= 0,
        share_sum(rs) == 10000,
        0 <= k <= rs.len(),
    ensures
        k <= rs.len() - 1 ==> payouts_sum(total, rs, k) == payout_prefix_sum(total, rs, k),
        0 <= payouts_sum(total, rs, k) <= total,
        k == rs.len() ==> payouts_sum(total, rs, k) == total,
        forall|i: int| 0 <= i < k ==> payout_at(total, rs, i) >= 0,
    decreases k,
{
    lemma_payout_prefix_bounds(total, rs, k);
    if k > 0 {
        lemma_payouts_sum_props(total, rs, k - 1);
        lemma_payout_prefix_bounds(total, rs, k - 1);
        if k - 1 == rs.len() - 1 {
        } else {
            lemma_mul_nonnegative(total, rs[k - 1].share_bps as int);
            lemma_div_pos_is_pos(total * rs[k - 1].share_bps as int, 10000);
        }
    } else {
        if rs.len() == 0 {
            assert(bps_prefix_sum(rs, 0) == 0);
        }
    }
}

/// Each single share is at most 10000 basis points when all shares sum to
/// 10000.
pub proof fn lemma_share_at_bounds(rs: Seq<SplitRecipient>, i: int)
    requires
        share_sum(rs) == 10000,
        0 <= i < rs.len(),
    ensures
        rs[i].share_bps <= 10000,
    decreases rs.len(),
{
    lemma_bps_prefix_nonneg(rs, i);
    lemma_bps_prefix_mono(rs, i + 1, rs.len() as int);
}

/// The balance store after crediting the first `k` payouts of a
/// distribution.
pub open spec fn apply_payouts(
    s: Seq<AccountEntry>,
    total: int,
    rs: Seq<SplitRecipient>,
    k: int,
) -> Seq<AccountEntry>
    decreases k,
{
    if k <= 0 {
        s
    } else {
        let s1 = apply_payouts(s, total, rs, k - 1);
        set_bal(
            s1,
            rs[k - 1].address,
            (bal_of(s1, rs[k - 1].address) + payout_at(total, rs, k - 1)) as i128,
        )
    }
}

/// Crediting payouts preserves well-formedness and the freeze flags, and
/// raises the sum of balances by exactly the payouts credited so far.
pub proof fn lemma_apply_payouts(s: Seq<AccountEntry>, total: int, rs: Seq<SplitRecipient>, k: int)
    requires
        wf_bal(s),
        0 <= total,
        share_sum(rs) == 10000,
        0 <= k <= rs.len(),
        sum_bal(s) + total <= i128::MAX,
    ensures
        wf_bal(apply_payouts(s, total, rs, k)),
        sum_bal(apply_payouts(s, total, rs, k)) == sum_bal(s) + payouts_sum(total, rs, k),
        forall|b: u64| frozen_of(apply_payouts(s, total, rs, k), b) == frozen_of(s, b),
    decreases k,
{
    if k > 0 {
        lemma_apply_payouts(s, total, rs, k - 1);
        lemma_payouts_sum_props(total, rs, k);
        lemma_payouts_sum_props(total, rs, k - 1);
        let s1 = apply_payouts(s, total, rs, k - 1);
        let addr = rs[k - 1].address;
        lemma_bal_le_sum(s1, addr);
        let entry = AccountEntry {
            addr,
            amount: (bal_of(s1, addr) + payout_at(total, rs, k - 1)) as i128,
            frozen: frozen_of(s1, addr),
        };
        lemma_set_entry(s1, entry);
    }
}

/// Computes the share sum of all recipients without overflow.
pub(crate) fn compute_share_sum(recipients: &Vec<SplitRecipient>) -> (r: u128)
    ensures
        r as int == share_sum(recipients@),
{
    let n = recipients.len();
    let mut sum: u128 = 0;
    let mut i: usize = 0;
    while i < n
        invariant
            i <= n,
            n == recipients@.len(),
            sum as int == bps_prefix_sum(recipients@, i as int),
            sum <= (i as u128) * (u32::MAX as u128),
        decreases n - i,
    {
        proof {
            lemma_mul_inequality(i as int, n as int, u32::MAX as int);
            lemma_mul_inequality(i as int + 1, i as int + 1, u32::MAX as int);
        }
        assert((i + 1) as u128 * (u32::MAX as u128) == i as u128 * (u32::MAX as u128) + (
        u32::MAX as u128)) by {
            lemma_mul_is_distributive_add(u32::MAX as int, i as int, 1);
        }
        sum = sum + recipients[i].share_bps as u128;
        i += 1;
    }
    sum
}

/// Computes the exact payouts of a proportional distribution: every
/// recipient receives the floor of `total * share_bps / 10000`, except the
/// last, who receives the exact remainder, so the payouts sum to `total`.
/// Fails with `InvalidShareSum` unless the shares sum to exactly 10000
/// basis points (so also for an empty recipient list), `InvalidAmount` on a
/// negative total, and `Overflow` when `total` exceeds
/// `MAX_DISTRIBUTABLE`.
pub fn calculate_distribution(total: i128, recipients: &Vec<SplitRecipient>) -> (r: Result<
    Vec<Payout>,
    Error,
>)
    ensures
        match r {
            Ok(p) => share_sum(recipients@) == 10000 && 0 <= total <= MAX_DISTRIBUTABLE && p@.len()
                == recipients@.len() && (forall|i: int|
                0 <= i < p@.len() ==> (#[trigger] p@[i]).address == recipients@[i].address
                    && p@[i].amount as int == payout_at(total as int, recipients@, i)
                    && p@[i].amount >= 0),
            Err(e) => (e == Error::InvalidShareSum && share_sum(recipients@) != 10000) || (e
                == Error::InvalidAmount && share_sum(recipients@) == 10000 && total < 0) || (e
                == Error::Overflow && share_sum(recipients@) == 10000 && total >= 0 && total
                > MAX_DISTRIBUTABLE),
        },
{
    let sum = compute_share_sum(recipients);
    if sum != 10000 {
        return Err(Error::InvalidShareSum);
    }
    if total < 0 {
        return Err(Error::InvalidAmount);
    }
    if total > MAX_DISTRIBUTABLE {
        return Err(Error::Overflow);
    }
    let ghost rs = recipients@;
    let ghost t = total as int;
    let n = recipients.len();
    proof {
        if n == 0 {
            assert(bps_prefix_sum(rs, 0) == 0);
        }
        lemma_payouts_sum_props(t, rs, n as int);
    }
    let mut out: Vec<Payout> = Vec::new();
    let mut remaining: i128 = total;
    let mut i: usize = 0;
    while i < n
        invariant
            0 < n == recipients@.len(),
            i <= n,
            rs == recipients@,
            t == total as int,
            0 <= total <= MAX_DISTRIBUTABLE,
            share_sum(rs) == 10000,
            out@.len() == i,
            remaining as int == t - payouts_sum(t, rs, i as int),
            forall|j: int| 0 <= j < i ==> (#[trigger] out@[j]).address == rs[j].address,
            forall|j: int| 0 <= j < i ==> (#[trigger] out@[j]).amount as int == payout_at(t, rs, j),
            forall|j: int| 0 <= j < i ==> (#[trigger] out@[j]).amount >= 0,
        decreases n - i,
    {
        proof {
            lemma_payouts_sum_props(t, rs, i as int);
            lemma_payouts_sum_props(t, rs, i as int + 1);
        }
        let amt: i128 = if i == n - 1 {
            remaining
        } else {
            let b = recipients[i].share_bps;
            proof {
                lemma_share_at_bounds(rs, i as int);
                lemma_mul_nonnegative(t, b as int);
                lemma_mul_inequality(b as int, 10000, t);
                lemma_mul_inequality(t, MAX_DISTRIBUTABLE as int, 10000);
                assert(t * (b as int) <= MAX_DISTRIBUTABLE as int * 10000);
                assert(MAX_DISTRIBUTABLE as int * 10000 <= i128::MAX as int);
                lemma_div_pos_is_pos(t * b as int, 10000);
            }
            (total * (b as i128)) / 10000
        };
        proof {
            assert(amt as int == payout_at(t, rs, i as int));
            assert(amt >= 0);
        }
        let ghost out_pre = out@;
        out.push(Payout { address: recipients[i].address, amount: amt });
        proof {
            assert forall|j: int|
                0 <= j < i + 1 implies (#[trigger] out@[j]).address == rs[j].address
                && out@[j].amount as int == payout_at(t, rs, j) && out@[j].amount >= 0 by {
                if j < i {
                    assert(out@[j] == out_pre[j]);
                } else {
                    assert(out@[j] == Payout { address: rs[i as int].address, amount: amt });
                }
            }
        }
        remaining = remaining - amt;
        i += 1;
    }
    Ok(out)
}

/// Creates a split: validates the share sum, debits the sender and locks the
/// total in the engine's custody under the next monotonic id.
pub open spec fn create_split_tr(
    v: LedgerView,
    sender: u64,
    recipients: Seq<SplitRecipient>,
    total_amount: i128,
) -> (LedgerView, Result<u32, Error>) {
    if share_sum(recipients) != 10000 {
        (v, Err(Error::InvalidShareSum))
    } else if v.splits.len() + 1 > u32::MAX {
        (v, Err(Error::Overflow))
    } else if total_amount < 0 {
        (v, Err(Error::InvalidAmount))
    } else if bal_of(v.balances, sender) < total_amount {
        (v, Err(Error::InsufficientBalance))
    } else {
        let id = (v.splits.len() + 1) as u32;
        let record = SplitView {
            id,
            sender,
            recipients,
            total_amount,
            distributed: false,
        };
        (
            LedgerView {
                balances: set_bal(v.balances, sender, (bal_of(v.balances, sender)
                    - total_amount) as i128),
                custodial: v.custodial + total_amount,
                splits: v.splits.push(record),
                ..v
            },
            Ok(id),
        )
    }
}

/// Creating a split preserves the invariant and the conserved total: the
/// debited total moves into custody.
pub proof fn lemma_create_split_tr(
    v: LedgerView,
    sender: u64,
    recipients: Seq<SplitRecipient>,
    total_amount: i128,
)
    requires
        crate::model::wf(v),
    ensures
        crate::model::wf(create_split_tr(v, sender, recipients, total_amount).0),
        crate::model::total_value(create_split_tr(v, sender, recipients, total_amount).0)
            == crate::model::total_value(v),
        create_split_tr(v, sender, recipients, total_amount).1 is Ok ==> v.custodial + total_amount
            <= i128::MAX,
{
    if share_sum(recipients) == 10000 && v.splits.len() + 1 <= u32::MAX && total_amount >= 0
        && bal_of(v.balances, sender) >= total_amount {
        lemma_bal_le_sum(v.balances, sender);
        let e = AccountEntry {
            addr: sender,
            amount: (bal_of(v.balances, sender) - total_amount) as i128,
            frozen: frozen_of(v.balances, sender),
        };
        lemma_set_entry(v.balances, e);
        let id = (v.splits.len() + 1) as u32;
        let record = SplitView { id, sender, recipients, total_amount, distributed: false };
        crate::model::lemma_splits_locked_push(v.splits, record);
        let v2 = create_split_tr(v, sender, recipients, total_amount).0;
        assert forall|i: int| 0 <= i < v2.splits.len() implies v2.splits[i].id == i + 1
            && v2.splits[i].total_amount >= 0 && share_sum(v2.splits[i].recipients) == 10000 by {
            if i < v.splits.len() {
                assert(v2.splits[i] == v.splits[i]);
            } else {
                assert(v2.splits[i] == record);
            }
        }
    }
}

/// Distributes a split: pays every recipient its floored share, the last
/// one the exact remainder, out of custody, exactly once. Only the original
/// sender may distribute.
pub open spec fn distribute_tr(v: LedgerView, caller: u64, split_id: u32) -> (
    LedgerView,
    Result<(), Error>,
) {
    if split_id < 1 || split_id > v.splits.len() {
        (v, Err(Error::NotFound))
    } else {
        let i = split_id - 1;
        let p = v.splits[i];
        if caller != p.sender {
            (v, Err(Error::Unauthorized))
        } else if p.distributed {
            (v, Err(Error::AlreadyDistributed))
        } else if p.total_amount > MAX_DISTRIBUTABLE {
            (v, Err(Error::Overflow))
        } else {
            (
                LedgerView {
                    balances: apply_payouts(v.balances, p.total_amount as int, p.recipients,
                        p.recipients.len() as int),
                    custodial: v.custodial - p.total_amount,
                    splits: v.splits.update(i, SplitView { distributed: true, ..p }),
                    ..v
                },
                Ok(()),
            )
        }
    }
}

/// Distributing preserves the invariant and the conserved total: the paid
/// sum equals the total that leaves custody, exactly.
pub proof fn lemma_distribute_tr(v: LedgerView, caller: u64, split_id: u32)
    requires
        crate::model::wf(v),
    ensures
        crate::model::wf(distribute_tr(v, caller, split_id).0),
        crate::model::total_value(distribute_tr(v, caller, split_id).0)
            == crate::model::total_value(v),
        distribute_tr(v, caller, split_id).1 is Ok ==> {
            let p = v.splits[split_id - 1];
            sum_bal(v.balances) + p.total_amount <= i128::MAX && v.custodial - p.total_amount >= 0
        },
{
    if 1 <= split_id <= v.splits.len() {
        let i = split_id - 1;
        let p = v.splits[i];
        if caller == p.sender && !p.distributed && p.total_amount <= MAX_DISTRIBUTABLE {
            let t = p.total_amount as int;
            crate::model::lemma_splits_locked_ge(v.splits, i);
            if v.escrows.len() > 0 {
                crate::model::lemma_escrows_locked_ge(v.escrows, 0);
            } else {
                crate::model::lemma_escrows_locked_nonneg(v.escrows);
            }
            crate::model::lemma_multis_locked_ge(v.multis, -1);
            lemma_bal_le_sum(v.balances, 0);
            lemma_apply_payouts(v.balances, t, p.recipients, p.recipients.len() as int);
            lemma_payouts_sum_props(t, p.recipients, p.recipients.len() as int);
            crate::model::lemma_splits_locked_update(v.splits, i, SplitView {
                distributed: true,
                ..p
            });
            let v2 = distribute_tr(v, caller, split_id).0;
            assert forall|j: int| 0 <= j < v2.splits.len() implies v2.splits[j].id == j + 1
                && v2.splits[j].total_amount >= 0 && share_sum(v2.splits[j].recipients)
                == 10000 by {
                if j != i {
                    assert(v2.splits[j] == v.splits[j]);
                } else {
                    assert(v2.splits[j] == SplitView { distributed: true, ..p });
                }
            }
        }
    }
}

impl VeritixToken {
    /// Credits the computed payouts of a distribution to their recipients.
    /// The caller settles custody and the record.
    pub(crate) fn pay_out(&mut self, payouts: &Vec<Payout>, Ghost(rs): Ghost<Seq<SplitRecipient>>, total: i128)
        requires
            wf_bal(old(self)@.balances),
            share_sum(rs) == 10000,
            0 <= total,
            sum_bal(old(self)@.balances) + total <= i128::MAX,
            payouts@.len() == rs.len(),
            forall|i: int|
                0 <= i < rs.len() ==> (#[trigger] payouts@[i]).address == rs[i].address
                    && payouts@[i].amount as int == payout_at(total as int, rs, i)
                    && payouts@[i].amount >= 0,
        ensures
            final(self)@ == (LedgerView {
                balances: apply_payouts(old(self)@.balances, total as int, rs, rs.len() as int),
                ..old(self)@
            }),
    {
        let ghost b0 = old(self)@.balances;
        let ghost t = total as int;
        let n = payouts.len();
        let mut k: usize = 0;
        while k < n
            invariant
                k <= n,
                n == payouts@.len() == rs.len(),
                wf_bal(b0),
                share_sum(rs) == 10000,
                0 <= total,
                t == total as int,
                sum_bal(b0) + total <= i128::MAX,
                forall|i: int|
                    0 <= i < rs.len() ==> (#[trigger] payouts@[i]).address == rs[i].address
                        && payouts@[i].amount as int == payout_at(t, rs, i) && payouts@[i].amount
                        >= 0,
                self@ == (LedgerView { balances: apply_payouts(b0, t, rs, k as int), ..old(self)@ }),
            decreases n - k,
        {
            proof {
                lemma_apply_payouts(b0, t, rs, k as int);
                lemma_apply_payouts(b0, t, rs, k as int + 1);
                lemma_payouts_sum_props(t, rs, k as int + 1);
                lemma_bal_le_sum(apply_payouts(b0, t, rs, k as int), payouts@[k as int].address);
            }
            let p = payouts[k];
            let bal = self.balances.read_balance(p.address);
            self.balances.set_balance(p.address, bal + p.amount);
            k += 1;
            proof {
                assert(self@ =~~= (LedgerView {
                    balances: apply_payouts(b0, t, rs, k as int),
                    ..old(self)@
                }));
            }
        }
    }

    /// Looks up the split record at index `split_id - 1`, if it exists.
    fn split_at(&self, split_id: u32) -> (r: Option<usize>)
        ensures
            match r {
                Some(i) => 1 <= split_id && split_id <= self@.splits.len() && i as int == split_id
                    - 1,
                None => split_id < 1 || split_id > self@.splits.len(),
            },
    {
        if split_id >= 1 && (split_id as usize) <= self.splits.len() {
            Some((split_id - 1) as usize)
        } else {
            None
        }
    }

    /// Reads a split record by id.
    pub fn get_split(&self, split_id: u32) -> (r: Option<SplitRecord>)
        ensures
            match r {
                Some(p) => 1 <= split_id <= self@.splits.len() && p@ == self@.splits[split_id - 1],
                None => split_id < 1 || split_id > self@.splits.len(),
            },
    {
        match self.split_at(split_id) {
            Some(i) => {
                let p = &self.splits[i];
                Some(
                    SplitRecord {
                        id: p.id,
                        sender: p.sender,
                        recipients: clone_recipients(&p.recipients),
                        total_amount: p.total_amount,
                        distributed: p.distributed,
                    },
                )
            },
            None => None,
        }
    }

    /// Creates a payment split: validates that the shares sum to 10000 basis
    /// points, debits the sender and locks the total. Returns the new id.
    pub fn create_split(
        &mut self,
        sender: u64,
        recipients: Vec<SplitRecipient>,
        total_amount: i128,
    ) -> (r: Result<u32, Error>)
        requires
            old(self).wf(),
        ensures
            final(self).wf(),
            final(self)@ == create_split_tr(old(self)@, sender, recipients@, total_amount).0,
            r == create_split_tr(old(self)@, sender, recipients@, total_amount).1,
    {
        proof {
            lemma_create_split_tr(old(self)@, sender, recipients@, total_amount);
        }
        let sum = compute_share_sum(&recipients);
        if sum != 10000 {
            return Err(Error::InvalidShareSum);
        }
        if self.splits.len() >= u32::MAX as usize {
            return Err(Error::Overflow);
        }
        if total_amount < 0 {
            return Err(Error::InvalidAmount);
        }
        let bal = self.balances.read_balance(sender);
        if bal < total_amount {
            return Err(Error::InsufficientBalance);
        }
        let id = (self.splits.len() + 1) as u32;
        let record = SplitRecord { id, sender, recipients, total_amount, distributed: false };
        self.balances.set_balance(sender, bal - total_amount);
        self.custodial = self.custodial + total_amount;
        self.splits.push(record);
        proof {
            assert(crate::contract::splits_view(self.splits@) =~= old(
                self,
            )@.splits.push(SplitView {
                id,
                sender,
                recipients: recipients@,
                total_amount,
                distributed: false,
            }));
            assert(self@ =~~= create_split_tr(old(self)@, sender, recipients@, total_amount).0);
        }
        Ok(id)
    }

    /// Pays every recipient of a split its share, exactly once. Only the
    /// original sender may distribute; a second call fails with
    /// `AlreadyDistributed`.
    pub fn distribute(&mut self, caller: u64, split_id: u32) -> (r: Result<(), Error>)
        requires
            old(self).wf(),
        ensures
            final(self).wf(),
            final(self)@ == distribute_tr(old(self)@, caller, split_id).0,
            r == distribute_tr(old(self)@, caller, split_id).1,
    {
        proof {
            lemma_distribute_tr(old(self)@, caller, split_id);
        }
        let i = match self.split_at(split_id) {
            Some(i) => i,
            None => {
                return Err(Error::NotFound);
            },
        };
        if caller != self.splits[i].sender {
            return Err(Error::Unauthorized);
        }
        if self.splits[i].distributed {
            return Err(Error::AlreadyDistributed);
        }
        let total = self.splits[i].total_amount;
        let ghost rs = self@.splits[i as int].recipients;
        let payouts = match calculate_distribution(total, &self.splits[i].recipients) {
            Ok(p) => p,
            Err(e) => {
                proof {
                    assert(e == Error::Overflow);
                }
                return Err(e);
            },
        };
        self.pay_out(&payouts, Ghost(rs), total);
        self.custodial = self.custodial - total;
        let recipients2 = clone_recipients(&self.splits[i].recipients);
        let rec_id = self.splits[i].id;
        let rec_sender = self.splits[i].sender;
        let rec2 = SplitRecord {
            id: rec_id,
            sender: rec_sender,
            recipients: recipients2,
            total_amount: total,
            distributed: true,
        };
        self.splits.set(i, rec2);
        proof {
            assert(crate::contract::splits_view(self.splits@) =~= old(self)@.splits.update(
                i as int,
                SplitView { distributed: true, ..old(self)@.splits[i as int] },
            ));
            assert(self@ =~~= distribute_tr(old(self)@, caller, split_id).0);
        }
        Ok(())
    }
}

/// Copies a recipient list.
pub(crate) fn clone_recipients(rs: &Vec<SplitRecipient>) -> (r: Vec<SplitRecipient>)
    ensures
        r@ == rs@,
{
    let mut out: Vec<SplitRecipient> = Vec::new();
    let n = rs.len();
    let mut i: usize = 0;
    while i < n
        invariant
            i <= n,
            n == rs@.len(),
            out@ == rs@.subrange(0, i as int),
        decreases n - i,
    {
        out.push(rs[i]);
        proof {
            assert(out@ =~= rs@.subrange(0, i as int + 1));
        }
        i += 1;
    }
    proof {
        assert(out@ =~= rs@);
    }
    out
}

} // verus!
