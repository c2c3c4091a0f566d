//! The engine's global laws, stated over the transition functions that
//! every operation's contract is pinned to and proved once and for all:
//! conservation of value over any sequence of operations, finality of
//! terminal escrow transitions, and allowance expiry.

use vstd::prelude::*;

use crate::contract::{
    approve_tr, burn_from_tr, burn_tr, clawback_tr, initialize_tr, mint_tr, set_frozen_tr,
    transfer_admin_tr, transfer_from_tr, transfer_tr,
};
use crate::errors::Error;
use crate::escrow::{
    create_escrow_tr, create_multi_escrow_tr, expire_escrow_tr, refund_escrow_tr,
    refund_multi_escrow_tr, release_escrow_tr, release_multi_escrow_tr,
};
use crate::model::{allow_of, frozen_of, total_value, wf, wf_recurring, LedgerView};
use crate::recurring::{cancel_recurring_tr, execute_recurring_tr, setup_recurring_tr};
use crate::splitter::{create_split_tr, distribute_tr};
use crate::storage_types::{AllowanceDataKey, ResolutionOutcome, SplitRecipient, TokenMetadata};

verus! {

/// One operation of the engine, with its arguments. Applying it to a state
/// by `apply_op` gives exactly the state that the matching executable
/// method's contract promises.
pub ghost enum Op {
    Initialize { admin: u64, metadata: TokenMetadata },
    TransferAdmin { caller: u64, new_admin: u64 },
    SetFrozen { caller: u64, target: u64, frozen: bool },
    Mint { caller: u64, to: u64, amount: i128 },
    Burn { from: u64, amount: i128 },
    BurnFrom { spender: u64, from: u64, amount: i128, now: u64 },
    Clawback { caller: u64, from: u64, amount: i128 },
    Transfer { from: u64, to: u64, amount: i128 },
    TransferFrom { spender: u64, from: u64, to: u64, amount: i128, now: u64 },
    Approve { from: u64, spender: u64, amount: i128, expiration_ledger: u64, now: u64 },
    CreateEscrow {
        depositor: u64,
        beneficiary: u64,
        amount: i128,
        expiration_ledger: u64,
        release_after_ledger: u64,
    },
    ReleaseEscrow { caller: u64, escrow_id: u32, now: u64 },
    RefundEscrow { caller: u64, escrow_id: u32 },
    ExpireEscrow { caller: u64, escrow_id: u32, now: u64 },
    CreateMultiEscrow { depositor: u64, recipients: Seq<SplitRecipient>, total_amount: i128 },
    ReleaseMultiEscrow { caller: u64, escrow_id: u32 },
    RefundMultiEscrow { caller: u64, escrow_id: u32 },
    CreateSplit { sender: u64, recipients: Seq<SplitRecipient>, total_amount: i128 },
    Distribute { caller: u64, split_id: u32 },
    OpenDispute { caller: u64, escrow_id: u32, resolver: u64 },
    ResolveDispute { caller: u64, dispute_id: u32, outcome: ResolutionOutcome },
    SetupRecurring {
        payer: u64,
        payee: u64,
        amount: i128,
        interval: u64,
        iterations: Option<u32>,
        now: u64,
    },
    ExecuteRecurring { id: u32, now: u64 },
    CancelRecurring { caller: u64, id: u32 },
}

/// The state after one operation; a failing operation changes nothing.
pub open spec fn apply_op(v: LedgerView, op: Op) -> LedgerView {
    match op {
        Op::Initialize { admin, metadata } => initialize_tr(v, admin, metadata).0,
        Op::TransferAdmin { caller, new_admin } => transfer_admin_tr(v, caller, new_admin).0,
        Op::SetFrozen { caller, target, frozen } => set_frozen_tr(v, caller, target, frozen).0,
        Op::Mint { caller, to, amount } => mint_tr(v, caller, to, amount).0,
        Op::Burn { from, amount } => burn_tr(v, from, amount).0,
        Op::BurnFrom { spender, from, amount, now } => burn_from_tr(v, spender, from, amount,
            now).0,
        Op::Clawback { caller, from, amount } => clawback_tr(v, caller, from, amount).0,
        Op::Transfer { from, to, amount } => transfer_tr(v, from, to, amount).0,
        Op::TransferFrom { spender, from, to, amount, now } => transfer_from_tr(v, spender, from,
            to, amount, now).0,
        Op::Approve { from, spender, amount, expiration_ledger, now } => approve_tr(v, from,
            spender, amount, expiration_ledger, now).0,
        Op::CreateEscrow { depositor, beneficiary, amount, expiration_ledger, release_after_ledger,
        } => create_escrow_tr(v, depositor, beneficiary, amount, expiration_ledger,
            release_after_ledger).0,
        Op::ReleaseEscrow { caller, escrow_id, now } => release_escrow_tr(v, caller, escrow_id,
            now).0,
        Op::RefundEscrow { caller, escrow_id } => refund_escrow_tr(v, caller, escrow_id).0,
        Op::ExpireEscrow { caller, escrow_id, now } => expire_escrow_tr(v, caller, escrow_id,
            now).0,
        Op::CreateMultiEscrow { depositor, recipients, total_amount } => create_multi_escrow_tr(v,
            depositor, recipients, total_amount).0,
        Op::ReleaseMultiEscrow { caller, escrow_id } => release_multi_escrow_tr(v, caller,
            escrow_id).0,
        Op::RefundMultiEscrow { caller, escrow_id } => refund_multi_escrow_tr(v, caller,
            escrow_id).0,
        Op::CreateSplit { sender, recipients, total_amount } => create_split_tr(v, sender,
            recipients, total_amount).0,
        Op::Distribute { caller, split_id } => distribute_tr(v, caller, split_id).0,
        Op::OpenDispute { caller, escrow_id, resolver } => crate::dispute::open_dispute_tr(v,
            caller, escrow_id, resolver).0,
        Op::ResolveDispute { caller, dispute_id, outcome } => crate::dispute::resolve_dispute_tr(v,
            caller, dispute_id, outcome).0,
        Op::SetupRecurring { payer, payee, amount, interval, iterations, now } => LedgerView {
            recurring: setup_recurring_tr(v.recurring, v.balances, payer, payee, amount, interval,
                iterations, now).0,
            ..v
        },
        Op::ExecuteRecurring { id, now } => LedgerView {
            recurring: execute_recurring_tr(v.recurring, v.balances, id, now).0,
            balances: execute_recurring_tr(v.recurring, v.balances, id, now).1,
            ..v
        },
        Op::CancelRecurring { caller, id } => LedgerView {
            recurring: cancel_recurring_tr(v.recurring, caller, id).0,
            ..v
        },
    }
}

/// How much an operation, applied to `v`, changes the total supply: the
/// minted amount, minus the burned or clawed-back amount, and 0 for every
/// other operation and for every operation that fails.
pub open spec fn supply_delta(v: LedgerView, op: Op) -> int {
    match op {
        Op::Mint { caller, to, amount } => if mint_tr(v, caller, to, amount).1 is Ok {
            amount as int
        } else {
            0
        },
        Op::Burn { from, amount } => if burn_tr(v, from, amount).1 is Ok {
            -(amount as int)
        } else {
            0
        },
        Op::BurnFrom { spender, from, amount, now } => if burn_from_tr(v, spender, from, amount,
            now).1 is Ok {
            -(amount as int)
        } else {
            0
        },
        Op::Clawback { caller, from, amount } => if clawback_tr(v, caller, from, amount).1 is Ok {
            -(amount as int)
        } else {
            0
        },
        _ => 0,
    }
}

/// Whether an operation can change the total supply at all.
pub open spec fn changes_supply(op: Op) -> bool {
    op is Mint || op is Burn || op is BurnFrom || op is Clawback
}

/// One step of conservation: every operation preserves the invariant, and
/// the sum of all balances plus all locked funds changes by exactly the
/// minted-minus-burned amount — 0 for every operation but mint, burn and
/// clawback.
pub proof fn lemma_op_conserves(v: LedgerView, op: Op)
    requires
        wf(v),
    ensures
        wf(apply_op(v, op)),
        total_value(apply_op(v, op)) == total_value(v) + supply_delta(v, op),
{
    match op {
        Op::Initialize { admin, metadata } => {},
        Op::TransferAdmin { caller, new_admin } => {},
        Op::SetFrozen { caller, target, frozen } => {
            crate::contract::lemma_set_frozen_tr(v, caller, target, frozen);
        },
        Op::Mint { caller, to, amount } => {
            crate::contract::lemma_mint_tr(v, caller, to, amount);
        },
        Op::Burn { from, amount } => {
            crate::contract::lemma_burn_tr(v, from, amount);
        },
        Op::BurnFrom { spender, from, amount, now } => {
            crate::contract::lemma_burn_from_tr(v, spender, from, amount, now);
        },
        Op::Clawback { caller, from, amount } => {
            crate::contract::lemma_clawback_tr(v, caller, from, amount);
        },
        Op::Transfer { from, to, amount } => {
            crate::contract::lemma_transfer_tr(v, from, to, amount);
        },
        Op::TransferFrom { spender, from, to, amount, now } => {
            crate::contract::lemma_transfer_from_tr(v, spender, from, to, amount, now);
        },
        Op::Approve { from, spender, amount, expiration_ledger, now } => {
            crate::contract::lemma_approve_tr(v, from, spender, amount, expiration_ledger, now);
        },
        Op::CreateEscrow {
            depositor,
            beneficiary,
            amount,
            expiration_ledger,
            release_after_ledger,
        } => {
            crate::escrow::lemma_create_escrow_tr(v, depositor, beneficiary, amount,
                expiration_ledger, release_after_ledger);
        },
        Op::ReleaseEscrow { caller, escrow_id, now } => {
            if release_escrow_tr(v, caller, escrow_id, now).1 is Ok {
                crate::escrow::lemma_settle_escrow(v, escrow_id - 1, true);
            }
        },
        Op::RefundEscrow { caller, escrow_id } => {
            if refund_escrow_tr(v, caller, escrow_id).1 is Ok {
                crate::escrow::lemma_settle_escrow(v, escrow_id - 1, false);
            }
        },
        Op::ExpireEscrow { caller, escrow_id, now } => {
            if expire_escrow_tr(v, caller, escrow_id, now).1 is Ok {
                crate::escrow::lemma_settle_escrow(v, escrow_id - 1, false);
            }
        },
        Op::CreateMultiEscrow { depositor, recipients, total_amount } => {
            crate::escrow::lemma_create_multi_escrow_tr(v, depositor, recipients, total_amount);
        },
        Op::ReleaseMultiEscrow { caller, escrow_id } => {
            crate::escrow::lemma_release_multi_escrow_tr(v, caller, escrow_id);
        },
        Op::RefundMultiEscrow { caller, escrow_id } => {
            crate::escrow::lemma_refund_multi_escrow_tr(v, caller, escrow_id);
        },
        Op::CreateSplit { sender, recipients, total_amount } => {
            crate::splitter::lemma_create_split_tr(v, sender, recipients, total_amount);
        },
        Op::Distribute { caller, split_id } => {
            crate::splitter::lemma_distribute_tr(v, caller, split_id);
        },
        Op::OpenDispute { caller, escrow_id, resolver } => {
            crate::dispute::lemma_open_dispute_tr(v, caller, escrow_id, resolver);
        },
        Op::ResolveDispute { caller, dispute_id, outcome } => {
            crate::dispute::lemma_resolve_dispute_tr(v, caller, dispute_id, outcome);
        },
        Op::SetupRecurring { payer, payee, amount, interval, iterations, now } => {
            lemma_setup_recurring_wf(v, payer, payee, amount, interval, iterations, now);
        },
        Op::ExecuteRecurring { id, now } => {
            lemma_execute_recurring_wf(v, id, now);
        },
        Op::CancelRecurring { caller, id } => {
            lemma_cancel_recurring_wf(v, caller, id);
        },
    }
}

/// Scheduling a recurring payment stores a record and moves no funds.
proof fn lemma_setup_recurring_wf(
    v: LedgerView,
    payer: u64,
    payee: u64,
    amount: i128,
    interval: u64,
    iterations: Option<u32>,
    now: u64,
)
    requires
        wf(v),
    ensures
        wf_recurring(setup_recurring_tr(v.recurring, v.balances, payer, payee, amount, interval,
            iterations, now).0),
{
    let recs = v.recurring;
    let (recs2, r) = setup_recurring_tr(recs, v.balances, payer, payee, amount, interval,
        iterations, now);
    if r is Ok {
        let id = (recs.len() + 1) as u32;
        let p = crate::storage_types::RecurringPayment {
            id,
            payer,
            payee,
            amount,
            interval,
            last_charged: now,
            iterations,
            completed: 0,
            active: true,
        };
        assert forall|i: int| 0 <= i < recs2.len() implies recs2[i].id == i + 1 && recs2[i].amount
            >= 0 by {
            if i < recs.len() {
                assert(recs2[i] == recs[i]);
            } else {
                assert(recs2[i] == p);
            }
        }
    }
}

/// Executing a recurring payment moves funds between two balances and
/// preserves their sum.
proof fn lemma_execute_recurring_wf(v: LedgerView, id: u32, now: u64)
    requires
        wf(v),
    ensures
        wf(apply_op(v, Op::ExecuteRecurring { id, now })),
        total_value(apply_op(v, Op::ExecuteRecurring { id, now })) == total_value(v),
{
    let (recs2, bals2, r) = execute_recurring_tr(v.recurring, v.balances, id, now);
    if r is Ok {
        let p = v.recurring[id - 1];
        crate::model::lemma_bal_le_sum(v.balances, p.payer);
        crate::contract::lemma_move_bal(v.balances, p.payer, p.payee, p.amount);
        let p2 = crate::storage_types::RecurringPayment {
            last_charged: now,
            completed: (p.completed + 1) as u32,
            ..p
        };
        assert forall|i: int| 0 <= i < recs2.len() implies recs2[i].id == i + 1 && recs2[i].amount
            >= 0 by {
            if i != id - 1 {
                assert(recs2[i] == v.recurring[i]);
            } else {
                assert(recs2[i] == p2);
            }
        }
    }
}

/// Cancelling a recurring payment flips its active flag and moves no funds.
proof fn lemma_cancel_recurring_wf(v: LedgerView, caller: u64, id: u32)
    requires
        wf(v),
    ensures
        wf_recurring(cancel_recurring_tr(v.recurring, caller, id).0),
{
    let recs = v.recurring;
    let (recs2, r) = cancel_recurring_tr(recs, caller, id);
    if r is Ok {
        let p2 = crate::storage_types::RecurringPayment { active: false, ..recs[id - 1] };
        assert forall|i: int| 0 <= i < recs2.len() implies recs2[i].id == i + 1 && recs2[i].amount
            >= 0 by {
            if i != id - 1 {
                assert(recs2[i] == recs[i]);
            } else {
                assert(recs2[i] == p2);
            }
        }
    }
}

/// The state after a sequence of operations, applied in order.
pub open spec fn apply_ops(v: LedgerView, ops: Seq<Op>) -> LedgerView
    decreases ops.len(),
{
    if ops.len() == 0 {
        v
    } else {
        apply_ops(apply_op(v, ops[0]), ops.drop_first())
    }
}

/// The total supply change of a sequence of operations, applied in order.
pub open spec fn supply_deltas(v: LedgerView, ops: Seq<Op>) -> int
    decreases ops.len(),
{
    if ops.len() == 0 {
        0
    } else {
        supply_delta(v, ops[0]) + supply_deltas(apply_op(v, ops[0]), ops.drop_first())
    }
}

/// Conservation law: over any sequence of operations, from any well-formed
/// state, the total of all balances plus all funds locked in open escrows
/// and splits changes by exactly the minted amounts minus the burned and
/// clawed-back amounts, and the invariant is preserved throughout.
pub proof fn lemma_conservation(v: LedgerView, ops: Seq<Op>)
    requires
        wf(v),
    ensures
        wf(apply_ops(v, ops)),
        total_value(apply_ops(v, ops)) == total_value(v) + supply_deltas(v, ops),
    decreases ops.len(),
{
    if ops.len() > 0 {
        lemma_op_conserves(v, ops[0]);
        lemma_conservation(apply_op(v, ops[0]), ops.drop_first());
    }
}

/// Conservation law, special case: a sequence without mint, burn or
/// clawback operations leaves the total of all balances plus all locked
/// funds exactly unchanged.
pub proof fn lemma_conservation_without_supply_ops(v: LedgerView, ops: Seq<Op>)
    requires
        wf(v),
        forall|i: int| 0 <= i < ops.len() ==> !changes_supply(#[trigger] ops[i]),
    ensures
        wf(apply_ops(v, ops)),
        total_value(apply_ops(v, ops)) == total_value(v),
    decreases ops.len(),
{
    if ops.len() > 0 {
        lemma_op_conserves(v, ops[0]);
        assert forall|i: int| 0 <= i < ops.drop_first().len() implies !changes_supply(
            #[trigger] ops.drop_first()[i],
        ) by {
            assert(ops.drop_first()[i] == ops[i + 1]);
        }
        lemma_conservation_without_supply_ops(apply_op(v, ops[0]), ops.drop_first());
    }
}

/// Idempotence of terminal transitions: on an escrow that is already
/// settled, release, refund and expiry all fail with `AlreadySettled`, for
/// every caller and at every time, and change nothing.
pub proof fn lemma_settled_is_terminal(v: LedgerView, escrow_id: u32, caller: u64, now: u64)
    requires
        1 <= escrow_id <= v.escrows.len(),
        v.escrows[escrow_id - 1].released || v.escrows[escrow_id - 1].refunded,
    ensures
        release_escrow_tr(v, caller, escrow_id, now) == (v, Err::<(), Error>(Error::AlreadySettled)),
        refund_escrow_tr(v, caller, escrow_id) == (v, Err::<(), Error>(Error::AlreadySettled)),
        expire_escrow_tr(v, caller, escrow_id, now) == (v, Err::<(), Error>(Error::AlreadySettled)),
{
}

/// Idempotence of terminal transitions, two-call form: after a successful
/// release or refund of an escrow, every further release, refund or expiry
/// of the same escrow — by any caller, at any time, in any cross
/// combination — fails with `AlreadySettled` and changes nothing.
pub proof fn lemma_terminal_transitions_final(
    v: LedgerView,
    caller: u64,
    escrow_id: u32,
    now: u64,
    first_is_release: bool,
    caller2: u64,
    now2: u64,
)
    requires
        wf(v),
        first_is_release ==> release_escrow_tr(v, caller, escrow_id, now).1 is Ok,
        !first_is_release ==> refund_escrow_tr(v, caller, escrow_id).1 is Ok,
    ensures
        ({
            let v1 = if first_is_release {
                release_escrow_tr(v, caller, escrow_id, now).0
            } else {
                refund_escrow_tr(v, caller, escrow_id).0
            };
            &&& release_escrow_tr(v1, caller2, escrow_id, now2) == (
                v1,
                Err::<(), Error>(Error::AlreadySettled),
            )
            &&& refund_escrow_tr(v1, caller2, escrow_id) == (
                v1,
                Err::<(), Error>(Error::AlreadySettled),
            )
            &&& expire_escrow_tr(v1, caller2, escrow_id, now2) == (
                v1,
                Err::<(), Error>(Error::AlreadySettled),
            )
        }),
{
    let v1 = if first_is_release {
        release_escrow_tr(v, caller, escrow_id, now).0
    } else {
        refund_escrow_tr(v, caller, escrow_id).0
    };
    let i = escrow_id - 1;
    assert(v1.escrows[i].released || v1.escrows[i].refunded);
    assert(v1.escrows.len() == v.escrows.len());
    lemma_settled_is_terminal(v1, escrow_id, caller2, now2);
}

/// The same finality for multi-recipient escrows: once released or
/// refunded, both settlement paths fail with `AlreadySettled` and change
/// nothing.
pub proof fn lemma_multi_settled_is_terminal(v: LedgerView, escrow_id: u32, caller: u64)
    requires
        1 <= escrow_id <= v.multis.len(),
        v.multis[escrow_id - 1].released || v.multis[escrow_id - 1].refunded,
    ensures
        release_multi_escrow_tr(v, caller, escrow_id) == (
            v,
            Err::<(), Error>(Error::AlreadySettled),
        ),
        refund_multi_escrow_tr(v, caller, escrow_id) == (
            v,
            Err::<(), Error>(Error::AlreadySettled),
        ),
{
}

/// Allowance expiry law: an expiration ledger already in the past cannot be
/// stored — `approve` fails with `InvalidExpiration` and changes nothing —
/// and while the stored allowance of a pair is absent or expired, any spend
/// through it fails with `AllowanceExpired` (for an unfrozen owner and a
/// non-negative amount; a spend of an absent allowance reads expiration 0,
/// which any positive ledger time has passed).
pub proof fn lemma_allowance_expiry(
    v: LedgerView,
    from: u64,
    spender: u64,
    set_amount: i128,
    expiration_ledger: u64,
    spend_to: u64,
    amount: i128,
    now: u64,
)
    requires
        wf(v),
        expiration_ledger < now,
        !frozen_of(v.balances, from),
        amount >= 0,
        ({
            let k = AllowanceDataKey { from, spender };
            allow_of(v.allowances, k) is None || allow_of(v.allowances, k)->0.expiration_ledger
                < now
        }),
    ensures
        approve_tr(v, from, spender, set_amount, expiration_ledger, now) == (
            v,
            Err::<(), Error>(Error::InvalidExpiration),
        ),
        transfer_from_tr(v, spender, from, spend_to, amount, now).1 == Err::<
            (),
            Error,
        >(Error::AllowanceExpired),
        burn_from_tr(v, spender, from, amount, now).1 == Err::<(), Error>(Error::AllowanceExpired),
{
    let k = AllowanceDataKey { from, spender };
    let a = crate::allowance::effective_allowance(v.allowances, k, now);
    assert(a.expiration_ledger < now);
}

} // verus!
