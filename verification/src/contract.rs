//! The engine state and the token-level operations: initialization, admin
//! rotation, freezing, minting, burning, transfers and approvals.

use vstd::prelude::*;

use crate::allowance::{effective_allowance, Allowances};
use crate::balance::Balances;
use crate::errors::Error;
use crate::model::{
    bal_of, frozen_of, lemma_bal_le_sum, lemma_set_entry, set_bal, set_frozen, share_sum, sum_bal,
    wf, write_allow, LedgerView,
};
use crate::storage_types::{
    AllowanceDataKey, AllowanceValue, Dispute, EscrowRecord, MultiEscrowRecord, MultiEscrowView,
    RecurringPayment, SplitRecord, SplitView, TokenMetadata,
};

verus! {

/// Image of a stored multi-escrow sequence.
pub open spec fn multis_view(s: Seq<MultiEscrowRecord>) -> Seq<MultiEscrowView> {
    s.map_values(|m: MultiEscrowRecord| m@)
}

/// Image of a stored split sequence.
pub open spec fn splits_view(s: Seq<SplitRecord>) -> Seq<SplitView> {
    s.map_values(|p: SplitRecord| p@)
}

/// The value-custody engine: the balance and allowance ledger together with
/// every conditional-hold record and the funds the engine itself holds in
/// custody while they are open.
pub struct VeritixToken {
    pub admin: Option<u64>,
    pub metadata: Option<TokenMetadata>,
    pub balances: Balances,
    pub allowances: Allowances,
    pub escrows: Vec<EscrowRecord>,
    pub multi_escrows: Vec<MultiEscrowRecord>,
    pub splits: Vec<SplitRecord>,
    pub disputes: Vec<Dispute>,
    pub recurring: crate::recurring::RecurringPayments,
    pub custodial: i128,
    pub supply: i128,
}

impl View for VeritixToken {
    type V = LedgerView;

    open spec fn view(&self) -> LedgerView {
        LedgerView {
            admin: self.admin,
            metadata: self.metadata,
            balances: self.balances@,
            allowances: self.allowances@,
            escrows: self.escrows@,
            multis: multis_view(self.multi_escrows@),
            splits: splits_view(self.splits@),
            disputes: self.disputes@,
            recurring: self.recurring@,
            custodial: self.custodial as int,
            supply: self.supply as int,
        }
    }
}

/// A freshly deployed engine: uninitialized, with no records and no funds.
pub open spec fn initial_ledger() -> LedgerView {
    LedgerView {
        admin: None,
        metadata: None,
        balances: Seq::empty(),
        allowances: Seq::empty(),
        escrows: Seq::empty(),
        multis: Seq::empty(),
        splits: Seq::empty(),
        disputes: Seq::empty(),
        recurring: Seq::empty(),
        custodial: 0,
        supply: 0,
    }
}

/// Sets the admin and the token metadata, once. Fails with `InvalidState`
/// if the engine is already initialized.
pub open spec fn initialize_tr(
    v: LedgerView,
    admin: u64,
    metadata: TokenMetadata,
) -> (LedgerView, Result<(), Error>) {
    if v.admin is Some {
        (v, Err(Error::InvalidState))
    } else {
        (LedgerView { admin: Some(admin), metadata: Some(metadata), ..v }, Ok(()))
    }
}

/// Rotates the admin. Fails with `Unauthorized` unless the caller is the
/// current admin.
pub open spec fn transfer_admin_tr(v: LedgerView, caller: u64, new_admin: u64) -> (
    LedgerView,
    Result<(), Error>,
) {
    if v.admin != Some(caller) {
        (v, Err(Error::Unauthorized))
    } else {
        (LedgerView { admin: Some(new_admin), ..v }, Ok(()))
    }
}

/// Sets or clears the freeze flag of `target`. Admin only.
pub open spec fn set_frozen_tr(v: LedgerView, caller: u64, target: u64, f: bool) -> (
    LedgerView,
    Result<(), Error>,
) {
    if v.admin != Some(caller) {
        (v, Err(Error::Unauthorized))
    } else {
        (LedgerView { balances: set_frozen(v.balances, target, f), ..v }, Ok(()))
    }
}

/// Freezing preserves the invariant and every balance, hence the conserved
/// total.
pub proof fn lemma_set_frozen_tr(v: LedgerView, caller: u64, target: u64, f: bool)
    requires
        wf(v),
    ensures
        wf(set_frozen_tr(v, caller, target, f).0),
        crate::model::total_value(set_frozen_tr(v, caller, target, f).0)
            == crate::model::total_value(v),
{
    if v.admin == Some(caller) {
        let e = crate::storage_types::AccountEntry {
            addr: target,
            amount: bal_of(v.balances, target) as i128,
            frozen: f,
        };
        crate::model::lemma_idx_of_bal(v.balances, target);
        lemma_set_entry(v.balances, e);
    }
}

/// Mints `amount` new tokens to `to`. Admin only; fails with `Overflow` if
/// the total supply would exceed `i128::MAX`.
pub open spec fn mint_tr(v: LedgerView, caller: u64, to: u64, amount: i128) -> (
    LedgerView,
    Result<(), Error>,
) {
    if v.admin != Some(caller) {
        (v, Err(Error::Unauthorized))
    } else if amount < 0 {
        (v, Err(Error::InvalidAmount))
    } else if v.supply + amount > i128::MAX {
        (v, Err(Error::Overflow))
    } else {
        (
            LedgerView {
                balances: set_bal(v.balances, to, (bal_of(v.balances, to) + amount) as i128),
                supply: v.supply + amount,
                ..v
            },
            Ok(()),
        )
    }
}

/// Minting preserves the invariant and raises the conserved total by exactly
/// the minted amount.
pub proof fn lemma_mint_tr(v: LedgerView, caller: u64, to: u64, amount: i128)
    requires
        wf(v),
    ensures
        wf(mint_tr(v, caller, to, amount).0),
        crate::model::total_value(mint_tr(v, caller, to, amount).0) == crate::model::total_value(v)
            + if mint_tr(v, caller, to, amount).1 is Ok {
            amount as int
        } else {
            0
        },
        mint_tr(v, caller, to, amount).1 is Ok ==> bal_of(v.balances, to) + amount <= i128::MAX,
{
    if v.admin == Some(caller) && amount >= 0 && v.supply + amount <= i128::MAX {
        lemma_bal_le_sum(v.balances, to);
        let e = crate::storage_types::AccountEntry {
            addr: to,
            amount: (bal_of(v.balances, to) + amount) as i128,
            frozen: frozen_of(v.balances, to),
        };
        lemma_set_entry(v.balances, e);
    }
}

/// Burns `amount` from `from`. Fails with `AccountFrozen` on a frozen
/// account, `InvalidAmount` on a negative amount and `InsufficientBalance`
/// when the balance is smaller.
pub open spec fn burn_tr(v: LedgerView, from: u64, amount: i128) -> (LedgerView, Result<(), Error>) {
    if frozen_of(v.balances, from) {
        (v, Err(Error::AccountFrozen))
    } else if amount < 0 {
        (v, Err(Error::InvalidAmount))
    } else if bal_of(v.balances, from) < amount {
        (v, Err(Error::InsufficientBalance))
    } else {
        (
            LedgerView {
                balances: set_bal(v.balances, from, (bal_of(v.balances, from) - amount) as i128),
                supply: v.supply - amount,
                ..v
            },
            Ok(()),
        )
    }
}

/// Burning preserves the invariant and lowers the conserved total by exactly
/// the burned amount.
pub proof fn lemma_burn_tr(v: LedgerView, from: u64, amount: i128)
    requires
        wf(v),
    ensures
        wf(burn_tr(v, from, amount).0),
        crate::model::total_value(burn_tr(v, from, amount).0) == crate::model::total_value(v)
            - if burn_tr(v, from, amount).1 is Ok {
            amount as int
        } else {
            0
        },
        burn_tr(v, from, amount).1 is Ok ==> v.supply - amount >= 0,
{
    if !frozen_of(v.balances, from) && amount >= 0 && bal_of(v.balances, from) >= amount {
        lemma_bal_le_sum(v.balances, from);
        let e = crate::storage_types::AccountEntry {
            addr: from,
            amount: (bal_of(v.balances, from) - amount) as i128,
            frozen: frozen_of(v.balances, from),
        };
        lemma_set_entry(v.balances, e);
    }
}

/// Admin-only clawback: reclaims `amount` from `from` and destroys it, as a
/// burn would, ignoring the freeze flag.
pub open spec fn clawback_tr(v: LedgerView, caller: u64, from: u64, amount: i128) -> (
    LedgerView,
    Result<(), Error>,
) {
    if v.admin != Some(caller) {
        (v, Err(Error::Unauthorized))
    } else if amount < 0 {
        (v, Err(Error::InvalidAmount))
    } else if bal_of(v.balances, from) < amount {
        (v, Err(Error::InsufficientBalance))
    } else {
        (
            LedgerView {
                balances: set_bal(v.balances, from, (bal_of(v.balances, from) - amount) as i128),
                supply: v.supply - amount,
                ..v
            },
            Ok(()),
        )
    }
}

/// Clawback preserves the invariant and lowers the conserved total by
/// exactly the reclaimed amount.
pub proof fn lemma_clawback_tr(v: LedgerView, caller: u64, from: u64, amount: i128)
    requires
        wf(v),
    ensures
        wf(clawback_tr(v, caller, from, amount).0),
        crate::model::total_value(clawback_tr(v, caller, from, amount).0)
            == crate::model::total_value(v) - if clawback_tr(v, caller, from, amount).1 is Ok {
            amount as int
        } else {
            0
        },
        clawback_tr(v, caller, from, amount).1 is Ok ==> v.supply - amount >= 0,
{
    if v.admin == Some(caller) && amount >= 0 && bal_of(v.balances, from) >= amount {
        lemma_bal_le_sum(v.balances, from);
        let e = crate::storage_types::AccountEntry {
            addr: from,
            amount: (bal_of(v.balances, from) - amount) as i128,
            frozen: frozen_of(v.balances, from),
        };
        lemma_set_entry(v.balances, e);
    }
}

/// The balance store after moving `amount` from `from` to `to`: the debit is
/// fully validated before the credit.
pub open spec fn move_bal(s: Seq<crate::storage_types::AccountEntry>, from: u64, to: u64, amount: i128) -> Seq<
    crate::storage_types::AccountEntry,
> {
    let s1 = set_bal(s, from, (bal_of(s, from) - amount) as i128);
    set_bal(s1, to, (bal_of(s1, to) + amount) as i128)
}

/// Moving a validated amount preserves well-formedness, the sum of balances
/// and every freeze flag, and moves exactly `amount` between the two
/// balances.
pub proof fn lemma_move_bal(s: Seq<crate::storage_types::AccountEntry>, from: u64, to: u64, amount: i128)
    requires
        crate::model::wf_bal(s),
        0 <= amount <= bal_of(s, from),
        sum_bal(s) <= i128::MAX,
    ensures
        crate::model::wf_bal(move_bal(s, from, to, amount)),
        sum_bal(move_bal(s, from, to, amount)) == sum_bal(s),
        ({
            let s1 = set_bal(s, from, (bal_of(s, from) - amount) as i128);
            0 <= bal_of(s1, to) && bal_of(s1, to) + amount <= i128::MAX
        }),
        from != to ==> bal_of(move_bal(s, from, to, amount), from) == bal_of(s, from) - amount,
        from != to ==> bal_of(move_bal(s, from, to, amount), to) == bal_of(s, to) + amount,
        from == to ==> bal_of(move_bal(s, from, to, amount), to) == bal_of(s, to),
        forall|b: u64|
            b != from && b != to ==> bal_of(move_bal(s, from, to, amount), b) == bal_of(s, b),
        forall|b: u64| frozen_of(move_bal(s, from, to, amount), b) == frozen_of(s, b),
{
    lemma_bal_le_sum(s, from);
    let e1 = crate::storage_types::AccountEntry {
        addr: from,
        amount: (bal_of(s, from) - amount) as i128,
        frozen: frozen_of(s, from),
    };
    lemma_set_entry(s, e1);
    let s1 = set_bal(s, from, (bal_of(s, from) - amount) as i128);
    lemma_bal_le_sum(s1, to);
    let e2 = crate::storage_types::AccountEntry {
        addr: to,
        amount: (bal_of(s1, to) + amount) as i128,
        frozen: frozen_of(s1, to),
    };
    lemma_set_entry(s1, e2);
}

/// Standard transfer between two addresses. Fails with `AccountFrozen` when
/// the source is frozen, `InvalidAmount` on a negative amount and
/// `InsufficientBalance` when the source balance is smaller.
pub open spec fn transfer_tr(v: LedgerView, from: u64, to: u64, amount: i128) -> (
    LedgerView,
    Result<(), Error>,
) {
    if frozen_of(v.balances, from) {
        (v, Err(Error::AccountFrozen))
    } else if amount < 0 {
        (v, Err(Error::InvalidAmount))
    } else if bal_of(v.balances, from) < amount {
        (v, Err(Error::InsufficientBalance))
    } else {
        (LedgerView { balances: move_bal(v.balances, from, to, amount), ..v }, Ok(()))
    }
}

/// A transfer preserves the invariant and the conserved total.
pub proof fn lemma_transfer_tr(v: LedgerView, from: u64, to: u64, amount: i128)
    requires
        wf(v),
    ensures
        wf(transfer_tr(v, from, to, amount).0),
        crate::model::total_value(transfer_tr(v, from, to, amount).0)
            == crate::model::total_value(v),
{
    if !frozen_of(v.balances, from) && amount >= 0 && bal_of(v.balances, from) >= amount {
        lemma_bal_le_sum(v.balances, from);
        lemma_move_bal(v.balances, from, to, amount);
    }
}

/// Transfer on behalf of an owner, spending the caller's allowance. The
/// allowance is checked and decremented in place; the debit is validated
/// before any state changes.
pub open spec fn transfer_from_tr(
    v: LedgerView,
    spender: u64,
    from: u64,
    to: u64,
    amount: i128,
    now: u64,
) -> (LedgerView, Result<(), Error>) {
    let k = AllowanceDataKey { from, spender };
    let a = effective_allowance(v.allowances, k, now);
    if frozen_of(v.balances, from) {
        (v, Err(Error::AccountFrozen))
    } else if amount < 0 {
        (v, Err(Error::InvalidAmount))
    } else if a.expiration_ledger < now {
        (v, Err(Error::AllowanceExpired))
    } else if a.amount < amount {
        (v, Err(Error::InsufficientAllowance))
    } else if bal_of(v.balances, from) < amount {
        (v, Err(Error::InsufficientBalance))
    } else {
        (
            LedgerView {
                balances: move_bal(v.balances, from, to, amount),
                allowances: write_allow(
                    v.allowances,
                    k,
                    AllowanceValue {
                        amount: (a.amount - amount) as i128,
                        expiration_ledger: a.expiration_ledger,
                    },
                ),
                ..v
            },
            Ok(()),
        )
    }
}

/// A transfer-from preserves the invariant and the conserved total.
pub proof fn lemma_transfer_from_tr(
    v: LedgerView,
    spender: u64,
    from: u64,
    to: u64,
    amount: i128,
    now: u64,
)
    requires
        wf(v),
    ensures
        wf(transfer_from_tr(v, spender, from, to, amount, now).0),
        crate::model::total_value(transfer_from_tr(v, spender, from, to, amount, now).0)
            == crate::model::total_value(v),
{
    let k = AllowanceDataKey { from, spender };
    let a = effective_allowance(v.allowances, k, now);
    if !frozen_of(v.balances, from) && amount >= 0 && a.expiration_ledger >= now && a.amount
        >= amount && bal_of(v.balances, from) >= amount {
        lemma_bal_le_sum(v.balances, from);
        lemma_move_bal(v.balances, from, to, amount);
        crate::model::lemma_write_allow(
            v.allowances,
            k,
            AllowanceValue {
                amount: (a.amount - amount) as i128,
                expiration_ledger: a.expiration_ledger,
            },
        );
    }
}

/// Sets an allowance. Fails with `InvalidExpiration` if the expiration is in
/// the past and `InvalidAmount` on a negative amount; an amount of 0 removes
/// the record.
pub open spec fn approve_tr(
    v: LedgerView,
    from: u64,
    spender: u64,
    amount: i128,
    expiration_ledger: u64,
    now: u64,
) -> (LedgerView, Result<(), Error>) {
    if expiration_ledger < now {
        (v, Err(Error::InvalidExpiration))
    } else if amount < 0 {
        (v, Err(Error::InvalidAmount))
    } else {
        (
            LedgerView {
                allowances: write_allow(
                    v.allowances,
                    AllowanceDataKey { from, spender },
                    AllowanceValue { amount, expiration_ledger },
                ),
                ..v
            },
            Ok(()),
        )
    }
}

/// An approval preserves the invariant and the conserved total.
pub proof fn lemma_approve_tr(
    v: LedgerView,
    from: u64,
    spender: u64,
    amount: i128,
    expiration_ledger: u64,
    now: u64,
)
    requires
        wf(v),
    ensures
        wf(approve_tr(v, from, spender, amount, expiration_ledger, now).0),
        crate::model::total_value(approve_tr(v, from, spender, amount, expiration_ledger, now).0)
            == crate::model::total_value(v),
{
    if expiration_ledger >= now && amount >= 0 {
        crate::model::lemma_write_allow(
            v.allowances,
            AllowanceDataKey { from, spender },
            AllowanceValue { amount, expiration_ledger },
        );
    }
}

/// Burns from an owner's account using the caller's allowance.
pub open spec fn burn_from_tr(
    v: LedgerView,
    spender: u64,
    from: u64,
    amount: i128,
    now: u64,
) -> (LedgerView, Result<(), Error>) {
    let k = AllowanceDataKey { from, spender };
    let a = effective_allowance(v.allowances, k, now);
    if frozen_of(v.balances, from) {
        (v, Err(Error::AccountFrozen))
    } else if amount < 0 {
        (v, Err(Error::InvalidAmount))
    } else if a.expiration_ledger < now {
        (v, Err(Error::AllowanceExpired))
    } else if a.amount < amount {
        (v, Err(Error::InsufficientAllowance))
    } else if bal_of(v.balances, from) < amount {
        (v, Err(Error::InsufficientBalance))
    } else {
        (
            LedgerView {
                balances: set_bal(v.balances, from, (bal_of(v.balances, from) - amount) as i128),
                allowances: write_allow(
                    v.allowances,
                    k,
                    AllowanceValue {
                        amount: (a.amount - amount) as i128,
                        expiration_ledger: a.expiration_ledger,
                    },
                ),
                supply: v.supply - amount,
                ..v
            },
            Ok(()),
        )
    }
}

/// A burn-from preserves the invariant and lowers the conserved total by
/// exactly the burned amount.
pub proof fn lemma_burn_from_tr(v: LedgerView, spender: u64, from: u64, amount: i128, now: u64)
    requires
        wf(v),
    ensures
        wf(burn_from_tr(v, spender, from, amount, now).0),
        crate::model::total_value(burn_from_tr(v, spender, from, amount, now).0)
            == crate::model::total_value(v) - if burn_from_tr(v, spender, from, amount, now).1
            is Ok {
            amount as int
        } else {
            0
        },
        burn_from_tr(v, spender, from, amount, now).1 is Ok ==> v.supply - amount >= 0,
{
    let k = AllowanceDataKey { from, spender };
    let a = effective_allowance(v.allowances, k, now);
    if !frozen_of(v.balances, from) && amount >= 0 && a.expiration_ledger >= now && a.amount
        >= amount && bal_of(v.balances, from) >= amount {
        lemma_bal_le_sum(v.balances, from);
        let e = crate::storage_types::AccountEntry {
            addr: from,
            amount: (bal_of(v.balances, from) - amount) as i128,
            frozen: frozen_of(v.balances, from),
        };
        lemma_set_entry(v.balances, e);
        crate::model::lemma_write_allow(
            v.allowances,
            k,
            AllowanceValue {
                amount: (a.amount - amount) as i128,
                expiration_ledger: a.expiration_ledger,
            },
        );
    }
}

impl VeritixToken {
    /// The engine's invariant: stores are unique-keyed and non-negative,
    /// record ids are dense, the custodial balance equals the locked total
    /// and the supply equals balances plus custody.
    pub open spec fn wf(&self) -> bool {
        wf(self@)
    }

    /// A freshly deployed engine.
    pub fn new() -> (r: VeritixToken)
        ensures
            r@ == initial_ledger(),
            r.wf(),
    {
        let r = VeritixToken {
            admin: None,
            metadata: None,
            balances: Balances::new(),
            allowances: Allowances::new(),
            escrows: Vec::new(),
            multi_escrows: Vec::new(),
            splits: Vec::new(),
            disputes: Vec::new(),
            recurring: crate::recurring::RecurringPayments::new(),
            custodial: 0,
            supply: 0,
        };
        proof {
            assert(r@ =~~= initial_ledger());
        }
        r
    }

    /// Sets admin and metadata. Fails with `InvalidState` if already
    /// initialized.
    pub fn initialize(&mut self, admin: u64, decimal: u32, name: String, symbol: String) -> (r:
        Result<(), Error>)
        requires
            old(self).wf(),
        ensures
            final(self).wf(),
            ({
                let m = TokenMetadata { decimal, name, symbol };
                final(self)@ == initialize_tr(old(self)@, admin, m).0 && r == initialize_tr(
                    old(self)@,
                    admin,
                    m,
                ).1
            }),
    {
        if self.admin.is_some() {
            return Err(Error::InvalidState);
        }
        self.admin = Some(admin);
        self.metadata = Some(TokenMetadata { decimal, name, symbol });
        proof {
            let m = TokenMetadata { decimal, name, symbol };
            assert(self@ =~~= initialize_tr(old(self)@, admin, m).0);
        }
        Ok(())
    }

    /// The current admin, if the engine is initialized.
    pub fn read_admin(&self) -> (r: Option<u64>)
        ensures
            r == self@.admin,
    {
        self.admin
    }

    /// Whether the engine has been initialized with an admin.
    pub fn has_admin(&self) -> (r: bool)
        ensures
            r == (self@.admin is Some),
    {
        self.admin.is_some()
    }

    /// Writes the admin record directly, without an authorization check.
    /// The authorized path is `transfer_admin`.
    pub fn write_admin(&mut self, id: u64)
        requires
            old(self).wf(),
        ensures
            final(self).wf(),
            final(self)@ == (LedgerView { admin: Some(id), ..old(self)@ }),
    {
        self.admin = Some(id);
        proof {
            assert(self@ =~~= (LedgerView { admin: Some(id), ..old(self)@ }));
        }
    }

    /// Verifies that `caller` is the current admin.
    pub fn check_admin(&self, caller: u64) -> (r: Result<(), Error>)
        ensures
            r == if self@.admin == Some(caller) {
                Ok::<(), Error>(())
            } else {
                Err::<(), Error>(Error::Unauthorized)
            },
    {
        match self.admin {
            Some(a) if a == caller => Ok(()),
            _ => Err(Error::Unauthorized),
        }
    }

    /// Rotates the stored admin to `new_admin`. Must be called by the
    /// current admin; fails with `Unauthorized` otherwise.
    pub fn transfer_admin(&mut self, caller: u64, new_admin: u64) -> (r: Result<(), Error>)
        requires
            old(self).wf(),
        ensures
            final(self).wf(),
            final(self)@ == transfer_admin_tr(old(self)@, caller, new_admin).0,
            r == transfer_admin_tr(old(self)@, caller, new_admin).1,
    {
        let check = self.check_admin(caller);
        if check.is_err() {
            return Err(Error::Unauthorized);
        }
        self.admin = Some(new_admin);
        proof {
            assert(self@ =~~= transfer_admin_tr(old(self)@, caller, new_admin).0);
        }
        Ok(())
    }

    /// Rotates the contract administrator: the same operation as
    /// `transfer_admin`.
    pub fn set_admin(&mut self, caller: u64, new_admin: u64) -> (r: Result<(), Error>)
        requires
            old(self).wf(),
        ensures
            final(self).wf(),
            final(self)@ == transfer_admin_tr(old(self)@, caller, new_admin).0,
            r == transfer_admin_tr(old(self)@, caller, new_admin).1,
    {
        self.transfer_admin(caller, new_admin)
    }

    /// Whether outgoing movement from `addr` is frozen.
    pub fn is_frozen(&self, addr: u64) -> (r: bool)
        ensures
            r == frozen_of(self@.balances, addr),
    {
        self.balances.is_frozen(addr)
    }

    /// Freezes `target`: outgoing transfers and burns from it fail until it
    /// is unfrozen. Admin only.
    pub fn freeze(&mut self, caller: u64, target: u64) -> (r: Result<(), Error>)
        requires
            old(self).wf(),
        ensures
            final(self).wf(),
            final(self)@ == set_frozen_tr(old(self)@, caller, target, true).0,
            r == set_frozen_tr(old(self)@, caller, target, true).1,
    {
        proof {
            lemma_set_frozen_tr(old(self)@, caller, target, true);
        }
        let check = self.check_admin(caller);
        if check.is_err() {
            return Err(Error::Unauthorized);
        }
        self.balances.set_frozen_flag(target, true);
        proof {
            assert(self@ =~~= set_frozen_tr(old(self)@, caller, target, true).0);
        }
        Ok(())
    }

    /// Clears the freeze flag of `target`. Admin only.
    pub fn unfreeze(&mut self, caller: u64, target: u64) -> (r: Result<(), Error>)
        requires
            old(self).wf(),
        ensures
            final(self).wf(),
            final(self)@ == set_frozen_tr(old(self)@, caller, target, false).0,
            r == set_frozen_tr(old(self)@, caller, target, false).1,
    {
        proof {
            lemma_set_frozen_tr(old(self)@, caller, target, false);
        }
        let check = self.check_admin(caller);
        if check.is_err() {
            return Err(Error::Unauthorized);
        }
        self.balances.set_frozen_flag(target, false);
        proof {
            assert(self@ =~~= set_frozen_tr(old(self)@, caller, target, false).0);
        }
        Ok(())
    }

    /// The balance of `id`, 0 for unknown addresses.
    pub fn balance(&self, id: u64) -> (r: i128)
        ensures
            r as int == bal_of(self@.balances, id),
    {
        self.balances.read_balance(id)
    }

    /// The allowance of (`from`, `spender`) as of ledger `now`, lazily
    /// expired.
    pub fn allowance(&self, from: u64, spender: u64, now: u64) -> (r: i128)
        ensures
            r == effective_allowance(self@.allowances, AllowanceDataKey { from, spender }, now).amount,
    {
        self.allowances.read_allowance(from, spender, now).amount
    }

    /// The funds the engine itself holds in custody for open escrows and
    /// splits.
    pub fn custodial_balance(&self) -> (r: i128)
        ensures
            r as int == self@.custodial,
    {
        self.custodial
    }

    /// Total minted minus total burned: equals all balances plus custody.
    pub fn total_supply(&self) -> (r: i128)
        ensures
            r as int == self@.supply,
    {
        self.supply
    }

    /// Writes the token metadata record directly, without an authorization
    /// check. The authorized path is `initialize`.
    pub fn write_metadata(&mut self, metadata: TokenMetadata)
        requires
            old(self).wf(),
        ensures
            final(self).wf(),
            final(self)@ == (LedgerView { metadata: Some(metadata), ..old(self)@ }),
    {
        self.metadata = Some(metadata);
        proof {
            assert(self@ =~~= (LedgerView { metadata: Some(metadata), ..old(self)@ }));
        }
    }

    /// The stored token metadata, or `None` before initialization.
    pub fn read_metadata(&self) -> (r: Option<TokenMetadata>)
        ensures
            r == self@.metadata,
    {
        match &self.metadata {
            Some(m) => Some(
                TokenMetadata { decimal: m.decimal, name: m.name.clone(), symbol: m.symbol.clone() },
            ),
            None => None,
        }
    }

    /// The token's decimal count, or 0 before initialization.
    pub fn decimals(&self) -> (r: u32)
        ensures
            r == match self@.metadata {
                Some(m) => m.decimal,
                None => 0,
            },
    {
        match &self.metadata {
            Some(m) => m.decimal,
            None => 0,
        }
    }

    /// The token's name, or empty before initialization.
    pub fn name(&self) -> (r: String)
        ensures
            r@ == match self@.metadata {
                Some(m) => m.name@,
                None => Seq::<char>::empty(),
            },
    {
        match &self.metadata {
            Some(m) => m.name.clone(),
            None => String::new(),
        }
    }

    /// The token's symbol, or empty before initialization.
    pub fn symbol(&self) -> (r: String)
        ensures
            r@ == match self@.metadata {
                Some(m) => m.symbol@,
                None => Seq::<char>::empty(),
            },
    {
        match &self.metadata {
            Some(m) => m.symbol.clone(),
            None => String::new(),
        }
    }

    /// Admin-only. Mints new tokens to `to`; the total supply stays within
    /// `i128::MAX`.
    pub fn mint(&mut self, caller: u64, to: u64, amount: i128) -> (r: Result<(), Error>)
        requires
            old(self).wf(),
        ensures
            final(self).wf(),
            final(self)@ == mint_tr(old(self)@, caller, to, amount).0,
            r == mint_tr(old(self)@, caller, to, amount).1,
    {
        proof {
            lemma_mint_tr(old(self)@, caller, to, amount);
        }
        let check = self.check_admin(caller);
        if check.is_err() {
            return Err(Error::Unauthorized);
        }
        if amount < 0 {
            return Err(Error::InvalidAmount);
        }
        proof {
            lemma_bal_le_sum(self@.balances, to);
        }
        if amount > i128::MAX - self.supply {
            return Err(Error::Overflow);
        }
        let bal = self.balances.read_balance(to);
        self.balances.set_balance(to, bal + amount);
        self.supply = self.supply + amount;
        proof {
            assert(self@ =~~= mint_tr(old(self)@, caller, to, amount).0);
        }
        Ok(())
    }

    /// Caller burns their own tokens; fails on a frozen account.
    pub fn burn(&mut self, from: u64, amount: i128) -> (r: Result<(), Error>)
        requires
            old(self).wf(),
        ensures
            final(self).wf(),
            final(self)@ == burn_tr(old(self)@, from, amount).0,
            r == burn_tr(old(self)@, from, amount).1,
    {
        proof {
            lemma_burn_tr(old(self)@, from, amount);
        }
        if self.balances.is_frozen(from) {
            return Err(Error::AccountFrozen);
        }
        if amount < 0 {
            return Err(Error::InvalidAmount);
        }
        let bal = self.balances.read_balance(from);
        if bal < amount {
            return Err(Error::InsufficientBalance);
        }
        self.balances.set_balance(from, bal - amount);
        self.supply = self.supply - amount;
        proof {
            assert(self@ =~~= burn_tr(old(self)@, from, amount).0);
        }
        Ok(())
    }

    /// Admin-only. Reclaims tokens from an address and destroys them,
    /// ignoring the freeze flag.
    pub fn clawback(&mut self, caller: u64, from: u64, amount: i128) -> (r: Result<(), Error>)
        requires
            old(self).wf(),
        ensures
            final(self).wf(),
            final(self)@ == clawback_tr(old(self)@, caller, from, amount).0,
            r == clawback_tr(old(self)@, caller, from, amount).1,
    {
        proof {
            lemma_clawback_tr(old(self)@, caller, from, amount);
        }
        let check = self.check_admin(caller);
        if check.is_err() {
            return Err(Error::Unauthorized);
        }
        if amount < 0 {
            return Err(Error::InvalidAmount);
        }
        let bal = self.balances.read_balance(from);
        if bal < amount {
            return Err(Error::InsufficientBalance);
        }
        self.balances.set_balance(from, bal - amount);
        self.supply = self.supply - amount;
        proof {
            assert(self@ =~~= clawback_tr(old(self)@, caller, from, amount).0);
        }
        Ok(())
    }

    /// Standard token transfer between two addresses: the source is fully
    /// validated before the destination is credited.
    pub fn transfer(&mut self, from: u64, to: u64, amount: i128) -> (r: Result<(), Error>)
        requires
            old(self).wf(),
        ensures
            final(self).wf(),
            final(self)@ == transfer_tr(old(self)@, from, to, amount).0,
            r == transfer_tr(old(self)@, from, to, amount).1,
    {
        proof {
            lemma_transfer_tr(old(self)@, from, to, amount);
        }
        if self.balances.is_frozen(from) {
            return Err(Error::AccountFrozen);
        }
        if amount < 0 {
            return Err(Error::InvalidAmount);
        }
        let bal = self.balances.read_balance(from);
        if bal < amount {
            return Err(Error::InsufficientBalance);
        }
        proof {
            lemma_move_bal(old(self)@.balances, from, to, amount);
        }
        self.balances.set_balance(from, bal - amount);
        let bal_to = self.balances.read_balance(to);
        self.balances.set_balance(to, bal_to + amount);
        proof {
            assert(self@ =~~= transfer_tr(old(self)@, from, to, amount).0);
        }
        Ok(())
    }

    /// Transfer on behalf of an owner via the caller's allowance. All
    /// economic preconditions are validated before any state changes.
    pub fn transfer_from(
        &mut self,
        spender: u64,
        from: u64,
        to: u64,
        amount: i128,
        now: u64,
    ) -> (r: Result<(), Error>)
        requires
            old(self).wf(),
        ensures
            final(self).wf(),
            final(self)@ == transfer_from_tr(old(self)@, spender, from, to, amount, now).0,
            r == transfer_from_tr(old(self)@, spender, from, to, amount, now).1,
    {
        proof {
            lemma_transfer_from_tr(old(self)@, spender, from, to, amount, now);
        }
        if self.balances.is_frozen(from) {
            return Err(Error::AccountFrozen);
        }
        if amount < 0 {
            return Err(Error::InvalidAmount);
        }
        let a = self.allowances.read_allowance(from, spender, now);
        if a.expiration_ledger < now {
            return Err(Error::AllowanceExpired);
        }
        if a.amount < amount {
            return Err(Error::InsufficientAllowance);
        }
        let bal = self.balances.read_balance(from);
        if bal < amount {
            return Err(Error::InsufficientBalance);
        }
        proof {
            lemma_move_bal(old(self)@.balances, from, to, amount);
        }
        self.allowances.write_unchecked(
            AllowanceDataKey { from, spender },
            AllowanceValue { amount: a.amount - amount, expiration_ledger: a.expiration_ledger },
        );
        self.balances.set_balance(from, bal - amount);
        let bal_to = self.balances.read_balance(to);
        self.balances.set_balance(to, bal_to + amount);
        proof {
            assert(self@ =~~= transfer_from_tr(old(self)@, spender, from, to, amount, now).0);
        }
        Ok(())
    }

    /// Sets an allowance for a spender; an amount of 0 removes the record
    /// entirely.
    pub fn approve(
        &mut self,
        from: u64,
        spender: u64,
        amount: i128,
        expiration_ledger: u64,
        now: u64,
    ) -> (r: Result<(), Error>)
        requires
            old(self).wf(),
        ensures
            final(self).wf(),
            final(self)@ == approve_tr(old(self)@, from, spender, amount, expiration_ledger, now).0,
            r == approve_tr(old(self)@, from, spender, amount, expiration_ledger, now).1,
    {
        proof {
            lemma_approve_tr(old(self)@, from, spender, amount, expiration_ledger, now);
        }
        if expiration_ledger < now {
            return Err(Error::InvalidExpiration);
        }
        if amount < 0 {
            return Err(Error::InvalidAmount);
        }
        self.allowances.write_unchecked(
            AllowanceDataKey { from, spender },
            AllowanceValue { amount, expiration_ledger },
        );
        proof {
            assert(self@ =~~= approve_tr(
                old(self)@,
                from,
                spender,
                amount,
                expiration_ledger,
                now,
            ).0);
        }
        Ok(())
    }

    /// The ghost image that `from_parts` reconstructs from persisted
    /// records: custody and supply are recomputed from the records rather
    /// than trusted.
    pub open spec fn parts_view(
        admin: Option<u64>,
        metadata: Option<TokenMetadata>,
        balances: Seq<crate::storage_types::AccountEntry>,
        allowances: Seq<crate::storage_types::AllowanceEntry>,
        escrows: Seq<EscrowRecord>,
        multis: Seq<MultiEscrowView>,
        splits: Seq<SplitView>,
        disputes: Seq<Dispute>,
        recurring: Seq<RecurringPayment>,
    ) -> LedgerView {
        let locked = crate::model::escrows_locked(escrows) + crate::model::multis_locked(multis)
            + crate::model::splits_locked(splits);
        LedgerView {
            admin,
            metadata,
            balances,
            allowances,
            escrows,
            multis,
            splits,
            disputes,
            recurring,
            custodial: locked,
            supply: sum_bal(balances) + locked,
        }
    }

    /// Rebuilds the engine from persisted records, re-validating every
    /// invariant rather than trusting the loaded data, and recomputing the
    /// custodial balance and the supply from the records. Returns `None`
    /// exactly when the records do not form a well-formed state: a store
    /// invariant is broken, or the total value exceeds `i128::MAX`.
    pub fn from_parts(
        admin: Option<u64>,
        metadata: Option<TokenMetadata>,
        balances: Vec<crate::storage_types::AccountEntry>,
        allowances: Vec<crate::storage_types::AllowanceEntry>,
        escrows: Vec<EscrowRecord>,
        multi_escrows: Vec<MultiEscrowRecord>,
        splits: Vec<SplitRecord>,
        disputes: Vec<Dispute>,
        recurring: Vec<RecurringPayment>,
    ) -> (r: Option<VeritixToken>)
        ensures
            ({
                let v = Self::parts_view(admin, metadata, balances@, allowances@, escrows@,
                    multis_view(multi_escrows@), splits_view(splits@), disputes@, recurring@);
                match r {
                    Some(t) => t@ == v && t.wf(),
                    None => !(crate::model::wf_stores(v) && crate::model::total_value(v)
                        <= i128::MAX),
                }
            }),
    {
        let ghost v = Self::parts_view(admin, metadata, balances@, allowances@, escrows@,
            multis_view(multi_escrows@), splits_view(splits@), disputes@, recurring@);
        let ghost mv = multis_view(multi_escrows@);
        let ghost sv = splits_view(splits@);
        proof {
            assert(v.balances == balances@ && v.escrows == escrows@ && v.multis == mv && v.splits
                == sv && v.allowances == allowances@ && v.disputes == disputes@ && v.recurring
                == recurring@);
        }
        let bals = match Balances::from_entries(balances) {
            Ok(b) => b,
            Err(_) => {
                return None;
            },
        };
        let allws = match Allowances::from_entries(allowances) {
            Ok(a) => a,
            Err(_) => {
                return None;
            },
        };
        let recs = match crate::recurring::RecurringPayments::from_records(recurring) {
            Ok(s) => s,
            Err(_) => {
                return None;
            },
        };
        // Validate the escrow store.
        let n_e = escrows.len();
        if n_e > u32::MAX as usize {
            proof {
                assert(escrows@[u32::MAX as int].id <= u32::MAX);
            }
            return None;
        }
        let mut i: usize = 0;
        while i < n_e
            invariant
                i <= n_e == escrows@.len(),
                n_e <= u32::MAX,
                v == Self::parts_view(admin, metadata, balances@, allowances@, escrows@, mv, sv,
                    disputes@, recurring@),
                mv == multis_view(multi_escrows@),
                sv == splits_view(splits@),
                forall|p: int|
                    0 <= p < i ==> escrows@[p].id == p + 1 && escrows@[p].amount >= 0 && !(
                    escrows@[p].released && escrows@[p].refunded),
            decreases n_e - i,
        {
            let e = escrows[i];
            if e.id as usize != i + 1 || e.amount < 0 || (e.released && e.refunded) {
                proof {
                    assert(v.escrows == escrows@);
                    assert(!(v.escrows[i as int].id == i + 1 && v.escrows[i as int].amount >= 0
                        && !(v.escrows[i as int].released && v.escrows[i as int].refunded)));
                    assert(!crate::model::wf_stores(v));
                }
                return None;
            }
            i += 1;
        }
        // Validate the multi-escrow store.
        let n_m = multi_escrows.len();
        if n_m > u32::MAX as usize {
            proof {
                assert(mv[u32::MAX as int] == multi_escrows@[u32::MAX as int]@);
                assert(mv[u32::MAX as int].id <= u32::MAX);
            }
            return None;
        }
        let mut i: usize = 0;
        while i < n_m
            invariant
                i <= n_m == multi_escrows@.len(),
                n_m <= u32::MAX,
                v == Self::parts_view(admin, metadata, balances@, allowances@, escrows@, mv, sv,
                    disputes@, recurring@),
                mv == multis_view(multi_escrows@),
                sv == splits_view(splits@),
                forall|p: int|
                    0 <= p < i ==> (#[trigger] mv[p]).id == p + 1 && mv[p].total_amount >= 0 && !(
                    mv[p].released && mv[p].refunded) && share_sum(mv[p].recipients) == 10000,
            decreases n_m - i,
        {
            proof {
                assert(mv[i as int] == multi_escrows@[i as int]@);
            }
            let sum = crate::splitter::compute_share_sum(&multi_escrows[i].recipients);
            let m = &multi_escrows[i];
            if m.id as usize != i + 1 || m.total_amount < 0 || (m.released && m.refunded) || sum
                != 10000 {
                proof {
                    assert(v.multis == mv);
                    assert(!(mv[i as int].id == i + 1 && mv[i as int].total_amount >= 0 && !(
                    mv[i as int].released && mv[i as int].refunded) && share_sum(
                        mv[i as int].recipients,
                    ) == 10000));
                    assert(!crate::model::wf_stores(v));
                }
                return None;
            }
            i += 1;
        }
        // Validate the split store.
        let n_s = splits.len();
        if n_s > u32::MAX as usize {
            proof {
                assert(sv[u32::MAX as int] == splits@[u32::MAX as int]@);
                assert(sv[u32::MAX as int].id <= u32::MAX);
            }
            return None;
        }
        let mut i: usize = 0;
        while i < n_s
            invariant
                i <= n_s == splits@.len(),
                n_s <= u32::MAX,
                v == Self::parts_view(admin, metadata, balances@, allowances@, escrows@, mv, sv,
                    disputes@, recurring@),
                mv == multis_view(multi_escrows@),
                sv == splits_view(splits@),
                forall|p: int|
                    0 <= p < i ==> (#[trigger] sv[p]).id == p + 1 && sv[p].total_amount >= 0
                        && share_sum(sv[p].recipients) == 10000,
            decreases n_s - i,
        {
            proof {
                assert(sv[i as int] == splits@[i as int]@);
            }
            let sum = crate::splitter::compute_share_sum(&splits[i].recipients);
            let p = &splits[i];
            if p.id as usize != i + 1 || p.total_amount < 0 || sum != 10000 {
                proof {
                    assert(v.splits == sv);
                    assert(!(sv[i as int].id == i + 1 && sv[i as int].total_amount >= 0
                        && share_sum(sv[i as int].recipients) == 10000));
                    assert(!crate::model::wf_stores(v));
                }
                return None;
            }
            i += 1;
        }
        // Validate the dispute store.
        let n_d = disputes.len();
        if n_d > u32::MAX as usize {
            proof {
                assert(disputes@[u32::MAX as int].id <= u32::MAX);
            }
            return None;
        }
        let mut i: usize = 0;
        while i < n_d
            invariant
                i <= n_d == disputes@.len(),
                n_d <= u32::MAX,
                n_e == escrows@.len(),
                v == Self::parts_view(admin, metadata, balances@, allowances@, escrows@, mv, sv,
                    disputes@, recurring@),
                mv == multis_view(multi_escrows@),
                sv == splits_view(splits@),
                forall|p: int|
                    0 <= p < i ==> disputes@[p].id == p + 1 && 1 <= disputes@[p].escrow_id
                        <= escrows@.len(),
            decreases n_d - i,
        {
            let d = disputes[i];
            if d.id as usize != i + 1 || d.escrow_id < 1 || d.escrow_id as usize > n_e {
                return None;
            }
            i += 1;
        }
        proof {
            assert(crate::model::wf_stores(v));
        }
        // Recompute the locked total from the validated records.
        let mut locked: i128 = 0;
        let mut i: usize = 0;
        while i < n_e
            invariant
                i <= n_e == escrows@.len(),
                crate::model::wf_stores(v),
                v == Self::parts_view(admin, metadata, balances@, allowances@, escrows@, mv, sv,
                    disputes@, recurring@),
                mv == multis_view(multi_escrows@),
                sv == splits_view(splits@),
                bals@ == balances@,
                v.balances == bals@ && v.escrows == escrows@ && v.multis == mv && v.splits == sv,
                v.custodial == crate::model::escrows_locked(escrows@)
                    + crate::model::multis_locked(mv) + crate::model::splits_locked(sv),
                forall|p: int| 0 <= p < escrows@.len() ==> (#[trigger] escrows@[p]).amount >= 0,
                forall|p: int| 0 <= p < mv.len() ==> (#[trigger] mv[p]).total_amount >= 0,
                forall|p: int| 0 <= p < sv.len() ==> (#[trigger] sv[p]).total_amount >= 0,
                forall|p: int| 0 <= p < bals@.len() ==> (#[trigger] bals@[p]).amount >= 0,
                locked as int == crate::model::escrows_locked(escrows@.take(i as int)),
                locked >= 0,
            decreases n_e - i,
        {
            proof {
                assert(escrows@.take(i as int + 1) =~= escrows@.take(i as int).push(
                    escrows@[i as int],
                ));
                crate::model::lemma_escrows_locked_push(escrows@.take(i as int),
                    escrows@[i as int]);
            }
            let e = escrows[i];
            let amt: i128 = if e.released || e.refunded {
                0
            } else {
                e.amount
            };
            if amt > i128::MAX - locked {
                proof {
                    crate::model::lemma_escrows_locked_take_le(escrows@, i as int + 1);
                    crate::model::lemma_multis_locked_ge(mv, -1);
                    crate::model::lemma_splits_locked_ge(sv, -1);
                    crate::model::lemma_bal_le_sum(bals@, 0);
                    assert(crate::model::total_value(v) > i128::MAX);
                }
                return None;
            }
            locked = locked + amt;
            i += 1;
        }
        proof {
            assert(escrows@.take(n_e as int) =~= escrows@);
        }
        let mut i: usize = 0;
        while i < n_m
            invariant
                i <= n_m == mv.len(),
                crate::model::wf_stores(v),
                v == Self::parts_view(admin, metadata, balances@, allowances@, escrows@, mv, sv,
                    disputes@, recurring@),
                mv == multis_view(multi_escrows@),
                sv == splits_view(splits@),
                bals@ == balances@,
                v.balances == bals@ && v.escrows == escrows@ && v.multis == mv && v.splits == sv,
                v.custodial == crate::model::escrows_locked(escrows@)
                    + crate::model::multis_locked(mv) + crate::model::splits_locked(sv),
                mv == multis_view(multi_escrows@),
                n_m == multi_escrows@.len(),
                forall|p: int| 0 <= p < mv.len() ==> (#[trigger] mv[p]).total_amount >= 0,
                forall|p: int| 0 <= p < sv.len() ==> (#[trigger] sv[p]).total_amount >= 0,
                forall|p: int| 0 <= p < bals@.len() ==> (#[trigger] bals@[p]).amount >= 0,
                locked as int == crate::model::escrows_locked(escrows@)
                    + crate::model::multis_locked(mv.take(i as int)),
                locked >= 0,
            decreases n_m - i,
        {
            proof {
                assert(mv[i as int] == multi_escrows@[i as int]@);
                assert(mv.take(i as int + 1) =~= mv.take(i as int).push(mv[i as int]));
                crate::model::lemma_multis_locked_push(mv.take(i as int), mv[i as int]);
            }
            let m = &multi_escrows[i];
            let amt: i128 = if m.released || m.refunded {
                0
            } else {
                m.total_amount
            };
            if amt > i128::MAX - locked {
                proof {
                    crate::model::lemma_multis_locked_take_le(mv, i as int + 1);
                    crate::model::lemma_splits_locked_ge(sv, -1);
                    crate::model::lemma_bal_le_sum(bals@, 0);
                    assert(crate::model::total_value(v) > i128::MAX);
                }
                return None;
            }
            locked = locked + amt;
            i += 1;
        }
        proof {
            assert(mv.take(n_m as int) =~= mv);
        }
        let mut i: usize = 0;
        while i < n_s
            invariant
                i <= n_s == sv.len(),
                crate::model::wf_stores(v),
                v == Self::parts_view(admin, metadata, balances@, allowances@, escrows@, mv, sv,
                    disputes@, recurring@),
                mv == multis_view(multi_escrows@),
                sv == splits_view(splits@),
                bals@ == balances@,
                v.balances == bals@ && v.escrows == escrows@ && v.multis == mv && v.splits == sv,
                v.custodial == crate::model::escrows_locked(escrows@)
                    + crate::model::multis_locked(mv) + crate::model::splits_locked(sv),
                sv == splits_view(splits@),
                n_s == splits@.len(),
                forall|p: int| 0 <= p < sv.len() ==> (#[trigger] sv[p]).total_amount >= 0,
                forall|p: int| 0 <= p < bals@.len() ==> (#[trigger] bals@[p]).amount >= 0,
                locked as int == crate::model::escrows_locked(escrows@)
                    + crate::model::multis_locked(mv) + crate::model::splits_locked(
                    sv.take(i as int),
                ),
                locked >= 0,
            decreases n_s - i,
        {
            proof {
                assert(sv[i as int] == splits@[i as int]@);
                assert(sv.take(i as int + 1) =~= sv.take(i as int).push(sv[i as int]));
                crate::model::lemma_splits_locked_push(sv.take(i as int), sv[i as int]);
            }
            let p = &splits[i];
            let amt: i128 = if p.distributed {
                0
            } else {
                p.total_amount
            };
            if amt > i128::MAX - locked {
                proof {
                    crate::model::lemma_splits_locked_take_le(sv, i as int + 1);
                    crate::model::lemma_bal_le_sum(bals@, 0);
                    assert(crate::model::total_value(v) > i128::MAX);
                }
                return None;
            }
            locked = locked + amt;
            i += 1;
        }
        proof {
            assert(sv.take(n_s as int) =~= sv);
            assert(locked as int == crate::model::locked_total(v));
        }
        // Recompute the supply: balances plus custody.
        let mut total: i128 = locked;
        let entries = bals.entries();
        let n_b = entries.len();
        let mut i: usize = 0;
        while i < n_b
            invariant
                i <= n_b == bals@.len(),
                crate::model::wf_stores(v),
                v == Self::parts_view(admin, metadata, balances@, allowances@, escrows@, mv, sv,
                    disputes@, recurring@),
                mv == multis_view(multi_escrows@),
                sv == splits_view(splits@),
                bals@ == balances@,
                v.balances == bals@,
                v.custodial == crate::model::locked_total(v),
                entries@ == bals@,
                forall|p: int| 0 <= p < bals@.len() ==> (#[trigger] bals@[p]).amount >= 0,
                locked as int == crate::model::locked_total(v),
                locked >= 0,
                total as int == locked + sum_bal(bals@.take(i as int)),
                total >= 0,
            decreases n_b - i,
        {
            proof {
                assert(bals@.take(i as int + 1) =~= bals@.take(i as int).push(bals@[i as int]));
                crate::model::lemma_sum_bal_push(bals@.take(i as int), bals@[i as int]);
                crate::model::lemma_sum_bal_take_le(bals@, i as int);
            }
            let amt = entries[i].amount;
            if amt > i128::MAX - total {
                proof {
                    crate::model::lemma_sum_bal_take_le(bals@, i as int + 1);
                    assert(crate::model::total_value(v) > i128::MAX);
                }
                return None;
            }
            total = total + amt;
            i += 1;
        }
        proof {
            assert(bals@.take(n_b as int) =~= bals@);
        }
        let t = VeritixToken {
            admin,
            metadata,
            balances: bals,
            allowances: allws,
            escrows,
            multi_escrows,
            splits,
            disputes,
            recurring: recs,
            custodial: locked,
            supply: total,
        };
        proof {
            assert(t@ =~~= v);
        }
        Some(t)
    }

    /// Spender burns tokens from an owner's account using their allowance.
    pub fn burn_from(&mut self, spender: u64, from: u64, amount: i128, now: u64) -> (r: Result<
        (),
        Error,
    >)
        requires
            old(self).wf(),
        ensures
            final(self).wf(),
            final(self)@ == burn_from_tr(old(self)@, spender, from, amount, now).0,
            r == burn_from_tr(old(self)@, spender, from, amount, now).1,
    {
        proof {
            lemma_burn_from_tr(old(self)@, spender, from, amount, now);
        }
        if self.balances.is_frozen(from) {
            return Err(Error::AccountFrozen);
        }
        if amount < 0 {
            return Err(Error::InvalidAmount);
        }
        let a = self.allowances.read_allowance(from, spender, now);
        if a.expiration_ledger < now {
            return Err(Error::AllowanceExpired);
        }
        if a.amount < amount {
            return Err(Error::InsufficientAllowance);
        }
        let bal = self.balances.read_balance(from);
        if bal < amount {
            return Err(Error::InsufficientBalance);
        }
        self.allowances.write_unchecked(
            AllowanceDataKey { from, spender },
            AllowanceValue { amount: a.amount - amount, expiration_ledger: a.expiration_ledger },
        );
        self.balances.set_balance(from, bal - amount);
        self.supply = self.supply - amount;
        proof {
            assert(self@ =~~= burn_from_tr(old(self)@, spender, from, amount, now).0);
        }
        Ok(())
    }
}

} // verus!
