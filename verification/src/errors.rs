use vstd::prelude::*;

verus! {

/// Every failing operation aborts with zero state change and reports one of
/// these kinds to the caller.
#[derive(Clone, Copy, PartialEq, Eq, Structural, Debug)]
pub enum Error {
    /// The caller is not the signer that the operation requires.
    Unauthorized,
    /// The operation is not valid in the record's current lifecycle state.
    InvalidState,
    /// The source account holds less than the requested amount.
    InsufficientBalance,
    /// The spender's remaining allowance is less than the requested amount.
    InsufficientAllowance,
    /// The allowance's expiration ledger has passed.
    AllowanceExpired,
    /// The requested allowance expiration ledger is already in the past.
    InvalidExpiration,
    /// The time condition for the operation has not been reached yet.
    TooEarly,
    /// The escrow's release-after ledger has not been reached yet.
    TimelockActive,
    /// The referenced record id does not exist.
    NotFound,
    /// The recipient shares do not sum to exactly 10000 basis points.
    InvalidShareSum,
    /// The escrow was already released or refunded.
    AlreadySettled,
    /// The split was already distributed.
    AlreadyDistributed,
    /// The dispute was already resolved.
    AlreadyResolved,
    /// The caller is not the dispute's designated resolver.
    UnauthorizedResolver,
    /// The recurring payment was cancelled.
    NotActive,
    /// The recurring payment's iteration cap has been reached.
    AllPaymentsCompleted,
    /// The source account is frozen.
    AccountFrozen,
    /// A negative amount was passed where a non-negative one is required.
    InvalidAmount,
    /// The operation would overflow a machine integer or the id space.
    Overflow,
}

} // verus!
