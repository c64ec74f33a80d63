//! Ledger failures.
//!
//! Two severities share one type. `BalanceOverflow` and `InvariantViolation`
//! are fatal: they mean the request would corrupt the ledger, and the caller
//! must abort the whole execution context. Every other variant is a caller
//! error: the ledger is left untouched and the caller may retry with
//! corrected parameters.

use vstd::prelude::*;

verus! {

/// Why a ledger operation refused to run. No variant is ever paired with a
/// partial state change: an operation that fails leaves the ledger exactly
/// as it was.
#[derive(Debug, PartialEq, Eq)]
pub enum LedgerError {
    /// Fatal: an addition on a balance or on the total supply would wrap.
    BalanceOverflow,
    /// Fatal: stored ledger state breaks the registration or conservation
    /// invariant; the state cannot be trusted.
    InvariantViolation,
    /// The named account holds no balance entry, so it cannot send or
    /// receive funds. Carries the identity that was missing.
    AccountNotRegistered(Vec<u8>),
    /// The sender's balance does not cover the requested amount.
    InsufficientBalance,
    /// The payment attached to a registration does not cover the storage
    /// cost of a balance entry.
    InsufficientStoragePayment,
    /// A transfer named the same account as sender and receiver.
    SelfTransfer,
    /// A transfer of zero tokens.
    ZeroAmount,
    /// Unregistering was refused because the account still holds funds and
    /// `force` was not set.
    NonZeroBalance,
    /// Unregistering was requested for an account that has no entry.
    NotRegistered,
}

impl LedgerError {
    /// Whether the error is fatal: the surrounding execution context must
    /// abort instead of retrying.
    pub fn is_fatal(&self) -> (r: bool)
        ensures
            r <==> (self is BalanceOverflow || self is InvariantViolation),
    {
        match self {
            LedgerError::BalanceOverflow => true,
            LedgerError::InvariantViolation => true,
            _ => false,
        }
    }
}

} // verus!
