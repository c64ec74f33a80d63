//! Accounting core of a fungible-token ledger.
//!
//! The ledger maps account identities to unsigned balances, tracks the total
//! issued supply, and enforces three safety rules on every mutation: supply
//! conservation, overflow- and underflow-safe arithmetic, and the rule that a
//! balance entry exists exactly for the accounts that paid for their storage
//! slot by registering.
//!
//! Host concerns (persistence, payment transport, event emission) live with
//! the caller; every operation here works on plain values and reports the
//! events it produced as part of its result.

pub mod account;
pub mod error;
pub mod event;
pub mod ledger;
pub mod storage_key;
pub mod sums;

pub use account::AccountId;
pub use error::LedgerError;
pub use event::Event;
pub use ledger::{Ledger, RegisterOutcome, UnregisterOutcome, RefundOutcome};
pub use storage_key::StorageKey;
