//! Ledger events.
//!
//! Mutating operations return the events they produced instead of calling an
//! event sink themselves; the surrounding system forwards them to whatever
//! emission channel it uses. An operation that fails produces no event.

use vstd::prelude::*;
use crate::account::AccountId;

verus! {

/// One entry of the event stream that a mutating operation produced.
#[derive(Debug, PartialEq, Eq)]
pub enum Event {
    /// New tokens were issued to `owner`; the total supply grew by `amount`.
    Mint { owner: AccountId, amount: u128, memo: Option<String> },
    /// `amount` tokens moved from `sender` to `receiver`; the total supply
    /// is unchanged.
    Transfer { sender: AccountId, receiver: AccountId, amount: u128, memo: Option<String> },
    /// `amount` tokens held by `account` were destroyed; the total supply
    /// shrank by `amount`.
    Burn { account: AccountId, amount: u128, memo: Option<String> },
}

} // verus!
