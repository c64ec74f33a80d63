//! Namespace tags for persisted collections.
//!
//! Persisted ledger state lives in a key-value store owned by the
//! surrounding system; each collection's keys carry a fixed one-byte prefix
//! so that two collections can never collide. The encoding of the rest of a
//! key is the surrounding system's concern; the tags themselves are part of
//! the state layout and are fixed here.

use vstd::prelude::*;

verus! {

/// Which persisted collection a key belongs to.
pub enum StorageKey {
    /// The balance store, keyed by account identity.
    Accounts,
    /// The token metadata record.
    Metadata,
}

impl StorageKey {
    /// The one-byte namespace prefix of this collection. Distinct
    /// collections get distinct bytes.
    pub fn prefix_byte(&self) -> (r: u8)
        ensures
            self is Accounts ==> r == 0u8,
            self is Metadata ==> r == 1u8,
    {
        match self {
            StorageKey::Accounts => 0u8,
            StorageKey::Metadata => 1u8,
        }
    }
}

} // verus!
