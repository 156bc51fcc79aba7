//! Names of the slots in which a pool keeps its state on the ledger.

use vstd::prelude::*;
use crate::address::Address;

verus! {

/// Slots that every pool keeps with its instance.
#[derive(Clone, Copy, Debug, PartialEq, Eq, Structural)]
pub enum CommonInstanceKey {
    /// The admin.
    Admin,
    /// The owner, where it differs from the admin.
    Owner,
    /// Whether the pool is initialized.
    Initialized,
    /// Whether the pool is paused.
    Paused,
    /// The version of the pool's code.
    Version,
}

/// Slots that a pool keeps per party.
#[derive(Clone, Copy, Debug, PartialEq, Eq, Structural)]
pub enum CommonPersistentKey {
    /// Data of one user.
    UserData(Address),
    /// Data of one token.
    TokenData(Address),
    /// Counter against replay, per party.
    Nonce(Address),
}

} // verus!
