//! Identities of the parties and tokens a pool deals with.

use vstd::prelude::*;

verus! {

/// What an address names.
#[derive(Copy, Clone, Debug, PartialEq, Eq, Structural, Hash)]
pub enum AddressKind {
    /// An account, identified by its public key.
    Account,
    /// A contract, identified by the hash of its identifier.
    Contract,
}

/// The identity of an account or a contract on the ledger: its kind and its
/// 32-byte key, held as two big-endian halves.
///
/// Two addresses are the same party exactly when all three fields agree.
#[derive(Copy, Clone, Debug, PartialEq, Eq, Structural, Hash)]
pub struct Address {
    /// Whether the key names an account or a contract.
    pub kind: AddressKind,
    /// The first sixteen bytes of the key.
    pub key_hi: u128,
    /// The last sixteen bytes of the key.
    pub key_lo: u128,
}

impl Address {
    /// The address of the account with the given key.
    pub fn account(key_hi: u128, key_lo: u128) -> (a: Address)
        ensures
            a == (Address { kind: AddressKind::Account, key_hi, key_lo }),
    {
        Address { kind: AddressKind::Account, key_hi, key_lo }
    }

    /// The address of the contract with the given key.
    pub fn contract(key_hi: u128, key_lo: u128) -> (a: Address)
        ensures
            a == (Address { kind: AddressKind::Contract, key_hi, key_lo }),
    {
        Address { kind: AddressKind::Contract, key_hi, key_lo }
    }
}

} // verus!
