//! For how long ledger entries are kept alive, in ledgers.

use vstd::prelude::*;

verus! {

/// Remaining lifetime below which instance entries are extended.
pub const INSTANCE_TTL_THRESHOLD: u32 = 100;

/// Lifetime to which instance entries are extended.
pub const INSTANCE_TTL_EXTEND: u32 = 100_000;

/// Remaining lifetime below which persistent entries are extended.
pub const PERSISTENT_TTL_THRESHOLD: u32 = 1_000;

/// Lifetime to which persistent entries are extended.
pub const PERSISTENT_TTL_EXTEND: u32 = 200_000;

/// Remaining lifetime below which temporary entries are extended.
pub const TEMPORARY_TTL_THRESHOLD: u32 = 100;

/// Lifetime to which temporary entries are extended.
pub const TEMPORARY_TTL_EXTEND: u32 = 1_000;

} // verus!
