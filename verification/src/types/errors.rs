//! Error codes shared by every pool.

use vstd::prelude::*;

verus! {

/// Every failure a pool operation can report.
///
/// The variants are declared in ascending order of their numeric code, so the
/// derived ordering is the ordering of the codes.
#[derive(Copy, Clone, Debug, PartialEq, Eq, Structural, PartialOrd, Ord)]
pub enum SharedError {
    /// The pool was already initialized.
    AlreadyInitialized,
    /// The pool was not initialized.
    NotInitialized,
    /// The initialization parameters are invalid.
    InvalidInitParams,
    /// The caller is not authorized.
    Unauthorized,
    /// The caller is not the admin.
    NotAdmin,
    /// The caller is not the owner.
    NotOwner,
    /// The operation requires a specific role.
    RoleRequired,
    /// The amount is zero or negative.
    InvalidAmount,
    /// The amount exceeds the allowed maximum.
    AmountExceedsMax,
    /// The amount is below the required minimum.
    AmountBelowMin,
    /// The address is invalid.
    InvalidAddress,
    /// The basis points value is invalid.
    InvalidBps,
    /// The timestamp is invalid.
    InvalidTimestamp,
    /// The amount is below the minimum threshold.
    BelowMinimum,
    /// The percentages do not sum to 100%.
    InvalidPercentage,
    /// The pool is paused.
    ContractPaused,
    /// The pool is not paused.
    ContractNotPaused,
    /// The state transition is invalid.
    InvalidState,
    /// The operation was already executed.
    AlreadyExecuted,
    /// The deadline is not met.
    DeadlineExpired,
    /// The balance is insufficient.
    InsufficientBalance,
    /// The token or record was not found.
    TokenNotFound,
    /// The token transfer failed.
    TransferFailed,
    /// The allowance is insufficient.
    InsufficientAllowance,
    /// Arithmetic overflow.
    Overflow,
    /// Arithmetic underflow, or a result below zero.
    Underflow,
    /// Division by zero.
    DivisionByZero,
    /// A call to another contract failed.
    CrossContractCallFailed,
    /// The other contract is not configured.
    ExternalContractNotSet,
    /// The daily withdrawal limit is exceeded.
    DailyLimitExceeded,
    /// The per-transaction limit is exceeded.
    TransactionLimitExceeded,
    /// The cooldown between withdrawals has not elapsed.
    CooldownNotElapsed,
    /// The maximum number of items is exceeded.
    LimitExceeded,
    /// The buffer time after unlock has not elapsed.
    UnlockBufferNotElapsed,
}

impl SharedError {
    /// The numeric code of the error as it is reported on the ledger.
    pub open spec fn spec_code(self) -> u32 {
        match self {
            SharedError::AlreadyInitialized => 1,
            SharedError::NotInitialized => 2,
            SharedError::InvalidInitParams => 3,
            SharedError::Unauthorized => 100,
            SharedError::NotAdmin => 101,
            SharedError::NotOwner => 102,
            SharedError::RoleRequired => 103,
            SharedError::InvalidAmount => 200,
            SharedError::AmountExceedsMax => 201,
            SharedError::AmountBelowMin => 202,
            SharedError::InvalidAddress => 203,
            SharedError::InvalidBps => 204,
            SharedError::InvalidTimestamp => 205,
            SharedError::BelowMinimum => 206,
            SharedError::InvalidPercentage => 207,
            SharedError::ContractPaused => 300,
            SharedError::ContractNotPaused => 301,
            SharedError::InvalidState => 302,
            SharedError::AlreadyExecuted => 303,
            SharedError::DeadlineExpired => 304,
            SharedError::InsufficientBalance => 400,
            SharedError::TokenNotFound => 401,
            SharedError::TransferFailed => 402,
            SharedError::InsufficientAllowance => 403,
            SharedError::Overflow => 500,
            SharedError::Underflow => 501,
            SharedError::DivisionByZero => 502,
            SharedError::CrossContractCallFailed => 600,
            SharedError::ExternalContractNotSet => 601,
            SharedError::DailyLimitExceeded => 700,
            SharedError::TransactionLimitExceeded => 701,
            SharedError::CooldownNotElapsed => 702,
            SharedError::LimitExceeded => 703,
            SharedError::UnlockBufferNotElapsed => 704,
        }
    }

    /// The numeric code of the error.
    #[verifier::when_used_as_spec(spec_code)]
    pub fn code(self) -> (c: u32)
        ensures
            c == self.spec_code(),
    {
        match self {
            SharedError::AlreadyInitialized => 1,
            SharedError::NotInitialized => 2,
            SharedError::InvalidInitParams => 3,
            SharedError::Unauthorized => 100,
            SharedError::NotAdmin => 101,
            SharedError::NotOwner => 102,
            SharedError::RoleRequired => 103,
            SharedError::InvalidAmount => 200,
            SharedError::AmountExceedsMax => 201,
            SharedError::AmountBelowMin => 202,
            SharedError::InvalidAddress => 203,
            SharedError::InvalidBps => 204,
            SharedError::InvalidTimestamp => 205,
            SharedError::BelowMinimum => 206,
            SharedError::InvalidPercentage => 207,
            SharedError::ContractPaused => 300,
            SharedError::ContractNotPaused => 301,
            SharedError::InvalidState => 302,
            SharedError::AlreadyExecuted => 303,
            SharedError::DeadlineExpired => 304,
            SharedError::InsufficientBalance => 400,
            SharedError::TokenNotFound => 401,
            SharedError::TransferFailed => 402,
            SharedError::InsufficientAllowance => 403,
            SharedError::Overflow => 500,
            SharedError::Underflow => 501,
            SharedError::DivisionByZero => 502,
            SharedError::CrossContractCallFailed => 600,
            SharedError::ExternalContractNotSet => 601,
            SharedError::DailyLimitExceeded => 700,
            SharedError::TransactionLimitExceeded => 701,
            SharedError::CooldownNotElapsed => 702,
            SharedError::LimitExceeded => 703,
            SharedError::UnlockBufferNotElapsed => 704,
        }
    }
}

} // verus!
