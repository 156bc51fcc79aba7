//! Configuration records of the pools.

use vstd::prelude::*;
use crate::address::Address;

verus! {

/// Trading fees.
#[derive(Clone, Copy, Debug, PartialEq, Eq, Structural)]
pub struct FeeConfig {
    /// Protocol fee in basis points (at most 100 = 1%).
    pub protocol_fee_bps: u32,
    /// Liquidity-provider fee in basis points (at most 100 = 1%).
    pub lp_fee_bps: u32,
    /// Where protocol fees are sent.
    pub treasury: Address,
}

impl FeeConfig {
    /// Largest single fee in basis points (1%).
    pub const MAX_FEE_BPS: u32 = 100;

    /// Largest total fee, protocol and provider together, in basis points (2%).
    pub const MAX_TOTAL_FEE_BPS: u32 = 200;

    /// Basis points in a whole.
    pub const BPS_DENOMINATOR: u32 = 10_000;

    /// Whether each fee and their total are within the limits.
    pub open spec fn spec_is_valid(&self) -> bool {
        &&& self.protocol_fee_bps <= 100
        &&& self.lp_fee_bps <= 100
        &&& self.protocol_fee_bps + self.lp_fee_bps <= 200
    }

    /// Whether each fee and their total are within the limits.
    #[verifier::when_used_as_spec(spec_is_valid)]
    pub fn is_valid(&self) -> (r: bool)
        ensures
            r == self.spec_is_valid(),
    {
        self.protocol_fee_bps <= Self::MAX_FEE_BPS && self.lp_fee_bps <= Self::MAX_FEE_BPS && (
        self.protocol_fee_bps + self.lp_fee_bps) <= Self::MAX_TOTAL_FEE_BPS
    }

    /// The protocol fee and the provider fee together, in basis points.
    pub fn total_fee_bps(&self) -> (r: u32)
        requires
            self.protocol_fee_bps + self.lp_fee_bps <= u32::MAX,
        ensures
            r == self.protocol_fee_bps + self.lp_fee_bps,
    {
        self.protocol_fee_bps + self.lp_fee_bps
    }
}

/// How collected fees are split between treasury, stakers and burning.
#[derive(Clone, Copy, Debug, PartialEq, Eq, Structural)]
pub struct DistributionConfig {
    /// The treasury vault, which receives `treasury_bps`.
    pub treasury_vault: Address,
    /// The staking pool, which receives `staking_bps`.
    pub staking_pool: Address,
    /// The burn address, which receives `burn_bps`.
    pub burn_address: Address,
    /// Treasury share in basis points (5000 = 50%).
    pub treasury_bps: u32,
    /// Staking share in basis points (3000 = 30%).
    pub staking_bps: u32,
    /// Burn share in basis points (2000 = 20%).
    pub burn_bps: u32,
    /// Smallest pending amount that is distributed.
    pub min_distribution: i128,
}

impl DistributionConfig {
    /// Whether the three shares make a whole and the minimum is not negative.
    pub open spec fn spec_is_valid(&self) -> bool {
        self.treasury_bps + self.staking_bps + self.burn_bps == 10_000 && self.min_distribution
            >= 0
    }

    /// Whether the three shares make a whole and the minimum is not negative.
    #[verifier::when_used_as_spec(spec_is_valid)]
    pub fn is_valid(&self) -> (r: bool)
        ensures
            r == self.spec_is_valid(),
    {
        let total: u64 = self.treasury_bps as u64 + self.staking_bps as u64 + self.burn_bps as u64;
        total == 10_000 && self.min_distribution >= 0
    }
}

/// Configuration of a staking pool.
#[derive(Clone, Copy, Debug, PartialEq, Eq, Structural)]
pub struct StakingConfig {
    /// Smallest amount that can be staked at once.
    pub min_stake_amount: i128,
    /// Cooldown before unstaking, in seconds.
    pub cooldown_period: u64,
    /// Largest stake per user (0 = unlimited).
    pub max_stake_per_user: i128,
    /// Whether emergency unlock is enabled.
    pub emergency_unlock: bool,
}

/// Configuration of a liquidity locker.
#[derive(Clone, Copy, Debug, PartialEq, Eq, Structural)]
pub struct LockConfig {
    /// Shortest lock in seconds.
    pub min_lock_duration: u64,
    /// Longest lock in seconds.
    pub max_lock_duration: u64,
    /// Whether a lock can be opened early, against a penalty.
    pub early_unlock_enabled: bool,
    /// Penalty for opening early, in basis points.
    pub early_unlock_penalty_bps: u32,
    /// Time to wait after the unlock time before the lock opens.
    pub unlock_buffer: u64,
}

impl LockConfig {
    /// Default shortest lock: 7 days.
    pub const DEFAULT_MIN_LOCK: u64 = 7 * 24 * 60 * 60;

    /// Default longest lock: 4 years.
    pub const DEFAULT_MAX_LOCK: u64 = 4 * 365 * 24 * 60 * 60;

    /// Default unlock buffer: 30 minutes.
    pub const DEFAULT_UNLOCK_BUFFER: u64 = 30 * 60;
}

/// Limits on withdrawals from the treasury.
#[derive(Clone, Copy, Debug, PartialEq, Eq, Structural)]
pub struct RateLimitConfig {
    /// Largest withdrawal per transaction (0 = unlimited).
    pub max_per_tx: i128,
    /// Largest total per token and day (0 = unlimited).
    pub daily_limit: i128,
    /// Seconds between two withdrawals (0 = none).
    pub cooldown_seconds: u64,
    /// Whether the limits are enforced.
    pub enabled: bool,
}

impl Default for RateLimitConfig {
    /// No limits, not enforced.
    fn default() -> (r: Self)
        ensures
            r.max_per_tx == 0,
            r.daily_limit == 0,
            r.cooldown_seconds == 0,
            !r.enabled,
    {
        RateLimitConfig { max_per_tx: 0, daily_limit: 0, cooldown_seconds: 0, enabled: false }
    }
}

/// Configuration of the treasury.
#[derive(Clone, Copy, Debug, PartialEq, Eq, Structural)]
pub struct TreasuryConfig {
    /// Limits on withdrawals.
    pub rate_limit: RateLimitConfig,
    /// Largest number of tracked tokens.
    pub max_tokens: u32,
    /// Largest number of allowed spenders.
    pub max_spenders: u32,
}

impl TreasuryConfig {
    /// Default largest number of tracked tokens.
    pub const DEFAULT_MAX_TOKENS: u32 = 100;

    /// Default largest number of spenders.
    pub const DEFAULT_MAX_SPENDERS: u32 = 50;
}

impl Default for TreasuryConfig {
    /// No withdrawal limits, and the default bounds on tokens and spenders.
    fn default() -> (r: Self)
        ensures
            r.rate_limit.max_per_tx == 0,
            r.rate_limit.daily_limit == 0,
            r.rate_limit.cooldown_seconds == 0,
            !r.rate_limit.enabled,
            r.max_tokens == 100,
            r.max_spenders == 50,
    {
        TreasuryConfig {
            rate_limit: RateLimitConfig {
                max_per_tx: 0,
                daily_limit: 0,
                cooldown_seconds: 0,
                enabled: false,
            },
            max_tokens: Self::DEFAULT_MAX_TOKENS,
            max_spenders: Self::DEFAULT_MAX_SPENDERS,
        }
    }
}

/// What was withdrawn of one token in the current period.
#[derive(Clone, Copy, Debug, PartialEq, Eq, Structural)]
pub struct WithdrawalTracker {
    /// Amount withdrawn in the current period.
    pub amount_withdrawn: i128,
    /// When the current period began.
    pub period_start: u64,
    /// When the last withdrawal was made.
    pub last_withdrawal: u64,
}

} // verus!
