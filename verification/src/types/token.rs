//! Records about tokens, stakes and locks.

use vstd::prelude::*;
use crate::address::Address;

verus! {

/// Descriptive data of a token.
#[derive(Clone, Debug)]
pub struct TokenMetadata {
    /// Name of the token.
    pub name: String,
    /// Ticker symbol of the token.
    pub symbol: String,
    /// Number of decimals (typically 7).
    pub decimals: u32,
    /// Who created the token.
    pub creator: Address,
    /// Total supply.
    pub total_supply: i128,
}

/// Stages in the life of a token.
#[derive(Clone, Copy, Debug, PartialEq, Eq, Structural)]
pub enum TokenLifecycle {
    /// The token trades on its bonding curve.
    Bonding,
    /// The token graduated to the internal market maker.
    GraduatedInternal,
    /// The token graduated to the external exchange.
    GraduatedDex,
    /// Graduation failed and needs recovery.
    GraduationFailed,
    /// The token is deprecated.
    Deprecated,
}

impl TokenLifecycle {
    /// The number under which the stage is stored.
    pub open spec fn spec_code(self) -> u32 {
        match self {
            TokenLifecycle::Bonding => 0,
            TokenLifecycle::GraduatedInternal => 1,
            TokenLifecycle::GraduatedDex => 2,
            TokenLifecycle::GraduationFailed => 3,
            TokenLifecycle::Deprecated => 4,
        }
    }

    /// The number under which the stage is stored.
    #[verifier::when_used_as_spec(spec_code)]
    pub fn code(self) -> (c: u32)
        ensures
            c == self.spec_code(),
    {
        match self {
            TokenLifecycle::Bonding => 0,
            TokenLifecycle::GraduatedInternal => 1,
            TokenLifecycle::GraduatedDex => 2,
            TokenLifecycle::GraduationFailed => 3,
            TokenLifecycle::Deprecated => 4,
        }
    }
}

/// What is recorded when a token graduates.
#[derive(Clone, Copy, Debug, PartialEq, Eq, Structural)]
pub struct GraduationInfo {
    /// The token.
    pub token: Address,
    /// The trading pair created for it.
    pub pair_address: Address,
    /// The staking pool created for it, if any.
    pub staking_pool_id: u32,
    /// Price at graduation.
    pub initial_price: i128,
    /// When it graduated.
    pub graduation_time: u64,
    /// Native currency locked in the pool.
    pub xlm_locked: i128,
    /// Tokens locked in the pool.
    pub tokens_locked: i128,
    /// Where it graduated to.
    pub destination: TokenLifecycle,
}

/// How one distribution of fees was split.
#[derive(Clone, Copy, Debug, PartialEq, Eq, Structural)]
pub struct DistributionResult {
    /// The token that was distributed.
    pub token: Address,
    /// The whole amount distributed.
    pub total_amount: i128,
    /// The part sent to the treasury.
    pub treasury_amount: i128,
    /// The part sent to the staking pool.
    pub staking_amount: i128,
    /// The part burned.
    pub burn_amount: i128,
    /// When it was distributed.
    pub timestamp: u64,
}

/// The stake position of one principal.
#[derive(Clone, Copy, Debug, PartialEq, Eq, Structural)]
pub struct UserStake {
    /// Amount currently staked, never negative.
    pub amount: i128,
    /// When the principal last staked.
    pub stake_time: u64,
    /// When the principal's rewards were last settled.
    pub last_claim_time: u64,
    /// The part of the accumulated reward of the last reward token already
    /// attributed to the principal: the amount times that token's
    /// accumulator at the last touch, divided by the precision and rounded
    /// down. A pool with several reward tokens keeps the debt of each token
    /// beside its positions.
    pub reward_debt: i128,
}

impl UserStake {
    /// A position of `amount` taken at `timestamp`, with nothing attributed yet.
    pub fn new(amount: i128, timestamp: u64) -> (s: Self)
        ensures
            s == (UserStake {
                amount,
                stake_time: timestamp,
                last_claim_time: timestamp,
                reward_debt: 0,
            }),
    {
        UserStake { amount, stake_time: timestamp, last_claim_time: timestamp, reward_debt: 0 }
    }
}

/// One lock of liquidity tokens.
#[derive(Clone, Copy, Debug, PartialEq, Eq, Structural)]
pub struct LockInfo {
    /// Identifier of the lock.
    pub id: u64,
    /// Who owns the lock.
    pub owner: Address,
    /// The token that is locked.
    pub lp_token: Address,
    /// The amount that is locked.
    pub amount: i128,
    /// When it was locked.
    pub lock_time: u64,
    /// From when it can be unlocked.
    pub unlock_time: u64,
    /// Whether it was unlocked already.
    pub unlocked: bool,
}

impl LockInfo {
    /// Whether the lock is still closed and its unlock time has come.
    pub open spec fn spec_is_unlockable(&self, current_time: u64) -> bool {
        !self.unlocked && current_time >= self.unlock_time
    }

    /// Whether the lock is still closed and its unlock time has come.
    #[verifier::when_used_as_spec(spec_is_unlockable)]
    pub fn is_unlockable(&self, current_time: u64) -> (r: bool)
        ensures
            r == self.spec_is_unlockable(current_time),
    {
        !self.unlocked && current_time >= self.unlock_time
    }
}

/// A reward that a principal can claim.
#[derive(Clone, Copy, Debug, PartialEq, Eq, Structural)]
pub struct PendingReward {
    /// The reward token.
    pub token: Address,
    /// The amount that can be claimed.
    pub amount: i128,
}

} // verus!
