//! Verified financial primitives for on-ledger pools: a checked fixed-point
//! arithmetic layer and the state machines built on top of it.
//!
//! * [`math`] holds the arithmetic: checked operations, overflow-tolerant
//!   multiply-then-divide with a chosen rounding direction, basis points,
//!   constant-product quotes and the integer square root.
//! * [`staking`] holds the staking pool, which shares pooled rewards among
//!   stakers in proportion to their stake, settled lazily.
//! * [`fee_distributor`], [`locker`] and [`treasury`] hold the fee splitter,
//!   the liquidity locker and the treasury vault.
//! * [`types`] holds the error codes and the plain records the pools keep,
//!   [`address`] the identities of parties and tokens.
//!
//! Every pool is a state machine over plain values: an operation takes the
//! pool's state and the call's arguments, and leaves the next state and
//! what the host has to transfer. Authorization, token transfers, the
//! ledger clock and persistence belong to the host.

pub mod address;
pub mod fee_distributor;
pub mod locker;
pub mod math;
pub mod staking;
pub mod treasury;
pub mod types;

pub use address::{Address, AddressKind};
pub use math::{
    apply_bps, apply_bps_round_up, calculate_bps, calculate_k, calculate_price,
    calculate_slippage_bps, get_amount_in, get_amount_out, max, min, mul_div_down, mul_div_up,
    quote, safe_add, safe_div, safe_mul, safe_sub, sqrt, sub_bps, update_reserves_add,
    update_reserves_sub, update_reserves_swap, verify_k_invariant, BPS_DENOMINATOR,
    MIN_TRADE_AMOUNT, ONE_TOKEN, PRECISION, STELLAR_DECIMALS,
};
pub use types::{
    CommonInstanceKey, CommonPersistentKey, DistributionConfig, DistributionResult, FeeConfig,
    GraduationInfo, LockConfig, LockInfo, PendingReward, RateLimitConfig, SharedError,
    StakingConfig, TokenLifecycle, TokenMetadata, TreasuryConfig, UserStake, WithdrawalTracker,
};
