//! Records and error codes shared by every pool.

pub mod config;
pub mod errors;
pub mod storage;
pub mod token;
pub mod ttl;

pub use config::{
    DistributionConfig, FeeConfig, LockConfig, RateLimitConfig, StakingConfig, TreasuryConfig,
    WithdrawalTracker,
};
pub use errors::SharedError;
pub use storage::{CommonInstanceKey, CommonPersistentKey};
pub use token::{
    DistributionResult, GraduationInfo, LockInfo, PendingReward, TokenLifecycle, TokenMetadata,
    UserStake,
};
