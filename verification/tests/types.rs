use astro_core::address::{Address, AddressKind};
use astro_core::types::ttl;
use astro_core::types::{
    CommonInstanceKey, CommonPersistentKey, DistributionConfig, FeeConfig, LockConfig,
    PendingReward, SharedError, TokenLifecycle, TokenMetadata, UserStake,
};
use astro_core::{safe_add, PRECISION};

fn account(n: u128) -> Address {
    Address::account(0, n)
}

#[test]
fn error_codes_are_the_ledger_codes() {
    let codes: [(SharedError, u32); 34] = [
        (SharedError::AlreadyInitialized, 1),
        (SharedError::NotInitialized, 2),
        (SharedError::InvalidInitParams, 3),
        (SharedError::Unauthorized, 100),
        (SharedError::NotAdmin, 101),
        (SharedError::NotOwner, 102),
        (SharedError::RoleRequired, 103),
        (SharedError::InvalidAmount, 200),
        (SharedError::AmountExceedsMax, 201),
        (SharedError::AmountBelowMin, 202),
        (SharedError::InvalidAddress, 203),
        (SharedError::InvalidBps, 204),
        (SharedError::InvalidTimestamp, 205),
        (SharedError::BelowMinimum, 206),
        (SharedError::InvalidPercentage, 207),
        (SharedError::ContractPaused, 300),
        (SharedError::ContractNotPaused, 301),
        (SharedError::InvalidState, 302),
        (SharedError::AlreadyExecuted, 303),
        (SharedError::DeadlineExpired, 304),
        (SharedError::InsufficientBalance, 400),
        (SharedError::TokenNotFound, 401),
        (SharedError::TransferFailed, 402),
        (SharedError::InsufficientAllowance, 403),
        (SharedError::Overflow, 500),
        (SharedError::Underflow, 501),
        (SharedError::DivisionByZero, 502),
        (SharedError::CrossContractCallFailed, 600),
        (SharedError::ExternalContractNotSet, 601),
        (SharedError::DailyLimitExceeded, 700),
        (SharedError::TransactionLimitExceeded, 701),
        (SharedError::CooldownNotElapsed, 702),
        (SharedError::LimitExceeded, 703),
        (SharedError::UnlockBufferNotElapsed, 704),
    ];
    for (error, code) in codes {
        assert_eq!(error.code(), code);
    }
    // the errors are ordered as their codes are
    for pair in codes.windows(2) {
        assert!(pair[0].0 < pair[1].0);
        assert!(pair[0].1 < pair[1].1);
    }
}

#[test]
fn token_lifecycle_codes_count_from_zero() {
    assert_eq!(TokenLifecycle::Bonding.code(), 0);
    assert_eq!(TokenLifecycle::GraduatedInternal.code(), 1);
    assert_eq!(TokenLifecycle::GraduatedDex.code(), 2);
    assert_eq!(TokenLifecycle::GraduationFailed.code(), 3);
    assert_eq!(TokenLifecycle::Deprecated.code(), 4);
}

#[test]
fn fee_config_is_valid_within_its_limits() {
    let config = |protocol_fee_bps: u32, lp_fee_bps: u32| FeeConfig {
        protocol_fee_bps,
        lp_fee_bps,
        treasury: account(1),
    };
    assert!(config(0, 0).is_valid());
    assert!(config(100, 100).is_valid());
    assert!(!config(101, 0).is_valid());
    assert!(!config(0, 101).is_valid());
    assert!(!config(u32::MAX, u32::MAX).is_valid());
    assert_eq!(config(5, 25).total_fee_bps(), 30);
    assert_eq!(config(100, 100).total_fee_bps(), 200);
    assert_eq!(FeeConfig::MAX_FEE_BPS, 100);
    assert_eq!(FeeConfig::MAX_TOTAL_FEE_BPS, 200);
    assert_eq!(FeeConfig::BPS_DENOMINATOR, 10_000);
}

#[test]
fn distribution_config_is_valid_when_the_shares_make_a_whole() {
    let config = |treasury_bps: u32, staking_bps: u32, burn_bps: u32, min: i128| {
        DistributionConfig {
            treasury_vault: account(1),
            staking_pool: account(2),
            burn_address: account(3),
            treasury_bps,
            staking_bps,
            burn_bps,
            min_distribution: min,
        }
    };
    assert!(config(5000, 3000, 2000, 0).is_valid());
    assert!(config(10_000, 0, 0, 1).is_valid());
    assert!(!config(5000, 3000, 2001, 0).is_valid());
    assert!(!config(5000, 3000, 2000, -1).is_valid());
    // sums past 32 bits do not wrap around to a whole
    assert!(!config(u32::MAX, u32::MAX, 10_002, 0).is_valid());
}

#[test]
fn lock_config_defaults_are_in_seconds() {
    assert_eq!(LockConfig::DEFAULT_MIN_LOCK, 604_800);
    assert_eq!(LockConfig::DEFAULT_MAX_LOCK, 126_144_000);
    assert_eq!(LockConfig::DEFAULT_UNLOCK_BUFFER, 1_800);
}

#[test]
fn ttl_constants_have_their_values() {
    assert_eq!(ttl::INSTANCE_TTL_THRESHOLD, 100);
    assert_eq!(ttl::INSTANCE_TTL_EXTEND, 100_000);
    assert_eq!(ttl::PERSISTENT_TTL_THRESHOLD, 1_000);
    assert_eq!(ttl::PERSISTENT_TTL_EXTEND, 200_000);
    assert_eq!(ttl::TEMPORARY_TTL_THRESHOLD, 100);
    assert_eq!(ttl::TEMPORARY_TTL_EXTEND, 1_000);
}

#[test]
fn user_stake_starts_without_debt() {
    assert_eq!(
        UserStake::new(5, 77),
        UserStake { amount: 5, stake_time: 77, last_claim_time: 77, reward_debt: 0 }
    );
}

#[test]
fn addresses_differ_by_kind_and_key() {
    assert_eq!(
        Address::account(1, 2),
        Address { kind: AddressKind::Account, key_hi: 1, key_lo: 2 }
    );
    assert_eq!(
        Address::contract(1, 2),
        Address { kind: AddressKind::Contract, key_hi: 1, key_lo: 2 }
    );
    assert_ne!(Address::account(1, 2), Address::contract(1, 2));
    assert_ne!(Address::account(1, 2), Address::account(2, 1));
    assert_ne!(Address::account(1, 2), Address::account(1, 3));
}

#[test]
fn plain_records_hold_their_fields() {
    let metadata = TokenMetadata {
        name: String::from("Astro Shiba"),
        symbol: String::from("ASTRO"),
        decimals: 7,
        creator: account(1),
        total_supply: 1_000_000,
    };
    assert_eq!(metadata.clone().symbol, "ASTRO");
    let reward = PendingReward { token: account(2), amount: 5 };
    assert_eq!(reward, PendingReward { token: account(2), amount: 5 });
    assert_ne!(CommonInstanceKey::Admin, CommonInstanceKey::Owner);
    assert_ne!(
        CommonPersistentKey::UserData(account(1)),
        CommonPersistentKey::TokenData(account(1))
    );
    assert_eq!(CommonPersistentKey::Nonce(account(1)), CommonPersistentKey::Nonce(account(1)));
}

#[test]
fn the_crate_root_offers_the_arithmetic() {
    assert_eq!(safe_add(1, 2), Ok(3));
    assert_eq!(PRECISION, 1_000_000_000_000_000_000);
}
