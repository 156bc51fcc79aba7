use astro_core::address::Address;
use astro_core::treasury::{TokenTracker, TreasuryVault, SECONDS_PER_DAY};
use astro_core::types::{RateLimitConfig, SharedError, TreasuryConfig, WithdrawalTracker};

/// Balances by (token, holder), as a token ledger would keep them.
struct Book {
    balances: Vec<(Address, Address, i128)>,
}

impl Book {
    fn new() -> Self {
        Book { balances: Vec::new() }
    }

    fn balance(&self, token: Address, holder: Address) -> i128 {
        self.balances
            .iter()
            .find(|(t, h, _)| *t == token && *h == holder)
            .map(|(_, _, amount)| *amount)
            .unwrap_or(0)
    }

    fn mint(&mut self, token: Address, holder: Address, amount: i128) {
        for entry in self.balances.iter_mut() {
            if entry.0 == token && entry.1 == holder {
                entry.2 += amount;
                return;
            }
        }
        self.balances.push((token, holder, amount));
    }

    fn transfer(&mut self, token: Address, from: Address, to: Address, amount: i128) {
        assert!(self.balance(token, from) >= amount, "insufficient balance");
        self.mint(token, from, -amount);
        self.mint(token, to, amount);
    }
}

fn account(n: u128) -> Address {
    Address::account(0, n)
}

fn contract(n: u128) -> Address {
    Address::contract(0, n)
}

fn own_address() -> Address {
    contract(1000)
}

/// Deposits and moves the tokens as the host would.
fn deposit(v: &mut TreasuryVault, book: &mut Book, from: Address, token: Address, amount: i128) {
    v.deposit(from, token, amount).unwrap();
    book.transfer(token, from, own_address(), amount);
}

/// Withdraws and moves the tokens as the host would.
fn withdraw(v: &mut TreasuryVault, book: &mut Book, token: Address, to: Address, amount: i128) {
    let balance = book.balance(token, own_address());
    v.withdraw(token, to, amount, balance, 0).unwrap();
    book.transfer(token, own_address(), to, amount);
}

/// Withdraws everything and moves the tokens as the host would.
fn withdraw_all(v: &mut TreasuryVault, book: &mut Book, token: Address, to: Address) -> i128 {
    let balance = book.balance(token, own_address());
    let amount = v.withdraw_all(token, to, balance, 0).unwrap();
    book.transfer(token, own_address(), to, amount);
    amount
}

/// Spends and moves the tokens as the host would.
fn spend(v: &mut TreasuryVault, book: &mut Book, spender: Address, token: Address, to: Address, amount: i128) {
    let balance = book.balance(token, own_address());
    v.spend(spender, token, to, amount, balance, 0).unwrap();
    book.transfer(token, own_address(), to, amount);
}

/// A vault set up by a fixed admin.
fn vault() -> (TreasuryVault, Address) {
    let admin = account(1);
    let mut v = TreasuryVault::new();
    v.initialize(admin).unwrap();
    (v, admin)
}

/// A vault with the given limits enabled.
fn limited_vault(max_per_tx: i128, daily_limit: i128, cooldown_seconds: u64) -> TreasuryVault {
    let (mut v, _) = vault();
    v.update_config(TreasuryConfig {
        rate_limit: RateLimitConfig { max_per_tx, daily_limit, cooldown_seconds, enabled: true },
        max_tokens: 100,
        max_spenders: 50,
    })
    .unwrap();
    v
}

#[test]
fn treasury_initialize_sets_admin_and_leaves_unpaused() {
    let admin = account(1);
    let mut treasury = TreasuryVault::new();

    treasury.initialize(admin).unwrap();

    assert!(treasury.is_initialized());
    assert_eq!(treasury.get_admin().unwrap(), admin);
    assert!(!treasury.is_paused());
}

#[test]
fn test_double_initialize_fails() {
    let admin = account(1);
    let mut treasury = TreasuryVault::new();

    treasury.initialize(admin).unwrap();
    let result = treasury.initialize(admin);
    assert!(result.is_err());
}

#[test]
fn test_deposit_and_withdraw() {
    let mut book = Book::new();
    let admin = account(1);
    let user = account(2);

    // Setup treasury
    let mut treasury = TreasuryVault::new();
    treasury.initialize(admin).unwrap();

    // Setup token
    let token = contract(10);

    // Mint tokens to user
    book.mint(token, user, 1000);

    // User deposits to treasury
    deposit(&mut treasury, &mut book, user, token, 500);

    // Check balance
    assert_eq!(book.balance(token, own_address()), 500);

    // Admin withdraws
    withdraw(&mut treasury, &mut book, token, admin, 200);
    assert_eq!(book.balance(token, own_address()), 300);

    // Withdraw all remaining
    let withdrawn = withdraw_all(&mut treasury, &mut book, token, admin);
    assert_eq!(withdrawn, 300);
    assert_eq!(book.balance(token, own_address()), 0);
}

#[test]
fn test_multiple_tokens() {
    let mut book = Book::new();
    let admin = account(1);
    let user = account(2);

    let mut treasury = TreasuryVault::new();
    treasury.initialize(admin).unwrap();

    let token1 = contract(10);
    let token2 = contract(11);

    // Mint and deposit both tokens
    book.mint(token1, user, 1000);
    book.mint(token2, user, 2000);

    deposit(&mut treasury, &mut book, user, token1, 500);
    deposit(&mut treasury, &mut book, user, token2, 1000);

    // Check balances
    assert_eq!(book.balance(token1, own_address()), 500);
    assert_eq!(book.balance(token2, own_address()), 1000);

    // Check token list
    let tokens = treasury.get_tokens();
    assert_eq!(tokens.len(), 2);
}

#[test]
fn test_spender_system() {
    let mut book = Book::new();
    let admin = account(1);
    let spender = account(2);
    let recipient = account(3);

    let mut treasury = TreasuryVault::new();
    treasury.initialize(admin).unwrap();

    let token = contract(10);
    book.mint(token, admin, 1000);

    // Admin deposits
    deposit(&mut treasury, &mut book, admin, token, 1000);

    // Add spender
    treasury.add_spender(spender).unwrap();

    // Spender can spend
    spend(&mut treasury, &mut book, spender, token, recipient, 500);
    assert_eq!(book.balance(token, own_address()), 500);
    assert_eq!(book.balance(token, recipient), 500);

    // Remove spender
    treasury.remove_spender(spender).unwrap();

    // Spender can no longer spend
    let result = treasury.spend(spender, token, recipient, 100, 500, 0);
    assert!(result.is_err());
}

#[test]
fn test_pause() {
    let mut book = Book::new();
    let admin = account(1);
    let user = account(2);

    let mut treasury = TreasuryVault::new();
    treasury.initialize(admin).unwrap();

    let token = contract(10);
    book.mint(token, user, 1000);

    // Pause
    treasury.set_paused(true).unwrap();
    assert!(treasury.is_paused());

    // Deposit should fail when paused
    let result = treasury.deposit(user, token, 500);
    assert!(result.is_err());

    // Unpause
    treasury.set_paused(false).unwrap();

    // Deposit should work now
    deposit(&mut treasury, &mut book, user, token, 500);
    assert_eq!(book.balance(token, own_address()), 500);
}

#[test]
fn test_change_admin() {
    let admin1 = account(1);
    let admin2 = account(2);

    let mut treasury = TreasuryVault::new();
    treasury.initialize(admin1).unwrap();

    assert_eq!(treasury.get_admin().unwrap(), admin1);

    treasury.set_admin(admin2).unwrap();
    assert_eq!(treasury.get_admin().unwrap(), admin2);
}

// ---------------------------------------------------------------------------
// Setup
// ---------------------------------------------------------------------------

#[test]
fn a_new_vault_has_the_default_limits() {
    let (v, _) = vault();
    assert_eq!(
        v.get_config(),
        TreasuryConfig {
            rate_limit: RateLimitConfig {
                max_per_tx: 0,
                daily_limit: 0,
                cooldown_seconds: 0,
                enabled: false,
            },
            max_tokens: 100,
            max_spenders: 50,
        }
    );
    assert_eq!(v.get_config(), TreasuryConfig::default());
    assert_eq!(TreasuryConfig::DEFAULT_MAX_TOKENS, 100);
    assert_eq!(TreasuryConfig::DEFAULT_MAX_SPENDERS, 50);
    assert_eq!(v.fee_distributor(), None);
    assert!(v.get_tokens().is_empty());
    assert!(v.get_spenders().is_empty());
    assert_eq!(SECONDS_PER_DAY, 86400);
}

#[test]
fn an_uninitialized_vault_refuses_everything() {
    let mut v = TreasuryVault::new();
    let who = account(2);
    let token = contract(10);
    assert!(!v.is_initialized());
    assert_eq!(v.get_admin().unwrap_err(), SharedError::NotInitialized);
    assert_eq!(v.notify_deposit(token, who, 1).unwrap_err(), SharedError::NotInitialized);
    assert_eq!(v.deposit(who, token, 1).unwrap_err(), SharedError::NotInitialized);
    assert_eq!(v.withdraw(token, who, 1, 10, 0).unwrap_err(), SharedError::NotInitialized);
    assert_eq!(v.withdraw_all(token, who, 10, 0).unwrap_err(), SharedError::NotInitialized);
    assert_eq!(v.spend(who, token, who, 1, 10, 0).unwrap_err(), SharedError::NotInitialized);
    assert_eq!(v.set_admin(who).unwrap_err(), SharedError::NotInitialized);
    assert_eq!(v.set_fee_distributor(who).unwrap_err(), SharedError::NotInitialized);
    assert_eq!(v.add_spender(who).unwrap_err(), SharedError::NotInitialized);
    assert_eq!(v.remove_spender(who).unwrap_err(), SharedError::NotInitialized);
    assert_eq!(v.set_paused(true).unwrap_err(), SharedError::NotInitialized);
    assert_eq!(v.update_config(TreasuryConfig::default()).unwrap_err(), SharedError::NotInitialized);
    assert!(!v.is_allowed_spender(who));
    assert!(v.is_well_formed());
    let (mut v, admin) = vault();
    assert_eq!(v.initialize(account(9)).unwrap_err(), SharedError::AlreadyInitialized);
    assert_eq!(v.get_admin().unwrap(), admin);
}

// ---------------------------------------------------------------------------
// Deposits and tracked tokens
// ---------------------------------------------------------------------------

#[test]
fn deposits_track_each_token_once() {
    let (mut v, _) = vault();
    let first = contract(10);
    let second = contract(11);
    assert_eq!(v.deposit(account(2), first, 0).unwrap_err(), SharedError::InvalidAmount);
    assert_eq!(v.notify_deposit(first, account(2), -1).unwrap_err(), SharedError::InvalidAmount);
    assert!(v.get_tokens().is_empty());
    v.deposit(account(2), first, 5).unwrap();
    v.notify_deposit(second, account(2), 5).unwrap();
    v.deposit(account(3), first, 5).unwrap();
    v.notify_deposit(first, account(3), 5).unwrap();
    assert_eq!(v.get_tokens(), vec![first, second]);
    // a paused vault still takes notice
    v.set_paused(true).unwrap();
    v.notify_deposit(contract(12), account(2), 5).unwrap();
    assert_eq!(v.get_tokens(), vec![first, second, contract(12)]);
}

#[test]
fn a_full_token_list_takes_no_more_but_refuses_nothing() {
    let (mut v, _) = vault();
    v.update_config(TreasuryConfig { max_tokens: 2, ..TreasuryConfig::default() }).unwrap();
    v.deposit(account(2), contract(10), 5).unwrap();
    v.deposit(account(2), contract(11), 5).unwrap();
    assert_eq!(v.deposit(account(2), contract(12), 5), Ok(()));
    assert_eq!(v.notify_deposit(contract(13), account(2), 5), Ok(()));
    assert_eq!(v.get_tokens(), vec![contract(10), contract(11)]);
}

// ---------------------------------------------------------------------------
// Withdrawals
// ---------------------------------------------------------------------------

#[test]
fn withdraw_names_each_error() {
    let (mut v, admin) = vault();
    let token = contract(10);
    assert_eq!(v.withdraw(token, admin, 0, 10, 0).unwrap_err(), SharedError::InvalidAmount);
    assert_eq!(v.withdraw(token, admin, -1, 10, 0).unwrap_err(), SharedError::InvalidAmount);
    assert_eq!(v.withdraw(token, admin, 11, 10, 0).unwrap_err(), SharedError::InsufficientBalance);
    assert_eq!(v.withdraw(token, admin, 10, 10, 0), Ok(()));
    assert_eq!(v.withdraw_all(token, admin, 0, 0).unwrap_err(), SharedError::InsufficientBalance);
    assert_eq!(v.withdraw_all(token, admin, -5, 0).unwrap_err(), SharedError::InsufficientBalance);
    assert_eq!(v.withdraw_all(token, admin, 7, 0), Ok(7));
    v.set_paused(true).unwrap();
    assert_eq!(v.withdraw(token, admin, 1, 10, 0).unwrap_err(), SharedError::ContractPaused);
    assert_eq!(v.withdraw_all(token, admin, 10, 0).unwrap_err(), SharedError::ContractPaused);
    assert_eq!(v.spend(admin, token, admin, 1, 10, 0).unwrap_err(), SharedError::ContractPaused);
    // without enabled limits nothing is recorded
    assert!(v.trackers.is_empty());
}

#[test]
fn the_limit_per_transaction_is_applied() {
    let mut v = limited_vault(100, 0, 0);
    let token = contract(10);
    let to = account(2);
    assert_eq!(
        v.withdraw(token, to, 101, 1000, 50).unwrap_err(),
        SharedError::TransactionLimitExceeded
    );
    assert_eq!(
        v.withdraw_all(token, to, 101, 50).unwrap_err(),
        SharedError::TransactionLimitExceeded
    );
    assert!(v.trackers.is_empty());
    assert_eq!(v.withdraw(token, to, 100, 1000, 50), Ok(()));
    assert_eq!(
        v.trackers,
        vec![TokenTracker {
            token,
            tracker: WithdrawalTracker { amount_withdrawn: 0, period_start: 50, last_withdrawal: 50 },
        }]
    );
}

#[test]
fn the_daily_limit_adds_up_and_starts_anew_after_a_day() {
    let mut v = limited_vault(0, 100, 0);
    let token = contract(10);
    let to = account(2);
    assert_eq!(v.withdraw(token, to, 60, 1000, 1000), Ok(()));
    assert_eq!(v.withdraw(token, to, 40, 1000, 2000), Ok(()));
    assert_eq!(
        v.trackers[0].tracker,
        WithdrawalTracker { amount_withdrawn: 100, period_start: 1000, last_withdrawal: 2000 }
    );
    assert_eq!(v.withdraw(token, to, 1, 1000, 3000).unwrap_err(), SharedError::DailyLimitExceeded);
    // one second before the day is over
    assert_eq!(
        v.withdraw(token, to, 1, 1000, 1000 + 86399).unwrap_err(),
        SharedError::DailyLimitExceeded
    );
    assert_eq!(v.trackers[0].tracker.last_withdrawal, 2000);
    // the day is over
    assert_eq!(v.withdraw(token, to, 1, 1000, 1000 + 86400), Ok(()));
    assert_eq!(
        v.trackers[0].tracker,
        WithdrawalTracker {
            amount_withdrawn: 1,
            period_start: 1000 + 86400,
            last_withdrawal: 1000 + 86400,
        }
    );
    // another token has its own sum
    assert_eq!(v.withdraw(contract(11), to, 100, 1000, 1000 + 86400), Ok(()));
    assert_eq!(v.trackers.len(), 2);
}

#[test]
fn the_cooldown_is_applied_after_the_first_withdrawal() {
    let mut v = limited_vault(0, 0, 60);
    let token = contract(10);
    let to = account(2);
    assert_eq!(v.withdraw(token, to, 5, 1000, 100), Ok(()));
    assert_eq!(v.withdraw(token, to, 5, 1000, 159).unwrap_err(), SharedError::CooldownNotElapsed);
    // a clock that runs backwards counts as no time elapsed
    assert_eq!(v.withdraw(token, to, 5, 1000, 99).unwrap_err(), SharedError::CooldownNotElapsed);
    assert_eq!(v.spend(account(1), token, to, 5, 1000, 159).unwrap_err(), SharedError::CooldownNotElapsed);
    assert_eq!(v.withdraw(token, to, 5, 1000, 160), Ok(()));
    assert_eq!(v.trackers[0].tracker.last_withdrawal, 160);
}

#[test]
fn a_withdrawal_refused_for_its_balance_records_nothing() {
    let mut v = limited_vault(0, 100, 0);
    let token = contract(10);
    assert_eq!(
        v.withdraw(token, account(2), 60, 59, 1000).unwrap_err(),
        SharedError::InsufficientBalance
    );
    assert!(v.trackers.is_empty());
    // the limits are judged before the balance
    assert_eq!(
        v.withdraw(token, account(2), 101, 59, 1000).unwrap_err(),
        SharedError::DailyLimitExceeded
    );
}

#[test]
fn a_daily_sum_that_does_not_fit_is_reported() {
    let mut v = limited_vault(0, i128::MAX, 0);
    let token = contract(10);
    assert_eq!(v.withdraw(token, account(2), i128::MAX, i128::MAX, 10), Ok(()));
    assert_eq!(v.withdraw(token, account(2), 1, 5, 20).unwrap_err(), SharedError::Overflow);
    assert_eq!(v.trackers[0].tracker.amount_withdrawn, i128::MAX);
}

#[test]
fn a_period_start_near_the_end_of_time_never_ends() {
    let mut v = limited_vault(0, 100, 0);
    let token = contract(10);
    assert_eq!(v.withdraw(token, account(2), 100, 1000, u64::MAX - 10), Ok(()));
    assert_eq!(
        v.withdraw(token, account(2), 1, 1000, u64::MAX).unwrap_err(),
        SharedError::DailyLimitExceeded
    );
}

// ---------------------------------------------------------------------------
// Spenders
// ---------------------------------------------------------------------------

#[test]
fn spend_names_each_error() {
    let (mut v, admin) = vault();
    let token = contract(10);
    let spender = account(2);
    assert_eq!(v.spend(spender, token, spender, 5, 10, 0).unwrap_err(), SharedError::Unauthorized);
    // the spender is judged before the amount
    assert_eq!(v.spend(spender, token, spender, 0, 10, 0).unwrap_err(), SharedError::Unauthorized);
    // the admin may always spend
    assert!(v.is_allowed_spender(admin));
    assert_eq!(v.spend(admin, token, spender, 5, 10, 0), Ok(()));
    v.add_spender(spender).unwrap();
    assert!(v.is_allowed_spender(spender));
    assert_eq!(v.spend(spender, token, spender, 0, 10, 0).unwrap_err(), SharedError::InvalidAmount);
    assert_eq!(
        v.spend(spender, token, spender, 11, 10, 0).unwrap_err(),
        SharedError::InsufficientBalance
    );
    assert_eq!(v.spend(spender, token, spender, 10, 10, 0), Ok(()));
}

#[test]
fn spenders_are_listed_once_up_to_the_limit() {
    let (mut v, _) = vault();
    v.update_config(TreasuryConfig { max_spenders: 2, ..TreasuryConfig::default() }).unwrap();
    v.add_spender(account(2)).unwrap();
    v.add_spender(account(3)).unwrap();
    // one that is listed already is accepted again, even at the limit
    assert_eq!(v.add_spender(account(2)), Ok(()));
    assert_eq!(v.add_spender(account(4)).unwrap_err(), SharedError::LimitExceeded);
    assert_eq!(v.get_spenders(), vec![account(2), account(3)]);
    v.remove_spender(account(2)).unwrap();
    assert_eq!(v.get_spenders(), vec![account(3)]);
    // removing one that is not listed changes nothing
    v.remove_spender(account(9)).unwrap();
    assert_eq!(v.get_spenders(), vec![account(3)]);
    v.add_spender(account(4)).unwrap();
    assert_eq!(v.get_spenders(), vec![account(3), account(4)]);
}

#[test]
fn vault_administration_changes_the_setup() {
    let (mut v, _) = vault();
    v.set_fee_distributor(contract(5)).unwrap();
    assert_eq!(v.fee_distributor(), Some(contract(5)));
    let config = TreasuryConfig {
        rate_limit: RateLimitConfig {
            max_per_tx: 1,
            daily_limit: 2,
            cooldown_seconds: 3,
            enabled: true,
        },
        max_tokens: 4,
        max_spenders: 5,
    };
    v.update_config(config).unwrap();
    assert_eq!(v.get_config(), config);
    let limits = RateLimitConfig::default();
    assert_eq!(
        limits,
        RateLimitConfig { max_per_tx: 0, daily_limit: 0, cooldown_seconds: 0, enabled: false }
    );
}

#[test]
fn vault_well_formedness_is_checked() {
    let mut v = limited_vault(0, 100, 0);
    v.deposit(account(2), contract(10), 5).unwrap();
    v.add_spender(account(3)).unwrap();
    v.withdraw(contract(10), account(2), 5, 5, 10).unwrap();
    assert!(v.is_well_formed());

    v.tokens.push(contract(10));
    assert!(!v.is_well_formed());
    v.tokens.pop();
    v.spenders.push(account(3));
    assert!(!v.is_well_formed());
    v.spenders.pop();
    let tracker = v.trackers[0];
    v.trackers.push(tracker);
    assert!(!v.is_well_formed());
    v.trackers.pop();
    assert!(v.is_well_formed());
}
