//! The treasury vault: holds tokens of any kind for the protocol and lets
//! the admin and the allowed spenders take them out, within limits.
//!
//! The vault is a state machine over plain values. It moves no tokens
//! itself: every operation says what the host has to transfer, and the host
//! performs those transfers once the operation has succeeded. The host also
//! checks that the acting party authorized the call, reads the vault's
//! balance from the token, and supplies the ledger time.

use vstd::prelude::*;
use crate::address::Address;
use crate::types::{RateLimitConfig, SharedError, TreasuryConfig, WithdrawalTracker};

verus! {

/// Seconds in a day, after which the daily limit starts anew.
pub const SECONDS_PER_DAY: u64 = 86400;

/// What was withdrawn of one token.
#[derive(Clone, Copy, Debug, PartialEq, Eq, Structural)]
pub struct TokenTracker {
    /// The token.
    pub token: Address,
    /// Its withdrawals in the current period.
    pub tracker: WithdrawalTracker,
}

/// The state of a treasury vault.
#[derive(Debug)]
pub struct TreasuryVault {
    /// The admin, from initialization on.
    pub admin: Option<Address>,
    /// Whether deposits and withdrawals are suspended.
    pub paused: bool,
    /// The fee distributor, once it is named.
    pub fee_distributor: Option<Address>,
    /// The limits.
    pub config: TreasuryConfig,
    /// The tokens received so far, each once, in the order in which they
    /// were first received.
    pub tokens: Vec<Address>,
    /// Who may spend besides the admin, each once.
    pub spenders: Vec<Address>,
    /// The withdrawals per token, one entry per token.
    pub trackers: Vec<TokenTracker>,
}

/// The mathematical state of a treasury vault.
pub struct VaultState {
    pub admin: Option<Address>,
    pub paused: bool,
    pub fee_distributor: Option<Address>,
    pub config: TreasuryConfig,
    pub tokens: Seq<Address>,
    pub spenders: Seq<Address>,
    pub trackers: Seq<TokenTracker>,
}

impl View for TreasuryVault {
    type V = VaultState;

    open spec fn view(&self) -> VaultState {
        VaultState {
            admin: self.admin,
            paused: self.paused,
            fee_distributor: self.fee_distributor,
            config: self.config,
            tokens: self.tokens@,
            spenders: self.spenders@,
            trackers: self.trackers@,
        }
    }
}

/// The configuration a vault starts with: no withdrawal limits, at most 100
/// tracked tokens and 50 spenders.
pub open spec fn initial_config() -> TreasuryConfig {
    TreasuryConfig {
        rate_limit: RateLimitConfig {
            max_per_tx: 0,
            daily_limit: 0,
            cooldown_seconds: 0,
            enabled: false,
        },
        max_tokens: 100,
        max_spenders: 50,
    }
}

/// The tracker of a token that was never withdrawn, at `now`.
pub open spec fn fresh_tracker(now: u64) -> WithdrawalTracker {
    WithdrawalTracker { amount_withdrawn: 0, period_start: now, last_withdrawal: 0 }
}

/// `tracker` at `now`: a period that began a day ago or longer is over, and
/// a new one begins with nothing withdrawn.
pub open spec fn current_period(tracker: WithdrawalTracker, now: u64) -> WithdrawalTracker {
    if now >= tracker.period_start + SECONDS_PER_DAY {
        WithdrawalTracker { amount_withdrawn: 0, period_start: now, ..tracker }
    } else {
        tracker
    }
}

/// The tracker after a withdrawal of `amount` at `now` under `limits`, which
/// are enabled, or the limit that refuses it.
///
/// An amount above a set maximum per transaction is
/// `TransactionLimitExceeded`. A withdrawal before the set cooldown since
/// the last one has elapsed is `CooldownNotElapsed`. A withdrawal that takes
/// the period's sum above a set daily limit is `DailyLimitExceeded`; a sum
/// that does not fit is `Overflow`.
pub open spec fn limited_withdrawal(
    limits: RateLimitConfig,
    tracker: WithdrawalTracker,
    amount: i128,
    now: u64,
) -> Result<WithdrawalTracker, SharedError> {
    let period = current_period(tracker, now);
    if limits.max_per_tx > 0 && amount > limits.max_per_tx {
        Err(SharedError::TransactionLimitExceeded)
    } else if limits.cooldown_seconds > 0 && period.last_withdrawal > 0 && now
        - period.last_withdrawal < limits.cooldown_seconds {
        Err(SharedError::CooldownNotElapsed)
    } else if limits.daily_limit > 0 {
        if !(i128::MIN <= period.amount_withdrawn + amount <= i128::MAX) {
            Err(SharedError::Overflow)
        } else if period.amount_withdrawn + amount > limits.daily_limit {
            Err(SharedError::DailyLimitExceeded)
        } else {
            Ok(
                WithdrawalTracker {
                    amount_withdrawn: (period.amount_withdrawn + amount) as i128,
                    last_withdrawal: now,
                    ..period
                },
            )
        }
    } else {
        Ok(WithdrawalTracker { last_withdrawal: now, ..period })
    }
}

/// `list` without every occurrence of `who`.
pub open spec fn without(list: Seq<Address>, who: Address) -> Seq<Address>
    decreases list.len(),
{
    if list.len() == 0 {
        Seq::empty()
    } else {
        let before = without(list.drop_last(), who);
        if list.last() == who {
            before
        } else {
            before.push(list.last())
        }
    }
}

impl VaultState {
    /// Whether the state is one that a vault can be in: no token, no
    /// spender and no tracker occurs twice.
    pub open spec fn wf(self) -> bool {
        &&& forall|i: int, j: int|
            0 <= i < j < self.tokens.len() ==> (#[trigger] self.tokens[i]) != (
            #[trigger] self.tokens[j])
        &&& forall|i: int, j: int|
            0 <= i < j < self.spenders.len() ==> (#[trigger] self.spenders[i]) != (
            #[trigger] self.spenders[j])
        &&& forall|i: int, j: int|
            0 <= i < j < self.trackers.len() ==> (#[trigger] self.trackers[i]).token
                != (#[trigger] self.trackers[j]).token
    }

    /// Whether the withdrawals of `token` are on record.
    pub open spec fn has_tracker(self, token: Address) -> bool {
        exists|i: int| 0 <= i < self.trackers.len() && (#[trigger] self.trackers[i]).token == token
    }

    /// Where the withdrawals of `token` are kept, if they are on record.
    pub open spec fn tracker_index(self, token: Address) -> int {
        choose|i: int| 0 <= i < self.trackers.len() && (#[trigger] self.trackers[i]).token == token
    }

    /// The withdrawals of `token` at `now`: those on record, or none.
    pub open spec fn tracker(self, token: Address, now: u64) -> WithdrawalTracker {
        if self.has_tracker(token) {
            self.trackers[self.tracker_index(token)].tracker
        } else {
            fresh_tracker(now)
        }
    }

    /// The state with the withdrawals of `token` set to `tracker`.
    pub open spec fn with_tracker(self, token: Address, tracker: WithdrawalTracker) -> VaultState {
        let entry = TokenTracker { token, tracker };
        VaultState {
            trackers: if self.has_tracker(token) {
                self.trackers.update(self.tracker_index(token), entry)
            } else {
                self.trackers.push(entry)
            },
            ..self
        }
    }

    /// The state after a withdrawal of `amount` of `token` at `now` has
    /// passed the limits, or the limit that refuses it. While the limits are
    /// not enabled every withdrawal passes and nothing is recorded.
    pub open spec fn rate_limit_step(self, token: Address, amount: i128, now: u64) -> Result<
        VaultState,
        SharedError,
    > {
        if !self.config.rate_limit.enabled {
            Ok(self)
        } else {
            match limited_withdrawal(
                self.config.rate_limit,
                self.tracker(token, now),
                amount,
                now,
            ) {
                Err(e) => Err(e),
                Ok(tracker) => Ok(self.with_tracker(token, tracker)),
            }
        }
    }

    /// Whether `spender` may spend: the admin always, anyone else if it is
    /// among the spenders.
    pub open spec fn allows(self, spender: Address) -> bool {
        self.admin == Some(spender) || self.spenders.contains(spender)
    }

    /// The state after `token` was received: tracked from now on, unless it
    /// is tracked already or the configured number of tokens is reached.
    pub open spec fn track_token(self, token: Address) -> VaultState {
        if self.tokens.contains(token) || self.tokens.len() >= self.config.max_tokens {
            self
        } else {
            VaultState { tokens: self.tokens.push(token), ..self }
        }
    }

    /// The state after a withdrawal of `amount` of `token` at `now`, of
    /// which the vault holds `balance`, or the error with which it is
    /// refused.
    pub open spec fn withdraw_step(self, token: Address, amount: i128, balance: i128, now: u64)
        -> Result<VaultState, SharedError> {
        if self.admin is None {
            Err(SharedError::NotInitialized)
        } else if self.paused {
            Err(SharedError::ContractPaused)
        } else if amount <= 0 {
            Err(SharedError::InvalidAmount)
        } else {
            match self.rate_limit_step(token, amount, now) {
                Err(e) => Err(e),
                Ok(next) => if balance < amount {
                    Err(SharedError::InsufficientBalance)
                } else {
                    Ok(next)
                },
            }
        }
    }

    /// The state after the whole `balance` of `token` was withdrawn at
    /// `now`, or the error with which it is refused.
    pub open spec fn withdraw_all_step(self, token: Address, balance: i128, now: u64) -> Result<
        VaultState,
        SharedError,
    > {
        if self.admin is None {
            Err(SharedError::NotInitialized)
        } else if self.paused {
            Err(SharedError::ContractPaused)
        } else if balance <= 0 {
            Err(SharedError::InsufficientBalance)
        } else {
            self.rate_limit_step(token, balance, now)
        }
    }

    /// The state after `spender` spent `amount` of `token` at `now`, of
    /// which the vault holds `balance`, or the error with which it is
    /// refused.
    pub open spec fn spend_step(
        self,
        spender: Address,
        token: Address,
        amount: i128,
        balance: i128,
        now: u64,
    ) -> Result<VaultState, SharedError> {
        if self.admin is None {
            Err(SharedError::NotInitialized)
        } else if self.paused {
            Err(SharedError::ContractPaused)
        } else if !self.allows(spender) {
            Err(SharedError::Unauthorized)
        } else if amount <= 0 {
            Err(SharedError::InvalidAmount)
        } else {
            match self.rate_limit_step(token, amount, now) {
                Err(e) => Err(e),
                Ok(next) => if balance < amount {
                    Err(SharedError::InsufficientBalance)
                } else {
                    Ok(next)
                },
            }
        }
    }
}


/// Whether `who` is in `list`.
fn contains(list: &Vec<Address>, who: Address) -> (r: bool)
    ensures
        r == list@.contains(who),
{
    let mut i: usize = 0;
    while i < list.len()
        invariant
            i <= list@.len(),
            forall|j: int| 0 <= j < i ==> list@[j] != who,
        decreases list@.len() - i,
    {
        if list[i] == who {
            return true;
        }
        i += 1;
    }
    false
}

/// Whether no address occurs twice in `list`.
fn all_differ(list: &Vec<Address>) -> (r: bool)
    ensures
        r == (forall|i: int, j: int|
            0 <= i < j < list@.len() ==> (#[trigger] list@[i]) != (#[trigger] list@[j])),
{
    let mut j: usize = 0;
    while j < list.len()
        invariant
            j <= list@.len(),
            forall|a: int, b: int| 0 <= a < b < j ==> list@[a] != list@[b],
        decreases list@.len() - j,
    {
        let mut i: usize = 0;
        while i < j
            invariant
                i <= j < list@.len(),
                forall|a: int| 0 <= a < i ==> list@[a] != list@[j as int],
            decreases j - i,
        {
            if list[i] == list[j] {
                return false;
            }
            i += 1;
        }
        j += 1;
    }
    true
}

/// A copy of `list`.
fn copy_of(list: &Vec<Address>) -> (r: Vec<Address>)
    ensures
        r@ == list@,
{
    let mut out: Vec<Address> = Vec::new();
    let mut i: usize = 0;
    while i < list.len()
        invariant
            i <= list@.len(),
            out@ == list@.take(i as int),
        decreases list@.len() - i,
    {
        out.push(list[i]);
        proof {
            assert(list@.take(i + 1) =~= list@.take(i as int).push(list@[i as int]));
        }
        i += 1;
    }
    proof {
        assert(list@.take(list@.len() as int) =~= list@);
    }
    out
}

/// What `without` keeps was in the list, and it keeps no `who`.
proof fn lemma_without(list: Seq<Address>, who: Address)
    ensures
        !without(list, who).contains(who),
        forall|x: Address| without(list, who).contains(x) ==> list.contains(x),
        forall|x: Address| list.contains(x) && x != who ==> without(list, who).contains(x),
        (forall|i: int, j: int| 0 <= i < j < list.len() ==> list[i] != list[j]) ==> (forall|
            i: int,
            j: int,
        |
            0 <= i < j < without(list, who).len() ==> without(list, who)[i] != without(
                list,
                who,
            )[j]),
        without(list, who).len() <= list.len(),
    decreases list.len(),
{
    if list.len() > 0 {
        let rest = list.drop_last();
        let last = list.last();
        lemma_without(rest, who);
        let kept = without(rest, who);
        assert forall|x: Address| without(list, who).contains(x) implies list.contains(x) by {
            if kept.contains(x) {
                assert(rest.contains(x));
                let k = choose|k: int| 0 <= k < rest.len() && rest[k] == x;
                assert(list[k] == x);
            } else {
                let m = choose|m: int| 0 <= m < without(list, who).len() && without(list, who)[m] == x;
                if m < kept.len() {
                    assert(kept[m] == x);
                }
                assert(x == last);
                assert(list[list.len() - 1] == x);
            }
        }
        assert forall|x: Address| list.contains(x) && x != who implies without(
            list,
            who,
        ).contains(x) by {
            let k = choose|k: int| 0 <= k < list.len() && list[k] == x;
            if k < rest.len() {
                assert(rest[k] == x);
                assert(rest.contains(x));
                assert(kept.contains(x));
                let m = choose|m: int| 0 <= m < kept.len() && kept[m] == x;
                assert(without(list, who)[m] == x);
            } else {
                assert(without(list, who)[kept.len() as int] == x);
            }
        }
        if forall|i: int, j: int| 0 <= i < j < list.len() ==> list[i] != list[j] {
            assert forall|i: int, j: int| 0 <= i < j < rest.len() implies rest[i] != rest[j] by {
                assert(rest[i] == list[i] && rest[j] == list[j]);
            }
            if last != who {
                assert(!kept.contains(last)) by {
                    if kept.contains(last) {
                        assert(rest.contains(last));
                        let k = choose|k: int| 0 <= k < rest.len() && rest[k] == last;
                        assert(list[k] == list[list.len() - 1]);
                    }
                }
            }
        }
    }
}

impl TreasuryVault {
    /// Whether the vault is in a state that a vault can be in.
    pub open spec fn wf(&self) -> bool {
        self@.wf()
    }

    /// A vault that is not initialized yet.
    pub fn new() -> (vault: Self)
        ensures
            vault.wf(),
            vault@ == (VaultState {
                admin: None,
                paused: false,
                fee_distributor: None,
                config: initial_config(),
                tokens: Seq::empty(),
                spenders: Seq::empty(),
                trackers: Seq::empty(),
            }),
    {
        TreasuryVault {
            admin: None,
            paused: false,
            fee_distributor: None,
            config: TreasuryConfig::default(),
            tokens: Vec::new(),
            spenders: Vec::new(),
            trackers: Vec::new(),
        }
    }

    /// Whether the vault is in a state that a vault can be in: what `wf`
    /// states, checked on the values at hand.
    ///
    /// A host that has read a vault's state from its ledger checks it with
    /// this before it calls an operation.
    pub fn is_well_formed(&self) -> (ok: bool)
        ensures
            ok == self.wf(),
    {
        if !all_differ(&self.tokens) {
            proof {
                let (i, j) = choose|i: int, j: int|
                    0 <= i < j < self.tokens@.len() && (#[trigger] self.tokens@[i]) == (
                    #[trigger] self.tokens@[j]);
                assert(self@.tokens[i] == self@.tokens[j]);
            }
            return false;
        }
        if !all_differ(&self.spenders) {
            proof {
                let (i, j) = choose|i: int, j: int|
                    0 <= i < j < self.spenders@.len() && (#[trigger] self.spenders@[i]) == (
                    #[trigger] self.spenders@[j]);
                assert(self@.spenders[i] == self@.spenders[j]);
            }
            return false;
        }
        let mut j: usize = 0;
        while j < self.trackers.len()
            invariant
                j <= self.trackers@.len(),
                forall|a: int, b: int|
                    0 <= a < b < j ==> (#[trigger] self.trackers@[a]).token
                        != (#[trigger] self.trackers@[b]).token,
            decreases self.trackers@.len() - j,
        {
            let mut i: usize = 0;
            while i < j
                invariant
                    i <= j < self.trackers@.len(),
                    forall|a: int|
                        0 <= a < i ==> (#[trigger] self.trackers@[a]).token
                            != self.trackers@[j as int].token,
                decreases j - i,
            {
                if self.trackers[i].token == self.trackers[j].token {
                    return false;
                }
                i += 1;
            }
            j += 1;
        }
        true
    }

    /// Sets up the vault with its admin, without limits on withdrawals.
    ///
    /// A vault that was initialized before is `AlreadyInitialized`.
    pub fn initialize(&mut self, admin: Address) -> (r: Result<(), SharedError>)
        requires
            old(self).wf(),
        ensures
            final(self).wf(),
            old(self)@.admin is Some ==> r == Err::<(), SharedError>(
                SharedError::AlreadyInitialized,
            ) && *final(self) == *old(self),
            old(self)@.admin is None ==> r == Ok::<(), SharedError>(()) && final(self)@ == (
            VaultState {
                admin: Some(admin),
                paused: false,
                config: initial_config(),
                tokens: Seq::empty(),
                spenders: Seq::empty(),
                ..old(self)@
            }),
    {
        if self.admin.is_some() {
            return Err(SharedError::AlreadyInitialized);
        }
        self.admin = Some(admin);
        self.tokens = Vec::new();
        self.spenders = Vec::new();
        self.config = TreasuryConfig::default();
        self.paused = false;
        Ok(())
    }

    /// Tracks `token` unless it is tracked already or the configured number
    /// of tokens is reached.
    fn note_token(&mut self, token: Address)
        requires
            old(self).wf(),
        ensures
            final(self).wf(),
            final(self)@ == old(self)@.track_token(token),
    {
        if contains(&self.tokens, token) {
            return ;
        }
        if self.tokens.len() >= self.config.max_tokens as usize {
            return ;
        }
        self.tokens.push(token);
    }

    /// Records that `amount` of `token` arrived from `from`.
    ///
    /// Tokens reach the vault without its doing; this only tracks the token,
    /// unless it is tracked already or the configured number of tokens is
    /// reached. A vault that is not initialized is `NotInitialized`; an
    /// amount that is not positive is `InvalidAmount`.
    pub fn notify_deposit(&mut self, token: Address, from: Address, amount: i128) -> (r: Result<
        (),
        SharedError,
    >)
        requires
            old(self).wf(),
        ensures
            final(self).wf(),
            old(self)@.admin is None ==> r == Err::<(), SharedError>(SharedError::NotInitialized),
            old(self)@.admin is Some && amount <= 0 ==> r == Err::<(), SharedError>(
                SharedError::InvalidAmount,
            ),
            old(self)@.admin is Some && amount > 0 ==> r == Ok::<(), SharedError>(()),
            r is Err ==> *final(self) == *old(self),
            r is Ok ==> final(self)@ == old(self)@.track_token(token),
    {
        if self.admin.is_none() {
            return Err(SharedError::NotInitialized);
        }
        if amount <= 0 {
            return Err(SharedError::InvalidAmount);
        }
        self.note_token(token);
        Ok(())
    }

    /// Takes in `amount` of `token` from `from`.
    ///
    /// The host has checked that `from` authorized the call. On success it
    /// moves `amount` of `token` from `from` into the vault's custody.
    ///
    /// The token is tracked from now on, unless it is tracked already or the
    /// configured number of tokens is reached. A vault that is not
    /// initialized is `NotInitialized`, a paused one `ContractPaused`; an
    /// amount that is not positive is `InvalidAmount`.
    pub fn deposit(&mut self, from: Address, token: Address, amount: i128) -> (r: Result<
        (),
        SharedError,
    >)
        requires
            old(self).wf(),
        ensures
            final(self).wf(),
            old(self)@.admin is None ==> r == Err::<(), SharedError>(SharedError::NotInitialized),
            old(self)@.admin is Some && old(self)@.paused ==> r == Err::<(), SharedError>(
                SharedError::ContractPaused,
            ),
            old(self)@.admin is Some && !old(self)@.paused && amount <= 0 ==> r == Err::<
                (),
                SharedError,
            >(SharedError::InvalidAmount),
            old(self)@.admin is Some && !old(self)@.paused && amount > 0 ==> r == Ok::<
                (),
                SharedError,
            >(()),
            r is Err ==> *final(self) == *old(self),
            r is Ok ==> final(self)@ == old(self)@.track_token(token),
    {
        if self.admin.is_none() {
            return Err(SharedError::NotInitialized);
        }
        if self.paused {
            return Err(SharedError::ContractPaused);
        }
        if amount <= 0 {
            return Err(SharedError::InvalidAmount);
        }
        self.note_token(token);
        Ok(())
    }

    /// Where the withdrawals of `token` are kept.
    fn find_tracker(&self, token: Address) -> (r: Option<usize>)
        ensures
            r matches Some(i) ==> i < self.trackers@.len() && self.trackers@[i as int].token
                == token && self@.has_tracker(token),
            r matches Some(i) ==> (self.wf() ==> self@.tracker_index(token) == i),
            r is None ==> !self@.has_tracker(token),
    {
        let mut i: usize = 0;
        while i < self.trackers.len()
            invariant
                i <= self.trackers@.len(),
                forall|j: int| 0 <= j < i ==> (#[trigger] self.trackers@[j]).token != token,
            decreases self.trackers@.len() - i,
        {
            if self.trackers[i].token == token {
                return Some(i);
            }
            i += 1;
        }
        None
    }

    /// Whether a withdrawal of `amount` of `token` at `now` passes the
    /// limits, and where the tracker it leaves is to be kept.
    fn check_rate_limit(&self, token: Address, amount: i128, now: u64) -> (r: Result<
        Option<(Option<usize>, WithdrawalTracker)>,
        SharedError,
    >)
        requires
            self.wf(),
        ensures
            match r {
                Err(e) => self@.rate_limit_step(token, amount, now) == Err::<
                    VaultState,
                    SharedError,
                >(e),
                Ok(None) => self@.rate_limit_step(token, amount, now) == Ok::<
                    VaultState,
                    SharedError,
                >(self@),
                Ok(Some((found, tracker))) => {
                    &&& self@.rate_limit_step(token, amount, now) == Ok::<VaultState, SharedError>(
                        self@.with_tracker(token, tracker),
                    )
                    &&& found matches Some(i) ==> self@.has_tracker(token) && self@.tracker_index(
                        token,
                    ) == i && i < self.trackers@.len()
                    &&& found is None ==> !self@.has_tracker(token)
                },
            },
    {
        let limits: RateLimitConfig = self.config.rate_limit;
        if !limits.enabled {
            return Ok(None);
        }
        if limits.max_per_tx > 0 && amount > limits.max_per_tx {
            return Err(SharedError::TransactionLimitExceeded);
        }
        let found: Option<usize> = self.find_tracker(token);
        let mut tracker: WithdrawalTracker = match found {
            Some(i) => self.trackers[i].tracker,
            None => WithdrawalTracker { amount_withdrawn: 0, period_start: now, last_withdrawal: 0 },
        };
        if now >= SECONDS_PER_DAY && now - SECONDS_PER_DAY >= tracker.period_start {
            tracker.amount_withdrawn = 0;
            tracker.period_start = now;
        }
        if limits.cooldown_seconds > 0 {
            let time_since_last: u64 = if now >= tracker.last_withdrawal {
                now - tracker.last_withdrawal
            } else {
                0
            };
            if time_since_last < limits.cooldown_seconds && tracker.last_withdrawal > 0 {
                return Err(SharedError::CooldownNotElapsed);
            }
        }
        if limits.daily_limit > 0 {
            let new_total: i128 = match tracker.amount_withdrawn.checked_add(amount) {
                Some(v) => v,
                None => { return Err(SharedError::Overflow); },
            };
            if new_total > limits.daily_limit {
                return Err(SharedError::DailyLimitExceeded);
            }
            tracker.amount_withdrawn = new_total;
        }
        tracker.last_withdrawal = now;
        Ok(Some((found, tracker)))
    }

    /// Records the tracker that a withdrawal left.
    fn store_tracker(&mut self, found: Option<usize>, token: Address, tracker: WithdrawalTracker)
        requires
            old(self).wf(),
            found matches Some(i) ==> old(self)@.has_tracker(token) && old(self)@.tracker_index(
                token,
            ) == i && i < old(self).trackers@.len(),
            found is None ==> !old(self)@.has_tracker(token),
        ensures
            final(self).wf(),
            final(self)@ == old(self)@.with_tracker(token, tracker),
    {
        let entry = TokenTracker { token, tracker };
        match found {
            Some(i) => {
                self.trackers.set(i, entry);
            },
            None => {
                self.trackers.push(entry);
            },
        }
    }

    /// Withdraws `amount` of `token` to `to` at `now`; the vault holds
    /// `balance` of the token.
    ///
    /// The host has checked that the admin authorized the call, and has read
    /// `balance` from the token. On success it moves `amount` of `token`
    /// from the vault's custody to `to`.
    ///
    /// A vault that is not initialized is `NotInitialized`, a paused one
    /// `ContractPaused`; an amount that is not positive is `InvalidAmount`;
    /// then the enabled limits are applied, with their errors; and an amount
    /// above the balance is `InsufficientBalance`. A withdrawal that passes
    /// enabled limits is recorded in the token's tracker. A refused
    /// withdrawal changes nothing.
    pub fn withdraw(&mut self, token: Address, to: Address, amount: i128, balance: i128, now: u64) -> (r:
        Result<(), SharedError>)
        requires
            old(self).wf(),
        ensures
            final(self).wf(),
            match r {
                Ok(_) => old(self)@.withdraw_step(token, amount, balance, now) == Ok::<
                    VaultState,
                    SharedError,
                >(final(self)@),
                Err(e) => old(self)@.withdraw_step(token, amount, balance, now) == Err::<
                    VaultState,
                    SharedError,
                >(e) && *final(self) == *old(self),
            },
    {
        if self.admin.is_none() {
            return Err(SharedError::NotInitialized);
        }
        if self.paused {
            return Err(SharedError::ContractPaused);
        }
        if amount <= 0 {
            return Err(SharedError::InvalidAmount);
        }
        let passed = match self.check_rate_limit(token, amount, now) {
            Ok(v) => v,
            Err(e) => { return Err(e); },
        };
        if balance < amount {
            return Err(SharedError::InsufficientBalance);
        }
        match passed {
            Some((found, tracker)) => {
                self.store_tracker(found, token, tracker);
            },
            None => {},
        }
        Ok(())
    }

    /// Withdraws everything the vault holds of `token`, which is `balance`,
    /// to `to` at `now`, and returns the amount.
    ///
    /// The host has checked that the admin authorized the call, and has read
    /// `balance` from the token. On success it moves `balance` of `token`
    /// from the vault's custody to `to`.
    ///
    /// A vault that is not initialized is `NotInitialized`, a paused one
    /// `ContractPaused`; a balance that is not positive is
    /// `InsufficientBalance`; then the enabled limits are applied to the
    /// balance, with their errors. A refused withdrawal changes nothing.
    pub fn withdraw_all(&mut self, token: Address, to: Address, balance: i128, now: u64) -> (r: Result<
        i128,
        SharedError,
    >)
        requires
            old(self).wf(),
        ensures
            final(self).wf(),
            match r {
                Ok(amount) => amount == balance && old(self)@.withdraw_all_step(
                    token,
                    balance,
                    now,
                ) == Ok::<VaultState, SharedError>(final(self)@),
                Err(e) => old(self)@.withdraw_all_step(token, balance, now) == Err::<
                    VaultState,
                    SharedError,
                >(e) && *final(self) == *old(self),
            },
    {
        if self.admin.is_none() {
            return Err(SharedError::NotInitialized);
        }
        if self.paused {
            return Err(SharedError::ContractPaused);
        }
        if balance <= 0 {
            return Err(SharedError::InsufficientBalance);
        }
        match self.check_rate_limit(token, balance, now) {
            Ok(Some((found, tracker))) => {
                self.store_tracker(found, token, tracker);
            },
            Ok(None) => {},
            Err(e) => { return Err(e); },
        }
        Ok(balance)
    }

    /// Whether `spender` may spend: the admin always, anyone else if it is
    /// among the spenders.
    pub fn is_allowed_spender(&self, spender: Address) -> (r: bool)
        ensures
            r == self@.allows(spender),
    {
        if let Some(admin) = self.admin {
            if admin == spender {
                return true;
            }
        }
        contains(&self.spenders, spender)
    }

    /// Spends `amount` of `token` to `to` on behalf of the vault, at `now`;
    /// the vault holds `balance` of the token.
    ///
    /// The host has checked that `spender` authorized the call, and has read
    /// `balance` from the token. On success it moves `amount` of `token`
    /// from the vault's custody to `to`.
    ///
    /// A vault that is not initialized is `NotInitialized`, a paused one
    /// `ContractPaused`; a spender that is neither the admin nor allowed is
    /// `Unauthorized`; an amount that is not positive is `InvalidAmount`;
    /// then the enabled limits are applied, with their errors; and an amount
    /// above the balance is `InsufficientBalance`. A refused call changes
    /// nothing.
    pub fn spend(
        &mut self,
        spender: Address,
        token: Address,
        to: Address,
        amount: i128,
        balance: i128,
        now: u64,
    ) -> (r: Result<(), SharedError>)
        requires
            old(self).wf(),
        ensures
            final(self).wf(),
            match r {
                Ok(_) => old(self)@.spend_step(spender, token, amount, balance, now) == Ok::<
                    VaultState,
                    SharedError,
                >(final(self)@),
                Err(e) => old(self)@.spend_step(spender, token, amount, balance, now) == Err::<
                    VaultState,
                    SharedError,
                >(e) && *final(self) == *old(self),
            },
    {
        if self.admin.is_none() {
            return Err(SharedError::NotInitialized);
        }
        if self.paused {
            return Err(SharedError::ContractPaused);
        }
        if !self.is_allowed_spender(spender) {
            return Err(SharedError::Unauthorized);
        }
        if amount <= 0 {
            return Err(SharedError::InvalidAmount);
        }
        let passed = match self.check_rate_limit(token, amount, now) {
            Ok(v) => v,
            Err(e) => { return Err(e); },
        };
        if balance < amount {
            return Err(SharedError::InsufficientBalance);
        }
        match passed {
            Some((found, tracker)) => {
                self.store_tracker(found, token, tracker);
            },
            None => {},
        }
        Ok(())
    }

    /// Names another admin.
    ///
    /// The host has checked that the present admin authorized the call. A
    /// vault that is not initialized is `NotInitialized`.
    pub fn set_admin(&mut self, new_admin: Address) -> (r: Result<(), SharedError>)
        requires
            old(self).wf(),
        ensures
            final(self).wf(),
            old(self)@.admin is None ==> r == Err::<(), SharedError>(SharedError::NotInitialized)
                && *final(self) == *old(self),
            old(self)@.admin is Some ==> r == Ok::<(), SharedError>(()) && final(self)@ == (
            VaultState { admin: Some(new_admin), ..old(self)@ }),
    {
        if self.admin.is_none() {
            return Err(SharedError::NotInitialized);
        }
        self.admin = Some(new_admin);
        Ok(())
    }

    /// Names the fee distributor.
    ///
    /// The host has checked that the admin authorized the call. A vault that
    /// is not initialized is `NotInitialized`.
    pub fn set_fee_distributor(&mut self, fee_distributor: Address) -> (r: Result<(), SharedError>)
        requires
            old(self).wf(),
        ensures
            final(self).wf(),
            old(self)@.admin is None ==> r == Err::<(), SharedError>(SharedError::NotInitialized)
                && *final(self) == *old(self),
            old(self)@.admin is Some ==> r == Ok::<(), SharedError>(()) && final(self)@ == (
            VaultState { fee_distributor: Some(fee_distributor), ..old(self)@ }),
    {
        if self.admin.is_none() {
            return Err(SharedError::NotInitialized);
        }
        self.fee_distributor = Some(fee_distributor);
        Ok(())
    }

    /// Allows `spender` to spend.
    ///
    /// The host has checked that the admin authorized the call. A spender
    /// that is allowed already stays so and nothing changes; otherwise it
    /// joins the spenders, unless their configured number is reached, which
    /// is `LimitExceeded`. A vault that is not initialized is
    /// `NotInitialized`.
    pub fn add_spender(&mut self, spender: Address) -> (r: Result<(), SharedError>)
        requires
            old(self).wf(),
        ensures
            final(self).wf(),
            old(self)@.admin is None ==> r == Err::<(), SharedError>(SharedError::NotInitialized),
            old(self)@.admin is Some && old(self)@.spenders.contains(spender) ==> r == Ok::<
                (),
                SharedError,
            >(()) && *final(self) == *old(self),
            old(self)@.admin is Some && !old(self)@.spenders.contains(spender) && old(
                self,
            )@.spenders.len() >= old(self)@.config.max_spenders ==> r == Err::<(), SharedError>(
                SharedError::LimitExceeded,
            ),
            old(self)@.admin is Some && !old(self)@.spenders.contains(spender) && old(
                self,
            )@.spenders.len() < old(self)@.config.max_spenders ==> r == Ok::<(), SharedError>(())
                && final(self)@ == (VaultState {
                spenders: old(self)@.spenders.push(spender),
                ..old(self)@
            }),
            r is Err ==> *final(self) == *old(self),
    {
        if self.admin.is_none() {
            return Err(SharedError::NotInitialized);
        }
        if contains(&self.spenders, spender) {
            return Ok(());
        }
        if self.spenders.len() >= self.config.max_spenders as usize {
            return Err(SharedError::LimitExceeded);
        }
        self.spenders.push(spender);
        Ok(())
    }

    /// Stops `spender` from spending.
    ///
    /// The host has checked that the admin authorized the call. The spender
    /// leaves the spenders, the others stay in their order. A vault that is
    /// not initialized is `NotInitialized`.
    pub fn remove_spender(&mut self, spender: Address) -> (r: Result<(), SharedError>)
        requires
            old(self).wf(),
        ensures
            final(self).wf(),
            old(self)@.admin is None ==> r == Err::<(), SharedError>(SharedError::NotInitialized)
                && *final(self) == *old(self),
            old(self)@.admin is Some ==> r == Ok::<(), SharedError>(()) && final(self)@ == (
            VaultState { spenders: without(old(self)@.spenders, spender), ..old(self)@ }),
            r is Ok ==> !final(self)@.spenders.contains(spender),
    {
        if self.admin.is_none() {
            return Err(SharedError::NotInitialized);
        }
        let mut kept: Vec<Address> = Vec::new();
        let mut i: usize = 0;
        while i < self.spenders.len()
            invariant
                i <= self.spenders@.len(),
                kept@ == without(self.spenders@.take(i as int), spender),
            decreases self.spenders@.len() - i,
        {
            let s: Address = self.spenders[i];
            proof {
                assert(self.spenders@.take(i + 1).drop_last() =~= self.spenders@.take(i as int));
            }
            if s != spender {
                kept.push(s);
            }
            i += 1;
        }
        proof {
            assert(self.spenders@.take(self.spenders@.len() as int) =~= self.spenders@);
            lemma_without(self.spenders@, spender);
        }
        self.spenders = kept;
        Ok(())
    }

    /// Suspends or resumes deposits and withdrawals.
    ///
    /// The host has checked that the admin authorized the call. A vault that
    /// is not initialized is `NotInitialized`.
    pub fn set_paused(&mut self, paused: bool) -> (r: Result<(), SharedError>)
        requires
            old(self).wf(),
        ensures
            final(self).wf(),
            old(self)@.admin is None ==> r == Err::<(), SharedError>(SharedError::NotInitialized)
                && *final(self) == *old(self),
            old(self)@.admin is Some ==> r == Ok::<(), SharedError>(()) && final(self)@ == (
            VaultState { paused, ..old(self)@ }),
    {
        if self.admin.is_none() {
            return Err(SharedError::NotInitialized);
        }
        self.paused = paused;
        Ok(())
    }

    /// Replaces the limits.
    ///
    /// The host has checked that the admin authorized the call. A vault that
    /// is not initialized is `NotInitialized`.
    pub fn update_config(&mut self, new_config: TreasuryConfig) -> (r: Result<(), SharedError>)
        requires
            old(self).wf(),
        ensures
            final(self).wf(),
            old(self)@.admin is None ==> r == Err::<(), SharedError>(SharedError::NotInitialized)
                && *final(self) == *old(self),
            old(self)@.admin is Some ==> r == Ok::<(), SharedError>(()) && final(self)@ == (
            VaultState { config: new_config, ..old(self)@ }),
    {
        if self.admin.is_none() {
            return Err(SharedError::NotInitialized);
        }
        self.config = new_config;
        Ok(())
    }

    /// The admin, or `NotInitialized`.
    pub fn get_admin(&self) -> (r: Result<Address, SharedError>)
        ensures
            self@.admin matches Some(admin) ==> r == Ok::<Address, SharedError>(admin),
            self@.admin is None ==> r == Err::<Address, SharedError>(SharedError::NotInitialized),
    {
        match self.admin {
            Some(admin) => Ok(admin),
            None => Err(SharedError::NotInitialized),
        }
    }

    /// The tokens received so far, in the order in which they were first
    /// received.
    pub fn get_tokens(&self) -> (r: Vec<Address>)
        ensures
            r@ == self@.tokens,
    {
        copy_of(&self.tokens)
    }

    /// Who may spend besides the admin.
    pub fn get_spenders(&self) -> (r: Vec<Address>)
        ensures
            r@ == self@.spenders,
    {
        copy_of(&self.spenders)
    }

    /// Whether the vault is initialized.
    pub fn is_initialized(&self) -> (r: bool)
        ensures
            r == self@.admin is Some,
    {
        self.admin.is_some()
    }

    /// Whether deposits and withdrawals are suspended.
    pub fn is_paused(&self) -> (r: bool)
        ensures
            r == self@.paused,
    {
        self.paused
    }

    /// The fee distributor, once it is named.
    pub fn fee_distributor(&self) -> (r: Option<Address>)
        ensures
            r == self@.fee_distributor,
    {
        self.fee_distributor
    }

    /// The limits.
    pub fn get_config(&self) -> (r: TreasuryConfig)
        ensures
            r == self@.config,
    {
        self.config
    }
}

} // verus!
