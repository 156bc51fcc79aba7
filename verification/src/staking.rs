//! The staking pool: proportional, lazily settled distribution of pooled
//! rewards.
//!
//! For every reward token the pool keeps an accumulator, the reward that one
//! staked unit has earned since the pool began, scaled by `PRECISION`. For
//! every position and reward token the pool remembers how much of the
//! accumulated reward was attributed to the position already (its reward
//! debt of that token); what it has earned since is the difference, and is
//! paid out whenever the position is touched.
//!
//! The pool is a state machine over plain values. It moves no tokens itself:
//! every operation says what the host has to transfer, and the host performs
//! those transfers once the operation has succeeded. The host also checks that
//! the acting party authorized the call, and supplies the ledger time.

use vstd::prelude::*;
use crate::address::Address;
use crate::math::{mul_div_down, mul_div_down_result, safe_add, safe_div, safe_mul, safe_sub, PRECISION};
use crate::types::{SharedError, StakingConfig, UserStake};

verus! {

/// What a pool is set up with when it is initialized.
#[derive(Clone, Copy, Debug, PartialEq, Eq, Structural)]
pub struct StakingSetup {
    /// Who administers the pool.
    pub admin: Address,
    /// The token that is staked.
    pub stake_token: Address,
    /// Who, besides the admin, may deposit rewards.
    pub fee_distributor: Address,
    /// The pool's configuration.
    pub config: StakingConfig,
}

/// The position of one principal in the pool.
#[derive(Clone, Copy, Debug, PartialEq, Eq, Structural)]
pub struct StakeEntry {
    /// The principal.
    pub user: Address,
    /// Its position.
    pub stake: UserStake,
}

/// The bookkeeping of one reward token.
#[derive(Clone, Copy, Debug, PartialEq, Eq, Structural)]
pub struct RewardAccumulator {
    /// The reward token.
    pub token: Address,
    /// Reward earned by one staked unit so far, scaled by `PRECISION`. It
    /// never decreases.
    pub acc_reward_per_share: i128,
    /// Everything deposited of this token so far. It never decreases.
    pub total_rewards_distributed: i128,
}

/// What of one reward token was attributed to one position already.
#[derive(Clone, Copy, Debug, PartialEq, Eq, Structural)]
pub struct RewardDebt {
    /// The principal.
    pub user: Address,
    /// The reward token.
    pub token: Address,
    /// The position's amount times the token's accumulator at the last
    /// settlement, divided by the precision and rounded down.
    pub debt: i128,
}

/// What a stake or an unstake settled.
#[derive(Debug)]
pub struct Settlement {
    /// The amount the principal has staked after the operation.
    pub balance: i128,
    /// The rewards to pay out to the principal, by token, in the order in
    /// which the tokens were first deposited.
    pub rewards: Vec<(Address, i128)>,
}

/// The state of a staking pool.
#[derive(Debug)]
pub struct StakingPool {
    /// The setup, from initialization on.
    pub setup: Option<StakingSetup>,
    /// Whether staking, unstaking and claiming are suspended.
    pub paused: bool,
    /// The sum of all staked amounts.
    pub total_staked: i128,
    /// The positions, one per principal, in the order in which the principals
    /// first appeared.
    pub stakes: Vec<StakeEntry>,
    /// The reward tokens, one entry per token, in the order in which the
    /// tokens were first deposited.
    pub rewards: Vec<RewardAccumulator>,
    /// The reward debts, one entry per position and reward token that was
    /// settled so far. A position owes nothing of a token without an entry.
    pub debts: Vec<RewardDebt>,
}

/// The mathematical state of a staking pool.
pub struct PoolState {
    pub setup: Option<StakingSetup>,
    pub paused: bool,
    pub total_staked: i128,
    pub stakes: Seq<StakeEntry>,
    pub rewards: Seq<RewardAccumulator>,
    pub debts: Seq<RewardDebt>,
}

impl View for StakingPool {
    type V = PoolState;

    open spec fn view(&self) -> PoolState {
        PoolState {
            setup: self.setup,
            paused: self.paused,
            total_staked: self.total_staked,
            stakes: self.stakes@,
            rewards: self.rewards@,
            debts: self.debts@,
        }
    }
}

/// The sum of the staked amounts of `stakes`.
pub open spec fn staked_sum(stakes: Seq<StakeEntry>) -> int
    decreases stakes.len(),
{
    if stakes.len() == 0 {
        0
    } else {
        staked_sum(stakes.drop_last()) + stakes.last().stake.amount
    }
}

/// What a position of `amount` has accumulated at the accumulator value
/// `acc_per_share`, less `reward_debt`.
///
/// An accumulated value that cannot be formed is the error of `mul_div_down`;
/// a difference below zero or out of range is `Underflow`.
pub open spec fn pending_result(amount: i128, acc_per_share: i128, reward_debt: i128) -> Result<
    i128,
    SharedError,
> {
    match mul_div_down_result(amount as int, acc_per_share as int, PRECISION as int) {
        Ok(accumulated) => if 0 <= accumulated - reward_debt <= i128::MAX {
            Ok((accumulated - reward_debt) as i128)
        } else {
            Err(SharedError::Underflow)
        },
        Err(e) => Err(e),
    }
}

/// The reward that a position of `amount` with `reward_debt` can claim at the
/// accumulator value `acc_per_share`: `pending_result`, with every failure
/// counted as nothing pending.
pub open spec fn pending_amount(amount: i128, reward_debt: i128, acc_per_share: i128) -> i128 {
    match pending_result(amount, acc_per_share, reward_debt) {
        Ok(pending) => pending,
        Err(_) => 0,
    }
}

/// What a position of `amount` has accumulated at the accumulator value
/// `acc_per_share`: `amount * acc_per_share / PRECISION` rounded down, and
/// zero where that cannot be formed.
pub open spec fn entitlement(amount: i128, acc_per_share: i128) -> i128 {
    match mul_div_down_result(amount as int, acc_per_share as int, PRECISION as int) {
        Ok(accumulated) => accumulated,
        Err(_) => 0,
    }
}

/// Whether a debt of `user` for `token` is among `debts`.
pub open spec fn has_debt(debts: Seq<RewardDebt>, user: Address, token: Address) -> bool {
    exists|i: int|
        0 <= i < debts.len() && (#[trigger] debts[i]).user == user && debts[i].token == token
}

/// Where the debt of `user` for `token` is kept, if it is among `debts`.
pub open spec fn debt_index(debts: Seq<RewardDebt>, user: Address, token: Address) -> int {
    choose|i: int|
        0 <= i < debts.len() && (#[trigger] debts[i]).user == user && debts[i].token == token
}

/// The debt of `user` for `token` among `debts`, zero if there is none.
pub open spec fn debt_in(debts: Seq<RewardDebt>, user: Address, token: Address) -> i128 {
    if has_debt(debts, user, token) {
        debts[debt_index(debts, user, token)].debt
    } else {
        0
    }
}

/// `debts` with the debt of `user` for `token` set to `debt`.
pub open spec fn with_debt(debts: Seq<RewardDebt>, user: Address, token: Address, debt: i128)
    -> Seq<RewardDebt> {
    let entry = RewardDebt { user, token, debt };
    if has_debt(debts, user, token) {
        debts.update(debt_index(debts, user, token), entry)
    } else {
        debts.push(entry)
    }
}

/// `debts` with the debts of `user` for the first `n` of `rewards` set to
/// what a position of `amount` has accumulated of each.
pub open spec fn settled_debts(
    debts: Seq<RewardDebt>,
    user: Address,
    amount: i128,
    rewards: Seq<RewardAccumulator>,
    n: int,
) -> Seq<RewardDebt>
    decreases n,
{
    if n <= 0 {
        debts
    } else {
        with_debt(
            settled_debts(debts, user, amount, rewards, n - 1),
            user,
            rewards[n - 1].token,
            entitlement(amount, rewards[n - 1].acc_reward_per_share),
        )
    }
}

/// The positive pending rewards of a position of `user` holding `amount`,
/// over the first `n` of `rewards`, in their order: for each token what the
/// amount has accumulated, less the debt on record.
pub open spec fn pending_scan(
    debts: Seq<RewardDebt>,
    rewards: Seq<RewardAccumulator>,
    user: Address,
    amount: i128,
    n: int,
) -> Seq<(Address, i128)>
    decreases n,
{
    if n <= 0 {
        Seq::empty()
    } else {
        let before = pending_scan(debts, rewards, user, amount, n - 1);
        let reward = rewards[n - 1];
        let pending = pending_amount(
            amount,
            debt_in(debts, user, reward.token),
            reward.acc_reward_per_share,
        );
        if pending > 0 {
            before.push((reward.token, pending))
        } else {
            before
        }
    }
}

/// The debt that a position of `amount` records for itself once it is
/// settled against `rewards`: its debt of the last reward token,
/// `amount * acc / PRECISION` rounded down. Without any token the debt stays
/// `debt`. If the value cannot be formed for one of the tokens, the
/// settlement fails with `Overflow`.
pub open spec fn settled_debt(amount: i128, rewards: Seq<RewardAccumulator>, debt: i128) -> Result<
    i128,
    SharedError,
> {
    if exists|i: int|
        0 <= i < rewards.len() && (#[trigger] mul_div_down_result(
            amount as int,
            rewards[i].acc_reward_per_share as int,
            PRECISION as int,
        )) is Err {
        Err(SharedError::Overflow)
    } else if rewards.len() == 0 {
        Ok(debt)
    } else {
        mul_div_down_result(
            amount as int,
            rewards.last().acc_reward_per_share as int,
            PRECISION as int,
        )
    }
}

impl PoolState {
    /// Whether the state is one that a pool can be in.
    ///
    /// No amount is negative, no principal and no token occurs twice, the
    /// total is the sum of the positions, and an initialized pool has a
    /// positive minimum stake.
    pub open spec fn wf(self) -> bool {
        &&& self.total_staked == staked_sum(self.stakes)
        &&& forall|i: int|
            0 <= i < self.stakes.len() ==> (#[trigger] self.stakes[i]).stake.amount >= 0
                && self.stakes[i].stake.reward_debt >= 0
        &&& forall|i: int, j: int|
            0 <= i < j < self.stakes.len() ==> (#[trigger] self.stakes[i]).user
                != (#[trigger] self.stakes[j]).user
        &&& forall|i: int|
            0 <= i < self.rewards.len() ==> (#[trigger] self.rewards[i]).acc_reward_per_share >= 0
                && self.rewards[i].total_rewards_distributed >= 0
        &&& forall|i: int, j: int|
            0 <= i < j < self.rewards.len() ==> (#[trigger] self.rewards[i]).token
                != (#[trigger] self.rewards[j]).token
        &&& forall|i: int| 0 <= i < self.debts.len() ==> (#[trigger] self.debts[i]).debt >= 0
        &&& forall|i: int, j: int|
            0 <= i < j < self.debts.len() ==> !((#[trigger] self.debts[i]).user == (
            #[trigger] self.debts[j]).user && self.debts[i].token == self.debts[j].token)
        &&& self.setup matches Some(setup) ==> setup.config.min_stake_amount > 0
    }

    /// The debt of `user` for `token`: the one on record, or zero.
    pub open spec fn debt(self, user: Address, token: Address) -> i128 {
        debt_in(self.debts, user, token)
    }

    /// The state with the debts of `user` for the first `n` reward tokens
    /// set to what a position of `amount` has accumulated of them.
    pub open spec fn settled(self, user: Address, amount: i128, n: int) -> PoolState {
        PoolState { debts: settled_debts(self.debts, user, amount, self.rewards, n), ..self }
    }

    /// The positive pending rewards of a position of `user` holding `amount`,
    /// over the first `n` reward tokens, in their order.
    pub open spec fn pending_within(self, user: Address, amount: i128, n: int) -> Seq<
        (Address, i128),
    > {
        pending_scan(self.debts, self.rewards, user, amount, n)
    }

    /// Whether `user` has a position on record.
    pub open spec fn has_position(self, user: Address) -> bool {
        exists|i: int| 0 <= i < self.stakes.len() && (#[trigger] self.stakes[i]).user == user
    }

    /// Where the position of `user` is kept, if it has one.
    pub open spec fn position_index(self, user: Address) -> int {
        choose|i: int| 0 <= i < self.stakes.len() && (#[trigger] self.stakes[i]).user == user
    }

    /// The position of `user`: the one on record, or an empty one taken at
    /// `now` for a principal that has none.
    pub open spec fn position(self, user: Address, now: u64) -> UserStake {
        if self.has_position(user) {
            self.stakes[self.position_index(user)].stake
        } else {
            UserStake { amount: 0, stake_time: now, last_claim_time: now, reward_debt: 0 }
        }
    }

    /// The state with the position of `user` set to `stake`.
    pub open spec fn with_position(self, user: Address, stake: UserStake) -> PoolState {
        let entry = StakeEntry { user, stake };
        PoolState {
            stakes: if self.has_position(user) {
                self.stakes.update(self.position_index(user), entry)
            } else {
                self.stakes.push(entry)
            },
            ..self
        }
    }

    /// Whether `token` is a tracked reward token.
    pub open spec fn tracks(self, token: Address) -> bool {
        exists|i: int| 0 <= i < self.rewards.len() && (#[trigger] self.rewards[i]).token == token
    }

    /// Where the bookkeeping of `token` is kept, if it is tracked.
    pub open spec fn reward_index(self, token: Address) -> int {
        choose|i: int| 0 <= i < self.rewards.len() && (#[trigger] self.rewards[i]).token == token
    }

    /// The accumulator of `token`, zero for a token that is not tracked.
    pub open spec fn acc_reward_per_share(self, token: Address) -> i128 {
        if self.tracks(token) {
            self.rewards[self.reward_index(token)].acc_reward_per_share
        } else {
            0
        }
    }

    /// Everything deposited of `token`, zero for a token that is not tracked.
    pub open spec fn total_rewards(self, token: Address) -> i128 {
        if self.tracks(token) {
            self.rewards[self.reward_index(token)].total_rewards_distributed
        } else {
            0
        }
    }

    /// The state with the bookkeeping of `token` set to the given values.
    pub open spec fn with_reward(self, token: Address, acc: i128, total: i128) -> PoolState {
        let entry = RewardAccumulator {
            token,
            acc_reward_per_share: acc,
            total_rewards_distributed: total,
        };
        PoolState {
            rewards: if self.tracks(token) {
                self.rewards.update(self.reward_index(token), entry)
            } else {
                self.rewards.push(entry)
            },
            ..self
        }
    }

    /// The tracked reward tokens, in the order in which they were first
    /// deposited.
    pub open spec fn tokens(self) -> Seq<Address> {
        Seq::new(self.rewards.len(), |i: int| self.rewards[i].token)
    }
}

/// The yield estimate of a token of which `total_rewards` were deposited,
/// over `total_staked`: `total_rewards * 10000 / total_staked` rounded down,
/// and zero where either is zero or the product does not fit.
pub open spec fn apr_estimate(total_rewards: i128, total_staked: i128) -> i128 {
    if total_staked <= 0 || total_rewards <= 0 || total_rewards * 10_000 > i128::MAX {
        0
    } else {
        ((total_rewards * 10_000) / (total_staked as int)) as i128
    }
}

/// A position after its pending rewards were settled at `now`: an empty
/// position is left as it is, any other records `now` as its last claim.
pub open spec fn harvested(stake: UserStake, now: u64) -> UserStake {
    if stake.amount == 0 {
        stake
    } else {
        UserStake { last_claim_time: now, ..stake }
    }
}

impl PoolState {
    /// What `user` can claim.
    pub open spec fn pending_rewards(self, user: Address) -> Seq<(Address, i128)> {
        let stake = self.position(user, 0);
        if stake.amount == 0 {
            Seq::empty()
        } else {
            self.pending_within(user, stake.amount, self.rewards.len() as int)
        }
    }

    /// The state after `user` stakes `amount` at `now`, or the error with
    /// which the stake is refused.
    pub open spec fn stake_step(self, user: Address, amount: i128, now: u64) -> Result<
        PoolState,
        SharedError,
    > {
        let stake = self.position(user, now);
        if self.setup is None {
            Err(SharedError::NotInitialized)
        } else if self.paused {
            Err(SharedError::ContractPaused)
        } else if amount < self.setup->0.config.min_stake_amount {
            Err(SharedError::AmountBelowMin)
        } else if stake.amount + amount > i128::MAX || self.total_staked + amount > i128::MAX {
            Err(SharedError::Overflow)
        } else {
            match settled_debt((stake.amount + amount) as i128, self.rewards, stake.reward_debt) {
                Err(e) => Err(e),
                Ok(debt) => Ok(
                    (PoolState {
                        total_staked: (self.total_staked + amount) as i128,
                        ..self.with_position(
                            user,
                            UserStake {
                                amount: (stake.amount + amount) as i128,
                                stake_time: now,
                                last_claim_time: harvested(stake, now).last_claim_time,
                                reward_debt: debt,
                            },
                        )
                    }).settled(
                        user,
                        (stake.amount + amount) as i128,
                        self.rewards.len() as int,
                    ),
                ),
            }
        }
    }

    /// The state after `user` unstakes `amount` at `now`, or the error with
    /// which the unstake is refused.
    pub open spec fn unstake_step(self, user: Address, amount: i128, now: u64) -> Result<
        PoolState,
        SharedError,
    > {
        let stake = self.position(user, now);
        if self.setup is None {
            Err(SharedError::NotInitialized)
        } else if self.paused {
            Err(SharedError::ContractPaused)
        } else if amount <= 0 {
            Err(SharedError::InvalidAmount)
        } else if stake.amount < amount {
            Err(SharedError::InsufficientBalance)
        } else {
            match settled_debt((stake.amount - amount) as i128, self.rewards, stake.reward_debt) {
                Err(e) => Err(e),
                Ok(debt) => Ok(
                    (PoolState {
                        total_staked: (self.total_staked - amount) as i128,
                        ..self.with_position(
                            user,
                            UserStake {
                                amount: (stake.amount - amount) as i128,
                                reward_debt: debt,
                                ..harvested(stake, now)
                            },
                        )
                    }).settled(
                        user,
                        (stake.amount - amount) as i128,
                        self.rewards.len() as int,
                    ),
                ),
            }
        }
    }

    /// The state after `user` claims at `now`, or the error with which the
    /// claim is refused.
    pub open spec fn claim_step(self, user: Address, now: u64) -> Result<PoolState, SharedError> {
        let stake = self.position(user, now);
        if self.setup is None {
            Err(SharedError::NotInitialized)
        } else if self.paused {
            Err(SharedError::ContractPaused)
        } else {
            match settled_debt(stake.amount, self.rewards, stake.reward_debt) {
                Err(e) => Err(e),
                Ok(debt) => Ok(
                    self.with_position(
                        user,
                        UserStake { reward_debt: debt, ..harvested(stake, now) },
                    ).settled(user, stake.amount, self.rewards.len() as int),
                ),
            }
        }
    }

    /// The state after `caller` deposits `amount` of `reward_token`, or the
    /// error with which the deposit is refused.
    ///
    /// While something is staked the accumulator of the token grows by
    /// `amount * PRECISION / total_staked` rounded down; while nothing is
    /// staked it stays as it is and the deposit is forfeited to the pool.
    pub open spec fn add_rewards_step(self, caller: Address, reward_token: Address, amount: i128)
        -> Result<PoolState, SharedError> {
        let acc = self.acc_reward_per_share(reward_token);
        let total = self.total_rewards(reward_token);
        if self.setup is None {
            Err(SharedError::NotInitialized)
        } else if caller != self.setup->0.fee_distributor && caller != self.setup->0.admin {
            Err(SharedError::Unauthorized)
        } else if amount <= 0 {
            Err(SharedError::InvalidAmount)
        } else if self.total_staked > 0 {
            match mul_div_down_result(amount as int, PRECISION as int, self.total_staked as int) {
                Err(e) => Err(e),
                Ok(increase) => if acc + increase > i128::MAX || total + amount > i128::MAX {
                    Err(SharedError::Overflow)
                } else {
                    Ok(
                        self.with_reward(
                            reward_token,
                            (acc + increase) as i128,
                            (total + amount) as i128,
                        ),
                    )
                },
            }
        } else if total + amount > i128::MAX {
            Err(SharedError::Overflow)
        } else {
            Ok(self.with_reward(reward_token, acc, (total + amount) as i128))
        }
    }
}

impl StakingPool {
    /// Whether the pool is in a state that a pool can be in.
    pub open spec fn wf(&self) -> bool {
        self@.wf()
    }

    /// A pool that is not initialized yet: nothing staked, nothing tracked.
    pub fn new() -> (pool: Self)
        ensures
            pool.wf(),
            pool@.setup is None,
            !pool@.paused,
            pool@.total_staked == 0,
            pool@.stakes.len() == 0,
            pool@.rewards.len() == 0,
            pool@.debts.len() == 0,
    {
        StakingPool {
            setup: None,
            paused: false,
            total_staked: 0,
            stakes: Vec::new(),
            rewards: Vec::new(),
            debts: Vec::new(),
        }
    }

    /// Where the position of `user` is kept.
    fn find_position(&self, user: Address) -> (r: Option<usize>)
        ensures
            r matches Some(i) ==> i < self.stakes@.len() && self.stakes@[i as int].user == user
                && self@.has_position(user),
            r matches Some(i) ==> (self.wf() ==> self@.position_index(user) == i),
            r is None ==> !self@.has_position(user),
    {
        let mut i: usize = 0;
        while i < self.stakes.len()
            invariant
                i <= self.stakes@.len(),
                forall|j: int| 0 <= j < i ==> (#[trigger] self.stakes@[j]).user != user,
            decreases self.stakes@.len() - i,
        {
            if self.stakes[i].user == user {
                return Some(i);
            }
            i += 1;
        }
        None
    }

    /// Sets up the pool.
    ///
    /// A pool that was initialized before is `AlreadyInitialized`, a minimum
    /// stake that is not positive is `InvalidAmount`. Otherwise the pool
    /// starts unpaused, with nothing staked and no reward token.
    pub fn initialize(
        &mut self,
        admin: Address,
        stake_token: Address,
        fee_distributor: Address,
        config: StakingConfig,
    ) -> (r: Result<(), SharedError>)
        requires
            old(self).wf(),
        ensures
            final(self).wf(),
            old(self)@.setup is Some ==> r == Err::<(), SharedError>(
                SharedError::AlreadyInitialized,
            ),
            old(self)@.setup is None && config.min_stake_amount <= 0 ==> r == Err::<
                (),
                SharedError,
            >(SharedError::InvalidAmount),
            old(self)@.setup is None && config.min_stake_amount > 0 ==> r == Ok::<
                (),
                SharedError,
            >(()),
            r is Err ==> *final(self) == *old(self),
            r is Ok ==> final(self)@ == (PoolState {
                setup: Some(StakingSetup { admin, stake_token, fee_distributor, config }),
                paused: false,
                total_staked: 0,
                stakes: Seq::empty(),
                rewards: Seq::empty(),
                debts: Seq::empty(),
            }),
    {
        if self.setup.is_some() {
            return Err(SharedError::AlreadyInitialized);
        }
        if config.min_stake_amount <= 0 {
            return Err(SharedError::InvalidAmount);
        }
        self.setup = Some(StakingSetup { admin, stake_token, fee_distributor, config });
        self.paused = false;
        self.total_staked = 0;
        self.stakes = Vec::new();
        self.rewards = Vec::new();
        self.debts = Vec::new();
        Ok(())
    }

    /// The position of `user` as the pool would use it at `now`.
    fn load_position(&self, user: Address, now: u64) -> (r: (Option<usize>, UserStake))
        requires
            self.wf(),
        ensures
            r.1 == self@.position(user, now),
            r.1.amount >= 0,
            r.1.reward_debt >= 0,
            r.1.amount <= self.total_staked,
            r.0 matches Some(i) ==> self@.has_position(user) && self@.position_index(user) == i
                && i < self.stakes@.len(),
            r.0 is None ==> !self@.has_position(user),
    {
        let found: Option<usize> = self.find_position(user);
        match found {
            Some(i) => {
                proof {
                    lemma_sum_bounds(self.stakes@, i as int);
                }
                (found, self.stakes[i].stake)
            },
            None => {
                proof {
                    if self.stakes@.len() > 0 {
                        lemma_sum_bounds(self.stakes@, 0);
                    }
                }
                (found, UserStake::new(0, now))
            },
        }
    }

    /// Where the debt of `user` for `token` is kept.
    fn find_debt(&self, user: Address, token: Address) -> (r: Option<usize>)
        ensures
            r matches Some(i) ==> i < self.debts@.len() && self.debts@[i as int].user == user
                && self.debts@[i as int].token == token && has_debt(self.debts@, user, token),
            r matches Some(i) ==> (self.wf() ==> debt_index(self.debts@, user, token) == i),
            r is None ==> !has_debt(self.debts@, user, token),
    {
        let mut i: usize = 0;
        while i < self.debts.len()
            invariant
                i <= self.debts@.len(),
                forall|j: int|
                    0 <= j < i ==> !((#[trigger] self.debts@[j]).user == user
                        && self.debts@[j].token == token),
            decreases self.debts@.len() - i,
        {
            if self.debts[i].user == user && self.debts[i].token == token {
                return Some(i);
            }
            i += 1;
        }
        None
    }

    /// What `user` holding `amount` can claim: nothing for an empty
    /// position, else every positive pending reward, by token.
    fn collect_pending(&self, user: Address, amount: i128) -> (out: Vec<(Address, i128)>)
        requires
            self.wf(),
        ensures
            out@ == (if amount == 0 {
                Seq::<(Address, i128)>::empty()
            } else {
                self@.pending_within(user, amount, self@.rewards.len() as int)
            }),
    {
        let mut out: Vec<(Address, i128)> = Vec::new();
        if amount == 0 {
            return out;
        }
        let mut i: usize = 0;
        while i < self.rewards.len()
            invariant
                self.wf(),
                i <= self.rewards@.len(),
                out@ == pending_scan(self.debts@, self.rewards@, user, amount, i as int),
            decreases self.rewards@.len() - i,
        {
            let reward: RewardAccumulator = self.rewards[i];
            let debt: i128 = match self.find_debt(user, reward.token) {
                Some(k) => self.debts[k].debt,
                None => 0,
            };
            let pending: i128 = match calculate_pending(amount, reward.acc_reward_per_share, debt) {
                Ok(v) => v,
                Err(_) => 0,
            };
            if pending > 0 {
                out.push((reward.token, pending));
            }
            i += 1;
        }
        out
    }

    /// Settles what `position` of `user` has earned, at `now`: the position
    /// with the time of the claim recorded, and the rewards to pay out.
    fn harvest(&self, user: Address, position: &UserStake, now: u64) -> (r: (
        UserStake,
        Vec<(Address, i128)>,
    ))
        requires
            self.wf(),
        ensures
            r.0 == harvested(*position, now),
            r.1@ == (if position.amount == 0 {
                Seq::<(Address, i128)>::empty()
            } else {
                self@.pending_within(user, position.amount, self@.rewards.len() as int)
            }),
    {
        let rewards: Vec<(Address, i128)> = self.collect_pending(user, position.amount);
        if position.amount == 0 {
            return (*position, rewards);
        }
        (
            UserStake {
                amount: position.amount,
                stake_time: position.stake_time,
                last_claim_time: now,
                reward_debt: position.reward_debt,
            },
            rewards,
        )
    }

    /// Sets the debt of `user` for every reward token to what a position of
    /// `amount` has accumulated of it.
    fn settle(&mut self, user: Address, amount: i128)
        requires
            old(self).wf(),
            amount >= 0,
        ensures
            final(self).wf(),
            final(self)@ == old(self)@.settled(user, amount, old(self)@.rewards.len() as int),
    {
        let mut i: usize = 0;
        while i < self.rewards.len()
            invariant
                i <= self.rewards@.len(),
                self.wf(),
                amount >= 0,
                self.rewards@ == old(self).rewards@,
                self@ == old(self)@.settled(user, amount, i as int),
            decreases self.rewards@.len() - i,
        {
            let reward: RewardAccumulator = self.rewards[i];
            let value: i128 = match mul_div_down(amount, reward.acc_reward_per_share, PRECISION) {
                Ok(v) => v,
                Err(_) => 0,
            };
            proof {
                assert(self.rewards@[i as int].acc_reward_per_share >= 0);
                lemma_entitlement_sign(amount, reward.acc_reward_per_share);
            }
            let entry = RewardDebt { user, token: reward.token, debt: value };
            match self.find_debt(user, reward.token) {
                Some(k) => {
                    self.debts.set(k, entry);
                },
                None => {
                    self.debts.push(entry);
                },
            }
            i += 1;
        }
    }

    /// Records `stake` as the position of `user`, kept at `found`.
    fn store_position(&mut self, found: Option<usize>, user: Address, stake: UserStake, total: i128)
        requires
            old(self).wf(),
            stake.amount >= 0,
            stake.reward_debt >= 0,
            found matches Some(i) ==> old(self)@.has_position(user) && old(self)@.position_index(
                user,
            ) == i && i < old(self).stakes@.len(),
            found is None ==> !old(self)@.has_position(user),
            total == old(self).total_staked - old(self)@.position(user, 0).amount + stake.amount,
        ensures
            final(self).wf(),
            final(self)@ == (PoolState {
                total_staked: total,
                ..old(self)@.with_position(user, stake)
            }),
    {
        let entry = StakeEntry { user, stake };
        proof {
            match found {
                Some(i) => {
                    lemma_sum_update(self.stakes@, i as int, entry);
                },
                None => {
                    lemma_sum_push(self.stakes@, entry);
                },
            }
        }
        match found {
            Some(i) => {
                self.stakes.set(i, entry);
            },
            None => {
                self.stakes.push(entry);
            },
        }
        self.total_staked = total;
    }

    /// Stakes `amount` for `user` at `now`.
    ///
    /// The host has checked that `user` authorized the call. On success it
    /// moves `amount` of the stake token from `user` into the pool's custody
    /// and pays the settled rewards out to `user`.
    ///
    /// What the position had earned is settled first, at its old weight: the
    /// rewards returned are what was pending before the stake. Then the
    /// amount joins the position and the total, and the reward debt of every
    /// token is set against the unchanged accumulators, so that nothing is
    /// pending right after. A pool that is not initialized is
    /// `NotInitialized`, a paused one `ContractPaused`; an amount under the
    /// configured minimum (so every amount that is not positive) is
    /// `AmountBelowMin`; a position, a total or a debt that does not fit is
    /// `Overflow`. A refused stake changes nothing.
    pub fn stake(&mut self, user: Address, amount: i128, now: u64) -> (r: Result<
        Settlement,
        SharedError,
    >)
        requires
            old(self).wf(),
        ensures
            final(self).wf(),
            match r {
                Ok(settlement) => {
                    &&& old(self)@.stake_step(user, amount, now) == Ok::<PoolState, SharedError>(
                        final(self)@,
                    )
                    &&& settlement.balance == old(self)@.position(user, now).amount + amount
                    &&& settlement.rewards@ == old(self)@.pending_rewards(user)
                    &&& final(self)@.rewards == old(self)@.rewards
                    &&& final(self)@.pending_rewards(user) == Seq::<(Address, i128)>::empty()
                },
                Err(e) => old(self)@.stake_step(user, amount, now) == Err::<
                    PoolState,
                    SharedError,
                >(e) && *final(self) == *old(self),
            },
    {
        let setup: StakingSetup = match self.setup {
            Some(setup) => setup,
            None => { return Err(SharedError::NotInitialized); },
        };
        if self.paused {
            return Err(SharedError::ContractPaused);
        }
        if amount < setup.config.min_stake_amount {
            return Err(SharedError::AmountBelowMin);
        }
        let (found, position) = self.load_position(user, now);
        let (settled_position, rewards) = self.harvest(user, &position, now);
        let last_claim_time: u64 = settled_position.last_claim_time;
        let new_amount: i128 = match safe_add(position.amount, amount) {
            Ok(v) => v,
            Err(e) => { return Err(e); },
        };
        let new_total: i128 = match safe_add(self.total_staked, amount) {
            Ok(v) => v,
            Err(e) => { return Err(e); },
        };
        let debt: i128 = match settle_debt(new_amount, &self.rewards, position.reward_debt) {
            Ok(v) => v,
            Err(e) => { return Err(e); },
        };
        self.store_position(
            found,
            user,
            UserStake { amount: new_amount, stake_time: now, last_claim_time, reward_debt: debt },
            new_total,
        );
        self.settle(user, new_amount);
        proof {
            lemma_settlement_leaves_nothing_pending(
                old(self)@,
                user,
                UserStake {
                    amount: new_amount,
                    stake_time: now,
                    last_claim_time,
                    reward_debt: debt,
                },
                new_total,
            );
        }
        Ok(Settlement { balance: new_amount, rewards })
    }

    /// Takes `amount` out of the stake of `user` at `now`.
    ///
    /// The host has checked that `user` authorized the call. On success it
    /// pays the settled rewards out to `user` and returns `amount` of the
    /// stake token from the pool's custody to `user`.
    ///
    /// What the position had earned is settled first, at its old weight; then
    /// the amount leaves the position and the total, and the reward debt of
    /// every token is set against the unchanged accumulators, so that nothing
    /// is pending right after. A pool that is not initialized
    /// is `NotInitialized`, a paused one `ContractPaused`; an amount that is
    /// not positive is `InvalidAmount`, one above what the position holds is
    /// `InsufficientBalance`; a debt that does not fit is `Overflow`. A
    /// refused unstake changes nothing.
    pub fn unstake(&mut self, user: Address, amount: i128, now: u64) -> (r: Result<
        Settlement,
        SharedError,
    >)
        requires
            old(self).wf(),
        ensures
            final(self).wf(),
            match r {
                Ok(settlement) => {
                    &&& old(self)@.unstake_step(user, amount, now) == Ok::<PoolState, SharedError>(
                        final(self)@,
                    )
                    &&& settlement.balance == old(self)@.position(user, now).amount - amount
                    &&& settlement.rewards@ == old(self)@.pending_rewards(user)
                    &&& final(self)@.rewards == old(self)@.rewards
                    &&& final(self)@.pending_rewards(user) == Seq::<(Address, i128)>::empty()
                },
                Err(e) => old(self)@.unstake_step(user, amount, now) == Err::<
                    PoolState,
                    SharedError,
                >(e) && *final(self) == *old(self),
            },
            old(self)@.setup is Some && !old(self)@.paused && amount > old(self)@.position(
                user,
                now,
            ).amount && amount > 0 ==> r matches Err(SharedError::InsufficientBalance),
    {
        if self.setup.is_none() {
            return Err(SharedError::NotInitialized);
        }
        if self.paused {
            return Err(SharedError::ContractPaused);
        }
        if amount <= 0 {
            return Err(SharedError::InvalidAmount);
        }
        let (found, position) = self.load_position(user, now);
        if position.amount < amount {
            return Err(SharedError::InsufficientBalance);
        }
        let (settled_position, rewards) = self.harvest(user, &position, now);
        let last_claim_time: u64 = settled_position.last_claim_time;
        let remaining: i128 = position.amount - amount;
        let new_total: i128 = self.total_staked - amount;
        let debt: i128 = match settle_debt(remaining, &self.rewards, position.reward_debt) {
            Ok(v) => v,
            Err(e) => { return Err(e); },
        };
        self.store_position(
            found,
            user,
            UserStake {
                amount: remaining,
                stake_time: position.stake_time,
                last_claim_time,
                reward_debt: debt,
            },
            new_total,
        );
        self.settle(user, remaining);
        proof {
            lemma_settlement_leaves_nothing_pending(
                old(self)@,
                user,
                UserStake {
                    amount: remaining,
                    stake_time: position.stake_time,
                    last_claim_time,
                    reward_debt: debt,
                },
                new_total,
            );
        }
        Ok(Settlement { balance: remaining, rewards })
    }

    /// Settles what `user` has earned, at `now`, without changing its stake.
    ///
    /// The host has checked that `user` authorized the call. On success it
    /// pays the returned rewards out to `user`, after it has recorded the new
    /// state.
    ///
    /// The rewards returned are what was pending for the position; its
    /// reward debt of every token is set against the accumulators, so that
    /// nothing is pending right after. A pool that is not
    /// initialized is `NotInitialized`, a paused one `ContractPaused`; a debt
    /// that does not fit is `Overflow`. A refused claim changes nothing.
    pub fn claim(&mut self, user: Address, now: u64) -> (r: Result<Vec<(Address, i128)>, SharedError>)
        requires
            old(self).wf(),
        ensures
            final(self).wf(),
            match r {
                Ok(rewards) => {
                    &&& old(self)@.claim_step(user, now) == Ok::<PoolState, SharedError>(
                        final(self)@,
                    )
                    &&& rewards@ == old(self)@.pending_rewards(user)
                    &&& final(self)@.rewards == old(self)@.rewards
                    &&& final(self)@.total_staked == old(self)@.total_staked
                    &&& final(self)@.pending_rewards(user) == Seq::<(Address, i128)>::empty()
                },
                Err(e) => old(self)@.claim_step(user, now) == Err::<PoolState, SharedError>(e)
                    && *final(self) == *old(self),
            },
    {
        if self.setup.is_none() {
            return Err(SharedError::NotInitialized);
        }
        if self.paused {
            return Err(SharedError::ContractPaused);
        }
        let (found, position) = self.load_position(user, now);
        let (settled_position, rewards) = self.harvest(user, &position, now);
        let last_claim_time: u64 = settled_position.last_claim_time;
        let debt: i128 = match settle_debt(position.amount, &self.rewards, position.reward_debt) {
            Ok(v) => v,
            Err(e) => { return Err(e); },
        };
        let total: i128 = self.total_staked;
        self.store_position(
            found,
            user,
            UserStake {
                amount: position.amount,
                stake_time: position.stake_time,
                last_claim_time,
                reward_debt: debt,
            },
            total,
        );
        self.settle(user, position.amount);
        proof {
            lemma_settlement_leaves_nothing_pending(
                old(self)@,
                user,
                UserStake {
                    amount: position.amount,
                    stake_time: position.stake_time,
                    last_claim_time,
                    reward_debt: debt,
                },
                total,
            );
        }
        Ok(rewards)
    }

    /// Deposits `amount` of `reward_token` as a reward for the stakers.
    ///
    /// The host has checked that `caller` authorized the call. On success it
    /// moves `amount` of `reward_token` from `caller` into the pool's
    /// custody.
    ///
    /// Only the fee distributor and the admin may deposit. While something is
    /// staked, the accumulator of the token grows by `amount * PRECISION /
    /// total_staked` rounded down; the remainder stays with the pool. While
    /// nothing is staked the accumulator stays as it is: the deposit is held
    /// and never distributed. Either way the amount is added to what was
    /// deposited of the token, and a token seen for the first time is
    /// tracked from now on, after the others.
    ///
    /// A pool that is not initialized is `NotInitialized`, another caller is
    /// `Unauthorized`, an amount that is not positive is `InvalidAmount`; an
    /// increase, an accumulator or a sum that does not fit is `Overflow`. A
    /// refused deposit changes nothing.
    pub fn add_rewards(&mut self, caller: Address, reward_token: Address, amount: i128) -> (r:
        Result<(), SharedError>)
        requires
            old(self).wf(),
        ensures
            final(self).wf(),
            match r {
                Ok(_) => old(self)@.add_rewards_step(caller, reward_token, amount) == Ok::<
                    PoolState,
                    SharedError,
                >(final(self)@),
                Err(e) => old(self)@.add_rewards_step(caller, reward_token, amount) == Err::<
                    PoolState,
                    SharedError,
                >(e) && *final(self) == *old(self),
            },
            r is Ok && old(self)@.total_staked == 0 ==> final(self)@.acc_reward_per_share(
                reward_token,
            ) == old(self)@.acc_reward_per_share(reward_token),
    {
        let setup: StakingSetup = match self.setup {
            Some(setup) => setup,
            None => { return Err(SharedError::NotInitialized); },
        };
        if caller != setup.fee_distributor {
            if caller != setup.admin {
                return Err(SharedError::Unauthorized);
            }
        }
        if amount <= 0 {
            return Err(SharedError::InvalidAmount);
        }
        let found: Option<usize> = self.find_reward(reward_token);
        let (current_acc, total_rewards): (i128, i128) = match found {
            Some(i) => (self.rewards[i].acc_reward_per_share, self.rewards[i].total_rewards_distributed),
            None => (0, 0),
        };
        let new_acc: i128 = if self.total_staked > 0 {
            let reward_per_share: i128 = match mul_div_down(amount, PRECISION, self.total_staked) {
                Ok(v) => v,
                Err(e) => { return Err(e); },
            };
            proof {
                crate::math::lemma_mul_div_rounding(amount, PRECISION, self.total_staked);
                assert(reward_per_share >= 0) by (nonlinear_arith)
                    requires
                        amount * PRECISION < (reward_per_share + 1) * self.total_staked,
                        amount > 0,
                        PRECISION > 0,
                        self.total_staked > 0,
                ;
            }
            match safe_add(current_acc, reward_per_share) {
                Ok(v) => v,
                Err(e) => { return Err(e); },
            }
        } else {
            current_acc
        };
        let new_total: i128 = match safe_add(total_rewards, amount) {
            Ok(v) => v,
            Err(e) => { return Err(e); },
        };
        let entry = RewardAccumulator {
            token: reward_token,
            acc_reward_per_share: new_acc,
            total_rewards_distributed: new_total,
        };
        match found {
            Some(i) => {
                self.rewards.set(i, entry);
            },
            None => {
                self.rewards.push(entry);
            },
        }
        proof {
            let next = old(self)@.with_reward(reward_token, new_acc, new_total);
            assert(self@.rewards =~= next.rewards);
            match found {
                Some(i) => {
                    assert(self@.rewards[i as int].token == reward_token);
                },
                None => {
                    assert(self@.rewards[self@.rewards.len() - 1].token == reward_token);
                },
            }
        }
        Ok(())
    }

    /// Replaces the configuration.
    ///
    /// The host has checked that the admin authorized the call. A pool that
    /// is not initialized is `NotInitialized`; a minimum stake that is not
    /// positive is `InvalidAmount`.
    pub fn update_config(&mut self, new_config: StakingConfig) -> (r: Result<(), SharedError>)
        requires
            old(self).wf(),
        ensures
            final(self).wf(),
            old(self)@.setup is None ==> r == Err::<(), SharedError>(SharedError::NotInitialized),
            old(self)@.setup is Some && new_config.min_stake_amount <= 0 ==> r == Err::<
                (),
                SharedError,
            >(SharedError::InvalidAmount),
            old(self)@.setup is Some && new_config.min_stake_amount > 0 ==> r == Ok::<
                (),
                SharedError,
            >(()),
            r is Err ==> *final(self) == *old(self),
            r is Ok ==> final(self)@ == (PoolState {
                setup: Some(StakingSetup { config: new_config, ..old(self)@.setup->0 }),
                ..old(self)@
            }),
    {
        let setup: StakingSetup = match self.setup {
            Some(setup) => setup,
            None => { return Err(SharedError::NotInitialized); },
        };
        if new_config.min_stake_amount <= 0 {
            return Err(SharedError::InvalidAmount);
        }
        self.setup = Some(StakingSetup { config: new_config, ..setup });
        Ok(())
    }

    /// Names another fee distributor.
    ///
    /// The host has checked that the admin authorized the call. A pool that
    /// is not initialized is `NotInitialized`.
    pub fn set_fee_distributor(&mut self, new_distributor: Address) -> (r: Result<(), SharedError>)
        requires
            old(self).wf(),
        ensures
            final(self).wf(),
            old(self)@.setup is None ==> r == Err::<(), SharedError>(SharedError::NotInitialized),
            old(self)@.setup is Some ==> r == Ok::<(), SharedError>(()),
            r is Err ==> *final(self) == *old(self),
            r is Ok ==> final(self)@ == (PoolState {
                setup: Some(
                    StakingSetup { fee_distributor: new_distributor, ..old(self)@.setup->0 },
                ),
                ..old(self)@
            }),
    {
        let setup: StakingSetup = match self.setup {
            Some(setup) => setup,
            None => { return Err(SharedError::NotInitialized); },
        };
        self.setup = Some(StakingSetup { fee_distributor: new_distributor, ..setup });
        Ok(())
    }

    /// Names another admin.
    ///
    /// The host has checked that the present admin authorized the call. A
    /// pool that is not initialized is `NotInitialized`.
    pub fn set_admin(&mut self, new_admin: Address) -> (r: Result<(), SharedError>)
        requires
            old(self).wf(),
        ensures
            final(self).wf(),
            old(self)@.setup is None ==> r == Err::<(), SharedError>(SharedError::NotInitialized),
            old(self)@.setup is Some ==> r == Ok::<(), SharedError>(()),
            r is Err ==> *final(self) == *old(self),
            r is Ok ==> final(self)@ == (PoolState {
                setup: Some(StakingSetup { admin: new_admin, ..old(self)@.setup->0 }),
                ..old(self)@
            }),
    {
        let setup: StakingSetup = match self.setup {
            Some(setup) => setup,
            None => { return Err(SharedError::NotInitialized); },
        };
        self.setup = Some(StakingSetup { admin: new_admin, ..setup });
        Ok(())
    }

    /// Suspends or resumes staking, unstaking and claiming.
    ///
    /// The host has checked that the admin authorized the call. A pool that
    /// is not initialized is `NotInitialized`.
    pub fn set_paused(&mut self, paused: bool) -> (r: Result<(), SharedError>)
        requires
            old(self).wf(),
        ensures
            final(self).wf(),
            old(self)@.setup is None ==> r == Err::<(), SharedError>(SharedError::NotInitialized),
            old(self)@.setup is Some ==> r == Ok::<(), SharedError>(()),
            r is Err ==> *final(self) == *old(self),
            r is Ok ==> final(self)@ == (PoolState { paused, ..old(self)@ }),
    {
        if self.setup.is_none() {
            return Err(SharedError::NotInitialized);
        }
        self.paused = paused;
        Ok(())
    }

    /// Whether the admin may withdraw tokens that are stuck in the pool.
    ///
    /// The host has checked that the admin authorized the call. On success
    /// it moves `amount` of `token` from the pool's custody to `to`; the
    /// pool's books stay as they are. A pool that is not initialized is
    /// `NotInitialized`; one that is not paused is `ContractNotPaused`.
    pub fn emergency_withdraw(&self, token: Address, to: Address, amount: i128) -> (r: Result<
        (),
        SharedError,
    >)
        ensures
            self@.setup is None ==> r == Err::<(), SharedError>(SharedError::NotInitialized),
            self@.setup is Some && !self@.paused ==> r == Err::<(), SharedError>(
                SharedError::ContractNotPaused,
            ),
            self@.setup is Some && self@.paused ==> r == Ok::<(), SharedError>(()),
    {
        if self.setup.is_none() {
            return Err(SharedError::NotInitialized);
        }
        if !self.paused {
            return Err(SharedError::ContractNotPaused);
        }
        Ok(())
    }

    /// The position of `user`: the one on record, or an empty one taken at
    /// `now` for a principal that has none.
    pub fn get_stake(&self, user: Address, now: u64) -> (r: UserStake)
        requires
            self.wf(),
        ensures
            r == self@.position(user, now),
    {
        let (_, position) = self.load_position(user, now);
        position
    }

    /// What `user` could claim now, by token: for every tracked token the
    /// positive `amount * acc / PRECISION` less the debt of that token, where
    /// a value that cannot be formed counts as nothing pending. Nothing
    /// changes.
    pub fn pending_rewards(&self, user: Address) -> (r: Vec<(Address, i128)>)
        requires
            self.wf(),
        ensures
            r@ == self@.pending_rewards(user),
    {
        let (_, position) = self.load_position(user, 0);
        self.collect_pending(user, position.amount)
    }

    /// The sum of all staked amounts.
    pub fn total_staked(&self) -> (r: i128)
        ensures
            r == self@.total_staked,
    {
        self.total_staked
    }

    /// The configuration, or `NotInitialized`.
    pub fn get_config(&self) -> (r: Result<StakingConfig, SharedError>)
        ensures
            self@.setup matches Some(setup) ==> r == Ok::<StakingConfig, SharedError>(setup.config),
            self@.setup is None ==> r == Err::<StakingConfig, SharedError>(
                SharedError::NotInitialized,
            ),
    {
        match self.setup {
            Some(setup) => Ok(setup.config),
            None => Err(SharedError::NotInitialized),
        }
    }

    /// The token that is staked, or `NotInitialized`.
    pub fn stake_token(&self) -> (r: Result<Address, SharedError>)
        ensures
            self@.setup matches Some(setup) ==> r == Ok::<Address, SharedError>(setup.stake_token),
            self@.setup is None ==> r == Err::<Address, SharedError>(SharedError::NotInitialized),
    {
        match self.setup {
            Some(setup) => Ok(setup.stake_token),
            None => Err(SharedError::NotInitialized),
        }
    }

    /// The tracked reward tokens, in the order in which they were first
    /// deposited.
    pub fn reward_tokens(&self) -> (r: Vec<Address>)
        ensures
            r@ == self@.tokens(),
    {
        let mut out: Vec<Address> = Vec::new();
        let mut i: usize = 0;
        while i < self.rewards.len()
            invariant
                i <= self.rewards@.len(),
                out@.len() == i,
                forall|j: int| 0 <= j < i ==> out@[j] == self.rewards@[j].token,
            decreases self.rewards@.len() - i,
        {
            out.push(self.rewards[i].token);
            i += 1;
        }
        proof {
            assert(out@ =~= self@.tokens());
        }
        out
    }

    /// The admin, or `NotInitialized`.
    pub fn admin(&self) -> (r: Result<Address, SharedError>)
        ensures
            self@.setup matches Some(setup) ==> r == Ok::<Address, SharedError>(setup.admin),
            self@.setup is None ==> r == Err::<Address, SharedError>(SharedError::NotInitialized),
    {
        match self.setup {
            Some(setup) => Ok(setup.admin),
            None => Err(SharedError::NotInitialized),
        }
    }

    /// Whether staking, unstaking and claiming are suspended.
    pub fn is_paused(&self) -> (r: bool)
        ensures
            r == self@.paused,
    {
        self.paused
    }

    /// A rough yield of `reward_token` in basis points: everything
    /// deposited of it, times 10000, over what is staked now, rounded down.
    /// Zero while nothing is staked or nothing was deposited, and zero where
    /// the product does not fit.
    pub fn get_apr(&self, reward_token: Address) -> (r: i128)
        requires
            self.wf(),
        ensures
            r == apr_estimate(self@.total_rewards(reward_token), self@.total_staked),
    {
        let total_rewards: i128 = match self.find_reward(reward_token) {
            Some(i) => self.rewards[i].total_rewards_distributed,
            None => 0,
        };
        if self.total_staked == 0 || total_rewards == 0 {
            return 0;
        }
        let scaled: i128 = match safe_mul(total_rewards, 10_000) {
            Ok(v) => v,
            Err(_) => 0,
        };
        proof {
            if self.stakes@.len() > 0 {
                lemma_sum_bounds(self.stakes@, 0);
            }
            vstd::arithmetic::div_mod::lemma_div_nonincreasing(
                scaled as int,
                self.total_staked as int,
            );
            vstd::arithmetic::div_mod::lemma_div_pos_is_pos(scaled as int, self.total_staked as int);
        }
        match safe_div(scaled, self.total_staked) {
            Ok(v) => v,
            Err(_) => 0,
        }
    }

    /// Whether the pool is in a state that a pool can be in: what `wf`
    /// states, checked on the values at hand.
    ///
    /// A host that has read a pool's state from its ledger checks it with
    /// this before it calls an operation.
    pub fn is_well_formed(&self) -> (ok: bool)
        ensures
            ok == self.wf(),
    {
        if let Some(setup) = self.setup {
            if setup.config.min_stake_amount <= 0 {
                return false;
            }
        }
        if !self.amounts_are_valid() {
            return false;
        }
        if !self.total_is_the_sum() {
            return false;
        }
        if !self.users_are_distinct() {
            return false;
        }
        if !self.rewards_are_valid() {
            return false;
        }
        if !self.tokens_are_distinct() {
            return false;
        }
        self.debts_are_valid()
    }

    /// Whether no debt is negative and no two are of the same principal and
    /// token.
    fn debts_are_valid(&self) -> (ok: bool)
        ensures
            ok == ((forall|i: int|
                0 <= i < self.debts@.len() ==> (#[trigger] self.debts@[i]).debt >= 0) && (forall|
                i: int,
                j: int,
            |
                0 <= i < j < self.debts@.len() ==> !((#[trigger] self.debts@[i]).user == (
                #[trigger] self.debts@[j]).user && self.debts@[i].token
                    == self.debts@[j].token))),
    {
        let mut j: usize = 0;
        while j < self.debts.len()
            invariant
                j <= self.debts@.len(),
                forall|a: int| 0 <= a < j ==> (#[trigger] self.debts@[a]).debt >= 0,
                forall|a: int, b: int|
                    0 <= a < b < j ==> !((#[trigger] self.debts@[a]).user == (
                    #[trigger] self.debts@[b]).user && self.debts@[a].token
                        == self.debts@[b].token),
            decreases self.debts@.len() - j,
        {
            if self.debts[j].debt < 0 {
                return false;
            }
            let mut i: usize = 0;
            while i < j
                invariant
                    i <= j < self.debts@.len(),
                    forall|a: int|
                        0 <= a < i ==> !((#[trigger] self.debts@[a]).user
                            == self.debts@[j as int].user && self.debts@[a].token
                            == self.debts@[j as int].token),
                decreases j - i,
            {
                if self.debts[i].user == self.debts[j].user && self.debts[i].token
                    == self.debts[j].token {
                    return false;
                }
                i += 1;
            }
            j += 1;
        }
        true
    }

    /// Whether no position has a negative amount or debt.
    fn amounts_are_valid(&self) -> (ok: bool)
        ensures
            ok == (forall|i: int|
                0 <= i < self.stakes@.len() ==> (#[trigger] self.stakes@[i]).stake.amount >= 0
                    && self.stakes@[i].stake.reward_debt >= 0),
    {
        let mut i: usize = 0;
        while i < self.stakes.len()
            invariant
                i <= self.stakes@.len(),
                forall|j: int|
                    0 <= j < i ==> (#[trigger] self.stakes@[j]).stake.amount >= 0
                        && self.stakes@[j].stake.reward_debt >= 0,
            decreases self.stakes@.len() - i,
        {
            if self.stakes[i].stake.amount < 0 || self.stakes[i].stake.reward_debt < 0 {
                return false;
            }
            i += 1;
        }
        true
    }

    /// Whether the total is the sum of the positions, none of which is
    /// negative.
    fn total_is_the_sum(&self) -> (ok: bool)
        requires
            forall|i: int|
                0 <= i < self.stakes@.len() ==> (#[trigger] self.stakes@[i]).stake.amount >= 0,
        ensures
            ok == (self.total_staked == staked_sum(self.stakes@)),
    {
        let mut sum: i128 = 0;
        let mut i: usize = 0;
        while i < self.stakes.len()
            invariant
                i <= self.stakes@.len(),
                forall|j: int|
                    0 <= j < self.stakes@.len() ==> (#[trigger] self.stakes@[j]).stake.amount >= 0,
                sum == staked_sum(self.stakes@.take(i as int)),
                sum >= 0,
            decreases self.stakes@.len() - i,
        {
            proof {
                assert(self.stakes@.take(i + 1).drop_last() =~= self.stakes@.take(i as int));
                lemma_sum_prefix(self.stakes@, i + 1);
            }
            sum = match sum.checked_add(self.stakes[i].stake.amount) {
                Some(v) => v,
                None => { return false; },
            };
            i += 1;
        }
        proof {
            assert(self.stakes@.take(self.stakes@.len() as int) =~= self.stakes@);
        }
        sum == self.total_staked
    }

    /// Whether no principal occurs twice.
    fn users_are_distinct(&self) -> (ok: bool)
        ensures
            ok == (forall|i: int, j: int|
                0 <= i < j < self.stakes@.len() ==> (#[trigger] self.stakes@[i]).user
                    != (#[trigger] self.stakes@[j]).user),
    {
        let mut j: usize = 0;
        while j < self.stakes.len()
            invariant
                j <= self.stakes@.len(),
                forall|a: int, b: int|
                    0 <= a < b < j ==> (#[trigger] self.stakes@[a]).user
                        != (#[trigger] self.stakes@[b]).user,
            decreases self.stakes@.len() - j,
        {
            let mut i: usize = 0;
            while i < j
                invariant
                    i <= j < self.stakes@.len(),
                    forall|a: int|
                        0 <= a < i ==> (#[trigger] self.stakes@[a]).user != self.stakes@[j as int].user,
                decreases j - i,
            {
                if self.stakes[i].user == self.stakes[j].user {
                    return false;
                }
                i += 1;
            }
            j += 1;
        }
        true
    }

    /// Whether no accumulator and no sum of deposits is negative.
    fn rewards_are_valid(&self) -> (ok: bool)
        ensures
            ok == (forall|i: int|
                0 <= i < self.rewards@.len() ==> (
                #[trigger] self.rewards@[i]).acc_reward_per_share >= 0
                    && self.rewards@[i].total_rewards_distributed >= 0),
    {
        let mut i: usize = 0;
        while i < self.rewards.len()
            invariant
                i <= self.rewards@.len(),
                forall|j: int|
                    0 <= j < i ==> (#[trigger] self.rewards@[j]).acc_reward_per_share >= 0
                        && self.rewards@[j].total_rewards_distributed >= 0,
            decreases self.rewards@.len() - i,
        {
            if self.rewards[i].acc_reward_per_share < 0
                || self.rewards[i].total_rewards_distributed < 0 {
                return false;
            }
            i += 1;
        }
        true
    }

    /// Whether no reward token occurs twice.
    fn tokens_are_distinct(&self) -> (ok: bool)
        ensures
            ok == (forall|i: int, j: int|
                0 <= i < j < self.rewards@.len() ==> (#[trigger] self.rewards@[i]).token
                    != (#[trigger] self.rewards@[j]).token),
    {
        let mut j: usize = 0;
        while j < self.rewards.len()
            invariant
                j <= self.rewards@.len(),
                forall|a: int, b: int|
                    0 <= a < b < j ==> (#[trigger] self.rewards@[a]).token
                        != (#[trigger] self.rewards@[b]).token,
            decreases self.rewards@.len() - j,
        {
            let mut i: usize = 0;
            while i < j
                invariant
                    i <= j < self.rewards@.len(),
                    forall|a: int|
                        0 <= a < i ==> (#[trigger] self.rewards@[a]).token
                            != self.rewards@[j as int].token,
                decreases j - i,
            {
                if self.rewards[i].token == self.rewards[j].token {
                    return false;
                }
                i += 1;
            }
            j += 1;
        }
        true
    }

    /// Where the bookkeeping of `token` is kept.
    fn find_reward(&self, token: Address) -> (r: Option<usize>)
        ensures
            r matches Some(i) ==> i < self.rewards@.len() && self.rewards@[i as int].token == token
                && self@.tracks(token),
            r matches Some(i) ==> (self.wf() ==> self@.reward_index(token) == i),
            r is None ==> !self@.tracks(token),
    {
        let mut i: usize = 0;
        while i < self.rewards.len()
            invariant
                i <= self.rewards@.len(),
                forall|j: int| 0 <= j < i ==> (#[trigger] self.rewards@[j]).token != token,
            decreases self.rewards@.len() - i,
        {
            if self.rewards[i].token == token {
                return Some(i);
            }
            i += 1;
        }
        None
    }
}


/// Replacing one position changes the sum by the change of that position.
proof fn lemma_sum_update(stakes: Seq<StakeEntry>, i: int, entry: StakeEntry)
    requires
        0 <= i < stakes.len(),
    ensures
        staked_sum(stakes.update(i, entry)) == staked_sum(stakes) - stakes[i].stake.amount
            + entry.stake.amount,
    decreases stakes.len(),
{
    let updated = stakes.update(i, entry);
    if i == stakes.len() - 1 {
        assert(updated.drop_last() =~= stakes.drop_last());
    } else {
        assert(updated.drop_last() =~= stakes.drop_last().update(i, entry));
        lemma_sum_update(stakes.drop_last(), i, entry);
    }
}

/// A new position adds its amount to the sum.
proof fn lemma_sum_push(stakes: Seq<StakeEntry>, entry: StakeEntry)
    ensures
        staked_sum(stakes.push(entry)) == staked_sum(stakes) + entry.stake.amount,
{
    assert(stakes.push(entry).drop_last() =~= stakes);
}

/// Where no amount is negative, the sum of the first `k` positions does not
/// exceed the sum of all.
proof fn lemma_sum_prefix(stakes: Seq<StakeEntry>, k: int)
    requires
        0 <= k <= stakes.len(),
        forall|j: int| 0 <= j < stakes.len() ==> (#[trigger] stakes[j]).stake.amount >= 0,
    ensures
        0 <= staked_sum(stakes.take(k)) <= staked_sum(stakes),
    decreases stakes.len() - k,
{
    if k == stakes.len() {
        assert(stakes.take(k) =~= stakes);
        if k > 0 {
            lemma_sum_bounds(stakes, 0);
        }
    } else {
        lemma_sum_prefix(stakes, k + 1);
        assert(stakes.take(k + 1).drop_last() =~= stakes.take(k));
        assert(stakes.take(k + 1).last() == stakes[k]);
        if k > 0 {
            let prefix = stakes.take(k);
            assert forall|j: int| 0 <= j < prefix.len() implies (#[trigger] prefix[j]).stake.amount
                >= 0 by {
                assert(prefix[j] == stakes[j]);
            }
            lemma_sum_bounds(prefix, 0);
        }
    }
}

/// Where no amount is negative, no position exceeds the sum.
proof fn lemma_sum_bounds(stakes: Seq<StakeEntry>, i: int)
    requires
        0 <= i < stakes.len(),
        forall|j: int| 0 <= j < stakes.len() ==> (#[trigger] stakes[j]).stake.amount >= 0,
    ensures
        0 <= stakes[i].stake.amount <= staked_sum(stakes),
        staked_sum(stakes.drop_last()) >= 0,
    decreases stakes.len(),
{
    let rest = stakes.drop_last();
    assert forall|j: int| 0 <= j < rest.len() implies (#[trigger] rest[j]).stake.amount >= 0 by {
        assert(rest[j] == stakes[j]);
    }
    if rest.len() > 0 {
        lemma_sum_bounds(rest, 0);
        if i < rest.len() {
            lemma_sum_bounds(rest, i);
        }
    }
}

/// What a position of `stake_amount` has accumulated at `acc_per_share`, less
/// `reward_debt`: `stake_amount * acc_per_share / PRECISION` rounded down,
/// minus the debt.
///
/// An accumulated value that cannot be formed is the error of `mul_div_down`;
/// a difference below zero is `Underflow`.
pub fn calculate_pending(stake_amount: i128, acc_per_share: i128, reward_debt: i128) -> (r: Result<
    i128,
    SharedError,
>)
    ensures
        r == pending_result(stake_amount, acc_per_share, reward_debt),
{
    let accumulated: i128 = match mul_div_down(stake_amount, acc_per_share, PRECISION) {
        Ok(v) => v,
        Err(e) => { return Err(e); },
    };
    safe_sub(accumulated, reward_debt)
}

/// The debt that a position of `amount` records for itself when it is
/// settled against `rewards`.
fn settle_debt(amount: i128, rewards: &Vec<RewardAccumulator>, debt: i128) -> (r: Result<
    i128,
    SharedError,
>)
    requires
        amount >= 0,
        forall|i: int|
            0 <= i < rewards@.len() ==> (#[trigger] rewards@[i]).acc_reward_per_share >= 0,
    ensures
        r == settled_debt(amount, rewards@, debt),
        r matches Ok(v) ==> (debt >= 0 ==> v >= 0),
        r matches Err(e) ==> e == SharedError::Overflow,
{
    let mut current: i128 = debt;
    let mut i: usize = 0;
    while i < rewards.len()
        invariant
            i <= rewards@.len(),
            amount >= 0,
            forall|j: int|
                0 <= j < rewards@.len() ==> (#[trigger] rewards@[j]).acc_reward_per_share >= 0,
            forall|j: int|
                0 <= j < i ==> (#[trigger] mul_div_down_result(
                    amount as int,
                    rewards@[j].acc_reward_per_share as int,
                    PRECISION as int,
                )) is Ok,
            i == 0 ==> current == debt,
            i > 0 ==> Ok::<i128, SharedError>(current) == mul_div_down_result(
                amount as int,
                rewards@[i - 1].acc_reward_per_share as int,
                PRECISION as int,
            ),
            debt >= 0 ==> current >= 0,
        decreases rewards@.len() - i,
    {
        let acc: i128 = rewards[i].acc_reward_per_share;
        proof {
            assert(rewards@[i as int].acc_reward_per_share >= 0);
            crate::math::lemma_mul_div_rounding(amount, acc, PRECISION);
        }
        match mul_div_down(amount, acc, PRECISION) {
            Ok(v) => {
                proof {
                    assert(v >= 0) by (nonlinear_arith)
                        requires
                            v * PRECISION <= amount * acc < (v + 1) * PRECISION,
                            amount >= 0,
                            acc >= 0,
                            PRECISION == 1_000_000_000_000_000_000,
                    ;
                }
                current = v;
            },
            Err(e) => {
                return Err(e);
            },
        }
        i += 1;
    }
    Ok(current)
}


/// In a well-formed state the position of a principal that was just written
/// reads back, and the reward tokens are untouched.
proof fn lemma_position_reads_back(s: PoolState, user: Address, stake: UserStake, now: u64)
    requires
        s.wf(),
    ensures
        s.with_position(user, stake).has_position(user),
        s.with_position(user, stake).position(user, now) == stake,
        s.with_position(user, stake).rewards == s.rewards,
{
    let next = s.with_position(user, stake);
    if s.has_position(user) {
        let i = s.position_index(user);
        assert(next.stakes[i].user == user);
        let j = next.position_index(user);
        assert(next.stakes[j].user == user);
        if j != i {
            assert(s.stakes[j] == next.stakes[j]);
            assert(s.stakes[i].user == s.stakes[j].user);
        }
    } else {
        let i = s.stakes.len() as int;
        assert(next.stakes[i].user == user);
        let j = next.position_index(user);
        assert(next.stakes[j].user == user);
        if j != i {
            assert(s.stakes[j] == next.stakes[j]);
        }
    }
}

/// Whether no two of `debts` are of the same principal and token.
spec fn debts_distinct(debts: Seq<RewardDebt>) -> bool {
    forall|i: int, j: int|
        0 <= i < j < debts.len() ==> !((#[trigger] debts[i]).user == (#[trigger] debts[j]).user
            && debts[i].token == debts[j].token)
}

/// Whether none of `debts` is negative.
spec fn debts_not_negative(debts: Seq<RewardDebt>) -> bool {
    forall|i: int| 0 <= i < debts.len() ==> (#[trigger] debts[i]).debt >= 0
}

/// What a non-negative amount has accumulated at a non-negative accumulator
/// is not negative.
proof fn lemma_entitlement_sign(amount: i128, acc: i128)
    requires
        amount >= 0,
        acc >= 0,
    ensures
        entitlement(amount, acc) >= 0,
{
    crate::math::lemma_mul_div_rounding(amount, acc, PRECISION);
    if mul_div_down_result(amount as int, acc as int, PRECISION as int) is Ok {
        let v = mul_div_down_result(amount as int, acc as int, PRECISION as int)->Ok_0;
        assert(v >= 0) by (nonlinear_arith)
            requires
                amount * acc < (v + 1) * PRECISION,
                amount >= 0,
                acc >= 0,
                PRECISION == 1_000_000_000_000_000_000,
        ;
    }
}

/// Over non-negative accumulators, a settled debt of a non-negative amount
/// is not negative.
proof fn lemma_settled_debt_sign(amount: i128, rewards: Seq<RewardAccumulator>, debt: i128)
    requires
        amount >= 0,
        debt >= 0,
        forall|i: int| 0 <= i < rewards.len() ==> (#[trigger] rewards[i]).acc_reward_per_share >= 0,
    ensures
        settled_debt(amount, rewards, debt) matches Ok(v) ==> v >= 0,
{
    if rewards.len() > 0 {
        let acc = rewards.last().acc_reward_per_share;
        assert(rewards[rewards.len() - 1].acc_reward_per_share >= 0);
        crate::math::lemma_mul_div_rounding(amount, acc, PRECISION);
        if mul_div_down_result(amount as int, acc as int, PRECISION as int) is Ok {
            let v = mul_div_down_result(amount as int, acc as int, PRECISION as int)->Ok_0;
            assert(v >= 0) by (nonlinear_arith)
                requires
                    amount * acc < (v + 1) * PRECISION,
                    amount >= 0,
                    acc >= 0,
                    PRECISION == 1_000_000_000_000_000_000,
            ;
        }
    }
}

/// A debt that was just written reads back, and every other debt is
/// untouched.
proof fn lemma_with_debt(
    debts: Seq<RewardDebt>,
    user: Address,
    token: Address,
    value: i128,
    other_user: Address,
    other_token: Address,
)
    requires
        debts_distinct(debts),
    ensures
        debts_distinct(with_debt(debts, user, token, value)),
        debts_not_negative(debts) && value >= 0 ==> debts_not_negative(
            with_debt(debts, user, token, value),
        ),
        has_debt(with_debt(debts, user, token, value), user, token),
        debt_in(with_debt(debts, user, token, value), user, token) == value,
        !(other_user == user && other_token == token) ==> debt_in(
            with_debt(debts, user, token, value),
            other_user,
            other_token,
        ) == debt_in(debts, other_user, other_token) && has_debt(
            with_debt(debts, user, token, value),
            other_user,
            other_token,
        ) == has_debt(debts, other_user, other_token),
{
    let next = with_debt(debts, user, token, value);
    let i = if has_debt(debts, user, token) {
        debt_index(debts, user, token)
    } else {
        debts.len() as int
    };
    assert(next[i].user == user && next[i].token == token && next[i].debt == value);
    assert(forall|k: int| 0 <= k < debts.len() && k != i ==> next[k] == debts[k]);
    assert(forall|k: int|
        0 <= k < next.len() ==> (#[trigger] next[k]).user == (if k < debts.len() {
            debts[k].user
        } else {
            user
        }) && next[k].token == (if k < debts.len() {
            debts[k].token
        } else {
            token
        }));
    assert(debts_distinct(next)) by {
        assert forall|a: int, b: int| 0 <= a < b < next.len() implies !((#[trigger] next[a]).user
            == (#[trigger] next[b]).user && next[a].token == next[b].token) by {
            if b < debts.len() {
                assert(debts[a].user == next[a].user && debts[b].user == next[b].user);
            } else {
                assert(debts[a].user == next[a].user && debts[a].token == next[a].token);
            }
        }
    }
    // the written pair
    let j = debt_index(next, user, token);
    assert(next[j].user == user && next[j].token == token);
    if j != i {
        assert(next[i].user == next[j].user && next[i].token == next[j].token);
    }
    // any other pair
    if !(other_user == user && other_token == token) {
        if has_debt(debts, other_user, other_token) {
            let k = debt_index(debts, other_user, other_token);
            assert(debts[k].user == other_user && debts[k].token == other_token);
            assert(k != i);
            assert(next[k].user == other_user && next[k].token == other_token);
            let m = debt_index(next, other_user, other_token);
            assert(next[m].user == other_user && next[m].token == other_token);
            if m != k {
                assert(next[m].user == next[k].user && next[m].token == next[k].token);
            }
        } else {
            if has_debt(next, other_user, other_token) {
                let m = debt_index(next, other_user, other_token);
                assert(next[m].user == other_user && next[m].token == other_token);
                assert(m != i);
                assert(debts[m].user == other_user && debts[m].token == other_token);
            }
        }
    }
    if debts_not_negative(debts) && value >= 0 {
        assert forall|k: int| 0 <= k < next.len() implies (#[trigger] next[k]).debt >= 0 by {
            if k != i {
                assert(debts[k].debt >= 0);
            }
        }
    }
}

/// After a settlement the debt of the principal for each settled token is
/// what the amount has accumulated of it; the debts of everyone else are
/// untouched.
proof fn lemma_settled_debts(
    debts: Seq<RewardDebt>,
    user: Address,
    amount: i128,
    rewards: Seq<RewardAccumulator>,
    n: int,
)
    requires
        debts_distinct(debts),
        0 <= n <= rewards.len(),
        forall|i: int, j: int|
            0 <= i < j < rewards.len() ==> (#[trigger] rewards[i]).token
                != (#[trigger] rewards[j]).token,
    ensures
        debts_distinct(settled_debts(debts, user, amount, rewards, n)),
        forall|j: int|
            0 <= j < n ==> has_debt(
                settled_debts(debts, user, amount, rewards, n),
                user,
                (#[trigger] rewards[j]).token,
            ) && debt_in(settled_debts(debts, user, amount, rewards, n), user, rewards[j].token)
                == entitlement(amount, rewards[j].acc_reward_per_share),
        forall|other: Address, token: Address|
            other != user ==> #[trigger] debt_in(
                settled_debts(debts, user, amount, rewards, n),
                other,
                token,
            ) == debt_in(debts, other, token),
        (debts_not_negative(debts) && amount >= 0 && forall|i: int|
            0 <= i < rewards.len() ==> (#[trigger] rewards[i]).acc_reward_per_share >= 0)
            ==> debts_not_negative(settled_debts(debts, user, amount, rewards, n)),
    decreases n,
{
    if n > 0 {
        lemma_settled_debts(debts, user, amount, rewards, n - 1);
        let before = settled_debts(debts, user, amount, rewards, n - 1);
        let token = rewards[n - 1].token;
        let value = entitlement(amount, rewards[n - 1].acc_reward_per_share);
        let next = settled_debts(debts, user, amount, rewards, n);
        assert(next == with_debt(before, user, token, value));
        lemma_with_debt(before, user, token, value, user, token);
        assert forall|j: int| 0 <= j < n implies has_debt(next, user, (#[trigger] rewards[j]).token)
            && debt_in(next, user, rewards[j].token) == entitlement(
            amount,
            rewards[j].acc_reward_per_share,
        ) by {
            if j < n - 1 {
                assert(rewards[j].token != rewards[n - 1].token);
                lemma_with_debt(before, user, token, value, user, rewards[j].token);
            }
        }
        assert forall|other: Address, any: Address| other != user implies #[trigger] debt_in(
            next,
            other,
            any,
        ) == debt_in(debts, other, any) by {
            lemma_with_debt(before, user, token, value, other, any);
        }
        if debts_not_negative(debts) && amount >= 0 && forall|i: int|
            0 <= i < rewards.len() ==> (#[trigger] rewards[i]).acc_reward_per_share >= 0 {
            assert(rewards[n - 1].acc_reward_per_share >= 0);
            lemma_entitlement_sign(amount, rewards[n - 1].acc_reward_per_share);
        }
    }
}

/// Where every debt is what the amount has accumulated, nothing is pending.
proof fn lemma_nothing_pending(
    debts: Seq<RewardDebt>,
    rewards: Seq<RewardAccumulator>,
    user: Address,
    amount: i128,
    n: int,
)
    requires
        0 <= n <= rewards.len(),
        forall|j: int|
            0 <= j < n ==> debt_in(debts, user, (#[trigger] rewards[j]).token) == entitlement(
                amount,
                rewards[j].acc_reward_per_share,
            ),
    ensures
        pending_scan(debts, rewards, user, amount, n) == Seq::<(Address, i128)>::empty(),
    decreases n,
{
    if n > 0 {
        lemma_nothing_pending(debts, rewards, user, amount, n - 1);
        assert(debt_in(debts, user, rewards[n - 1].token) == entitlement(
            amount,
            rewards[n - 1].acc_reward_per_share,
        ));
    }
}

/// Settling debts that are settled already changes nothing.
proof fn lemma_settled_again(
    debts: Seq<RewardDebt>,
    user: Address,
    amount: i128,
    rewards: Seq<RewardAccumulator>,
    n: int,
)
    requires
        0 <= n <= rewards.len(),
        forall|j: int|
            0 <= j < n ==> has_debt(debts, user, (#[trigger] rewards[j]).token) && debt_in(
                debts,
                user,
                rewards[j].token,
            ) == entitlement(amount, rewards[j].acc_reward_per_share),
    ensures
        settled_debts(debts, user, amount, rewards, n) == debts,
    decreases n,
{
    if n > 0 {
        lemma_settled_again(debts, user, amount, rewards, n - 1);
        let token = rewards[n - 1].token;
        assert(has_debt(debts, user, token));
        let i = debt_index(debts, user, token);
        assert(debts[i].user == user && debts[i].token == token);
        assert(with_debt(
            debts,
            user,
            token,
            entitlement(amount, rewards[n - 1].acc_reward_per_share),
        ) =~= debts);
    }
}

/// Two states with the same positions give the same position to everyone.
proof fn lemma_position_by_stakes(a: PoolState, b: PoolState, user: Address, now: u64)
    requires
        a.stakes == b.stakes,
        forall|i: int, j: int|
            0 <= i < j < a.stakes.len() ==> (#[trigger] a.stakes[i]).user
                != (#[trigger] a.stakes[j]).user,
    ensures
        a.has_position(user) == b.has_position(user),
        a.position(user, now) == b.position(user, now),
        a.has_position(user) ==> a.position_index(user) == b.position_index(user),
{
    if a.has_position(user) {
        let i = a.position_index(user);
        assert(b.stakes[i].user == user);
        let j = b.position_index(user);
        assert(a.stakes[j].user == user);
        if i != j {
            assert(a.stakes[i].user == a.stakes[j].user);
        }
    } else {
        if b.has_position(user) {
            let j = b.position_index(user);
            assert(a.stakes[j].user == user);
        }
    }
}

/// Writing a position keeps the state well-formed, where the total follows
/// the position.
proof fn lemma_with_position_wf(s: PoolState, user: Address, stake: UserStake, total: i128)
    requires
        s.wf(),
        stake.amount >= 0,
        stake.reward_debt >= 0,
        total == s.total_staked - s.position(user, 0).amount + stake.amount,
    ensures
        (PoolState { total_staked: total, ..s.with_position(user, stake) }).wf(),
{
    let entry = StakeEntry { user, stake };
    let next = PoolState { total_staked: total, ..s.with_position(user, stake) };
    if s.has_position(user) {
        let i = s.position_index(user);
        lemma_sum_update(s.stakes, i, entry);
        assert(forall|k: int|
            0 <= k < next.stakes.len() && k != i ==> (#[trigger] next.stakes[k]) == s.stakes[k]);
    } else {
        lemma_sum_push(s.stakes, entry);
        assert(forall|k: int|
            0 <= k < s.stakes.len() ==> (#[trigger] next.stakes[k]) == s.stakes[k]);
    }
}

/// A settlement leaves nothing pending.
///
/// Once the position of a principal is written and its debts are settled
/// against every reward token, the state is well-formed, the position reads
/// back, and nothing is pending for the principal, however many reward
/// tokens there are.
proof fn lemma_settlement_leaves_nothing_pending(
    s: PoolState,
    user: Address,
    stake: UserStake,
    total: i128,
)
    requires
        s.wf(),
        stake.amount >= 0,
        stake.reward_debt >= 0,
        total == s.total_staked - s.position(user, 0).amount + stake.amount,
    ensures
        ({
            let next = (PoolState { total_staked: total, ..s.with_position(user, stake) }).settled(
                user,
                stake.amount,
                s.rewards.len() as int,
            );
            &&& next.wf()
            &&& next.position(user, 0) == stake
            &&& next.pending_rewards(user) == Seq::<(Address, i128)>::empty()
            &&& forall|j: int|
                0 <= j < s.rewards.len() ==> has_debt(
                    next.debts,
                    user,
                    (#[trigger] s.rewards[j]).token,
                ) && debt_in(next.debts, user, s.rewards[j].token) == entitlement(
                    stake.amount,
                    s.rewards[j].acc_reward_per_share,
                )
        }),
{
    let base = PoolState { total_staked: total, ..s.with_position(user, stake) };
    let n = s.rewards.len() as int;
    let next = base.settled(user, stake.amount, n);
    lemma_with_position_wf(s, user, stake, total);
    lemma_settled_debts(base.debts, user, stake.amount, base.rewards, n);
    assert(next.wf());
    lemma_position_reads_back(s, user, stake, 0);
    lemma_position_by_stakes(s.with_position(user, stake), next, user, 0);
    lemma_nothing_pending(next.debts, next.rewards, user, stake.amount, n);
}

/// Claiming twice in a row pays once.
///
/// After a claim nothing is pending for `user`, so a second claim right
/// after it, with no deposit in between, succeeds and pays nothing (it pays
/// what is pending), and changes no balance, no amount, no debt, no
/// accumulator and no total: the state differs from the one before at most
/// in the time of the last claim.
pub proof fn lemma_second_claim_pays_nothing(s: PoolState, user: Address, now: u64, again: u64)
    requires
        s.wf(),
        s.claim_step(user, now) is Ok,
    ensures
        ({
            let first = s.claim_step(user, now)->Ok_0;
            let settled = first.position(user, again);
            &&& first.wf()
            &&& first.pending_rewards(user) == Seq::<(Address, i128)>::empty()
            &&& first.claim_step(user, again) == Ok::<PoolState, SharedError>(
                first.with_position(user, harvested(settled, again)),
            )
        }),
{
    let before = s.position(user, now);
    let debt = settled_debt(before.amount, s.rewards, before.reward_debt)->Ok_0;
    let written = UserStake { reward_debt: debt, ..harvested(before, now) };
    let n = s.rewards.len() as int;
    let first = s.claim_step(user, now)->Ok_0;
    lemma_position_by_stakes(s, s, user, now);
    assert(s.position(user, 0).amount == before.amount);
    lemma_settled_debt_sign(before.amount, s.rewards, before.reward_debt);
    lemma_settlement_leaves_nothing_pending(s, user, written, s.total_staked);
    let base = PoolState { total_staked: s.total_staked, ..s.with_position(user, written) };
    assert(base == s.with_position(user, written));
    assert(first == base.settled(user, before.amount, n));
    lemma_position_by_stakes(first, first, user, again);
    lemma_position_reads_back(s, user, written, again);
    lemma_position_by_stakes(s.with_position(user, written), first, user, again);
    assert(first.position(user, again) == written);
    // the accumulators are the same, so the recorded debt settles to the same value
    assert(settled_debt(written.amount, first.rewards, written.reward_debt) == Ok::<
        i128,
        SharedError,
    >(debt));
    let rewritten = UserStake { reward_debt: debt, ..harvested(written, again) };
    assert(rewritten == harvested(written, again));
    let moved = first.with_position(user, rewritten);
    lemma_settled_again(moved.debts, user, written.amount, moved.rewards, n);
    assert(moved.settled(user, written.amount, n) == moved);
}

/// A claim drains everything: nothing is pending for `user` right after it.
pub proof fn lemma_claim_drains_pending(s: PoolState, user: Address, now: u64)
    requires
        s.wf(),
        s.claim_step(user, now) is Ok,
    ensures
        s.claim_step(user, now)->Ok_0.pending_rewards(user) == Seq::<(Address, i128)>::empty(),
        s.claim_step(user, now)->Ok_0.wf(),
{
    lemma_second_claim_pays_nothing(s, user, now, now);
}

/// Rewards are settled before the weight changes.
///
/// A stake pays out exactly what was pending before it, computed at the old
/// amount, so an increase never dilutes what the position had earned; and
/// nothing is pending right after the stake, for any reward token: the added
/// amount earns only from later deposits. What is paid and what is pending
/// after add up to what was pending before.
pub proof fn lemma_stake_settles_at_old_weight(s: PoolState, user: Address, amount: i128, now: u64)
    requires
        s.wf(),
        s.stake_step(user, amount, now) is Ok,
    ensures
        s.stake_step(user, amount, now)->Ok_0.wf(),
        s.stake_step(user, amount, now)->Ok_0.pending_rewards(user) == Seq::<
            (Address, i128),
        >::empty(),
        s.stake_step(user, amount, now)->Ok_0.rewards == s.rewards,
        s.stake_step(user, amount, now)->Ok_0.position(user, 0).amount == s.position(
            user,
            0,
        ).amount + amount,
        s.stake_step(user, amount, now)->Ok_0.total_staked == s.total_staked + amount,
{
    let before = s.position(user, now);
    let new_amount = (before.amount + amount) as i128;
    let debt = settled_debt(new_amount, s.rewards, before.reward_debt)->Ok_0;
    let written = UserStake {
        amount: new_amount,
        stake_time: now,
        last_claim_time: harvested(before, now).last_claim_time,
        reward_debt: debt,
    };
    lemma_position_by_stakes(s, s, user, now);
    assert(s.position(user, 0).amount == before.amount);
    if s.has_position(user) {
        assert(s.stakes[s.position_index(user)].stake.amount >= 0);
    }
    assert(amount > 0);
    lemma_settled_debt_sign(new_amount, s.rewards, before.reward_debt);
    lemma_settlement_leaves_nothing_pending(
        s,
        user,
        written,
        (s.total_staked + amount) as i128,
    );
}

/// A deposit made while nothing is staked is forfeited.
///
/// It succeeds wherever its sums fit, but no accumulator moves: the deposited
/// token keeps its accumulator (zero, if it is tracked for the first time),
/// the positions and the total stay as they are, and of a token tracked for
/// the first time nothing is ever pending for anyone until a later deposit.
pub proof fn lemma_deposit_without_stake_is_forfeited(
    s: PoolState,
    caller: Address,
    token: Address,
    amount: i128,
)
    requires
        s.wf(),
        s.total_staked == 0,
        s.add_rewards_step(caller, token, amount) is Ok,
    ensures
        ({
            let next = s.add_rewards_step(caller, token, amount)->Ok_0;
            &&& next.acc_reward_per_share(token) == s.acc_reward_per_share(token)
            &&& next.total_rewards(token) == s.total_rewards(token) + amount
            &&& next.stakes == s.stakes
            &&& next.total_staked == s.total_staked
            &&& next.rewards.len() >= s.rewards.len()
            &&& forall|i: int|
                0 <= i < s.rewards.len() ==> (#[trigger] next.rewards[i]).acc_reward_per_share
                    == s.rewards[i].acc_reward_per_share
            &&& !s.tracks(token) ==> forall|held: i128, debt: i128|
                held >= 0 && debt >= 0 ==> #[trigger] pending_amount(
                    held,
                    debt,
                    next.acc_reward_per_share(token),
                ) == 0
        }),
{
    let acc = s.acc_reward_per_share(token);
    let total = (s.total_rewards(token) + amount) as i128;
    lemma_reward_reads_back(s, token, acc, total);
    if !s.tracks(token) {
        assert forall|held: i128, debt: i128| held >= 0 && debt >= 0 implies #[trigger] pending_amount(
            held,
            debt,
            0,
        ) == 0 by {
            assert(held * 0 == 0) by (nonlinear_arith);
            assert(0int / (PRECISION as int) == 0) by (nonlinear_arith)
                requires
                    PRECISION == 1_000_000_000_000_000_000,
            ;
            assert((held as int % PRECISION as int) * 0 == 0) by (nonlinear_arith);
        }
    }
}

/// In a well-formed state the bookkeeping of a token that was just written
/// reads back, and that of every other token is untouched.
proof fn lemma_reward_reads_back(s: PoolState, token: Address, acc: i128, total: i128)
    requires
        s.wf(),
    ensures
        s.with_reward(token, acc, total).tracks(token),
        s.with_reward(token, acc, total).acc_reward_per_share(token) == acc,
        s.with_reward(token, acc, total).total_rewards(token) == total,
        s.with_reward(token, acc, total).rewards.len() >= s.rewards.len(),
        forall|i: int|
            0 <= i < s.rewards.len() && s.rewards[i].token != token ==> (#[trigger] s.with_reward(
                token,
                acc,
                total,
            ).rewards[i]) == s.rewards[i],
        forall|i: int|
            0 <= i < s.rewards.len() && s.rewards[i].token == token ==> (#[trigger] s.with_reward(
                token,
                acc,
                total,
            ).rewards[i]).acc_reward_per_share == acc,
{
    let next = s.with_reward(token, acc, total);
    if s.tracks(token) {
        let i = s.reward_index(token);
        assert(next.rewards[i].token == token);
        let j = next.reward_index(token);
        assert(next.rewards[j].token == token);
        if j != i {
            assert(s.rewards[j] == next.rewards[j]);
            assert(s.rewards[i].token == s.rewards[j].token);
        }
        assert forall|k: int| 0 <= k < s.rewards.len() && s.rewards[k].token == token implies k
            == i by {
            if k != i {
                assert(s.rewards[i].token == s.rewards[k].token);
            }
        }
    } else {
        let i = s.rewards.len() as int;
        assert(next.rewards[i].token == token);
        let j = next.reward_index(token);
        assert(next.rewards[j].token == token);
        if j != i {
            assert(s.rewards[j] == next.rewards[j]);
        }
    }
}


/// Accumulators and sums of deposits only grow.
///
/// A deposit never lowers the accumulator of any token, nor what was
/// deposited of it; staking, unstaking and claiming leave both as they are.
pub proof fn lemma_accumulators_never_decrease(
    s: PoolState,
    caller: Address,
    token: Address,
    amount: i128,
    any: Address,
)
    requires
        s.wf(),
        s.add_rewards_step(caller, token, amount) is Ok,
    ensures
        ({
            let next = s.add_rewards_step(caller, token, amount)->Ok_0;
            &&& next.acc_reward_per_share(any) >= s.acc_reward_per_share(any)
            &&& next.total_rewards(any) >= s.total_rewards(any)
            &&& any != token ==> next.acc_reward_per_share(any) == s.acc_reward_per_share(any)
                && next.total_rewards(any) == s.total_rewards(any)
            &&& s.tracks(any) ==> next.tracks(any)
        }),
{
    let acc = s.acc_reward_per_share(token);
    let total = (s.total_rewards(token) + amount) as i128;
    let next = s.add_rewards_step(caller, token, amount)->Ok_0;
    let new_acc = next.acc_reward_per_share(token);
    if s.total_staked > 0 {
        let increase = mul_div_down_result(
            amount as int,
            PRECISION as int,
            s.total_staked as int,
        )->Ok_0;
        crate::math::lemma_mul_div_rounding(amount, PRECISION, s.total_staked);
        assert(increase >= 0) by (nonlinear_arith)
            requires
                amount * PRECISION < (increase + 1) * s.total_staked,
                amount > 0,
                PRECISION > 0,
                s.total_staked > 0,
        ;
        lemma_reward_reads_back(s, token, (acc + increase) as i128, total);
    } else {
        lemma_reward_reads_back(s, token, acc, total);
    }
    if s.tracks(token) {
        assert(s.rewards[s.reward_index(token)].total_rewards_distributed >= 0);
    }
    if any != token {
        if s.tracks(any) {
            let i = s.reward_index(any);
            assert(next.rewards[i] == s.rewards[i]);
            assert(next.rewards[i].token == any);
            let j = next.reward_index(any);
            assert(next.rewards[j].token == any);
            if j != i {
                if j < s.rewards.len() {
                    assert(s.rewards[j].token != token);
                    assert(next.rewards[j] == s.rewards[j]);
                    assert(s.rewards[i].token == s.rewards[j].token);
                }
            }
        } else {
            if next.tracks(any) {
                let j = next.reward_index(any);
                assert(next.rewards[j].token == any);
                if j < s.rewards.len() {
                    assert(s.rewards[j].token != token);
                    assert(next.rewards[j] == s.rewards[j]);
                    assert(s.rewards[j].token == any);
                }
            }
        }
    }
}

/// What a position earns from a growing accumulator.
///
/// A position of `amount` whose debt was settled at the accumulator value
/// `acc`, and which is not touched while the accumulator grows by `growth`,
/// has pending, up to one unit of rounding, `amount * growth / PRECISION`
/// rounded down: it does not depend on the other positions.
pub proof fn lemma_pending_follows_growth(amount: i128, acc: i128, growth: i128)
    requires
        amount >= 0,
        acc >= 0,
        growth >= 0,
        acc + growth <= i128::MAX,
        mul_div_down_result(amount as int, acc as int, PRECISION as int) is Ok,
        mul_div_down_result(amount as int, (acc + growth) as int, PRECISION as int) is Ok,
    ensures
        ({
            let debt = mul_div_down_result(amount as int, acc as int, PRECISION as int)->Ok_0;
            let pending = pending_amount(amount, debt, (acc + growth) as i128);
            let share = (amount * growth) / (PRECISION as int);
            share <= pending <= share + 1
        }),
{
    let p = PRECISION as int;
    let x = amount * acc;
    let y = amount * growth;
    assert(amount * (acc + growth) == x + y) by (nonlinear_arith)
        requires
            x == amount * acc,
            y == amount * growth,
    ;
    assert(x >= 0 && y >= 0) by (nonlinear_arith)
        requires
            amount >= 0,
            acc >= 0,
            growth >= 0,
            x == amount * acc,
            y == amount * growth,
    ;
    vstd::arithmetic::div_mod::lemma_fundamental_div_mod(x, p);
    vstd::arithmetic::div_mod::lemma_fundamental_div_mod(y, p);
    vstd::arithmetic::div_mod::lemma_fundamental_div_mod(x + y, p);
    let qx = x / p;
    let qy = y / p;
    let qs = (x + y) / p;
    assert(qx + qy <= qs <= qx + qy + 1) by (nonlinear_arith)
        requires
            p == 1_000_000_000_000_000_000,
            x == p * qx + x % p,
            y == p * qy + y % p,
            x + y == p * qs + (x + y) % p,
            0 <= x % p < p,
            0 <= y % p < p,
            0 <= (x + y) % p < p,
    ;
}

} // verus!
