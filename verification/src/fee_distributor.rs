//! The fee distributor: collects fees per token and splits them between the
//! treasury, the staking pool and the burn address by fixed shares.
//!
//! The distributor is a state machine over plain values. It moves no tokens
//! itself: every operation says what the host has to transfer, and the host
//! performs those transfers once the operation has succeeded. The host also
//! checks that the acting party authorized the call, and supplies the ledger
//! time.

use vstd::prelude::*;
use crate::address::Address;
use crate::math::{safe_add, safe_mul, BPS_DENOMINATOR};
use crate::types::{DistributionConfig, DistributionResult, SharedError};

verus! {

/// What a distributor is set up with when it is initialized.
#[derive(Clone, Copy, Debug, PartialEq, Eq, Structural)]
pub struct DistributorSetup {
    /// Who administers the distributor.
    pub admin: Address,
    /// How fees are split.
    pub config: DistributionConfig,
}

/// The fees of one token.
#[derive(Clone, Copy, Debug, PartialEq, Eq, Structural)]
pub struct TokenFees {
    /// The token.
    pub token: Address,
    /// What was received and not distributed yet.
    pub pending: i128,
    /// Everything distributed so far.
    pub total_distributed: i128,
}

/// The state of a fee distributor.
#[derive(Debug)]
pub struct FeeDistributor {
    /// The setup, from initialization on.
    pub setup: Option<DistributorSetup>,
    /// Whether receiving and distributing are suspended.
    pub paused: bool,
    /// The supported tokens with their fees, one entry per token, in the
    /// order in which the tokens were first received.
    pub fees: Vec<TokenFees>,
}

/// The mathematical state of a fee distributor.
pub struct DistributorState {
    pub setup: Option<DistributorSetup>,
    pub paused: bool,
    pub fees: Seq<TokenFees>,
}

impl View for FeeDistributor {
    type V = DistributorState;

    open spec fn view(&self) -> DistributorState {
        DistributorState { setup: self.setup, paused: self.paused, fees: self.fees@ }
    }
}

/// Whether the three receiving addresses of `config` differ from each other.
pub open spec fn receivers_differ(config: DistributionConfig) -> bool {
    config.treasury_vault != config.staking_pool && config.treasury_vault != config.burn_address
        && config.staking_pool != config.burn_address
}

/// Whether the three shares of `config` make a whole.
pub open spec fn shares_make_a_whole(config: DistributionConfig) -> bool {
    config.treasury_bps + config.staking_bps + config.burn_bps == 10_000
}

/// The configuration a distributor starts with: half to the treasury, three
/// tenths to the stakers, two tenths burned, from one token upward.
pub open spec fn initial_config(
    treasury_vault: Address,
    staking_pool: Address,
    burn_address: Address,
) -> DistributionConfig {
    DistributionConfig {
        treasury_vault,
        staking_pool,
        burn_address,
        treasury_bps: 5000,
        staking_bps: 3000,
        burn_bps: 2000,
        min_distribution: 10_000_000,
    }
}

/// How `pending` of `token` is split under `config` at `now`.
///
/// Each receiver gets its share rounded down, and what rounding leaves over
/// goes to the treasury, so the three parts add up to `pending`. An amount
/// under the configured minimum is `BelowMinimum`; a product of the amount
/// and a share that does not fit is `Overflow`.
pub open spec fn split(token: Address, pending: i128, config: DistributionConfig, now: u64)
    -> Result<DistributionResult, SharedError> {
    if pending < config.min_distribution {
        Err(SharedError::BelowMinimum)
    } else if pending * config.treasury_bps > i128::MAX || pending * config.staking_bps
        > i128::MAX || pending * config.burn_bps > i128::MAX {
        Err(SharedError::Overflow)
    } else {
        let staking_amount = (pending * config.staking_bps) / 10_000;
        let burn_amount = (pending * config.burn_bps) / 10_000;
        Ok(
            DistributionResult {
                token,
                total_amount: pending,
                treasury_amount: (pending - staking_amount - burn_amount) as i128,
                staking_amount: staking_amount as i128,
                burn_amount: burn_amount as i128,
                timestamp: now,
            },
        )
    }
}

/// The fees of a token after an attempt to distribute them: distributed if
/// the split can be formed and the sum of what was distributed fits, else as
/// they were.
pub open spec fn after_attempt(fees: TokenFees, config: DistributionConfig) -> TokenFees {
    if split(fees.token, fees.pending, config, 0) is Ok && fees.total_distributed + fees.pending
        <= i128::MAX {
        TokenFees {
            token: fees.token,
            pending: 0,
            total_distributed: (fees.total_distributed + fees.pending) as i128,
        }
    } else {
        fees
    }
}

/// The distributions that an attempt on each of `fees` makes, in their order.
pub open spec fn attempts(fees: Seq<TokenFees>, config: DistributionConfig, now: u64) -> Seq<
    DistributionResult,
>
    decreases fees.len(),
{
    if fees.len() == 0 {
        Seq::empty()
    } else {
        let before = attempts(fees.drop_last(), config, now);
        let last = fees.last();
        if split(last.token, last.pending, config, now) is Ok && last.total_distributed
            + last.pending <= i128::MAX {
            before.push(split(last.token, last.pending, config, now)->Ok_0)
        } else {
            before
        }
    }
}

impl DistributorState {
    /// Whether the state is one that a distributor can be in.
    ///
    /// No amount is negative, no token occurs twice, and an initialized
    /// distributor has three different receivers whose shares make a whole.
    pub open spec fn wf(self) -> bool {
        &&& forall|i: int|
            0 <= i < self.fees.len() ==> (#[trigger] self.fees[i]).pending >= 0
                && self.fees[i].total_distributed >= 0
        &&& forall|i: int, j: int|
            0 <= i < j < self.fees.len() ==> (#[trigger] self.fees[i]).token
                != (#[trigger] self.fees[j]).token
        &&& self.setup matches Some(setup) ==> shares_make_a_whole(setup.config)
            && receivers_differ(setup.config)
    }

    /// Whether `token` is supported.
    pub open spec fn supports(self, token: Address) -> bool {
        exists|i: int| 0 <= i < self.fees.len() && (#[trigger] self.fees[i]).token == token
    }

    /// Where the fees of `token` are kept, if it is supported.
    pub open spec fn fees_index(self, token: Address) -> int {
        choose|i: int| 0 <= i < self.fees.len() && (#[trigger] self.fees[i]).token == token
    }

    /// What is pending of `token`, zero for a token that is not supported.
    pub open spec fn pending(self, token: Address) -> i128 {
        if self.supports(token) {
            self.fees[self.fees_index(token)].pending
        } else {
            0
        }
    }

    /// What was distributed of `token`, zero for a token that is not
    /// supported.
    pub open spec fn total_distributed(self, token: Address) -> i128 {
        if self.supports(token) {
            self.fees[self.fees_index(token)].total_distributed
        } else {
            0
        }
    }

    /// The state with the fees of a supported `token` set to the given
    /// values; a token that is not supported stays unsupported.
    pub open spec fn with_fees(self, token: Address, pending: i128, total: i128)
        -> DistributorState {
        if self.supports(token) {
            DistributorState {
                fees: self.fees.update(
                    self.fees_index(token),
                    TokenFees { token, pending, total_distributed: total },
                ),
                ..self
            }
        } else {
            self
        }
    }

    /// The supported tokens, in the order in which they were first received.
    pub open spec fn tokens(self) -> Seq<Address> {
        Seq::new(self.fees.len(), |i: int| self.fees[i].token)
    }

    /// The state after `amount` of `token` was received, or the error with
    /// which it is refused.
    pub open spec fn receive_fees_step(self, token: Address, amount: i128) -> Result<
        DistributorState,
        SharedError,
    > {
        if self.setup is None {
            Err(SharedError::NotInitialized)
        } else if self.paused {
            Err(SharedError::ContractPaused)
        } else if amount <= 0 {
            Err(SharedError::InvalidAmount)
        } else if self.pending(token) + amount > i128::MAX {
            Err(SharedError::Overflow)
        } else if self.supports(token) {
            Ok(
                self.with_fees(
                    token,
                    (self.pending(token) + amount) as i128,
                    self.total_distributed(token),
                ),
            )
        } else {
            Ok(
                DistributorState {
                    fees: self.fees.push(
                        TokenFees { token, pending: amount, total_distributed: 0 },
                    ),
                    ..self
                },
            )
        }
    }

    /// What distributing the pending fees of `token` at `now` returns.
    pub open spec fn distribute_result(self, token: Address, now: u64) -> Result<
        DistributionResult,
        SharedError,
    > {
        if self.setup is None {
            Err(SharedError::NotInitialized)
        } else if self.paused {
            Err(SharedError::ContractPaused)
        } else {
            match split(token, self.pending(token), self.setup->0.config, now) {
                Err(e) => Err(e),
                Ok(result) => if self.total_distributed(token) + self.pending(token) > i128::MAX {
                    Err(SharedError::Overflow)
                } else {
                    Ok(result)
                },
            }
        }
    }
}

/// What rounding leaves over of a split is not negative, so each part of a
/// split of a non-negative amount is within the amount.
proof fn lemma_split_parts(pending: int, treasury_bps: int, staking_bps: int, burn_bps: int)
    requires
        pending >= 0,
        treasury_bps >= 0,
        staking_bps >= 0,
        burn_bps >= 0,
        treasury_bps + staking_bps + burn_bps == 10_000,
    ensures
        0 <= (pending * treasury_bps) / 10_000,
        0 <= (pending * staking_bps) / 10_000,
        0 <= (pending * burn_bps) / 10_000,
        (pending * treasury_bps) / 10_000 + (pending * staking_bps) / 10_000 + (pending
            * burn_bps) / 10_000 <= pending,
{
    let t = pending * treasury_bps;
    let s = pending * staking_bps;
    let b = pending * burn_bps;
    assert(t >= 0 && s >= 0 && b >= 0 && t + s + b == pending * 10_000) by (nonlinear_arith)
        requires
            pending >= 0,
            treasury_bps >= 0,
            staking_bps >= 0,
            burn_bps >= 0,
            treasury_bps + staking_bps + burn_bps == 10_000,
            t == pending * treasury_bps,
            s == pending * staking_bps,
            b == pending * burn_bps,
    ;
}

/// A split loses nothing: whenever a non-negative amount can be split under
/// shares that make a whole, no part is negative and the three parts add up
/// to the amount.
pub proof fn lemma_split_adds_up(token: Address, pending: i128, config: DistributionConfig, now: u64)
    requires
        pending >= 0,
        shares_make_a_whole(config),
    ensures
        split(token, pending, config, now) matches Ok(result) ==> result.treasury_amount >= 0
            && result.staking_amount >= 0 && result.burn_amount >= 0 && result.treasury_amount
            + result.staking_amount + result.burn_amount == pending && result.total_amount
            == pending && result.treasury_amount >= (pending * config.treasury_bps) / 10_000,
{
    lemma_split_parts(
        pending as int,
        config.treasury_bps as int,
        config.staking_bps as int,
        config.burn_bps as int,
    );
}

impl FeeDistributor {
    /// Whether the distributor is in a state that a distributor can be in.
    pub open spec fn wf(&self) -> bool {
        self@.wf()
    }

    /// A distributor that is not initialized yet.
    pub fn new() -> (d: Self)
        ensures
            d.wf(),
            d@.setup is None,
            !d@.paused,
            d@.fees.len() == 0,
    {
        FeeDistributor { setup: None, paused: false, fees: Vec::new() }
    }

    /// Whether the distributor is in a state that a distributor can be in:
    /// what `wf` states, checked on the values at hand.
    ///
    /// A host that has read a distributor's state from its ledger checks it
    /// with this before it calls an operation.
    pub fn is_well_formed(&self) -> (ok: bool)
        ensures
            ok == self.wf(),
    {
        if let Some(setup) = self.setup {
            let config: DistributionConfig = setup.config;
            let total: u64 = config.treasury_bps as u64 + config.staking_bps as u64
                + config.burn_bps as u64;
            if total != 10_000 {
                return false;
            }
            if config.treasury_vault == config.staking_pool || config.treasury_vault
                == config.burn_address || config.staking_pool == config.burn_address {
                return false;
            }
        }
        let mut j: usize = 0;
        while j < self.fees.len()
            invariant
                j <= self.fees@.len(),
                forall|a: int|
                    0 <= a < j ==> (#[trigger] self.fees@[a]).pending >= 0
                        && self.fees@[a].total_distributed >= 0,
                forall|a: int, b: int|
                    0 <= a < b < j ==> (#[trigger] self.fees@[a]).token
                        != (#[trigger] self.fees@[b]).token,
            decreases self.fees@.len() - j,
        {
            if self.fees[j].pending < 0 || self.fees[j].total_distributed < 0 {
                return false;
            }
            let mut i: usize = 0;
            while i < j
                invariant
                    i <= j < self.fees@.len(),
                    forall|a: int|
                        0 <= a < i ==> (#[trigger] self.fees@[a]).token != self.fees@[j as int].token,
                decreases j - i,
            {
                if self.fees[i].token == self.fees[j].token {
                    return false;
                }
                i += 1;
            }
            j += 1;
        }
        true
    }

    /// Where the fees of `token` are kept.
    fn find_fees(&self, token: Address) -> (r: Option<usize>)
        ensures
            r matches Some(i) ==> i < self.fees@.len() && self.fees@[i as int].token == token
                && self@.supports(token),
            r matches Some(i) ==> (self.wf() ==> self@.fees_index(token) == i),
            r is None ==> !self@.supports(token),
    {
        let mut i: usize = 0;
        while i < self.fees.len()
            invariant
                i <= self.fees@.len(),
                forall|j: int| 0 <= j < i ==> (#[trigger] self.fees@[j]).token != token,
            decreases self.fees@.len() - i,
        {
            if self.fees[i].token == token {
                return Some(i);
            }
            i += 1;
        }
        None
    }

    /// Sets up the distributor with the initial shares: half to the
    /// treasury, three tenths to the stakers, two tenths burned, from one
    /// token (10,000,000 units) upward.
    ///
    /// A distributor that was initialized before is `AlreadyInitialized`;
    /// two receivers that are the same are `InvalidAddress`.
    pub fn initialize(
        &mut self,
        admin: Address,
        treasury_vault: Address,
        staking_pool: Address,
        burn_address: Address,
    ) -> (r: Result<(), SharedError>)
        requires
            old(self).wf(),
        ensures
            final(self).wf(),
            old(self)@.setup is Some ==> r == Err::<(), SharedError>(
                SharedError::AlreadyInitialized,
            ),
            old(self)@.setup is None && !receivers_differ(
                initial_config(treasury_vault, staking_pool, burn_address),
            ) ==> r == Err::<(), SharedError>(SharedError::InvalidAddress),
            old(self)@.setup is None && receivers_differ(
                initial_config(treasury_vault, staking_pool, burn_address),
            ) ==> r == Ok::<(), SharedError>(()),
            r is Err ==> *final(self) == *old(self),
            r is Ok ==> final(self)@ == (DistributorState {
                setup: Some(
                    DistributorSetup {
                        admin,
                        config: initial_config(treasury_vault, staking_pool, burn_address),
                    },
                ),
                paused: false,
                fees: Seq::empty(),
            }),
    {
        if self.setup.is_some() {
            return Err(SharedError::AlreadyInitialized);
        }
        if treasury_vault == staking_pool || treasury_vault == burn_address || staking_pool
            == burn_address {
            return Err(SharedError::InvalidAddress);
        }
        let config = DistributionConfig {
            treasury_vault,
            staking_pool,
            burn_address,
            treasury_bps: 5000,
            staking_bps: 3000,
            burn_bps: 2000,
            min_distribution: 10_000_000,
        };
        self.setup = Some(DistributorSetup { admin, config });
        self.paused = false;
        self.fees = Vec::new();
        Ok(())
    }

    /// Takes in `amount` of `token` as fees, to be distributed later.
    ///
    /// The host has checked that `caller` authorized the call. On success it
    /// moves `amount` of `token` from `caller` into the distributor's
    /// custody.
    ///
    /// The amount is added to what is pending of the token; a token seen for
    /// the first time is supported from now on, after the others. A
    /// distributor that is not initialized is `NotInitialized`, a paused one
    /// `ContractPaused`; an amount that is not positive is `InvalidAmount`; a
    /// sum that does not fit is `Overflow`. A refused call changes nothing.
    pub fn receive_fees(&mut self, caller: Address, token: Address, amount: i128) -> (r: Result<
        (),
        SharedError,
    >)
        requires
            old(self).wf(),
        ensures
            final(self).wf(),
            match r {
                Ok(_) => old(self)@.receive_fees_step(token, amount) == Ok::<
                    DistributorState,
                    SharedError,
                >(final(self)@),
                Err(e) => old(self)@.receive_fees_step(token, amount) == Err::<
                    DistributorState,
                    SharedError,
                >(e) && *final(self) == *old(self),
            },
    {
        if self.setup.is_none() {
            return Err(SharedError::NotInitialized);
        }
        if self.paused {
            return Err(SharedError::ContractPaused);
        }
        if amount <= 0 {
            return Err(SharedError::InvalidAmount);
        }
        let found: Option<usize> = self.find_fees(token);
        match found {
            Some(i) => {
                let entry: TokenFees = self.fees[i];
                let new_pending: i128 = match safe_add(entry.pending, amount) {
                    Ok(v) => v,
                    Err(e) => { return Err(e); },
                };
                self.fees.set(
                    i,
                    TokenFees {
                        token,
                        pending: new_pending,
                        total_distributed: entry.total_distributed,
                    },
                );
            },
            None => {
                self.fees.push(TokenFees { token, pending: amount, total_distributed: 0 });
            },
        }
        Ok(())
    }

    /// How `pending` of `token` is split under `config`.
    fn compute_split(token: Address, pending: i128, config: &DistributionConfig, now: u64) -> (r:
        Result<DistributionResult, SharedError>)
        requires
            pending >= 0,
            shares_make_a_whole(*config),
        ensures
            r == split(token, pending, *config, now),
            r matches Ok(result) ==> result.treasury_amount >= 0 && result.staking_amount >= 0
                && result.burn_amount >= 0 && result.treasury_amount + result.staking_amount
                + result.burn_amount == pending,
    {
        if pending < config.min_distribution {
            return Err(SharedError::BelowMinimum);
        }
        proof {
            lemma_split_parts(
                pending as int,
                config.treasury_bps as int,
                config.staking_bps as int,
                config.burn_bps as int,
            );
            assert(pending * config.treasury_bps >= 0 && pending * config.staking_bps >= 0
                && pending * config.burn_bps >= 0) by (nonlinear_arith)
                requires
                    pending >= 0,
                    config.treasury_bps >= 0,
                    config.staking_bps >= 0,
                    config.burn_bps >= 0,
            ;
        }
        let treasury_scaled: i128 = match safe_mul(pending, config.treasury_bps as i128) {
            Ok(v) => v,
            Err(e) => { return Err(e); },
        };
        let staking_scaled: i128 = match safe_mul(pending, config.staking_bps as i128) {
            Ok(v) => v,
            Err(e) => { return Err(e); },
        };
        let burn_scaled: i128 = match safe_mul(pending, config.burn_bps as i128) {
            Ok(v) => v,
            Err(e) => { return Err(e); },
        };
        let treasury_amount: i128 = treasury_scaled / BPS_DENOMINATOR;
        let staking_amount: i128 = staking_scaled / BPS_DENOMINATOR;
        let burn_amount: i128 = burn_scaled / BPS_DENOMINATOR;
        // what rounding leaves over goes to the treasury
        let dust: i128 = pending - (treasury_amount + staking_amount + burn_amount);
        let final_treasury: i128 = treasury_amount + dust;
        Ok(
            DistributionResult {
                token,
                total_amount: pending,
                treasury_amount: final_treasury,
                staking_amount,
                burn_amount,
                timestamp: now,
            },
        )
    }

    /// Distributes what is pending of `token`, at `now`.
    ///
    /// On success the host moves, out of the distributor's custody, the
    /// treasury part to the treasury vault, the staking part to the staking
    /// pool and the burn part to the burn address, each only if it is
    /// positive.
    ///
    /// Each receiver gets its share of the pending amount rounded down, and
    /// what rounding leaves over goes to the treasury: the three parts add
    /// up to the pending amount. Then nothing is pending of the token and
    /// the amount is added to what was distributed. A distributor that is
    /// not initialized is `NotInitialized`, a paused one `ContractPaused`; a
    /// pending amount under the configured minimum is `BelowMinimum`; a
    /// product or a sum that does not fit is `Overflow`. A refused call
    /// changes nothing.
    pub fn distribute(&mut self, token: Address, now: u64) -> (r: Result<
        DistributionResult,
        SharedError,
    >)
        requires
            old(self).wf(),
        ensures
            final(self).wf(),
            r == old(self)@.distribute_result(token, now),
            r matches Ok(result) ==> final(self)@ == old(self)@.with_fees(
                token,
                0,
                (old(self)@.total_distributed(token) + result.total_amount) as i128,
            ) && result.treasury_amount + result.staking_amount + result.burn_amount
                == result.total_amount && result.treasury_amount >= 0 && result.staking_amount
                >= 0 && result.burn_amount >= 0,
            r is Err ==> *final(self) == *old(self),
    {
        let setup: DistributorSetup = match self.setup {
            Some(setup) => setup,
            None => { return Err(SharedError::NotInitialized); },
        };
        if self.paused {
            return Err(SharedError::ContractPaused);
        }
        let found: Option<usize> = self.find_fees(token);
        let (pending, distributed): (i128, i128) = match found {
            Some(i) => (self.fees[i].pending, self.fees[i].total_distributed),
            None => (0, 0),
        };
        let result: DistributionResult = match Self::compute_split(
            token,
            pending,
            &setup.config,
            now,
        ) {
            Ok(v) => v,
            Err(e) => { return Err(e); },
        };
        let new_total: i128 = match safe_add(distributed, pending) {
            Ok(v) => v,
            Err(e) => { return Err(e); },
        };
        match found {
            Some(i) => {
                self.fees.set(i, TokenFees { token, pending: 0, total_distributed: new_total });
            },
            None => {},
        }
        Ok(result)
    }

    /// Distributes what is pending of every supported token that has
    /// reached the configured minimum, at `now`, and returns the
    /// distributions made, in the order of the tokens.
    ///
    /// For each distribution the host moves the parts as for `distribute`.
    /// A token whose split cannot be formed is passed over and keeps its
    /// pending amount. A distributor that is not initialized is
    /// `NotInitialized`, a paused one `ContractPaused`.
    pub fn distribute_all(&mut self, now: u64) -> (r: Result<Vec<DistributionResult>, SharedError>)
        requires
            old(self).wf(),
        ensures
            final(self).wf(),
            old(self)@.setup is None ==> r matches Err(SharedError::NotInitialized),
            old(self)@.setup is Some && old(self)@.paused ==> r matches Err(
                SharedError::ContractPaused,
            ),
            old(self)@.setup is Some && !old(self)@.paused ==> r is Ok,
            r matches Ok(results) ==> {
                &&& results@ == attempts(old(self)@.fees, old(self)@.setup->0.config, now)
                &&& final(self)@.setup == old(self)@.setup
                &&& final(self)@.paused == old(self)@.paused
                &&& final(self)@.fees.len() == old(self)@.fees.len()
                &&& forall|i: int|
                    0 <= i < old(self)@.fees.len() ==> #[trigger] final(self)@.fees[i]
                        == after_attempt(old(self)@.fees[i], old(self)@.setup->0.config)
            },
            r is Err ==> *final(self) == *old(self),
    {
        let setup: DistributorSetup = match self.setup {
            Some(setup) => setup,
            None => { return Err(SharedError::NotInitialized); },
        };
        if self.paused {
            return Err(SharedError::ContractPaused);
        }
        let mut results: Vec<DistributionResult> = Vec::new();
        let mut i: usize = 0;
        while i < self.fees.len()
            invariant
                i <= self.fees@.len(),
                self.fees@.len() == old(self).fees@.len(),
                self.setup == old(self).setup,
                self.setup == Some(setup),
                self.paused == old(self).paused,
                old(self).wf(),
                forall|j: int|
                    0 <= j < i ==> #[trigger] self.fees@[j] == after_attempt(
                        old(self).fees@[j],
                        setup.config,
                    ),
                forall|j: int| i <= j < self.fees@.len() ==> self.fees@[j] == old(self).fees@[j],
                results@ == attempts(old(self).fees@.take(i as int), setup.config, now),
            decreases self.fees@.len() - i,
        {
            let entry: TokenFees = self.fees[i];
            proof {
                assert(old(self).fees@.take(i + 1).drop_last() =~= old(self).fees@.take(i as int));
                assert(old(self)@.fees[i as int].pending >= 0);
            }
            match Self::compute_split(entry.token, entry.pending, &setup.config, now) {
                Ok(result) => {
                    match safe_add(entry.total_distributed, entry.pending) {
                        Ok(new_total) => {
                            self.fees.set(
                                i,
                                TokenFees {
                                    token: entry.token,
                                    pending: 0,
                                    total_distributed: new_total,
                                },
                            );
                            results.push(result);
                        },
                        Err(_) => {},
                    }
                },
                Err(_) => {},
            }
            i += 1;
        }
        proof {
            assert(old(self).fees@.take(old(self).fees@.len() as int) =~= old(self).fees@);
            assert forall|a: int, b: int| 0 <= a < b < self.fees@.len() implies (
            #[trigger] self.fees@[a]).token != (#[trigger] self.fees@[b]).token by {
                assert(self.fees@[a].token == old(self)@.fees[a].token);
                assert(self.fees@[b].token == old(self)@.fees[b].token);
            }
            assert forall|a: int| 0 <= a < self.fees@.len() implies (
            #[trigger] self.fees@[a]).pending >= 0 && self.fees@[a].total_distributed >= 0 by {
                assert(old(self)@.fees[a].pending >= 0);
            }
        }
        Ok(results)
    }

    /// Replaces the configuration.
    ///
    /// The host has checked that the admin authorized the call. A
    /// distributor that is not initialized is `NotInitialized`; shares that
    /// do not make a whole are `InvalidPercentage`; two receivers that are
    /// the same are `InvalidAddress`.
    pub fn update_config(&mut self, new_config: DistributionConfig) -> (r: Result<(), SharedError>)
        requires
            old(self).wf(),
        ensures
            final(self).wf(),
            old(self)@.setup is None ==> r == Err::<(), SharedError>(SharedError::NotInitialized),
            old(self)@.setup is Some && !shares_make_a_whole(new_config) ==> r == Err::<
                (),
                SharedError,
            >(SharedError::InvalidPercentage),
            old(self)@.setup is Some && shares_make_a_whole(new_config) && !receivers_differ(
                new_config,
            ) ==> r == Err::<(), SharedError>(SharedError::InvalidAddress),
            old(self)@.setup is Some && shares_make_a_whole(new_config) && receivers_differ(
                new_config,
            ) ==> r == Ok::<(), SharedError>(()),
            r is Err ==> *final(self) == *old(self),
            r is Ok ==> final(self)@ == (DistributorState {
                setup: Some(DistributorSetup { config: new_config, ..old(self)@.setup->0 }),
                ..old(self)@
            }),
    {
        let setup: DistributorSetup = match self.setup {
            Some(setup) => setup,
            None => { return Err(SharedError::NotInitialized); },
        };
        let total: u64 = new_config.treasury_bps as u64 + new_config.staking_bps as u64
            + new_config.burn_bps as u64;
        if total != 10_000 {
            return Err(SharedError::InvalidPercentage);
        }
        if new_config.treasury_vault == new_config.staking_pool || new_config.treasury_vault
            == new_config.burn_address || new_config.staking_pool == new_config.burn_address {
            return Err(SharedError::InvalidAddress);
        }
        self.setup = Some(DistributorSetup { config: new_config, ..setup });
        Ok(())
    }

    /// Names another admin.
    ///
    /// The host has checked that the present admin authorized the call. A
    /// distributor that is not initialized is `NotInitialized`.
    pub fn set_admin(&mut self, new_admin: Address) -> (r: Result<(), SharedError>)
        requires
            old(self).wf(),
        ensures
            final(self).wf(),
            old(self)@.setup is None ==> r == Err::<(), SharedError>(SharedError::NotInitialized),
            old(self)@.setup is Some ==> r == Ok::<(), SharedError>(()),
            r is Err ==> *final(self) == *old(self),
            r is Ok ==> final(self)@ == (DistributorState {
                setup: Some(DistributorSetup { admin: new_admin, ..old(self)@.setup->0 }),
                ..old(self)@
            }),
    {
        let setup: DistributorSetup = match self.setup {
            Some(setup) => setup,
            None => { return Err(SharedError::NotInitialized); },
        };
        self.setup = Some(DistributorSetup { admin: new_admin, ..setup });
        Ok(())
    }

    /// Suspends or resumes receiving and distributing.
    ///
    /// The host has checked that the admin authorized the call. A
    /// distributor that is not initialized is `NotInitialized`.
    pub fn set_paused(&mut self, paused: bool) -> (r: Result<(), SharedError>)
        requires
            old(self).wf(),
        ensures
            final(self).wf(),
            old(self)@.setup is None ==> r == Err::<(), SharedError>(SharedError::NotInitialized),
            old(self)@.setup is Some ==> r == Ok::<(), SharedError>(()),
            r is Err ==> *final(self) == *old(self),
            r is Ok ==> final(self)@ == (DistributorState { paused, ..old(self)@ }),
    {
        if self.setup.is_none() {
            return Err(SharedError::NotInitialized);
        }
        self.paused = paused;
        Ok(())
    }

    /// Whether the admin may withdraw tokens from the distributor.
    ///
    /// The host has checked that the admin authorized the call. On success
    /// it moves `amount` of `token` from the distributor's custody to `to`;
    /// the distributor's books stay as they are. A distributor that is not
    /// initialized is `NotInitialized`; one that is not paused is
    /// `ContractNotPaused`.
    pub fn emergency_withdraw(&self, token: Address, to: Address, amount: i128) -> (r: Result<
        (),
        SharedError,
    >)
        ensures
            self@.setup is None ==> r == Err::<(), SharedError>(SharedError::NotInitialized),
            self@.setup is Some && !self@.paused ==> r == Err::<(), SharedError>(
                SharedError::ContractNotPaused,
            ),
            self@.setup is Some && self@.paused ==> r == Ok::<(), SharedError>(()),
    {
        if self.setup.is_none() {
            return Err(SharedError::NotInitialized);
        }
        if !self.paused {
            return Err(SharedError::ContractNotPaused);
        }
        Ok(())
    }

    /// The configuration, or `NotInitialized`.
    pub fn get_config(&self) -> (r: Result<DistributionConfig, SharedError>)
        ensures
            self@.setup matches Some(setup) ==> r == Ok::<DistributionConfig, SharedError>(
                setup.config,
            ),
            self@.setup is None ==> r == Err::<DistributionConfig, SharedError>(
                SharedError::NotInitialized,
            ),
    {
        match self.setup {
            Some(setup) => Ok(setup.config),
            None => Err(SharedError::NotInitialized),
        }
    }

    /// What is pending of `token`, zero for a token that is not supported.
    pub fn get_pending_distribution(&self, token: Address) -> (r: i128)
        requires
            self.wf(),
        ensures
            r == self@.pending(token),
    {
        match self.find_fees(token) {
            Some(i) => self.fees[i].pending,
            None => 0,
        }
    }

    /// What was distributed of `token`, zero for a token that is not
    /// supported.
    pub fn get_total_distributed_for_token(&self, token: Address) -> (r: i128)
        requires
            self.wf(),
        ensures
            r == self@.total_distributed(token),
    {
        match self.find_fees(token) {
            Some(i) => self.fees[i].total_distributed,
            None => 0,
        }
    }

    /// The supported tokens, in the order in which they were first received.
    pub fn get_tokens(&self) -> (r: Vec<Address>)
        ensures
            r@ == self@.tokens(),
    {
        let mut out: Vec<Address> = Vec::new();
        let mut i: usize = 0;
        while i < self.fees.len()
            invariant
                i <= self.fees@.len(),
                out@.len() == i,
                forall|j: int| 0 <= j < i ==> out@[j] == self.fees@[j].token,
            decreases self.fees@.len() - i,
        {
            out.push(self.fees[i].token);
            i += 1;
        }
        proof {
            assert(out@ =~= self@.tokens());
        }
        out
    }

    /// The admin, or `NotInitialized`.
    pub fn admin(&self) -> (r: Result<Address, SharedError>)
        ensures
            self@.setup matches Some(setup) ==> r == Ok::<Address, SharedError>(setup.admin),
            self@.setup is None ==> r == Err::<Address, SharedError>(SharedError::NotInitialized),
    {
        match self.setup {
            Some(setup) => Ok(setup.admin),
            None => Err(SharedError::NotInitialized),
        }
    }

    /// Whether receiving and distributing are suspended.
    pub fn is_paused(&self) -> (r: bool)
        ensures
            r == self@.paused,
    {
        self.paused
    }
}

} // verus!
