//! The liquidity locker: holds liquidity tokens until a time their owner
//! chose, or for good.
//!
//! The locker is a state machine over plain values. It moves no tokens
//! itself: every operation says what the host has to transfer, and the host
//! performs those transfers once the operation has succeeded. The host also
//! checks that the acting party authorized the call, and supplies the ledger
//! time.

use vstd::prelude::*;
use crate::address::Address;
use crate::math::{apply_bps, mul_div_down_result, safe_add, safe_sub};
use crate::types::{LockConfig, LockInfo, SharedError};

verus! {

/// The unlock time of a lock that never opens.
pub const PERMANENT: u64 = u64::MAX;

/// The largest penalty for opening early that a locker can start with, in
/// basis points (50%).
pub const MAX_INITIAL_PENALTY_BPS: u32 = 5000;

/// What a locker is set up with when it is initialized.
#[derive(Clone, Copy, Debug, PartialEq, Eq, Structural)]
pub struct LockerSetup {
    /// Who administers the locker.
    pub admin: Address,
    /// Who receives the penalties.
    pub treasury: Address,
    /// The locker's configuration.
    pub config: LockConfig,
}

/// One entry of the list of locks that a user owns.
#[derive(Clone, Copy, Debug, PartialEq, Eq, Structural)]
pub struct OwnedLock {
    /// The owner.
    pub user: Address,
    /// The lock.
    pub id: u64,
}

/// What is locked of one token.
#[derive(Clone, Copy, Debug, PartialEq, Eq, Structural)]
pub struct TokenTotal {
    /// The token.
    pub token: Address,
    /// The sum of its locks that are still closed.
    pub total: i128,
}

/// What opening a lock early paid.
#[derive(Clone, Copy, Debug, PartialEq, Eq, Structural)]
pub struct EarlyUnlock {
    /// What the owner receives.
    pub received: i128,
    /// What the treasury receives as the penalty.
    pub penalty: i128,
}

/// The state of a liquidity locker.
#[derive(Debug)]
pub struct LiquidityLocker {
    /// The setup, from initialization on.
    pub setup: Option<LockerSetup>,
    /// Whether locking and unlocking are suspended.
    pub paused: bool,
    /// The identifier that the next lock gets.
    pub next_lock_id: u64,
    /// Every lock ever made, in the order in which they were made.
    pub locks: Vec<LockInfo>,
    /// Which user owns which lock, in the order in which the users came by
    /// them.
    pub owned: Vec<OwnedLock>,
    /// What is locked per token, one entry per token.
    pub totals: Vec<TokenTotal>,
}

/// The mathematical state of a liquidity locker.
pub struct LockerState {
    pub setup: Option<LockerSetup>,
    pub paused: bool,
    pub next_lock_id: u64,
    pub locks: Seq<LockInfo>,
    pub owned: Seq<OwnedLock>,
    pub totals: Seq<TokenTotal>,
}

impl View for LiquidityLocker {
    type V = LockerState;

    open spec fn view(&self) -> LockerState {
        LockerState {
            setup: self.setup,
            paused: self.paused,
            next_lock_id: self.next_lock_id,
            locks: self.locks@,
            owned: self.owned@,
            totals: self.totals@,
        }
    }
}

/// The time from `now` to `unlock_time`, zero if it has passed.
pub open spec fn duration(unlock_time: u64, now: u64) -> int {
    if unlock_time >= now {
        unlock_time - now
    } else {
        0
    }
}

/// Whether a lock of the given duration is refused by `config`: shorter than
/// the minimum, or longer than a maximum that is set.
pub open spec fn duration_refused(config: LockConfig, length: int) -> bool {
    length < config.min_lock_duration || (length > config.max_lock_duration
        && config.max_lock_duration > 0)
}

/// The locks among `locks` of the token `lp_token`, in their order.
pub open spec fn locks_of_token(locks: Seq<LockInfo>, lp_token: Address) -> Seq<LockInfo>
    decreases locks.len(),
{
    if locks.len() == 0 {
        Seq::empty()
    } else {
        let before = locks_of_token(locks.drop_last(), lp_token);
        if locks.last().lp_token == lp_token {
            before.push(locks.last())
        } else {
            before
        }
    }
}

/// The entries of `owned` without those that give `user` the lock `id`.
pub open spec fn without_owned(owned: Seq<OwnedLock>, user: Address, id: u64) -> Seq<OwnedLock>
    decreases owned.len(),
{
    if owned.len() == 0 {
        Seq::empty()
    } else {
        let before = without_owned(owned.drop_last(), user, id);
        if owned.last().user == user && owned.last().id == id {
            before
        } else {
            before.push(owned.last())
        }
    }
}

impl LockerState {
    /// Whether the state is one that a locker can be in.
    ///
    /// No lock identifier occurs twice, each is below the next one to hand
    /// out, no token has two totals, and an initialized locker's shortest
    /// lock is not longer than its longest.
    pub open spec fn wf(self) -> bool {
        &&& forall|i: int, j: int|
            0 <= i < j < self.locks.len() ==> (#[trigger] self.locks[i]).id
                != (#[trigger] self.locks[j]).id
        &&& forall|i: int| 0 <= i < self.locks.len() ==> (#[trigger] self.locks[i]).id
            < self.next_lock_id
        &&& forall|i: int, j: int|
            0 <= i < j < self.totals.len() ==> (#[trigger] self.totals[i]).token
                != (#[trigger] self.totals[j]).token
        &&& self.setup matches Some(setup) ==> setup.config.min_lock_duration
            <= setup.config.max_lock_duration
    }

    /// Whether there is a lock `id`.
    pub open spec fn has_lock(self, id: u64) -> bool {
        exists|i: int| 0 <= i < self.locks.len() && (#[trigger] self.locks[i]).id == id
    }

    /// Where the lock `id` is kept, if there is one.
    pub open spec fn lock_index(self, id: u64) -> int {
        choose|i: int| 0 <= i < self.locks.len() && (#[trigger] self.locks[i]).id == id
    }

    /// The lock `id`, if there is one.
    pub open spec fn lock(self, id: u64) -> Option<LockInfo> {
        if self.has_lock(id) {
            Some(self.locks[self.lock_index(id)])
        } else {
            None
        }
    }

    /// The state with the lock of the identifier of `info` replaced by
    /// `info`.
    pub open spec fn with_lock(self, info: LockInfo) -> LockerState {
        LockerState { locks: self.locks.update(self.lock_index(info.id), info), ..self }
    }

    /// Whether `token` has a total on record.
    pub open spec fn has_total(self, token: Address) -> bool {
        exists|i: int| 0 <= i < self.totals.len() && (#[trigger] self.totals[i]).token == token
    }

    /// Where the total of `token` is kept, if it has one.
    pub open spec fn total_index(self, token: Address) -> int {
        choose|i: int| 0 <= i < self.totals.len() && (#[trigger] self.totals[i]).token == token
    }

    /// What is locked of `token`, zero for a token without a total.
    pub open spec fn total_locked(self, token: Address) -> i128 {
        if self.has_total(token) {
            self.totals[self.total_index(token)].total
        } else {
            0
        }
    }

    /// The state with the total of `token` set to `total`.
    pub open spec fn with_total(self, token: Address, total: i128) -> LockerState {
        let entry = TokenTotal { token, total };
        LockerState {
            totals: if self.has_total(token) {
                self.totals.update(self.total_index(token), entry)
            } else {
                self.totals.push(entry)
            },
            ..self
        }
    }

    /// The lock `id` if `owner` owns it and it is still closed; else
    /// `TokenNotFound` where there is no such lock, `NotOwner` where another
    /// owns it, `AlreadyExecuted` where it was unlocked.
    pub open spec fn owned_closed_lock(self, owner: Address, id: u64) -> Result<
        LockInfo,
        SharedError,
    > {
        match self.lock(id) {
            None => Err(SharedError::TokenNotFound),
            Some(info) => if info.owner != owner {
                Err(SharedError::NotOwner)
            } else if info.unlocked {
                Err(SharedError::AlreadyExecuted)
            } else {
                Ok(info)
            },
        }
    }

    /// What unlocking the lock `lock_id` by `owner` at `now` returns.
    pub open spec fn unlock_result(self, owner: Address, lock_id: u64, now: u64) -> Result<
        i128,
        SharedError,
    > {
        if self.setup is None {
            Err(SharedError::NotInitialized)
        } else if self.paused {
            Err(SharedError::ContractPaused)
        } else {
            match self.owned_closed_lock(owner, lock_id) {
                Err(e) => Err(e),
                Ok(info) => if info.unlock_time == PERMANENT {
                    Err(SharedError::InvalidState)
                } else if now < info.unlock_time {
                    Err(SharedError::DeadlineExpired)
                } else if !(0 <= self.total_locked(info.lp_token) - info.amount <= i128::MAX) {
                    Err(SharedError::Underflow)
                } else {
                    Ok(info.amount)
                },
            }
        }
    }

    /// What opening the lock `lock_id` early by `owner` returns.
    pub open spec fn early_unlock_result(self, owner: Address, lock_id: u64) -> Result<
        EarlyUnlock,
        SharedError,
    > {
        if self.setup is None {
            Err(SharedError::NotInitialized)
        } else if self.paused {
            Err(SharedError::ContractPaused)
        } else if !self.setup->0.config.early_unlock_enabled {
            Err(SharedError::InvalidState)
        } else {
            match self.owned_closed_lock(owner, lock_id) {
                Err(e) => Err(e),
                Ok(info) => if info.unlock_time == PERMANENT {
                    Err(SharedError::InvalidState)
                } else {
                    match mul_div_down_result(
                        info.amount as int,
                        self.setup->0.config.early_unlock_penalty_bps as int,
                        10_000,
                    ) {
                        Err(e) => Err(e),
                        Ok(penalty) => if !(0 <= info.amount - penalty <= i128::MAX) || !(0
                            <= self.total_locked(info.lp_token) - info.amount <= i128::MAX) {
                            Err(SharedError::Underflow)
                        } else {
                            Ok(
                                EarlyUnlock {
                                    received: (info.amount - penalty) as i128,
                                    penalty,
                                },
                            )
                        },
                    }
                },
            }
        }
    }

    /// What extending the lock `lock_id` of `owner` to `new_unlock_time` at
    /// `now` returns.
    pub open spec fn extend_lock_result(
        self,
        owner: Address,
        lock_id: u64,
        new_unlock_time: u64,
        now: u64,
    ) -> Result<(), SharedError> {
        if self.setup is None {
            Err(SharedError::NotInitialized)
        } else if self.paused {
            Err(SharedError::ContractPaused)
        } else {
            match self.owned_closed_lock(owner, lock_id) {
                Err(e) => Err(e),
                Ok(info) => if info.unlock_time == PERMANENT {
                    Err(SharedError::InvalidState)
                } else if new_unlock_time <= info.unlock_time {
                    Err(SharedError::InvalidTimestamp)
                } else if duration(new_unlock_time, now) > self.setup->0.config.max_lock_duration
                    && self.setup->0.config.max_lock_duration > 0 {
                    Err(SharedError::InvalidTimestamp)
                } else {
                    Ok(())
                },
            }
        }
    }

    /// The locks that `user` owns, in the order in which it came by them,
    /// read off the first `n` entries of the ownership list.
    pub open spec fn user_locks_within(self, user: Address, n: int) -> Seq<LockInfo>
        decreases n,
    {
        if n <= 0 {
            Seq::empty()
        } else {
            let before = self.user_locks_within(user, n - 1);
            let entry = self.owned[n - 1];
            if entry.user == user && self.has_lock(entry.id) {
                before.push(self.locks[self.lock_index(entry.id)])
            } else {
                before
            }
        }
    }

    /// The locks that `user` owns, in the order in which it came by them.
    pub open spec fn user_locks(self, user: Address) -> Seq<LockInfo> {
        self.user_locks_within(user, self.owned.len() as int)
    }
}


impl LiquidityLocker {
    /// Whether the locker is in a state that a locker can be in.
    pub open spec fn wf(&self) -> bool {
        self@.wf()
    }

    /// A locker that is not initialized yet.
    pub fn new() -> (locker: Self)
        ensures
            locker.wf(),
            locker@.setup is None,
            !locker@.paused,
            locker@.next_lock_id == 1,
            locker@.locks.len() == 0,
            locker@.owned.len() == 0,
            locker@.totals.len() == 0,
    {
        LiquidityLocker {
            setup: None,
            paused: false,
            next_lock_id: 1,
            locks: Vec::new(),
            owned: Vec::new(),
            totals: Vec::new(),
        }
    }

    /// Whether the locker is in a state that a locker can be in: what `wf`
    /// states, checked on the values at hand.
    ///
    /// A host that has read a locker's state from its ledger checks it with
    /// this before it calls an operation.
    pub fn is_well_formed(&self) -> (ok: bool)
        ensures
            ok == self.wf(),
    {
        if let Some(setup) = self.setup {
            if setup.config.min_lock_duration > setup.config.max_lock_duration {
                return false;
            }
        }
        let mut j: usize = 0;
        while j < self.locks.len()
            invariant
                j <= self.locks@.len(),
                forall|a: int| 0 <= a < j ==> (#[trigger] self.locks@[a]).id < self.next_lock_id,
                forall|a: int, b: int|
                    0 <= a < b < j ==> (#[trigger] self.locks@[a]).id
                        != (#[trigger] self.locks@[b]).id,
            decreases self.locks@.len() - j,
        {
            if self.locks[j].id >= self.next_lock_id {
                return false;
            }
            let mut i: usize = 0;
            while i < j
                invariant
                    i <= j < self.locks@.len(),
                    forall|a: int|
                        0 <= a < i ==> (#[trigger] self.locks@[a]).id != self.locks@[j as int].id,
                decreases j - i,
            {
                if self.locks[i].id == self.locks[j].id {
                    return false;
                }
                i += 1;
            }
            j += 1;
        }
        let mut j: usize = 0;
        while j < self.totals.len()
            invariant
                j <= self.totals@.len(),
                forall|a: int, b: int|
                    0 <= a < b < j ==> (#[trigger] self.totals@[a]).token
                        != (#[trigger] self.totals@[b]).token,
            decreases self.totals@.len() - j,
        {
            let mut i: usize = 0;
            while i < j
                invariant
                    i <= j < self.totals@.len(),
                    forall|a: int|
                        0 <= a < i ==> (#[trigger] self.totals@[a]).token
                            != self.totals@[j as int].token,
                decreases j - i,
            {
                if self.totals[i].token == self.totals[j].token {
                    return false;
                }
                i += 1;
            }
            j += 1;
        }
        true
    }

    /// Where the lock `id` is kept.
    fn find_lock(&self, id: u64) -> (r: Option<usize>)
        ensures
            r matches Some(i) ==> i < self.locks@.len() && self.locks@[i as int].id == id
                && self@.has_lock(id),
            r matches Some(i) ==> (self.wf() ==> self@.lock_index(id) == i),
            r is None ==> !self@.has_lock(id),
    {
        let mut i: usize = 0;
        while i < self.locks.len()
            invariant
                i <= self.locks@.len(),
                forall|j: int| 0 <= j < i ==> (#[trigger] self.locks@[j]).id != id,
            decreases self.locks@.len() - i,
        {
            if self.locks[i].id == id {
                return Some(i);
            }
            i += 1;
        }
        None
    }

    /// Where the total of `token` is kept.
    fn find_total(&self, token: Address) -> (r: Option<usize>)
        ensures
            r matches Some(i) ==> i < self.totals@.len() && self.totals@[i as int].token == token
                && self@.has_total(token),
            r matches Some(i) ==> (self.wf() ==> self@.total_index(token) == i),
            r is None ==> !self@.has_total(token),
    {
        let mut i: usize = 0;
        while i < self.totals.len()
            invariant
                i <= self.totals@.len(),
                forall|j: int| 0 <= j < i ==> (#[trigger] self.totals@[j]).token != token,
            decreases self.totals@.len() - i,
        {
            if self.totals[i].token == token {
                return Some(i);
            }
            i += 1;
        }
        None
    }

    /// What is locked of `token`, and where its total is kept.
    fn load_total(&self, token: Address) -> (r: (Option<usize>, i128))
        requires
            self.wf(),
        ensures
            r.1 == self@.total_locked(token),
            r.0 matches Some(i) ==> self@.has_total(token) && self@.total_index(token) == i && i
                < self.totals@.len(),
            r.0 is None ==> !self@.has_total(token),
    {
        let found: Option<usize> = self.find_total(token);
        match found {
            Some(i) => (found, self.totals[i].total),
            None => (found, 0),
        }
    }

    /// Records `total` as what is locked of `token`, kept at `found`.
    fn store_total(&mut self, found: Option<usize>, token: Address, total: i128)
        requires
            old(self).wf(),
            found matches Some(i) ==> old(self)@.has_total(token) && old(self)@.total_index(token)
                == i && i < old(self).totals@.len(),
            found is None ==> !old(self)@.has_total(token),
        ensures
            final(self).wf(),
            final(self)@ == old(self)@.with_total(token, total),
    {
        let entry = TokenTotal { token, total };
        match found {
            Some(i) => {
                self.totals.set(i, entry);
            },
            None => {
                self.totals.push(entry);
            },
        }
    }

    /// The lock `id`, with its place, if `owner` owns it and it is still
    /// closed.
    fn load_owned_closed(&self, owner: Address, id: u64) -> (r: Result<(usize, LockInfo), SharedError>)
        requires
            self.wf(),
        ensures
            match r {
                Ok((i, info)) => self@.owned_closed_lock(owner, id) == Ok::<LockInfo, SharedError>(
                    info,
                ) && i < self.locks@.len() && self.locks@[i as int] == info && self@.lock_index(id)
                    == i && info.id == id,
                Err(e) => self@.owned_closed_lock(owner, id) == Err::<LockInfo, SharedError>(e),
            },
    {
        let i: usize = match self.find_lock(id) {
            Some(i) => i,
            None => { return Err(SharedError::TokenNotFound); },
        };
        let info: LockInfo = self.locks[i];
        if info.owner != owner {
            return Err(SharedError::NotOwner);
        }
        if info.unlocked {
            return Err(SharedError::AlreadyExecuted);
        }
        Ok((i, info))
    }

    /// Replaces the lock kept at `i` by `info`, which has the same
    /// identifier.
    fn store_lock(&mut self, i: usize, info: LockInfo)
        requires
            old(self).wf(),
            i < old(self).locks@.len(),
            old(self).locks@[i as int].id == info.id,
            old(self)@.lock_index(info.id) == i,
        ensures
            final(self).wf(),
            final(self)@ == old(self)@.with_lock(info),
    {
        self.locks.set(i, info);
        proof {
            assert forall|a: int, b: int| 0 <= a < b < self.locks@.len() implies (
            #[trigger] self.locks@[a]).id != (#[trigger] self.locks@[b]).id by {
                assert(self.locks@[a].id == old(self).locks@[a].id);
                assert(self.locks@[b].id == old(self).locks@[b].id);
            }
            assert forall|a: int| 0 <= a < self.locks@.len() implies (#[trigger] self.locks@[a]).id
                < self.next_lock_id by {
                assert(self.locks@[a].id == old(self).locks@[a].id);
            }
        }
    }

    /// Sets up the locker.
    ///
    /// A locker that was initialized before is `AlreadyInitialized`; a
    /// shortest lock longer than the longest is `InvalidTimestamp`; a penalty
    /// above 50% is `InvalidBps`. Otherwise the locker starts unpaused and
    /// empty, and hands out identifiers from 1.
    pub fn initialize(&mut self, admin: Address, treasury: Address, config: LockConfig) -> (r: Result<
        (),
        SharedError,
    >)
        requires
            old(self).wf(),
        ensures
            final(self).wf(),
            old(self)@.setup is Some ==> r == Err::<(), SharedError>(
                SharedError::AlreadyInitialized,
            ),
            old(self)@.setup is None && config.min_lock_duration > config.max_lock_duration ==> r
                == Err::<(), SharedError>(SharedError::InvalidTimestamp),
            old(self)@.setup is None && config.min_lock_duration <= config.max_lock_duration
                && config.early_unlock_penalty_bps > 5000 ==> r == Err::<(), SharedError>(
                SharedError::InvalidBps,
            ),
            old(self)@.setup is None && config.min_lock_duration <= config.max_lock_duration
                && config.early_unlock_penalty_bps <= 5000 ==> r == Ok::<(), SharedError>(()),
            r is Err ==> *final(self) == *old(self),
            r is Ok ==> final(self)@ == (LockerState {
                setup: Some(LockerSetup { admin, treasury, config }),
                paused: false,
                next_lock_id: 1,
                locks: Seq::empty(),
                owned: Seq::empty(),
                totals: Seq::empty(),
            }),
    {
        if self.setup.is_some() {
            return Err(SharedError::AlreadyInitialized);
        }
        if config.min_lock_duration > config.max_lock_duration {
            return Err(SharedError::InvalidTimestamp);
        }
        if config.early_unlock_penalty_bps > MAX_INITIAL_PENALTY_BPS {
            return Err(SharedError::InvalidBps);
        }
        self.setup = Some(LockerSetup { admin, treasury, config });
        self.paused = false;
        self.next_lock_id = 1;
        self.locks = Vec::new();
        self.owned = Vec::new();
        self.totals = Vec::new();
        Ok(())
    }

    /// Records a new lock of `amount` of `lp_token` for `owner`.
    fn open_lock(&mut self, owner: Address, lp_token: Address, amount: i128, unlock_time: u64, now: u64)
        -> (r: Result<u64, SharedError>)
        requires
            old(self).wf(),
        ensures
            final(self).wf(),
            match r {
                Ok(id) => old(self)@.total_locked(lp_token) + amount <= i128::MAX && old(
                    self,
                )@.next_lock_id < u64::MAX && id == old(self)@.next_lock_id && final(self)@ == (
                LockerState {
                    next_lock_id: (id + 1) as u64,
                    locks: old(self)@.locks.push(
                        LockInfo {
                            id,
                            owner,
                            lp_token,
                            amount,
                            lock_time: now,
                            unlock_time,
                            unlocked: false,
                        },
                    ),
                    owned: old(self)@.owned.push(OwnedLock { user: owner, id }),
                    ..old(self)@.with_total(
                        lp_token,
                        (old(self)@.total_locked(lp_token) + amount) as i128,
                    )
                }),
                Err(e) => e == SharedError::Overflow && (old(self)@.total_locked(lp_token) + amount
                    > i128::MAX || old(self)@.total_locked(lp_token) + amount < i128::MIN || old(
                    self,
                )@.next_lock_id == u64::MAX) && *final(self) == *old(self),
            },
    {
        let (found, total) = self.load_total(lp_token);
        let new_total: i128 = match safe_add(total, amount) {
            Ok(v) => v,
            Err(e) => { return Err(e); },
        };
        let id: u64 = self.next_lock_id;
        if id == u64::MAX {
            return Err(SharedError::Overflow);
        }
        self.store_total(found, lp_token, new_total);
        self.locks.push(
            LockInfo { id, owner, lp_token, amount, lock_time: now, unlock_time, unlocked: false },
        );
        self.owned.push(OwnedLock { user: owner, id });
        self.next_lock_id = id + 1;
        Ok(id)
    }

    /// Locks `amount` of `lp_token` for `owner` until `unlock_time`.
    ///
    /// The host has checked that `owner` authorized the call. On success it
    /// moves `amount` of `lp_token` from `owner` into the locker's custody.
    ///
    /// The lock gets the next identifier, which is returned, and the amount
    /// is added to what is locked of the token. A locker that is not
    /// initialized is `NotInitialized`, a paused one `ContractPaused`; an
    /// amount that is not positive is `InvalidAmount`; a lock shorter than
    /// the configured minimum, or longer than a maximum that is set, is
    /// `InvalidTimestamp`; a total or an identifier that does not fit is
    /// `Overflow`. A refused lock changes nothing.
    pub fn lock(&mut self, owner: Address, lp_token: Address, amount: i128, unlock_time: u64, now: u64)
        -> (r: Result<u64, SharedError>)
        requires
            old(self).wf(),
        ensures
            final(self).wf(),
            old(self)@.setup is None ==> r matches Err(SharedError::NotInitialized),
            old(self)@.setup is Some && old(self)@.paused ==> r matches Err(
                SharedError::ContractPaused,
            ),
            old(self)@.setup is Some && !old(self)@.paused && amount <= 0 ==> r matches Err(
                SharedError::InvalidAmount,
            ),
            old(self)@.setup is Some && !old(self)@.paused && amount > 0 && duration_refused(
                old(self)@.setup->0.config,
                duration(unlock_time, now),
            ) ==> r matches Err(SharedError::InvalidTimestamp),
            old(self)@.setup is Some && !old(self)@.paused && amount > 0 && !duration_refused(
                old(self)@.setup->0.config,
                duration(unlock_time, now),
            ) ==> (if old(self)@.total_locked(lp_token) + amount > i128::MAX || old(
                self,
            )@.next_lock_id == u64::MAX {
                r matches Err(SharedError::Overflow)
            } else {
                r == Ok::<u64, SharedError>(old(self)@.next_lock_id)
            }),
            r is Err ==> *final(self) == *old(self),
            r matches Ok(id) ==> final(self)@ == (LockerState {
                next_lock_id: (id + 1) as u64,
                locks: old(self)@.locks.push(
                    LockInfo {
                        id,
                        owner,
                        lp_token,
                        amount,
                        lock_time: now,
                        unlock_time,
                        unlocked: false,
                    },
                ),
                owned: old(self)@.owned.push(OwnedLock { user: owner, id }),
                ..old(self)@.with_total(
                    lp_token,
                    (old(self)@.total_locked(lp_token) + amount) as i128,
                )
            }),
    {
        let setup: LockerSetup = match self.setup {
            Some(setup) => setup,
            None => { return Err(SharedError::NotInitialized); },
        };
        if self.paused {
            return Err(SharedError::ContractPaused);
        }
        if amount <= 0 {
            return Err(SharedError::InvalidAmount);
        }
        let lock_duration: u64 = if unlock_time >= now {
            unlock_time - now
        } else {
            0
        };
        if lock_duration < setup.config.min_lock_duration {
            return Err(SharedError::InvalidTimestamp);
        }
        if lock_duration > setup.config.max_lock_duration && setup.config.max_lock_duration > 0 {
            return Err(SharedError::InvalidTimestamp);
        }
        self.open_lock(owner, lp_token, amount, unlock_time, now)
    }

    /// Locks `amount` of `lp_token` for `owner` for good: the lock never
    /// opens.
    ///
    /// The host has checked that `owner` authorized the call. On success it
    /// moves `amount` of `lp_token` from `owner` into the locker's custody.
    ///
    /// The lock gets the next identifier, which is returned, and the amount
    /// is added to what is locked of the token. A locker that is not
    /// initialized is `NotInitialized`, a paused one `ContractPaused`; an
    /// amount that is not positive is `InvalidAmount`; a total or an
    /// identifier that does not fit is `Overflow`. A refused lock changes
    /// nothing.
    pub fn permanent_lock(&mut self, owner: Address, lp_token: Address, amount: i128, now: u64) -> (r:
        Result<u64, SharedError>)
        requires
            old(self).wf(),
        ensures
            final(self).wf(),
            old(self)@.setup is None ==> r matches Err(SharedError::NotInitialized),
            old(self)@.setup is Some && old(self)@.paused ==> r matches Err(
                SharedError::ContractPaused,
            ),
            old(self)@.setup is Some && !old(self)@.paused && amount <= 0 ==> r matches Err(
                SharedError::InvalidAmount,
            ),
            old(self)@.setup is Some && !old(self)@.paused && amount > 0 ==> (if old(
                self,
            )@.total_locked(lp_token) + amount > i128::MAX || old(self)@.next_lock_id == u64::MAX {
                r matches Err(SharedError::Overflow)
            } else {
                r == Ok::<u64, SharedError>(old(self)@.next_lock_id)
            }),
            r is Err ==> *final(self) == *old(self),
            r matches Ok(id) ==> final(self)@ == (LockerState {
                next_lock_id: (id + 1) as u64,
                locks: old(self)@.locks.push(
                    LockInfo {
                        id,
                        owner,
                        lp_token,
                        amount,
                        lock_time: now,
                        unlock_time: PERMANENT,
                        unlocked: false,
                    },
                ),
                owned: old(self)@.owned.push(OwnedLock { user: owner, id }),
                ..old(self)@.with_total(
                    lp_token,
                    (old(self)@.total_locked(lp_token) + amount) as i128,
                )
            }),
    {
        if self.setup.is_none() {
            return Err(SharedError::NotInitialized);
        }
        if self.paused {
            return Err(SharedError::ContractPaused);
        }
        if amount <= 0 {
            return Err(SharedError::InvalidAmount);
        }
        self.open_lock(owner, lp_token, amount, PERMANENT, now)
    }

    /// Opens the lock `lock_id` of `owner` at `now`, once its time has come.
    ///
    /// The host has checked that `owner` authorized the call. On success it
    /// moves the returned amount of the lock's token from the locker's
    /// custody to `owner`.
    ///
    /// The lock is marked as unlocked and its amount leaves what is locked
    /// of the token. A locker that is not initialized is `NotInitialized`, a
    /// paused one `ContractPaused`; a lock that does not exist is
    /// `TokenNotFound`, one of another owner `NotOwner`, one unlocked before
    /// `AlreadyExecuted`, a permanent one `InvalidState`, one whose time has
    /// not come `DeadlineExpired`; a total below the amount is `Underflow`.
    /// A refused call changes nothing.
    pub fn unlock(&mut self, owner: Address, lock_id: u64, now: u64) -> (r: Result<i128, SharedError>)
        requires
            old(self).wf(),
        ensures
            final(self).wf(),
            r == old(self)@.unlock_result(owner, lock_id, now),
            r is Err ==> *final(self) == *old(self),
            r matches Ok(amount) ==> {
                let info = old(self)@.lock(lock_id)->0;
                &&& amount == info.amount
                &&& final(self)@ == old(self)@.with_lock(
                    LockInfo { unlocked: true, ..info },
                ).with_total(
                    info.lp_token,
                    (old(self)@.total_locked(info.lp_token) - info.amount) as i128,
                )
            },
    {
        if self.setup.is_none() {
            return Err(SharedError::NotInitialized);
        }
        if self.paused {
            return Err(SharedError::ContractPaused);
        }
        let (i, info) = match self.load_owned_closed(owner, lock_id) {
            Ok(v) => v,
            Err(e) => { return Err(e); },
        };
        if info.unlock_time == PERMANENT {
            return Err(SharedError::InvalidState);
        }
        if now < info.unlock_time {
            return Err(SharedError::DeadlineExpired);
        }
        let (found, total) = self.load_total(info.lp_token);
        let new_total: i128 = match safe_sub(total, info.amount) {
            Ok(v) => v,
            Err(e) => { return Err(e); },
        };
        self.store_lock(i, LockInfo { unlocked: true, ..info });
        self.store_total(found, info.lp_token, new_total);
        Ok(info.amount)
    }

    /// Opens the lock `lock_id` of `owner` before its time, against the
    /// configured penalty.
    ///
    /// The host has checked that `owner` authorized the call. On success it
    /// moves, out of the locker's custody, the penalty to the treasury if it
    /// is positive, and what is received to `owner`.
    ///
    /// The penalty is the configured share of the amount, in basis points,
    /// rounded down; the owner receives the rest. The lock is marked as
    /// unlocked and its amount leaves what is locked of the token. A locker
    /// that is not initialized is `NotInitialized`, a paused one
    /// `ContractPaused`; where opening early is not enabled it is
    /// `InvalidState`; a lock that does not exist is `TokenNotFound`, one of
    /// another owner `NotOwner`, one unlocked before `AlreadyExecuted`, a
    /// permanent one `InvalidState`; a penalty that cannot be formed is the
    /// error of `apply_bps`; a penalty above the amount, or a total below
    /// it, is `Underflow`. A refused call changes nothing.
    pub fn early_unlock(&mut self, owner: Address, lock_id: u64) -> (r: Result<
        EarlyUnlock,
        SharedError,
    >)
        requires
            old(self).wf(),
        ensures
            final(self).wf(),
            r == old(self)@.early_unlock_result(owner, lock_id),
            r is Err ==> *final(self) == *old(self),
            r matches Ok(paid) ==> {
                let info = old(self)@.lock(lock_id)->0;
                &&& paid.received + paid.penalty == info.amount
                &&& paid.received >= 0
                &&& paid.penalty >= 0
                &&& final(self)@ == old(self)@.with_lock(
                    LockInfo { unlocked: true, ..info },
                ).with_total(
                    info.lp_token,
                    (old(self)@.total_locked(info.lp_token) - info.amount) as i128,
                )
            },
    {
        let setup: LockerSetup = match self.setup {
            Some(setup) => setup,
            None => { return Err(SharedError::NotInitialized); },
        };
        if self.paused {
            return Err(SharedError::ContractPaused);
        }
        if !setup.config.early_unlock_enabled {
            return Err(SharedError::InvalidState);
        }
        let (i, info) = match self.load_owned_closed(owner, lock_id) {
            Ok(v) => v,
            Err(e) => { return Err(e); },
        };
        if info.unlock_time == PERMANENT {
            return Err(SharedError::InvalidState);
        }
        let penalty: i128 = match apply_bps(info.amount, setup.config.early_unlock_penalty_bps) {
            Ok(v) => v,
            Err(e) => { return Err(e); },
        };
        proof {
            crate::math::lemma_mul_div_rounding(
                info.amount,
                setup.config.early_unlock_penalty_bps as i128,
                10_000,
            );
            assert(penalty >= 0) by (nonlinear_arith)
                requires
                    info.amount * setup.config.early_unlock_penalty_bps < (penalty + 1) * 10_000,
                    info.amount >= 0,
                    setup.config.early_unlock_penalty_bps >= 0,
            ;
        }
        let received: i128 = match safe_sub(info.amount, penalty) {
            Ok(v) => v,
            Err(e) => { return Err(e); },
        };
        let (found, total) = self.load_total(info.lp_token);
        let new_total: i128 = match safe_sub(total, info.amount) {
            Ok(v) => v,
            Err(e) => { return Err(e); },
        };
        self.store_lock(i, LockInfo { unlocked: true, ..info });
        self.store_total(found, info.lp_token, new_total);
        Ok(EarlyUnlock { received, penalty })
    }

    /// Moves the unlock time of the lock `lock_id` of `owner` to the later
    /// `new_unlock_time`, at `now`.
    ///
    /// The host has checked that `owner` authorized the call. A locker that
    /// is not initialized is `NotInitialized`, a paused one `ContractPaused`;
    /// a lock that does not exist is `TokenNotFound`, one of another owner
    /// `NotOwner`, one unlocked before `AlreadyExecuted`, a permanent one
    /// `InvalidState`; a time that is not later than the present one, or
    /// farther from `now` than a maximum that is set, is `InvalidTimestamp`.
    /// A refused call changes nothing.
    pub fn extend_lock(&mut self, owner: Address, lock_id: u64, new_unlock_time: u64, now: u64) -> (r:
        Result<(), SharedError>)
        requires
            old(self).wf(),
        ensures
            final(self).wf(),
            r == old(self)@.extend_lock_result(owner, lock_id, new_unlock_time, now),
            r is Err ==> *final(self) == *old(self),
            r is Ok ==> final(self)@ == old(self)@.with_lock(
                LockInfo { unlock_time: new_unlock_time, ..old(self)@.lock(lock_id)->0 },
            ),
    {
        let setup: LockerSetup = match self.setup {
            Some(setup) => setup,
            None => { return Err(SharedError::NotInitialized); },
        };
        if self.paused {
            return Err(SharedError::ContractPaused);
        }
        let (i, info) = match self.load_owned_closed(owner, lock_id) {
            Ok(v) => v,
            Err(e) => { return Err(e); },
        };
        if info.unlock_time == PERMANENT {
            return Err(SharedError::InvalidState);
        }
        if new_unlock_time <= info.unlock_time {
            return Err(SharedError::InvalidTimestamp);
        }
        let new_duration: u64 = if new_unlock_time >= now {
            new_unlock_time - now
        } else {
            0
        };
        if new_duration > setup.config.max_lock_duration && setup.config.max_lock_duration > 0 {
            return Err(SharedError::InvalidTimestamp);
        }
        self.store_lock(i, LockInfo { unlock_time: new_unlock_time, ..info });
        Ok(())
    }

    /// Hands the lock `lock_id` of `owner` over to `new_owner`.
    ///
    /// The host has checked that `owner` authorized the call. The lock
    /// leaves the list of `owner` and joins the list of `new_owner` at its
    /// end. A locker that is not initialized is `NotInitialized`; a lock
    /// that does not exist is `TokenNotFound`, one of another owner
    /// `NotOwner`, one unlocked before `AlreadyExecuted`. A refused call
    /// changes nothing.
    pub fn transfer_lock(&mut self, owner: Address, lock_id: u64, new_owner: Address) -> (r: Result<
        (),
        SharedError,
    >)
        requires
            old(self).wf(),
        ensures
            final(self).wf(),
            old(self)@.setup is None ==> r == Err::<(), SharedError>(SharedError::NotInitialized),
            old(self)@.setup is Some ==> match old(self)@.owned_closed_lock(owner, lock_id) {
                Ok(_) => r == Ok::<(), SharedError>(()),
                Err(e) => r == Err::<(), SharedError>(e),
            },
            r is Err ==> *final(self) == *old(self),
            r is Ok ==> final(self)@ == (LockerState {
                owned: without_owned(old(self)@.owned, owner, lock_id).push(
                    OwnedLock { user: new_owner, id: lock_id },
                ),
                ..old(self)@.with_lock(
                    LockInfo { owner: new_owner, ..old(self)@.lock(lock_id)->0 },
                )
            }),
    {
        if self.setup.is_none() {
            return Err(SharedError::NotInitialized);
        }
        let (i, info) = match self.load_owned_closed(owner, lock_id) {
            Ok(v) => v,
            Err(e) => { return Err(e); },
        };
        self.store_lock(i, LockInfo { owner: new_owner, ..info });
        let mut kept: Vec<OwnedLock> = Vec::new();
        let mut k: usize = 0;
        while k < self.owned.len()
            invariant
                k <= self.owned@.len(),
                kept@ == without_owned(self.owned@.take(k as int), owner, lock_id),
            decreases self.owned@.len() - k,
        {
            let entry: OwnedLock = self.owned[k];
            proof {
                assert(self.owned@.take(k + 1).drop_last() =~= self.owned@.take(k as int));
            }
            if !(entry.user == owner && entry.id == lock_id) {
                kept.push(entry);
            }
            k += 1;
        }
        proof {
            assert(self.owned@.take(self.owned@.len() as int) =~= self.owned@);
        }
        kept.push(OwnedLock { user: new_owner, id: lock_id });
        self.owned = kept;
        Ok(())
    }

    /// Replaces the configuration.
    ///
    /// The host has checked that the admin authorized the call. A locker
    /// that is not initialized is `NotInitialized`; a shortest lock longer
    /// than the longest is `InvalidTimestamp`.
    pub fn update_config(&mut self, new_config: LockConfig) -> (r: Result<(), SharedError>)
        requires
            old(self).wf(),
        ensures
            final(self).wf(),
            old(self)@.setup is None ==> r == Err::<(), SharedError>(SharedError::NotInitialized),
            old(self)@.setup is Some && new_config.min_lock_duration > new_config.max_lock_duration
                ==> r == Err::<(), SharedError>(SharedError::InvalidTimestamp),
            old(self)@.setup is Some && new_config.min_lock_duration
                <= new_config.max_lock_duration ==> r == Ok::<(), SharedError>(()),
            r is Err ==> *final(self) == *old(self),
            r is Ok ==> final(self)@ == (LockerState {
                setup: Some(LockerSetup { config: new_config, ..old(self)@.setup->0 }),
                ..old(self)@
            }),
    {
        let setup: LockerSetup = match self.setup {
            Some(setup) => setup,
            None => { return Err(SharedError::NotInitialized); },
        };
        if new_config.min_lock_duration > new_config.max_lock_duration {
            return Err(SharedError::InvalidTimestamp);
        }
        self.setup = Some(LockerSetup { config: new_config, ..setup });
        Ok(())
    }

    /// Names another admin.
    ///
    /// The host has checked that the present admin authorized the call. A
    /// locker that is not initialized is `NotInitialized`.
    pub fn set_admin(&mut self, new_admin: Address) -> (r: Result<(), SharedError>)
        requires
            old(self).wf(),
        ensures
            final(self).wf(),
            old(self)@.setup is None ==> r == Err::<(), SharedError>(SharedError::NotInitialized),
            old(self)@.setup is Some ==> r == Ok::<(), SharedError>(()),
            r is Err ==> *final(self) == *old(self),
            r is Ok ==> final(self)@ == (LockerState {
                setup: Some(LockerSetup { admin: new_admin, ..old(self)@.setup->0 }),
                ..old(self)@
            }),
    {
        let setup: LockerSetup = match self.setup {
            Some(setup) => setup,
            None => { return Err(SharedError::NotInitialized); },
        };
        self.setup = Some(LockerSetup { admin: new_admin, ..setup });
        Ok(())
    }

    /// Names another receiver of the penalties.
    ///
    /// The host has checked that the admin authorized the call. A locker
    /// that is not initialized is `NotInitialized`.
    pub fn set_treasury(&mut self, new_treasury: Address) -> (r: Result<(), SharedError>)
        requires
            old(self).wf(),
        ensures
            final(self).wf(),
            old(self)@.setup is None ==> r == Err::<(), SharedError>(SharedError::NotInitialized),
            old(self)@.setup is Some ==> r == Ok::<(), SharedError>(()),
            r is Err ==> *final(self) == *old(self),
            r is Ok ==> final(self)@ == (LockerState {
                setup: Some(LockerSetup { treasury: new_treasury, ..old(self)@.setup->0 }),
                ..old(self)@
            }),
    {
        let setup: LockerSetup = match self.setup {
            Some(setup) => setup,
            None => { return Err(SharedError::NotInitialized); },
        };
        self.setup = Some(LockerSetup { treasury: new_treasury, ..setup });
        Ok(())
    }

    /// Suspends or resumes locking and unlocking.
    ///
    /// The host has checked that the admin authorized the call. A locker
    /// that is not initialized is `NotInitialized`.
    pub fn set_paused(&mut self, paused: bool) -> (r: Result<(), SharedError>)
        requires
            old(self).wf(),
        ensures
            final(self).wf(),
            old(self)@.setup is None ==> r == Err::<(), SharedError>(SharedError::NotInitialized),
            old(self)@.setup is Some ==> r == Ok::<(), SharedError>(()),
            r is Err ==> *final(self) == *old(self),
            r is Ok ==> final(self)@ == (LockerState { paused, ..old(self)@ }),
    {
        if self.setup.is_none() {
            return Err(SharedError::NotInitialized);
        }
        self.paused = paused;
        Ok(())
    }

    /// The lock `lock_id`, if there is one.
    pub fn get_lock(&self, lock_id: u64) -> (r: Option<LockInfo>)
        requires
            self.wf(),
        ensures
            r == self@.lock(lock_id),
    {
        match self.find_lock(lock_id) {
            Some(i) => Some(self.locks[i]),
            None => None,
        }
    }

    /// The locks that `user` owns, opened or not, in the order in which it
    /// came by them.
    pub fn get_user_locks(&self, user: Address) -> (r: Vec<LockInfo>)
        requires
            self.wf(),
        ensures
            r@ == self@.user_locks(user),
    {
        let mut out: Vec<LockInfo> = Vec::new();
        let mut k: usize = 0;
        while k < self.owned.len()
            invariant
                self.wf(),
                k <= self.owned@.len(),
                out@ == self@.user_locks_within(user, k as int),
            decreases self.owned@.len() - k,
        {
            let entry: OwnedLock = self.owned[k];
            if entry.user == user {
                match self.find_lock(entry.id) {
                    Some(i) => {
                        out.push(self.locks[i]);
                    },
                    None => {},
                }
            }
            k += 1;
        }
        out
    }

    /// The locks of the token `lp_token`, opened or not, in the order in
    /// which they were made.
    pub fn get_token_locks(&self, lp_token: Address) -> (r: Vec<LockInfo>)
        ensures
            r@ == locks_of_token(self@.locks, lp_token),
    {
        let mut out: Vec<LockInfo> = Vec::new();
        let mut k: usize = 0;
        while k < self.locks.len()
            invariant
                k <= self.locks@.len(),
                out@ == locks_of_token(self.locks@.take(k as int), lp_token),
            decreases self.locks@.len() - k,
        {
            let info: LockInfo = self.locks[k];
            proof {
                assert(self.locks@.take(k + 1).drop_last() =~= self.locks@.take(k as int));
            }
            if info.lp_token == lp_token {
                out.push(info);
            }
            k += 1;
        }
        proof {
            assert(self.locks@.take(self.locks@.len() as int) =~= self.locks@);
        }
        out
    }

    /// What is locked of `lp_token`.
    pub fn get_total_locked_amount(&self, lp_token: Address) -> (r: i128)
        requires
            self.wf(),
        ensures
            r == self@.total_locked(lp_token),
    {
        let (_, total) = self.load_total(lp_token);
        total
    }

    /// The configuration, or `NotInitialized`.
    pub fn get_config(&self) -> (r: Result<LockConfig, SharedError>)
        ensures
            self@.setup matches Some(setup) ==> r == Ok::<LockConfig, SharedError>(setup.config),
            self@.setup is None ==> r == Err::<LockConfig, SharedError>(
                SharedError::NotInitialized,
            ),
    {
        match self.setup {
            Some(setup) => Ok(setup.config),
            None => Err(SharedError::NotInitialized),
        }
    }

    /// The admin, or `NotInitialized`.
    pub fn admin(&self) -> (r: Result<Address, SharedError>)
        ensures
            self@.setup matches Some(setup) ==> r == Ok::<Address, SharedError>(setup.admin),
            self@.setup is None ==> r == Err::<Address, SharedError>(SharedError::NotInitialized),
    {
        match self.setup {
            Some(setup) => Ok(setup.admin),
            None => Err(SharedError::NotInitialized),
        }
    }

    /// Whether locking and unlocking are suspended.
    pub fn is_paused(&self) -> (r: bool)
        ensures
            r == self@.paused,
    {
        self.paused
    }

    /// The identifier that the next lock gets.
    pub fn next_lock_id(&self) -> (r: u64)
        ensures
            r == self@.next_lock_id,
    {
        self.next_lock_id
    }
}

} // verus!
