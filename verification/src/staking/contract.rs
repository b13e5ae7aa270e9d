//! The staking contract.

use vstd::prelude::*;
use crate::address::{Address, AddressMap};
use crate::invocation::{Effect, Event, Invocation};
use super::laws::{
    law_add_rewards_keeps_consistency, law_boost_range, law_boosted_range,
    law_claim_keeps_consistency, law_initialize_keeps_consistency, law_pending_by_formula,
    law_stake_keeps_consistency, law_unstake_keeps_consistency,
    law_update_rewards_keeps_consistency, lemma_accrued_by_parts, lemma_smaller_stake,
    lemma_sum_of_none, lemma_sum_of_one,
};
use super::model::{
    boost_at, boosted, fits, owed_by_formula, quotient, PoolInfo, Position, StakerInfo,
    StakingError, StakingState, BOOST_SCALE, MAX_BOOST, MAX_LOCK_DURATION, MIN_BOOST,
    MIN_LOCK_DURATION, SCALE_FACTOR,
};

verus! {

/// The staking contract with its state.
pub struct Staking {
    pool: Option<PoolInfo>,
    positions: AddressMap<Position>,
}

impl View for Staking {
    type V = StakingState;

    closed spec fn view(&self) -> StakingState {
        StakingState { pool: self.pool, positions: self.positions@ }
    }
}

impl Staking {
    /// The table of positions is sound.
    pub closed spec fn table_wf(self) -> bool {
        self.positions.wf()
    }

    pub open spec fn wf(self) -> bool {
        self.table_wf() && self@.valid()
    }

    /// Effective staked amount: the raw amount times the boost, rounded toward
    /// zero.
    pub fn _effective_amount(raw: i128, boost: i128) -> (effective: i128)
        requires
            fits(raw * boost),
        ensures
            effective == boosted(raw as int, boost as int),
    {
        raw * boost / BOOST_SCALE
    }

    /// The boost for a lock that ends at `expiry`, seen at `now`.
    pub fn _boost_for_remaining(expiry: u64, now: u64) -> (boost: i128)
        ensures
            boost == boost_at(expiry as int, now as int),
            MIN_BOOST <= boost <= MAX_BOOST,
    {
        proof {
            law_boost_range(expiry as int, now as int);
        }
        if expiry <= now {
            return MIN_BOOST;
        }
        let remaining: u64 = expiry - now;
        let within: u64 = if remaining < MAX_LOCK_DURATION {
            remaining
        } else {
            MAX_LOCK_DURATION
        };
        assert(0 <= 30_000 * within <= 30_000 * 126_144_000);
        MIN_BOOST + (MAX_BOOST - MIN_BOOST) * (within as i128) / (MAX_LOCK_DURATION as i128)
    }

    /// A contract that is not initialized yet.
    pub fn new() -> (contract: Self)
        ensures
            contract.wf(),
            contract@ == StakingState::empty(),
            contract@.consistent(),
    {
        Staking { pool: None, positions: AddressMap::new() }
    }

    /// Whether the contract has been initialized.
    pub fn is_initialized(&self) -> (yes: bool)
        ensures
            yes == (self@.pool is Some),
    {
        self.pool.is_some()
    }

    /// The position of `who`.
    fn position_of(&self, who: &Address) -> (position: Position)
        requires
            self.wf(),
        ensures
            position == self@.position(*who),
            position.valid(),
    {
        match self.positions.get(who) {
            Some(position) => *position,
            None => Position {
                staked_amount: 0,
                rewards_debt: 0,
                lock_expiry: 0,
                boost_multiplier: MIN_BOOST,
            },
        }
    }

    /// Accumulated rewards per share.
    fn accumulated(&self) -> (acc: i128)
        requires
            self.wf(),
        ensures
            acc == self@.acc(),
            acc >= 0,
    {
        match self.pool {
            Some(pool) => pool.accumulated_rewards_per_share,
            None => 0,
        }
    }

    /// The current effective amount of a staker.
    pub fn _staker_effective(&self, staker: &Address) -> (effective: i128)
        requires
            self.wf(),
        ensures
            effective == self@.position(*staker).effective(),
            effective >= 0,
            effective == 0 <==> self@.position(*staker).staked_amount == 0,
    {
        let position = self.position_of(staker);
        proof {
            law_boosted_range(position.staked_amount as int, position.boost_multiplier as int);
        }
        if position.staked_amount == 0 {
            return 0;
        }
        Self::_effective_amount(position.staked_amount, position.boost_multiplier)
    }

    /// The rewards owed to a staker.
    pub fn pending_rewards(&self, staker: &Address) -> (pending: Result<i128, StakingError>)
        requires
            self.wf(),
        ensures
            match pending {
                Ok(amount) => {
                    &&& self@.position(*staker).pending_fits(self@.acc())
                    &&& amount == self@.pending(*staker)
                    &&& amount >= 0
                    &&& amount == owed_by_formula(
                        self@.position(*staker).info(),
                        self@.acc(),
                    )
                },
                Err(e) => e == StakingError::Overflow && !self@.position(*staker).pending_fits(
                    self@.acc(),
                ),
            },
    {
        proof {
            law_pending_by_formula(self@, *staker);
        }
        let effective = self._staker_effective(staker);
        if effective == 0 {
            return Ok(0);
        }
        let position = self.position_of(staker);
        let acc = self.accumulated();
        let scaled = match effective.checked_mul(acc) {
            Some(scaled) => scaled,
            None => return Err(StakingError::Overflow),
        };
        let owed = match (scaled / SCALE_FACTOR).checked_sub(position.rewards_debt) {
            Some(owed) => owed,
            None => return Err(StakingError::Overflow),
        };
        if owed > 0 {
            Ok(owed)
        } else {
            Ok(0)
        }
    }

    /// The rewards that a staker has earned and not been paid, to be carried over
    /// a change of the effective amount so that they are not lost. This reads the
    /// records and moves nothing: no record changes and no token is transferred.
    pub fn _settle_pending(&self, staker: &Address) -> (carried: Result<i128, StakingError>)
        requires
            self.wf(),
        ensures
            match carried {
                Ok(amount) => self@.position(*staker).pending_fits(self@.acc()) && amount
                    == self@.pending(*staker) && amount >= 0,
                Err(e) => e == StakingError::Overflow && !self@.position(*staker).pending_fits(
                    self@.acc(),
                ),
            },
    {
        self.pending_rewards(staker)
    }

    /// Stakes `amount` LP tokens of `staker`, with a lock of `lock_duration_secs`
    /// for a boost; zero asks for no new lock.
    ///
    /// A lock runs for one week at least and four years at most, and a lock that
    /// already runs is never shortened. The boost of the whole position is the
    /// one for the lock time that is left now. Rewards earned so far stay owed.
    pub fn stake_locked(
        &mut self,
        call: &mut Invocation,
        staker: Address,
        amount: i128,
        lock_duration_secs: u64,
    ) -> (outcome: Result<(), StakingError>)
        requires
            old(self).wf(),
        ensures
            final(self).wf(),
            old(self)@.consistent() ==> final(self)@.consistent(),
            final(call).same_call(*old(call)),
            match outcome {
                Ok(()) => {
                    &&& old(self)@.stake_refusal(
                        *old(call),
                        staker,
                        amount as int,
                        lock_duration_secs as int,
                    ) is None
                    &&& final(self)@ == old(self)@.staked(
                        staker,
                        amount as int,
                        lock_duration_secs as int,
                        old(call).timestamp as int,
                    )
                    &&& final(call).effects@ == old(call).effects@ + old(self)@.stake_effects(
                        old(call).contract,
                        staker,
                        amount,
                        lock_duration_secs as int,
                        old(call).timestamp as int,
                    )
                },
                Err(e) => {
                    &&& old(self)@.stake_refusal(
                        *old(call),
                        staker,
                        amount as int,
                        lock_duration_secs as int,
                    ) == Some(e)
                    &&& final(self)@ == old(self)@
                    &&& final(call).effects@ == old(call).effects@
                },
            },
    {
        if !call.is_authorized(&staker) {
            return Err(StakingError::AuthRequired { address: staker });
        }
        if amount <= 0 {
            return Err(StakingError::AmountNotPositive);
        }
        let pool = match self.pool {
            Some(pool) => pool,
            None => return Err(StakingError::NotInitialized),
        };
        let before = self.position_of(&staker);
        let carried = match self._settle_pending(&staker) {
            Ok(carried) => carried,
            Err(e) => return Err(e),
        };

        let now = call.timestamp;
        let new_expiry: u64 = if lock_duration_secs == 0 {
            before.lock_expiry
        } else {
            let within: u64 = if lock_duration_secs < MIN_LOCK_DURATION {
                MIN_LOCK_DURATION
            } else if lock_duration_secs > MAX_LOCK_DURATION {
                MAX_LOCK_DURATION
            } else {
                lock_duration_secs
            };
            match now.checked_add(within) {
                Some(proposed) => if proposed >= before.lock_expiry {
                    proposed
                } else {
                    before.lock_expiry
                },
                None => return Err(StakingError::Overflow),
            }
        };
        let new_boost = Self::_boost_for_remaining(new_expiry, now);

        let new_staked = match before.staked_amount.checked_add(amount) {
            Some(new_staked) => new_staked,
            None => return Err(StakingError::Overflow),
        };
        if new_staked.checked_mul(new_boost).is_none() {
            return Err(StakingError::Overflow);
        }
        let old_effective = self._staker_effective(&staker);
        let new_effective = Self::_effective_amount(new_staked, new_boost);
        proof {
            law_boosted_range(new_staked as int, new_boost as int);
        }
        let new_total = match (pool.total_effective_staked - old_effective).checked_add(
            new_effective,
        ) {
            Some(new_total) => new_total,
            None => return Err(StakingError::Overflow),
        };
        let scaled = match new_effective.checked_mul(pool.accumulated_rewards_per_share) {
            Some(scaled) => scaled,
            None => return Err(StakingError::Overflow),
        };
        let accrued = scaled / SCALE_FACTOR;
        assert(0 <= accrued <= i128::MAX);

        let after = Position {
            staked_amount: new_staked,
            rewards_debt: accrued - carried,
            lock_expiry: new_expiry,
            boost_multiplier: new_boost,
        };
        self.positions.set(staker, after);
        self.pool = Some(
            PoolInfo {
                total_effective_staked: if new_total > 0 {
                    new_total
                } else {
                    0
                },
                ..pool
            },
        );
        call.ask(
            Effect::TransferFrom {
                token: pool.lp_token,
                spender: staker,
                from: staker,
                to: call.contract,
                amount,
            },
        );
        call.ask(
            Effect::Publish {
                event: Event::Staked { staker, amount, boost: new_boost, expiry: new_expiry },
            },
        );
        proof {
            law_stake_keeps_consistency(old(self)@, *old(call), staker, amount, lock_duration_secs);
        }
        Ok(())
    }

    /// Stakes `amount` LP tokens of `staker` without asking for a lock.
    pub fn stake(&mut self, call: &mut Invocation, staker: Address, amount: i128) -> (outcome:
        Result<(), StakingError>)
        requires
            old(self).wf(),
        ensures
            final(self).wf(),
            old(self)@.consistent() ==> final(self)@.consistent(),
            final(call).same_call(*old(call)),
            match outcome {
                Ok(()) => {
                    &&& old(self)@.stake_refusal(*old(call), staker, amount as int, 0) is None
                    &&& final(self)@ == old(self)@.staked(
                        staker,
                        amount as int,
                        0,
                        old(call).timestamp as int,
                    )
                    &&& final(call).effects@ == old(call).effects@ + old(self)@.stake_effects(
                        old(call).contract,
                        staker,
                        amount,
                        0,
                        old(call).timestamp as int,
                    )
                },
                Err(e) => {
                    &&& old(self)@.stake_refusal(*old(call), staker, amount as int, 0) == Some(e)
                    &&& final(self)@ == old(self)@
                    &&& final(call).effects@ == old(call).effects@
                },
            },
    {
        self.stake_locked(call, staker, amount, 0)
    }

    /// Pays `staker` the rewards owed, without touching the stake. Returns the
    /// amount paid.
    pub fn claim(&mut self, call: &mut Invocation, staker: Address) -> (outcome: Result<
        i128,
        StakingError,
    >)
        requires
            old(self).wf(),
        ensures
            final(self).wf(),
            old(self)@.consistent() ==> final(self)@.consistent(),
            final(call).same_call(*old(call)),
            match outcome {
                Ok(paid) => {
                    &&& old(self)@.claim_refusal(*old(call), staker) is None
                    &&& paid == old(self)@.pending(staker)
                    &&& final(self)@ == old(self)@.claimed(staker)
                    &&& final(call).effects@ == old(call).effects@ + old(self)@.claim_effects(
                        old(call).contract,
                        staker,
                    )
                    &&& final(call).effects@ == old(call).effects@ + seq![
                        Effect::Transfer {
                            token: old(self)@.pool->0.reward_token,
                            from: old(call).contract,
                            to: staker,
                            amount: paid,
                        },
                        Effect::Publish { event: Event::Claimed { staker, amount: paid } },
                    ]
                },
                Err(e) => {
                    &&& old(self)@.claim_refusal(*old(call), staker) == Some(e)
                    &&& final(self)@ == old(self)@
                    &&& final(call).effects@ == old(call).effects@
                },
            },
    {
        if !call.is_authorized(&staker) {
            return Err(StakingError::AuthRequired { address: staker });
        }
        let pending = match self.pending_rewards(&staker) {
            Ok(pending) => pending,
            Err(e) => return Err(e),
        };
        if pending == 0 {
            return Err(StakingError::NoPendingRewards);
        }
        let pool = match self.pool {
            Some(pool) => pool,
            None => return Err(StakingError::NotInitialized),
        };
        let before = self.position_of(&staker);
        let effective = self._staker_effective(&staker);
        let accrued = effective * pool.accumulated_rewards_per_share / SCALE_FACTOR;
        self.positions.set(staker, Position { rewards_debt: accrued, ..before });
        call.ask(
            Effect::Transfer {
                token: pool.reward_token,
                from: call.contract,
                to: staker,
                amount: pending,
            },
        );
        call.ask(Effect::Publish { event: Event::Claimed { staker, amount: pending } });
        proof {
            law_claim_keeps_consistency(old(self)@, *old(call), staker);
        }
        Ok(pending)
    }

    /// Returns `amount` LP tokens to `staker`, after paying the rewards owed. The
    /// lock must have ended. Returns the LP tokens and the rewards handed out.
    pub fn unstake(&mut self, call: &mut Invocation, staker: Address, amount: i128) -> (outcome:
        Result<(i128, i128), StakingError>)
        requires
            old(self).wf(),
        ensures
            final(self).wf(),
            old(self)@.consistent() ==> final(self)@.consistent(),
            final(call).same_call(*old(call)),
            match outcome {
                Ok((returned, rewards)) => {
                    &&& old(self)@.unstake_refusal(*old(call), staker, amount as int) is None
                    &&& returned == amount
                    &&& rewards == old(self)@.pending(staker)
                    &&& final(self)@ == old(self)@.unstaked(staker, amount as int)
                    &&& final(call).effects@ == old(call).effects@ + old(self)@.unstake_effects(
                        old(call).contract,
                        staker,
                        amount,
                    )
                    &&& final(call).effects@ == old(call).effects@ + (if rewards > 0 {
                        seq![
                            Effect::Transfer {
                                token: old(self)@.pool->0.reward_token,
                                from: old(call).contract,
                                to: staker,
                                amount: rewards,
                            },
                            Effect::Publish { event: Event::Claimed { staker, amount: rewards } },
                        ]
                    } else {
                        seq![]
                    }) + seq![
                        Effect::Transfer {
                            token: old(self)@.pool->0.lp_token,
                            from: old(call).contract,
                            to: staker,
                            amount: returned,
                        },
                        Effect::Publish { event: Event::Unstaked { staker, amount, rewards } },
                    ]
                },
                Err(e) => {
                    &&& old(self)@.unstake_refusal(*old(call), staker, amount as int) == Some(e)
                    &&& final(self)@ == old(self)@
                    &&& final(call).effects@ == old(call).effects@
                },
            },
    {
        if !call.is_authorized(&staker) {
            return Err(StakingError::AuthRequired { address: staker });
        }
        if amount <= 0 {
            return Err(StakingError::AmountNotPositive);
        }
        let before = self.position_of(&staker);
        if before.staked_amount < amount {
            return Err(StakingError::InsufficientStake);
        }
        if call.timestamp < before.lock_expiry {
            return Err(StakingError::StillLocked);
        }
        let pending = match self.pending_rewards(&staker) {
            Ok(pending) => pending,
            Err(e) => return Err(e),
        };
        let rewards = if pending > 0 {
            match self.claim(call, staker) {
                Ok(paid) => paid,
                Err(e) => return Err(e),
            }
        } else {
            0
        };
        let pool = match self.pool {
            Some(pool) => pool,
            None => return Err(StakingError::NotInitialized),
        };
        let old_effective = Self::_effective_amount(before.staked_amount, before.boost_multiplier);
        let new_staked: i128 = before.staked_amount - amount;
        proof {
            lemma_smaller_stake(
                new_staked as int,
                before.staked_amount as int,
                before.boost_multiplier as int,
                pool.accumulated_rewards_per_share as int,
            );
        }
        let new_effective = Self::_effective_amount(new_staked, before.boost_multiplier);
        let new_total: i128 = pool.total_effective_staked - old_effective + new_effective;
        let accrued = new_effective * pool.accumulated_rewards_per_share / SCALE_FACTOR;
        self.positions.set(
            staker,
            Position { staked_amount: new_staked, rewards_debt: accrued, ..before },
        );
        self.pool = Some(
            PoolInfo {
                total_effective_staked: if new_total > 0 {
                    new_total
                } else {
                    0
                },
                ..pool
            },
        );
        call.ask(
            Effect::Transfer {
                token: pool.lp_token,
                from: call.contract,
                to: staker,
                amount,
            },
        );
        call.ask(Effect::Publish { event: Event::Unstaked { staker, amount, rewards } });
        assert(self@ =~= old(self)@.unstaked(staker, amount as int));
        proof {
            law_unstake_keeps_consistency(old(self)@, *old(call), staker, amount);
        }
        Ok((amount, rewards))
    }

    /// Sets up the pool. This can be done once.
    pub fn initialize(&mut self, lp_token: Address, reward_token: Address, admin: Address) -> (
    outcome: Result<(), StakingError>)
        requires
            old(self).wf(),
        ensures
            final(self).wf(),
            old(self)@.consistent() ==> final(self)@.consistent(),
            match outcome {
                Ok(()) => {
                    &&& old(self)@.pool is None
                    &&& final(self)@ == old(self)@.initialized(lp_token, reward_token, admin)
                },
                Err(e) => {
                    &&& old(self)@.pool is Some
                    &&& e == StakingError::AlreadyInitialized
                    &&& final(self)@ == old(self)@
                },
            },
    {
        if self.pool.is_some() {
            return Err(StakingError::AlreadyInitialized);
        }
        self.pool = Some(
            PoolInfo {
                lp_token,
                reward_token,
                admin,
                total_effective_staked: 0,
                reward_pool_balance: 0,
                accumulated_rewards_per_share: 0,
            },
        );
        proof {
            law_initialize_keeps_consistency(old(self)@, lp_token, reward_token, admin);
        }
        Ok(())
    }

    /// Takes `amount` reward tokens from the admin into the pool.
    pub fn add_rewards(&mut self, call: &mut Invocation, admin: Address, amount: i128) -> (outcome:
        Result<(), StakingError>)
        requires
            old(self).wf(),
        ensures
            final(self).wf(),
            old(self)@.consistent() ==> final(self)@.consistent(),
            final(call).same_call(*old(call)),
            match outcome {
                Ok(()) => {
                    &&& old(self)@.add_rewards_refusal(*old(call), admin, amount as int) is None
                    &&& final(self)@ == old(self)@.rewards_added(amount as int)
                    &&& final(call).effects@ == old(call).effects@ + old(self)@.add_rewards_effects(
                        old(call).contract,
                        admin,
                        amount,
                    )
                },
                Err(e) => {
                    &&& old(self)@.add_rewards_refusal(*old(call), admin, amount as int) == Some(e)
                    &&& final(self)@ == old(self)@
                    &&& final(call).effects@ == old(call).effects@
                },
            },
    {
        if !call.is_authorized(&admin) {
            return Err(StakingError::AuthRequired { address: admin });
        }
        let pool = match self.pool {
            Some(pool) => pool,
            None => return Err(StakingError::NotInitialized),
        };
        if admin != pool.admin {
            return Err(StakingError::NotAdmin);
        }
        if amount <= 0 {
            return Err(StakingError::AmountNotPositive);
        }
        let balance = match pool.reward_pool_balance.checked_add(amount) {
            Some(balance) => balance,
            None => return Err(StakingError::Overflow),
        };
        self.pool = Some(PoolInfo { reward_pool_balance: balance, ..pool });
        call.ask(
            Effect::TransferFrom {
                token: pool.reward_token,
                spender: admin,
                from: admin,
                to: call.contract,
                amount,
            },
        );
        call.ask(Effect::Publish { event: Event::RewardsAdded { admin, amount } });
        proof {
            law_add_rewards_keeps_consistency(old(self)@, *old(call), admin, amount);
        }
        Ok(())
    }

    /// Distributes `new_rewards` over all stakers by their effective amounts, on
    /// the order of the admin.
    pub fn update_rewards(&mut self, call: &mut Invocation, admin: Address, new_rewards: i128) -> (
    outcome: Result<(), StakingError>)
        requires
            old(self).wf(),
        ensures
            final(self).wf(),
            old(self)@.consistent() ==> final(self)@.consistent(),
            final(call).same_call(*old(call)),
            match outcome {
                Ok(()) => {
                    &&& old(self)@.update_rewards_refusal(
                        *old(call),
                        admin,
                        new_rewards as int,
                    ) is None
                    &&& final(self)@ == old(self)@.rewards_updated(new_rewards as int)
                    &&& final(call).effects@ == old(call).effects@.push(
                        Effect::Publish { event: Event::RewardsUpdated { new_rewards } },
                    )
                },
                Err(e) => {
                    &&& old(self)@.update_rewards_refusal(*old(call), admin, new_rewards as int)
                        == Some(e)
                    &&& final(self)@ == old(self)@
                    &&& final(call).effects@ == old(call).effects@
                },
            },
    {
        if !call.is_authorized(&admin) {
            return Err(StakingError::AuthRequired { address: admin });
        }
        let pool = match self.pool {
            Some(pool) => pool,
            None => return Err(StakingError::NotInitialized),
        };
        if admin != pool.admin {
            return Err(StakingError::NotAdmin);
        }
        if new_rewards <= 0 {
            return Err(StakingError::NewRewardsNotPositive);
        }
        let total = pool.total_effective_staked;
        if total == 0 {
            return Err(StakingError::NoStakers);
        }
        let scaled = match new_rewards.checked_mul(SCALE_FACTOR) {
            Some(scaled) => scaled,
            None => return Err(StakingError::Overflow),
        };
        let increase = scaled / total;
        proof {
            vstd::arithmetic::div_mod::lemma_div_pos_is_pos(scaled as int, total as int);
        }
        let acc = match pool.accumulated_rewards_per_share.checked_add(increase) {
            Some(acc) => acc,
            None => return Err(StakingError::Overflow),
        };
        let balance = match pool.reward_pool_balance.checked_sub(new_rewards) {
            Some(balance) => balance,
            None => return Err(StakingError::Overflow),
        };
        self.pool = Some(
            PoolInfo { accumulated_rewards_per_share: acc, reward_pool_balance: balance, ..pool },
        );
        call.ask(Effect::Publish { event: Event::RewardsUpdated { new_rewards } });
        proof {
            law_update_rewards_keeps_consistency(old(self)@, *old(call), admin, new_rewards);
        }
        Ok(())
    }

    /// The pool's own record.
    pub fn get_pool_info(&self) -> (info: PoolInfo)
        requires
            self@.pool is Some,
        ensures
            self@.pool == Some(info),
    {
        self.pool.unwrap()
    }

    /// The position of `staker`, with its effective amount.
    pub fn get_staker_info(&self, staker: &Address) -> (info: StakerInfo)
        requires
            self.wf(),
        ensures
            info == self@.position(*staker).info(),
            info.effective_amount == self@.position(*staker).effective(),
    {
        let position = self.position_of(staker);
        StakerInfo {
            staked_amount: position.staked_amount,
            effective_amount: Self::_effective_amount(
                position.staked_amount,
                position.boost_multiplier,
            ),
            rewards_debt: position.rewards_debt,
            lock_expiry: position.lock_expiry,
            boost_multiplier: position.boost_multiplier,
        }
    }

    /// The contract with the pool's record and, where one is given, one position,
    /// as they were kept on the ledger. An operation of a staker touches no other
    /// position, so this excerpt is all it needs. There is none if a record is
    /// not sound.
    pub fn from_ledger(pool: Option<PoolInfo>, entry: Option<(Address, Position)>) -> (contract:
        Option<Self>)
        ensures
            match contract {
                Some(contract) => contract.wf() && contract@ == ledger_excerpt(pool, entry),
                None => !ledger_excerpt(pool, entry).valid(),
            },
    {
        let mut positions: AddressMap<Position> = AddressMap::new();
        match pool {
            Some(record) => {
                if record.total_effective_staked < 0 || record.accumulated_rewards_per_share < 0 {
                    return None;
                }
            },
            None => {},
        }
        if let Some((who, position)) = entry {
            assert(ledger_excerpt(pool, entry).positions.contains_key(who));
            proof {
                lemma_sum_of_one(who, position);
            }
            match pool {
                Some(record) => {
                    if !Self::is_sound(&record, &position) {
                        return None;
                    }
                },
                None => return None,
            }
            positions.set(who, position);
        } else {
            proof {
                lemma_sum_of_none();
            }
        }
        Some(Staking { pool, positions })
    }

    /// Whether a position is sound beside the pool's record.
    fn is_sound(pool: &PoolInfo, position: &Position) -> (yes: bool)
        requires
            pool.accumulated_rewards_per_share >= 0,
        ensures
            yes == (position.valid() && position.debt_covered(
                pool.accumulated_rewards_per_share as int,
            ) && position.effective() <= pool.total_effective_staked),
    {
        if position.staked_amount < 0 || position.boost_multiplier < MIN_BOOST
            || position.boost_multiplier > MAX_BOOST || position.staked_amount.checked_mul(
            position.boost_multiplier,
        ).is_none() {
            return false;
        }
        if position.staked_amount == 0 && position.rewards_debt != 0 {
            return false;
        }
        proof {
            law_boosted_range(position.staked_amount as int, position.boost_multiplier as int);
        }
        let effective = Self::_effective_amount(position.staked_amount, position.boost_multiplier);
        effective <= pool.total_effective_staked && Self::has_accrued(
            effective,
            pool.accumulated_rewards_per_share,
            position.rewards_debt,
        )
    }

    /// Whether an effective amount accrued at least `debt`, also where the product
    /// with the rewards per share leaves the type of amounts.
    fn has_accrued(effective: i128, acc: i128, debt: i128) -> (yes: bool)
        requires
            effective >= 0,
            acc >= 0,
        ensures
            yes == (debt <= quotient(effective * acc, SCALE_FACTOR as int)),
    {
        proof {
            lemma_accrued_by_parts(effective as int, acc as int);
            assert(effective * acc >= 0) by (nonlinear_arith)
                requires
                    effective >= 0,
                    acc >= 0,
            ;
        }
        let rest = acc % SCALE_FACTOR;
        let fraction = (effective % SCALE_FACTOR) * rest / SCALE_FACTOR;
        let middle = (effective / SCALE_FACTOR) * rest;
        match effective.checked_mul(acc / SCALE_FACTOR) {
            Some(whole) => match whole.checked_add(middle) {
                Some(sum) => match sum.checked_add(fraction) {
                    Some(accrued) => debt <= accrued,
                    None => true,
                },
                None => true,
            },
            None => true,
        }
    }
}

/// The state made of the pool's record and at most one position.
pub open spec fn ledger_excerpt(
    pool: Option<PoolInfo>,
    entry: Option<(Address, Position)>,
) -> StakingState {
    StakingState {
        pool,
        positions: match entry {
            Some((who, position)) => Map::empty().insert(who, position),
            None => Map::empty(),
        },
    }
}

} // verus!
