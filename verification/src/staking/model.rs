//! The state of the staking pool and what each operation makes of it.

use vstd::prelude::*;
use crate::address::Address;
use crate::invocation::{Effect, Event, Invocation};

verus! {

/// Accumulated rewards per share are kept scaled by this factor.
pub const SCALE_FACTOR: i128 = 1_000_000_000_000_000_000;

/// A boost multiplier is kept scaled by this factor: 1x is 10_000, 4x is 40_000.
pub const BOOST_SCALE: i128 = 10_000;

/// The longest lock, in seconds (four years).
pub const MAX_LOCK_DURATION: u64 = 4 * 365 * 24 * 3600;

/// The shortest lock, in seconds (one week).
pub const MIN_LOCK_DURATION: u64 = 7 * 24 * 3600;

/// The largest boost multiplier (4x).
pub const MAX_BOOST: i128 = 4 * BOOST_SCALE;

/// The smallest boost multiplier (1x).
pub const MIN_BOOST: i128 = BOOST_SCALE;

/// What is recorded of a staker.
#[derive(Clone, Copy, Debug, PartialEq, Eq)]
pub struct Position {
    /// LP tokens staked.
    pub staked_amount: i128,
    /// The part of the accrued rewards that is not owed to the staker: what was
    /// paid out, or accrued before the stake. Below zero where rewards were
    /// carried over a change of the stake.
    pub rewards_debt: i128,
    /// Time at which the lock ends, in seconds; zero if there never was one.
    pub lock_expiry: u64,
    /// Boost multiplier, scaled by `BOOST_SCALE`.
    pub boost_multiplier: i128,
}

/// A staker's position as it is reported.
#[derive(Clone, Copy, Debug, PartialEq, Eq)]
pub struct StakerInfo {
    pub staked_amount: i128,
    pub effective_amount: i128,
    pub rewards_debt: i128,
    pub lock_expiry: u64,
    pub boost_multiplier: i128,
}

/// What is recorded of the pool as a whole.
#[derive(Clone, Copy, Debug, PartialEq, Eq)]
pub struct PoolInfo {
    pub lp_token: Address,
    pub reward_token: Address,
    pub admin: Address,
    /// The effective amounts of all stakers together.
    pub total_effective_staked: i128,
    /// Reward tokens that were added and not distributed yet.
    pub reward_pool_balance: i128,
    /// Rewards accumulated per effective LP token, scaled by `SCALE_FACTOR`.
    pub accumulated_rewards_per_share: i128,
}

/// Why an operation of the pool was refused.
#[derive(Clone, Copy, Debug, PartialEq, Eq)]
pub enum StakingError {
    /// The call needs the authorization of this address.
    AuthRequired { address: Address },
    AlreadyInitialized,
    NotInitialized,
    NotAdmin,
    AmountNotPositive,
    NewRewardsNotPositive,
    InsufficientStake,
    StillLocked,
    NoPendingRewards,
    NoStakers,
    /// A quantity does not fit its integer type.
    Overflow,
}

impl StakingError {
    /// What is said of the refusal.
    pub open spec fn text(self) -> Seq<char> {
        match self {
            StakingError::AuthRequired { .. } => "authorization required"@,
            StakingError::AlreadyInitialized => "already initialized"@,
            StakingError::NotInitialized => "not initialized"@,
            StakingError::NotAdmin => "not admin"@,
            StakingError::AmountNotPositive => "amount must be positive"@,
            StakingError::NewRewardsNotPositive => "new_rewards must be positive"@,
            StakingError::InsufficientStake => "insufficient staked amount"@,
            StakingError::StillLocked => "tokens are still locked"@,
            StakingError::NoPendingRewards => "no pending rewards"@,
            StakingError::NoStakers => "no stakers"@,
            StakingError::Overflow => "arithmetic overflow"@,
        }
    }

    /// What is said of the refusal.
    pub fn message(&self) -> (message: &'static str)
        ensures
            message@ == self.text(),
    {
        match self {
            StakingError::AuthRequired { .. } => "authorization required",
            StakingError::AlreadyInitialized => "already initialized",
            StakingError::NotInitialized => "not initialized",
            StakingError::NotAdmin => "not admin",
            StakingError::AmountNotPositive => "amount must be positive",
            StakingError::NewRewardsNotPositive => "new_rewards must be positive",
            StakingError::InsufficientStake => "insufficient staked amount",
            StakingError::StillLocked => "tokens are still locked",
            StakingError::NoPendingRewards => "no pending rewards",
            StakingError::NoStakers => "no stakers",
            StakingError::Overflow => "arithmetic overflow",
        }
    }
}

/// `x` fits the type of token amounts.
pub open spec fn fits(x: int) -> bool {
    i128::MIN <= x <= i128::MAX
}

/// `a / b`, rounded toward zero, for a positive `b`.
pub open spec fn quotient(a: int, b: int) -> int {
    if a >= 0 {
        a / b
    } else {
        -((-a) / b)
    }
}

/// The larger of two numbers.
pub open spec fn larger(a: int, b: int) -> int {
    if a >= b {
        a
    } else {
        b
    }
}

/// `x`, brought into the range from `low` to `high`.
pub open spec fn clamped(x: int, low: int, high: int) -> int {
    if x < low {
        low
    } else if x > high {
        high
    } else {
        x
    }
}

/// The boost for a lock that ends at `expiry`, seen at `now`: 1x with no time
/// left, 4x with the longest lock or more left, linear in between.
pub open spec fn boost_at(expiry: int, now: int) -> int {
    MIN_BOOST + (MAX_BOOST - MIN_BOOST) * clamped(expiry - now, 0, MAX_LOCK_DURATION as int)
        / MAX_LOCK_DURATION as int
}

/// When the lock ends after staking at `now` for `duration`, where the lock held
/// so far ends at `existing`. A duration of zero asks for no new lock.
pub open spec fn lock_end(existing: int, now: int, duration: int) -> int {
    if duration == 0 {
        existing
    } else {
        larger(
            now + clamped(duration, MIN_LOCK_DURATION as int, MAX_LOCK_DURATION as int),
            existing,
        )
    }
}

/// A raw amount under a boost.
pub open spec fn boosted(raw: int, boost: int) -> int {
    quotient(raw * boost, BOOST_SCALE as int)
}

impl Position {
    /// The position of an address that never staked.
    pub open spec fn unstaked() -> Position {
        Position { staked_amount: 0, rewards_debt: 0, lock_expiry: 0, boost_multiplier: MIN_BOOST }
    }

    pub open spec fn valid(self) -> bool {
        &&& 0 <= self.staked_amount
        &&& MIN_BOOST <= self.boost_multiplier <= MAX_BOOST
        &&& fits(self.staked_amount * self.boost_multiplier)
    }

    /// The amount by which rewards are shared out.
    pub open spec fn effective(self) -> int {
        boosted(self.staked_amount as int, self.boost_multiplier as int)
    }

    /// What the effective amount would have earned since the pool began, at
    /// `acc` accumulated rewards per share.
    pub open spec fn accrued(self, acc: int) -> int {
        quotient(self.effective() * acc, SCALE_FACTOR as int)
    }

    /// The rewards owed to the staker.
    pub open spec fn pending(self, acc: int) -> int {
        if self.staked_amount == 0 {
            0
        } else {
            larger(self.accrued(acc) - self.rewards_debt, 0)
        }
    }

    /// The rewards owed can be computed in the type of token amounts.
    pub open spec fn pending_fits(self, acc: int) -> bool {
        self.staked_amount == 0 || (fits(self.effective() * acc) && fits(
            self.accrued(acc) - self.rewards_debt,
        ))
    }

    /// The debt does not exceed what was accrued, and there is none where nothing
    /// is staked.
    pub open spec fn debt_covered(self, acc: int) -> bool {
        &&& self.rewards_debt <= self.accrued(acc)
        &&& self.staked_amount == 0 ==> self.rewards_debt == 0
    }

    pub open spec fn info(self) -> StakerInfo {
        StakerInfo {
            staked_amount: self.staked_amount,
            effective_amount: self.effective() as i128,
            rewards_debt: self.rewards_debt,
            lock_expiry: self.lock_expiry,
            boost_multiplier: self.boost_multiplier,
        }
    }

    /// The position after staking `amount` more at `now`. The rewards pending so
    /// far stay owed: they are taken off the debt.
    pub open spec fn after_stake(
        self,
        amount: int,
        duration: int,
        now: int,
        acc: int,
    ) -> Position {
        let expiry = lock_end(self.lock_expiry as int, now, duration);
        let moved = Position {
            staked_amount: (self.staked_amount + amount) as i128,
            rewards_debt: 0,
            lock_expiry: expiry as u64,
            boost_multiplier: boost_at(expiry, now) as i128,
        };
        Position { rewards_debt: (moved.accrued(acc) - self.pending(acc)) as i128, ..moved }
    }

    /// The position once everything accrued has been paid.
    pub open spec fn settled(self, acc: int) -> Position {
        Position { rewards_debt: self.accrued(acc) as i128, ..self }
    }

    /// The position after `amount` was taken out and everything accrued paid.
    pub open spec fn after_unstake(self, amount: int, acc: int) -> Position {
        Position { staked_amount: (self.staked_amount - amount) as i128, ..self }.settled(acc)
    }
}

/// The rewards owed on a position as it is reported: what its effective amount
/// accrued, in whole tokens, less the debt, and nothing where the debt is larger.
pub open spec fn owed_by_formula(info: StakerInfo, acc: int) -> int {
    larger(info.effective_amount * acc / SCALE_FACTOR as int - info.rewards_debt, 0)
}

/// The sum of `f` over all positions.
pub open spec fn sum_over(positions: Map<Address, Position>, f: spec_fn(Position) -> int) -> int
    decreases positions.dom().len(),
    when positions.dom().finite()
{
    if positions.dom().is_empty() {
        0
    } else {
        let a = positions.dom().choose();
        f(positions[a]) + sum_over(positions.remove(a), f)
    }
}

/// The effective amounts of all positions together.
pub open spec fn sum_effective(positions: Map<Address, Position>) -> int {
    sum_over(positions, |p: Position| p.effective())
}

/// The LP tokens of all positions together.
pub open spec fn sum_staked(positions: Map<Address, Position>) -> int {
    sum_over(positions, |p: Position| p.staked_amount as int)
}

/// The rewards owed on all positions together, at `acc` rewards per share.
pub open spec fn sum_pending(positions: Map<Address, Position>, acc: int) -> int {
    sum_over(positions, |p: Position| p.pending(acc))
}

/// What all positions together are entitled to at `acc` rewards per share, before
/// it is rounded to whole tokens, scaled by `SCALE_FACTOR`.
pub open spec fn sum_entitlement(positions: Map<Address, Position>, acc: int) -> int {
    sum_over(positions, |p: Position| p.effective() * acc - SCALE_FACTOR * p.rewards_debt)
}

/// The staking pool: the pool's own record, once it is initialized, and the
/// positions of those who ever staked.
#[verifier::ext_equal]
pub struct StakingState {
    pub pool: Option<PoolInfo>,
    pub positions: Map<Address, Position>,
}

impl StakingState {
    /// The state before initialization.
    pub open spec fn empty() -> StakingState {
        StakingState { pool: None, positions: Map::empty() }
    }

    /// The records are sound: everybody's debt is covered, and the effective
    /// amounts on record do not exceed the total. This also holds of an excerpt
    /// with some of the positions.
    pub open spec fn valid(self) -> bool {
        &&& self.positions.dom().finite()
        &&& forall|a: Address| #[trigger]
            self.positions.contains_key(a) ==> self.positions[a].valid()
                && self.positions[a].debt_covered(self.acc())
        &&& match self.pool {
            Some(pool) => {
                &&& 0 <= pool.total_effective_staked
                &&& 0 <= pool.accumulated_rewards_per_share
                &&& sum_effective(self.positions) <= pool.total_effective_staked
            },
            None => self.positions.dom().is_empty(),
        }
    }

    /// The records are sound and complete: the total is the sum of the effective
    /// amounts.
    pub open spec fn consistent(self) -> bool {
        &&& self.valid()
        &&& self.pool matches Some(pool) ==> pool.total_effective_staked == sum_effective(
            self.positions,
        )
    }

    /// The position of `who`.
    pub open spec fn position(self, who: Address) -> Position {
        if self.positions.contains_key(who) {
            self.positions[who]
        } else {
            Position::unstaked()
        }
    }

    /// Accumulated rewards per share.
    pub open spec fn acc(self) -> int {
        match self.pool {
            Some(pool) => pool.accumulated_rewards_per_share as int,
            None => 0,
        }
    }

    /// The rewards owed to `who`.
    pub open spec fn pending(self, who: Address) -> int {
        self.position(who).pending(self.acc())
    }

    /// The state with a new position of `who`, and the total moved by the change
    /// of the effective amount.
    pub open spec fn with_position(self, who: Address, position: Position) -> StakingState {
        match self.pool {
            Some(pool) => StakingState {
                pool: Some(
                    PoolInfo {
                        total_effective_staked: larger(
                            pool.total_effective_staked - self.position(who).effective()
                                + position.effective(),
                            0,
                        ) as i128,
                        ..pool
                    },
                ),
                positions: self.positions.insert(who, position),
            },
            None => self,
        }
    }

    // ── initialize ────────────────────────────────────────────────────────
    pub open spec fn initialized(
        self,
        lp_token: Address,
        reward_token: Address,
        admin: Address,
    ) -> StakingState {
        StakingState {
            pool: Some(
                PoolInfo {
                    lp_token,
                    reward_token,
                    admin,
                    total_effective_staked: 0,
                    reward_pool_balance: 0,
                    accumulated_rewards_per_share: 0,
                },
            ),
            ..self
        }
    }

    // ── add_rewards ───────────────────────────────────────────────────────
    /// Why rewards cannot be added, if they cannot.
    pub open spec fn add_rewards_refusal(
        self,
        call: Invocation,
        admin: Address,
        amount: int,
    ) -> Option<StakingError> {
        if !call.authorized(admin) {
            Some(StakingError::AuthRequired { address: admin })
        } else {
            match self.pool {
                None => Some(StakingError::NotInitialized),
                Some(pool) => if admin != pool.admin {
                    Some(StakingError::NotAdmin)
                } else if amount <= 0 {
                    Some(StakingError::AmountNotPositive)
                } else if !fits(pool.reward_pool_balance + amount) {
                    Some(StakingError::Overflow)
                } else {
                    None
                },
            }
        }
    }

    pub open spec fn rewards_added(self, amount: int) -> StakingState {
        match self.pool {
            Some(pool) => StakingState {
                pool: Some(
                    PoolInfo {
                        reward_pool_balance: (pool.reward_pool_balance + amount) as i128,
                        ..pool
                    },
                ),
                ..self
            },
            None => self,
        }
    }

    /// What the host is asked to do when rewards are added.
    pub open spec fn add_rewards_effects(
        self,
        contract: Address,
        admin: Address,
        amount: i128,
    ) -> Seq<Effect> {
        seq![
            Effect::TransferFrom {
                token: self.pool->0.reward_token,
                spender: admin,
                from: admin,
                to: contract,
                amount,
            },
            Effect::Publish { event: Event::RewardsAdded { admin, amount } },
        ]
    }

    // ── stake_locked ──────────────────────────────────────────────────────
    /// Every quantity that staking computes fits its type.
    pub open spec fn stake_fits(
        self,
        staker: Address,
        amount: int,
        duration: int,
        now: int,
    ) -> bool {
        let before = self.position(staker);
        let expiry = lock_end(before.lock_expiry as int, now, duration);
        let boost = boost_at(expiry, now);
        let staked = before.staked_amount + amount;
        let effective = boosted(staked, boost);
        &&& before.pending_fits(self.acc())
        &&& expiry <= u64::MAX
        &&& fits(staked)
        &&& fits(staked * boost)
        &&& fits(self.pool->0.total_effective_staked - before.effective() + effective)
        &&& fits(effective * self.acc())
    }

    /// Why a stake is refused, if it is.
    pub open spec fn stake_refusal(
        self,
        call: Invocation,
        staker: Address,
        amount: int,
        duration: int,
    ) -> Option<StakingError> {
        if !call.authorized(staker) {
            Some(StakingError::AuthRequired { address: staker })
        } else if amount <= 0 {
            Some(StakingError::AmountNotPositive)
        } else if self.pool is None {
            Some(StakingError::NotInitialized)
        } else if !self.stake_fits(staker, amount, duration, call.timestamp as int) {
            Some(StakingError::Overflow)
        } else {
            None
        }
    }

    pub open spec fn staked(
        self,
        staker: Address,
        amount: int,
        duration: int,
        now: int,
    ) -> StakingState {
        self.with_position(
            staker,
            self.position(staker).after_stake(amount, duration, now, self.acc()),
        )
    }

    /// What the host is asked to do when LP tokens are staked.
    pub open spec fn stake_effects(
        self,
        contract: Address,
        staker: Address,
        amount: i128,
        duration: int,
        now: int,
    ) -> Seq<Effect> {
        let after = self.staked(staker, amount as int, duration, now).position(staker);
        seq![
            Effect::TransferFrom {
                token: self.pool->0.lp_token,
                spender: staker,
                from: staker,
                to: contract,
                amount,
            },
            Effect::Publish {
                event: Event::Staked {
                    staker,
                    amount,
                    boost: after.boost_multiplier,
                    expiry: after.lock_expiry,
                },
            },
        ]
    }

    // ── claim ─────────────────────────────────────────────────────────────
    /// Why a claim is refused, if it is.
    pub open spec fn claim_refusal(self, call: Invocation, staker: Address) -> Option<
        StakingError,
    > {
        if !call.authorized(staker) {
            Some(StakingError::AuthRequired { address: staker })
        } else if !self.position(staker).pending_fits(self.acc()) {
            Some(StakingError::Overflow)
        } else if self.pending(staker) == 0 {
            Some(StakingError::NoPendingRewards)
        } else {
            None
        }
    }

    /// The state after the rewards owed to `staker` were paid. The pool's record
    /// stays: what is paid left its balance when it was distributed.
    pub open spec fn claimed(self, staker: Address) -> StakingState {
        StakingState {
            positions: self.positions.insert(staker, self.position(staker).settled(self.acc())),
            ..self
        }
    }

    /// What the host is asked to do when rewards are paid.
    pub open spec fn claim_effects(self, contract: Address, staker: Address) -> Seq<Effect> {
        let amount = self.pending(staker) as i128;
        seq![
            Effect::Transfer {
                token: self.pool->0.reward_token,
                from: contract,
                to: staker,
                amount,
            },
            Effect::Publish { event: Event::Claimed { staker, amount } },
        ]
    }

    // ── unstake ───────────────────────────────────────────────────────────
    /// Why taking a stake out is refused, if it is.
    pub open spec fn unstake_refusal(
        self,
        call: Invocation,
        staker: Address,
        amount: int,
    ) -> Option<StakingError> {
        if !call.authorized(staker) {
            Some(StakingError::AuthRequired { address: staker })
        } else if amount <= 0 {
            Some(StakingError::AmountNotPositive)
        } else if self.position(staker).staked_amount < amount {
            Some(StakingError::InsufficientStake)
        } else if call.timestamp < self.position(staker).lock_expiry {
            Some(StakingError::StillLocked)
        } else if !self.position(staker).pending_fits(self.acc()) {
            Some(StakingError::Overflow)
        } else {
            None
        }
    }

    /// The state after the rewards owed, if any, were paid and `amount` was
    /// taken out.
    pub open spec fn unstaked(self, staker: Address, amount: int) -> StakingState {
        self.with_position(staker, self.position(staker).after_unstake(amount, self.acc()))
    }

    /// What the host is asked to do when LP tokens are taken out.
    pub open spec fn unstake_effects(
        self,
        contract: Address,
        staker: Address,
        amount: i128,
    ) -> Seq<Effect> {
        let payment = if self.pending(staker) > 0 {
            self.claim_effects(contract, staker)
        } else {
            seq![]
        };
        payment + seq![
            Effect::Transfer {
                token: self.pool->0.lp_token,
                from: contract,
                to: staker,
                amount,
            },
            Effect::Publish {
                event: Event::Unstaked { staker, amount, rewards: self.pending(staker) as i128 },
            },
        ]
    }

    // ── update_rewards ────────────────────────────────────────────────────
    /// By how much rewards per share grow when `new_rewards` are distributed.
    pub open spec fn share_increase(self, new_rewards: int) -> int {
        new_rewards * SCALE_FACTOR / self.pool->0.total_effective_staked as int
    }

    /// Why rewards cannot be distributed, if they cannot.
    pub open spec fn update_rewards_refusal(
        self,
        call: Invocation,
        admin: Address,
        new_rewards: int,
    ) -> Option<StakingError> {
        if !call.authorized(admin) {
            Some(StakingError::AuthRequired { address: admin })
        } else {
            match self.pool {
                None => Some(StakingError::NotInitialized),
                Some(pool) => if admin != pool.admin {
                    Some(StakingError::NotAdmin)
                } else if new_rewards <= 0 {
                    Some(StakingError::NewRewardsNotPositive)
                } else if pool.total_effective_staked == 0 {
                    Some(StakingError::NoStakers)
                } else if !(fits(new_rewards * SCALE_FACTOR) && fits(
                    self.acc() + self.share_increase(new_rewards),
                ) && fits(pool.reward_pool_balance - new_rewards)) {
                    Some(StakingError::Overflow)
                } else {
                    None
                },
            }
        }
    }

    pub open spec fn rewards_updated(self, new_rewards: int) -> StakingState {
        match self.pool {
            Some(pool) => StakingState {
                pool: Some(
                    PoolInfo {
                        accumulated_rewards_per_share: (self.acc() + self.share_increase(
                            new_rewards,
                        )) as i128,
                        reward_pool_balance: (pool.reward_pool_balance - new_rewards) as i128,
                        ..pool
                    },
                ),
                ..self
            },
            None => self,
        }
    }
}

} // verus!
