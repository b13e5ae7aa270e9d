//! What each operation of the staking pool does, in numbers: when it is refused
//! and why, what it leaves on record, and which tokens move.
//!
//! Amounts that come out of a division are given by the range that they lie in.

use vstd::prelude::*;
use crate::address::Address;
use crate::invocation::{Effect, Event, Invocation};
use super::contract::ledger_excerpt;
use super::laws::{
    law_boosted_range, law_excerpt_is_sound, lemma_after_stake, lemma_after_unstake,
    lemma_smaller_stake, lemma_sum_of_none, lemma_sum_of_one,
};
use super::model::{boost_at, boosted, PoolInfo, Position, StakingError, StakingState};

verus! {

// Records

/// The position of an address is the one on record; an address without one has
/// nothing staked, no lock and a boost of 1x.
pub proof fn law_position_on_record(s: StakingState, who: Address)
    ensures
        s.positions.contains_key(who) ==> s.position(who) == s.positions[who],
        !s.positions.contains_key(who) ==> s.position(who) == (Position {
            staked_amount: 0,
            rewards_debt: 0,
            lock_expiry: 0,
            boost_multiplier: 10_000,
        }),
{
}

/// Rewards per share are those on record, and zero without a pool.
pub proof fn law_rewards_per_share_on_record(s: StakingState)
    ensures
        s.pool matches Some(pool) ==> s.acc() == pool.accumulated_rewards_per_share,
        s.pool is None ==> s.acc() == 0,
{
}

/// Before it is set up, the contract has no pool and nobody has a position.
pub proof fn law_nothing_at_first()
    ensures
        StakingState::empty().pool is None,
        forall|who: Address| !StakingState::empty().positions.contains_key(who),
{
}

/// Setting up a pool records the two tokens and the admin, with nothing staked,
/// added or distributed, and touches no position.
pub proof fn law_initialize_in_numbers(
    s: StakingState,
    lp_token: Address,
    reward_token: Address,
    admin: Address,
)
    ensures
        ({
            let after = s.initialized(lp_token, reward_token, admin);
            &&& after.positions == s.positions
            &&& after.pool matches Some(pool) && {
                &&& pool.lp_token == lp_token
                &&& pool.reward_token == reward_token
                &&& pool.admin == admin
                &&& pool.total_effective_staked == 0
                &&& pool.reward_pool_balance == 0
                &&& pool.accumulated_rewards_per_share == 0
            }
        }),
{
}

/// The boost is 1x once the lock has ended and 4x from four years on. In between
/// it grows by 3x over four years, in steps of a ten-thousandth.
pub proof fn law_boost_in_numbers(expiry: int, now: int)
    ensures
        expiry <= now ==> boost_at(expiry, now) == 10_000,
        expiry - now >= 126_144_000 ==> boost_at(expiry, now) == 40_000,
        0 <= expiry - now <= 126_144_000 ==> {
            &&& (boost_at(expiry, now) - 10_000) * 126_144_000 <= 30_000 * (expiry - now)
            &&& 30_000 * (expiry - now) < (boost_at(expiry, now) - 9_999) * 126_144_000
        },
{
}

/// An amount under a boost is the amount times the boost over ten thousand,
/// rounded toward zero.
pub proof fn law_effective_in_numbers(raw: int, boost: int)
    ensures
        raw * boost >= 0 ==> 10_000 * boosted(raw, boost) <= raw * boost && raw * boost < 10_000
            * boosted(raw, boost) + 10_000,
        raw * boost <= 0 ==> 10_000 * boosted(raw, boost) - 10_000 < raw * boost && raw * boost
            <= 10_000 * boosted(raw, boost),
{
}

/// A position is reported as it is on record, with its effective amount.
pub proof fn law_report_in_numbers(p: Position)
    requires
        0 <= p.staked_amount,
        10_000 <= p.boost_multiplier <= 40_000,
        p.staked_amount * p.boost_multiplier <= i128::MAX,
    ensures
        p.info().staked_amount == p.staked_amount,
        p.info().rewards_debt == p.rewards_debt,
        p.info().lock_expiry == p.lock_expiry,
        p.info().boost_multiplier == p.boost_multiplier,
        10_000 * p.info().effective_amount <= p.staked_amount * p.boost_multiplier,
        p.staked_amount * p.boost_multiplier < 10_000 * p.info().effective_amount + 10_000,
        p.effective() == p.info().effective_amount,
{
    law_boosted_range(p.staked_amount as int, p.boost_multiplier as int);
}

/// What is owed on a position: of the rewards that its effective amount `held`
/// accrued, the whole tokens, less the debt. It can be computed where these
/// quantities fit the type of token amounts.
pub proof fn law_owed_in_numbers(s: StakingState, who: Address, held: int)
    requires
        s.valid(),
        10_000 * held <= s.position(who).staked_amount * s.position(who).boost_multiplier,
        s.position(who).staked_amount * s.position(who).boost_multiplier < 10_000 * held + 10_000,
    ensures
        ({
            let p = s.position(who);
            let acc = s.acc();
            let owed = s.pending(who);
            &&& 0 <= owed
            &&& p.staked_amount == 0 ==> owed == 0
            &&& 1_000_000_000_000_000_000 * (owed + p.rewards_debt) <= held * acc
            &&& held * acc < 1_000_000_000_000_000_000 * (owed + p.rewards_debt + 1)
            &&& p.pending_fits(acc) <==> p.staked_amount == 0 || (held * acc <= i128::MAX && owed
                <= i128::MAX)
        }),
{
    lemma_held(s, who, held);
}

/// A position's effective amount lies in its range.
pub(crate) proof fn lemma_effective_range(s: StakingState, who: Address)
    requires
        s.valid(),
    ensures
        ({
            let p = s.position(who);
            &&& 10_000 * p.effective() <= p.staked_amount * p.boost_multiplier
            &&& p.staked_amount * p.boost_multiplier < 10_000 * p.effective() + 10_000
        }),
{
    let p = s.position(who);
    law_boosted_range(p.staked_amount as int, p.boost_multiplier as int);
}

/// A position's effective amount is the one that lies in the range.
proof fn lemma_held(s: StakingState, who: Address, held: int)
    requires
        s.valid(),
        10_000 * held <= s.position(who).staked_amount * s.position(who).boost_multiplier,
        s.position(who).staked_amount * s.position(who).boost_multiplier < 10_000 * held + 10_000,
    ensures
        held == s.position(who).effective(),
        0 <= held,
        0 <= s.acc(),
        0 <= held * s.acc(),
        s.position(who).staked_amount == 0 ==> held == 0 && held * s.acc() == 0,
        s.position(who).valid(),
        s.position(who).debt_covered(s.acc()),
        0 <= s.position(who).accrued(s.acc()),
        s.pool is Some ==> held <= s.pool->0.total_effective_staked,
{
    let p = s.position(who);
    law_boosted_range(p.staked_amount as int, p.boost_multiplier as int);
    let acc = s.acc();
    assert(0 <= held * acc) by (nonlinear_arith)
        requires
            0 <= held,
            0 <= acc,
    ;
    law_excerpt_is_sound(s, who);
    lemma_sum_of_one(who, p);
}

// Adding rewards

/// Rewards are added whenever the admin on record has authorized the call, the
/// amount is positive and the new balance fits; otherwise the refusal says what
/// is missing.
pub proof fn law_add_rewards_refusals(
    s: StakingState,
    call: Invocation,
    admin: Address,
    amount: i128,
)
    ensures
        ({
            let refusal = s.add_rewards_refusal(call, admin, amount as int);
            let signed = call.signers@.contains(admin);
            let known = s.pool matches Some(pool) && pool.admin == admin;
            let room = s.pool->0.reward_pool_balance + amount <= i128::MAX;
            &&& refusal == Some(StakingError::AuthRequired { address: admin }) <==> !signed
            &&& refusal == Some(StakingError::NotInitialized) <==> signed && s.pool is None
            &&& refusal == Some(StakingError::NotAdmin) <==> signed && s.pool is Some && !known
            &&& refusal == Some(StakingError::AmountNotPositive) <==> signed && known && amount
                <= 0
            &&& refusal == Some(StakingError::Overflow) <==> signed && known && amount > 0 && !room
            &&& refusal is None <==> signed && known && amount > 0 && room
        }),
{
}

/// Adding rewards raises the balance on record by the amount and leaves
/// everything else. The amount moves from the admin to the contract.
pub proof fn law_add_rewards_in_numbers(
    s: StakingState,
    call: Invocation,
    admin: Address,
    amount: i128,
)
    requires
        s.add_rewards_refusal(call, admin, amount as int) is None,
    ensures
        ({
            let after = s.rewards_added(amount as int);
            let pool = s.pool->0;
            &&& after.positions == s.positions
            &&& after.pool matches Some(now) && {
                &&& now.reward_pool_balance == pool.reward_pool_balance + amount
                &&& now.total_effective_staked == pool.total_effective_staked
                &&& now.accumulated_rewards_per_share == pool.accumulated_rewards_per_share
                &&& now.lp_token == pool.lp_token
                &&& now.reward_token == pool.reward_token
                &&& now.admin == pool.admin
            }
        }),
        s.add_rewards_effects(call.contract, admin, amount) == seq![
            Effect::TransferFrom {
                token: s.pool->0.reward_token,
                spender: admin,
                from: admin,
                to: call.contract,
                amount,
            },
            Effect::Publish { event: Event::RewardsAdded { admin, amount } },
        ],
{
}

// Distributing rewards

/// Rewards are distributed whenever the admin on record has authorized the call,
/// the amount is positive, something is staked, and the amount at scale, the new
/// rewards per share and the new balance fit. Here `increase` is what the
/// rewards come to per share.
pub proof fn law_update_rewards_refusals(
    s: StakingState,
    call: Invocation,
    admin: Address,
    new_rewards: i128,
    increase: int,
)
    requires
        s.valid(),
        s.pool is Some && s.pool->0.total_effective_staked > 0 && new_rewards > 0 ==> {
            let total = s.pool->0.total_effective_staked;
            &&& total * increase <= new_rewards * 1_000_000_000_000_000_000
            &&& new_rewards * 1_000_000_000_000_000_000 < total * (increase + 1)
        },
    ensures
        ({
            let refusal = s.update_rewards_refusal(call, admin, new_rewards as int);
            let signed = call.signers@.contains(admin);
            let known = s.pool matches Some(pool) && pool.admin == admin;
            let staked = s.pool->0.total_effective_staked > 0;
            let room = {
                &&& new_rewards * 1_000_000_000_000_000_000 <= i128::MAX
                &&& s.pool->0.accumulated_rewards_per_share + increase <= i128::MAX
                &&& s.pool->0.reward_pool_balance - new_rewards >= i128::MIN
            };
            &&& refusal == Some(StakingError::AuthRequired { address: admin }) <==> !signed
            &&& refusal == Some(StakingError::NotInitialized) <==> signed && s.pool is None
            &&& refusal == Some(StakingError::NotAdmin) <==> signed && s.pool is Some && !known
            &&& refusal == Some(StakingError::NewRewardsNotPositive) <==> signed && known
                && new_rewards <= 0
            &&& refusal == Some(StakingError::NoStakers) <==> signed && known && new_rewards > 0
                && s.pool->0.total_effective_staked == 0
            &&& refusal == Some(StakingError::Overflow) <==> signed && known && new_rewards > 0
                && staked && !room
            &&& refusal is None <==> signed && known && new_rewards > 0 && staked && room
        }),
{
    if s.pool is Some && s.pool->0.total_effective_staked > 0 && new_rewards > 0 {
        let total = s.pool->0.total_effective_staked as int;
        let scaled = new_rewards * 1_000_000_000_000_000_000;
        lemma_share(scaled, total, increase);
    }
}

/// The quotient of two numbers is the one that lies in the range.
proof fn lemma_share(scaled: int, total: int, share: int)
    requires
        0 < total,
        0 < scaled,
        total * share <= scaled,
        scaled < total * (share + 1),
    ensures
        share == scaled / total,
        0 <= share,
{
    let rest = scaled - total * share;
    assert(total * (share + 1) == total * share + total && total * share == share * total)
        by (nonlinear_arith);
    vstd::arithmetic::div_mod::lemma_fundamental_div_mod_converse(scaled, total, share, rest);
    vstd::arithmetic::div_mod::lemma_div_pos_is_pos(scaled, total);
}

/// A distribution raises rewards per share by the rewards over the total, rounded
/// down at scale, and takes the rewards off the balance. Everything else stays.
pub proof fn law_update_rewards_in_numbers(
    s: StakingState,
    call: Invocation,
    admin: Address,
    new_rewards: i128,
)
    requires
        s.valid(),
        s.update_rewards_refusal(call, admin, new_rewards as int) is None,
    ensures
        ({
            let after = s.rewards_updated(new_rewards as int);
            let pool = s.pool->0;
            let total = pool.total_effective_staked;
            &&& after.positions == s.positions
            &&& after.pool matches Some(now) && {
                let increase = now.accumulated_rewards_per_share
                    - pool.accumulated_rewards_per_share;
                &&& 0 <= increase
                &&& total * increase <= new_rewards * 1_000_000_000_000_000_000
                &&& new_rewards * 1_000_000_000_000_000_000 < total * (increase + 1)
                &&& now.reward_pool_balance == pool.reward_pool_balance - new_rewards
                &&& now.total_effective_staked == pool.total_effective_staked
                &&& now.lp_token == pool.lp_token
                &&& now.reward_token == pool.reward_token
                &&& now.admin == pool.admin
            }
        }),
{
    let total = s.pool->0.total_effective_staked as int;
    let scaled = new_rewards * 1_000_000_000_000_000_000;
    let share = scaled / total;
    vstd::arithmetic::div_mod::lemma_fundamental_div_mod(scaled, total);
    vstd::arithmetic::div_mod::lemma_mod_bound(scaled, total);
    vstd::arithmetic::div_mod::lemma_div_pos_is_pos(scaled, total);
    assert(total * (share + 1) == total * share + total) by (nonlinear_arith);
}

// Staking

/// LP tokens are staked whenever the staker has authorized the call, the amount
/// is positive, the pool is set up, and the quantities on record fit afterwards:
/// the end of the lock, the stake with and without its boost, the total, and
/// what is accrued. Here `expiry`, `boost` and `effective` belong to the new
/// position, and `held` is the effective amount of the old one.
pub proof fn law_stake_refusals(
    s: StakingState,
    call: Invocation,
    staker: Address,
    amount: i128,
    duration: u64,
    expiry: int,
    boost: int,
    effective: int,
    held: int,
)
    requires
        s.valid(),
        duration == 0 ==> expiry == s.position(staker).lock_expiry,
        0 < duration < 604_800 ==> expiry == if call.timestamp + 604_800 >= s.position(
            staker,
        ).lock_expiry {
            call.timestamp + 604_800
        } else {
            s.position(staker).lock_expiry as int
        },
        604_800 <= duration <= 126_144_000 ==> expiry == if call.timestamp + duration
            >= s.position(staker).lock_expiry {
            call.timestamp + duration
        } else {
            s.position(staker).lock_expiry as int
        },
        126_144_000 < duration ==> expiry == if call.timestamp + 126_144_000 >= s.position(
            staker,
        ).lock_expiry {
            call.timestamp + 126_144_000
        } else {
            s.position(staker).lock_expiry as int
        },
        expiry <= call.timestamp ==> boost == 10_000,
        expiry - call.timestamp >= 126_144_000 ==> boost == 40_000,
        0 <= expiry - call.timestamp <= 126_144_000 ==> {
            &&& (boost - 10_000) * 126_144_000 <= 30_000 * (expiry - call.timestamp)
            &&& 30_000 * (expiry - call.timestamp) < (boost - 9_999) * 126_144_000
        },
        10_000 * effective <= (s.position(staker).staked_amount + amount) * boost,
        (s.position(staker).staked_amount + amount) * boost < 10_000 * effective + 10_000,
        10_000 * held <= s.position(staker).staked_amount * s.position(staker).boost_multiplier,
        s.position(staker).staked_amount * s.position(staker).boost_multiplier < 10_000 * held
            + 10_000,
    ensures
        ({
            let refusal = s.stake_refusal(call, staker, amount as int, duration as int);
            let signed = call.signers@.contains(staker);
            let p = s.position(staker);
            let room = {
                &&& p.staked_amount == 0 || (held * s.acc() <= i128::MAX && s.pending(staker)
                    <= i128::MAX)
                &&& expiry <= u64::MAX
                &&& p.staked_amount + amount <= i128::MAX
                &&& (p.staked_amount + amount) * boost <= i128::MAX
                &&& s.pool->0.total_effective_staked - held + effective <= i128::MAX
                &&& effective * s.acc() <= i128::MAX
            };
            &&& refusal == Some(StakingError::AuthRequired { address: staker }) <==> !signed
            &&& refusal == Some(StakingError::AmountNotPositive) <==> signed && amount <= 0
            &&& refusal == Some(StakingError::NotInitialized) <==> signed && amount > 0 && s.pool
                is None
            &&& refusal == Some(StakingError::Overflow) <==> signed && amount > 0 && s.pool is Some
                && !room
            &&& refusal is None <==> signed && amount > 0 && s.pool is Some && room
        }),
{
    lemma_held(s, staker, held);
    law_owed_in_numbers(s, staker, held);
    if amount > 0 {
        let staked = s.position(staker).staked_amount + amount;
        let now = call.timestamp as int;
        assert(boost == boost_at(expiry, now));
        law_boosted_range(staked, boost);
        assert(effective == boosted(staked, boost));
        lemma_smaller_stake(staked, staked, boost, s.acc());
    }
}

/// Staking adds the amount to the stake. A lock asked for runs for its duration
/// from now, a week at least and four years at most; a lock that already runs
/// longer stays, and so does any lock where none is asked for. The boost of the
/// whole stake is the one for the time now left. The total moves by the change
/// of the effective amount, what is owed stays owed, and everything else stays.
pub proof fn law_stake_in_numbers(
    s: StakingState,
    call: Invocation,
    staker: Address,
    amount: i128,
    duration: u64,
    effective: int,
    held: int,
)
    requires
        s.valid(),
        s.stake_refusal(call, staker, amount as int, duration as int) is None,
        10_000 * held <= s.position(staker).staked_amount * s.position(staker).boost_multiplier,
        s.position(staker).staked_amount * s.position(staker).boost_multiplier < 10_000 * held
            + 10_000,
        ({
            let q = s.staked(
                staker,
                amount as int,
                duration as int,
                call.timestamp as int,
            ).positions[staker];
            &&& 10_000 * effective <= q.staked_amount * q.boost_multiplier
            &&& q.staked_amount * q.boost_multiplier < 10_000 * effective + 10_000
        }),
    ensures
        ({
            let now = call.timestamp;
            let after = s.staked(staker, amount as int, duration as int, now as int);
            let p = s.position(staker);
            let q = after.positions[staker];
            &&& after.positions.contains_key(staker)
            &&& q.staked_amount == p.staked_amount + amount
            &&& duration == 0 ==> q.lock_expiry == p.lock_expiry
            &&& duration > 0 ==> q.lock_expiry >= p.lock_expiry
            &&& 0 < duration < 604_800 ==> q.lock_expiry >= now + 604_800 && (q.lock_expiry == now
                + 604_800 || q.lock_expiry == p.lock_expiry)
            &&& 604_800 <= duration <= 126_144_000 ==> q.lock_expiry >= now + duration && (
            q.lock_expiry == now + duration || q.lock_expiry == p.lock_expiry)
            &&& 126_144_000 < duration ==> q.lock_expiry >= now + 126_144_000 && (q.lock_expiry
                == now + 126_144_000 || q.lock_expiry == p.lock_expiry)
            &&& q.lock_expiry <= now ==> q.boost_multiplier == 10_000
            &&& q.lock_expiry - now >= 126_144_000 ==> q.boost_multiplier == 40_000
            &&& 0 <= q.lock_expiry - now <= 126_144_000 ==> {
                &&& (q.boost_multiplier - 10_000) * 126_144_000 <= 30_000 * (q.lock_expiry - now)
                &&& 30_000 * (q.lock_expiry - now) < (q.boost_multiplier - 9_999) * 126_144_000
            }
            &&& 1_000_000_000_000_000_000 * (s.pending(staker) + q.rewards_debt) <= effective
                * s.acc()
            &&& effective * s.acc() < 1_000_000_000_000_000_000 * (s.pending(staker)
                + q.rewards_debt + 1)
            &&& after.pending(staker) == s.pending(staker)
            &&& after.pool matches Some(pool) && {
                &&& pool.total_effective_staked == s.pool->0.total_effective_staked - held
                    + effective
                &&& pool.reward_pool_balance == s.pool->0.reward_pool_balance
                &&& pool.accumulated_rewards_per_share == s.pool->0.accumulated_rewards_per_share
                &&& pool.lp_token == s.pool->0.lp_token
                &&& pool.reward_token == s.pool->0.reward_token
                &&& pool.admin == s.pool->0.admin
            }
            &&& forall|other: Address|
                other != staker ==> {
                    &&& #[trigger] after.positions.contains_key(other)
                        <==> s.positions.contains_key(other)
                    &&& after.positions[other] == s.positions[other]
                }
        }),
{
    lemma_held(s, staker, held);
    lemma_after_stake(s, call, staker, amount as int, duration as int);
    let after = s.staked(staker, amount as int, duration as int, call.timestamp as int);
    let q = after.positions[staker];
    assert(after.positions.contains_key(staker));
    law_boosted_range(q.staked_amount as int, q.boost_multiplier as int);
    assert(effective == q.effective());
}

/// Staking moves exactly the amount of LP tokens from the staker to the contract,
/// whatever the lock and the boost, and no other tokens. The event tells the
/// boost and the end of the lock that are now on record.
pub proof fn law_stake_moves_the_amount(
    s: StakingState,
    call: Invocation,
    staker: Address,
    amount: i128,
    duration: u64,
)
    requires
        s.valid(),
        s.stake_refusal(call, staker, amount as int, duration as int) is None,
    ensures
        ({
            let now = call.timestamp as int;
            let q = s.staked(staker, amount as int, duration as int, now).positions[staker];
            s.stake_effects(call.contract, staker, amount, duration as int, now) == seq![
                Effect::TransferFrom {
                    token: s.pool->0.lp_token,
                    spender: staker,
                    from: staker,
                    to: call.contract,
                    amount,
                },
                Effect::Publish {
                    event: Event::Staked {
                        staker,
                        amount,
                        boost: q.boost_multiplier,
                        expiry: q.lock_expiry,
                    },
                },
            ]
        }),
{
}

// Claiming

/// Rewards are paid whenever the staker has authorized the call, something is
/// owed, and what is owed can be computed.
pub proof fn law_claim_refusals(s: StakingState, call: Invocation, staker: Address, held: int)
    requires
        s.valid(),
        10_000 * held <= s.position(staker).staked_amount * s.position(staker).boost_multiplier,
        s.position(staker).staked_amount * s.position(staker).boost_multiplier < 10_000 * held
            + 10_000,
    ensures
        ({
            let refusal = s.claim_refusal(call, staker);
            let signed = call.signers@.contains(staker);
            let room = s.position(staker).staked_amount == 0 || (held * s.acc() <= i128::MAX
                && s.pending(staker) <= i128::MAX);
            &&& refusal == Some(StakingError::AuthRequired { address: staker }) <==> !signed
            &&& refusal == Some(StakingError::Overflow) <==> signed && !room
            &&& refusal == Some(StakingError::NoPendingRewards) <==> signed && room && s.pending(
                staker,
            ) == 0
            &&& refusal is None <==> signed && room && s.pending(staker) > 0
        }),
{
    law_owed_in_numbers(s, staker, held);
}

/// A claim brings the debt up to everything accrued in whole tokens, so that
/// nothing is owed any more, and leaves everything else. Exactly what was owed
/// moves from the contract to the staker, in reward tokens, and the event tells
/// the same amount.
pub proof fn law_claim_in_numbers(s: StakingState, call: Invocation, staker: Address, held: int)
    requires
        s.valid(),
        s.claim_refusal(call, staker) is None,
        10_000 * held <= s.position(staker).staked_amount * s.position(staker).boost_multiplier,
        s.position(staker).staked_amount * s.position(staker).boost_multiplier < 10_000 * held
            + 10_000,
    ensures
        ({
            let after = s.claimed(staker);
            let p = s.position(staker);
            let q = after.positions[staker];
            &&& after.pool == s.pool
            &&& after.positions.contains_key(staker)
            &&& q.staked_amount == p.staked_amount
            &&& q.lock_expiry == p.lock_expiry
            &&& q.boost_multiplier == p.boost_multiplier
            &&& q.rewards_debt == p.rewards_debt + s.pending(staker)
            &&& 1_000_000_000_000_000_000 * q.rewards_debt <= held * s.acc()
            &&& held * s.acc() < 1_000_000_000_000_000_000 * (q.rewards_debt + 1)
            &&& after.pending(staker) == 0
            &&& forall|other: Address|
                other != staker ==> {
                    &&& #[trigger] after.positions.contains_key(other)
                        <==> s.positions.contains_key(other)
                    &&& after.positions[other] == s.positions[other]
                }
        }),
        0 < s.pending(staker) <= i128::MAX,
        s.claim_effects(call.contract, staker) == seq![
            Effect::Transfer {
                token: s.pool->0.reward_token,
                from: call.contract,
                to: staker,
                amount: s.pending(staker) as i128,
            },
            Effect::Publish {
                event: Event::Claimed { staker, amount: s.pending(staker) as i128 },
            },
        ],
{
    law_owed_in_numbers(s, staker, held);
    lemma_held(s, staker, held);
}

// Taking a stake out

/// LP tokens are handed back whenever the staker has authorized the call, the
/// amount is positive and staked, the lock has ended, and what is owed can be
/// computed.
pub proof fn law_unstake_refusals(
    s: StakingState,
    call: Invocation,
    staker: Address,
    amount: i128,
    held: int,
)
    requires
        s.valid(),
        10_000 * held <= s.position(staker).staked_amount * s.position(staker).boost_multiplier,
        s.position(staker).staked_amount * s.position(staker).boost_multiplier < 10_000 * held
            + 10_000,
    ensures
        ({
            let refusal = s.unstake_refusal(call, staker, amount as int);
            let signed = call.signers@.contains(staker);
            let p = s.position(staker);
            let asked = signed && amount > 0;
            let covered = asked && amount <= p.staked_amount;
            let free = covered && p.lock_expiry <= call.timestamp;
            let room = held * s.acc() <= i128::MAX && s.pending(staker) <= i128::MAX;
            &&& refusal == Some(StakingError::AuthRequired { address: staker }) <==> !signed
            &&& refusal == Some(StakingError::AmountNotPositive) <==> signed && amount <= 0
            &&& refusal == Some(StakingError::InsufficientStake) <==> asked && amount
                > p.staked_amount
            &&& refusal == Some(StakingError::StillLocked) <==> covered && call.timestamp
                < p.lock_expiry
            &&& refusal == Some(StakingError::Overflow) <==> free && !room
            &&& refusal is None <==> free && room
        }),
{
    law_owed_in_numbers(s, staker, held);
}

/// Taking a stake out lowers the stake by the amount under the same lock and
/// boost, moves the total by the change of the effective amount, and leaves
/// nothing owed. Everything else stays.
pub proof fn law_unstake_in_numbers(
    s: StakingState,
    call: Invocation,
    staker: Address,
    amount: i128,
    effective: int,
    held: int,
)
    requires
        s.valid(),
        s.unstake_refusal(call, staker, amount as int) is None,
        10_000 * held <= s.position(staker).staked_amount * s.position(staker).boost_multiplier,
        s.position(staker).staked_amount * s.position(staker).boost_multiplier < 10_000 * held
            + 10_000,
        10_000 * effective <= (s.position(staker).staked_amount - amount) * s.position(
            staker,
        ).boost_multiplier,
        (s.position(staker).staked_amount - amount) * s.position(staker).boost_multiplier < 10_000
            * effective + 10_000,
    ensures
        ({
            let after = s.unstaked(staker, amount as int);
            let p = s.position(staker);
            let q = after.positions[staker];
            &&& after.positions.contains_key(staker)
            &&& q.staked_amount == p.staked_amount - amount
            &&& q.lock_expiry == p.lock_expiry
            &&& q.boost_multiplier == p.boost_multiplier
            &&& 1_000_000_000_000_000_000 * q.rewards_debt <= effective * s.acc()
            &&& effective * s.acc() < 1_000_000_000_000_000_000 * (q.rewards_debt + 1)
            &&& after.pending(staker) == 0
            &&& after.pool matches Some(pool) && {
                &&& pool.total_effective_staked == s.pool->0.total_effective_staked - held
                    + effective
                &&& pool.reward_pool_balance == s.pool->0.reward_pool_balance
                &&& pool.accumulated_rewards_per_share == s.pool->0.accumulated_rewards_per_share
                &&& pool.lp_token == s.pool->0.lp_token
                &&& pool.reward_token == s.pool->0.reward_token
                &&& pool.admin == s.pool->0.admin
            }
            &&& forall|other: Address|
                other != staker ==> {
                    &&& #[trigger] after.positions.contains_key(other)
                        <==> s.positions.contains_key(other)
                    &&& after.positions[other] == s.positions[other]
                }
        }),
{
    lemma_held(s, staker, held);
    lemma_after_unstake(s, call, staker, amount as int);
    let after = s.unstaked(staker, amount as int);
    let q = after.positions[staker];
    assert(s.positions.contains_key(staker));
    assert(after.positions.contains_key(staker));
    law_boosted_range(q.staked_amount as int, q.boost_multiplier as int);
    assert(effective == q.effective());
}

/// Taking a stake out moves exactly the amount asked for from the contract to the
/// staker, in LP tokens, whatever the boost. Before it, and only where rewards
/// are owed, exactly these move in reward tokens. The events tell both amounts.
pub proof fn law_unstake_moves_the_amount(
    s: StakingState,
    call: Invocation,
    staker: Address,
    amount: i128,
)
    requires
        s.valid(),
        s.unstake_refusal(call, staker, amount as int) is None,
    ensures
        s.pending(staker) == 0 ==> s.unstake_effects(call.contract, staker, amount) == seq![
            Effect::Transfer {
                token: s.pool->0.lp_token,
                from: call.contract,
                to: staker,
                amount,
            },
            Effect::Publish { event: Event::Unstaked { staker, amount, rewards: 0 } },
        ],
        s.pending(staker) > 0 ==> 0 < s.pending(staker) <= i128::MAX && s.unstake_effects(
            call.contract,
            staker,
            amount,
        ) == seq![
            Effect::Transfer {
                token: s.pool->0.reward_token,
                from: call.contract,
                to: staker,
                amount: s.pending(staker) as i128,
            },
            Effect::Publish {
                event: Event::Claimed { staker, amount: s.pending(staker) as i128 },
            },
            Effect::Transfer {
                token: s.pool->0.lp_token,
                from: call.contract,
                to: staker,
                amount,
            },
            Effect::Publish {
                event: Event::Unstaked { staker, amount, rewards: s.pending(staker) as i128 },
            },
        ],
{
    lemma_effective_range(s, staker);
    law_owed_in_numbers(s, staker, s.position(staker).effective());
}

// Soundness

/// In a sound state every position has a stake and a boost within their ranges, a
/// debt that is covered, and an effective amount `held` within the total.
pub proof fn law_sound_position(s: StakingState, who: Address, held: int)
    requires
        s.valid(),
        10_000 * held <= s.position(who).staked_amount * s.position(who).boost_multiplier,
        s.position(who).staked_amount * s.position(who).boost_multiplier < 10_000 * held + 10_000,
    ensures
        ({
            let p = s.position(who);
            &&& 0 <= p.staked_amount
            &&& 10_000 <= p.boost_multiplier <= 40_000
            &&& p.staked_amount * p.boost_multiplier <= i128::MAX
            &&& 1_000_000_000_000_000_000 * p.rewards_debt <= held * s.acc()
            &&& p.staked_amount == 0 ==> p.rewards_debt == 0
            &&& 0 <= s.acc()
            &&& s.pool is Some ==> held <= s.pool->0.total_effective_staked
            &&& s.pool is None ==> !s.positions.contains_key(who)
        }),
{
    lemma_held(s, who, held);
}

/// Records taken from the ledger stand in the state as they were given, and no
/// others do.
pub proof fn law_excerpt_in_full(
    pool: Option<PoolInfo>,
    entry: Option<(Address, Position)>,
    who: Address,
)
    ensures
        ({
            let s = ledger_excerpt(pool, entry);
            &&& s.pool == pool
            &&& s.positions.contains_key(who) <==> entry is Some && (entry->0).0 == who
            &&& s.positions.contains_key(who) ==> s.positions[who] == (entry->0).1
        }),
{
}

/// Such records are sound exactly when their numbers are: here `held` is the
/// effective amount of the position, where there is one.
pub proof fn law_sound_excerpt(
    pool: Option<PoolInfo>,
    entry: Option<(Address, Position)>,
    held: int,
)
    requires
        entry matches Some((_, p)) ==> {
            &&& 10_000 * held <= p.staked_amount * p.boost_multiplier
            &&& p.staked_amount * p.boost_multiplier < 10_000 * held + 10_000
        },
    ensures
        ledger_excerpt(pool, entry).valid() <==> {
            &&& pool is None ==> entry is None
            &&& pool matches Some(record) ==> {
                &&& 0 <= record.total_effective_staked
                &&& 0 <= record.accumulated_rewards_per_share
                &&& entry matches Some((_, p)) ==> {
                    &&& 0 <= p.staked_amount
                    &&& 10_000 <= p.boost_multiplier <= 40_000
                    &&& p.staked_amount * p.boost_multiplier <= i128::MAX
                    &&& p.staked_amount == 0 ==> p.rewards_debt == 0
                    &&& held <= record.total_effective_staked
                    &&& 1_000_000_000_000_000_000 * p.rewards_debt <= held
                        * record.accumulated_rewards_per_share
                }
            }
        },
{
    let s = ledger_excerpt(pool, entry);
    lemma_sum_of_none();
    if let Some((who, p)) = entry {
        lemma_sum_of_one(who, p);
        assert(s.positions.contains_key(who));
        assert(s.positions[who] == p);
        if 0 <= p.staked_amount && 10_000 <= p.boost_multiplier <= 40_000 {
            law_boosted_range(p.staked_amount as int, p.boost_multiplier as int);
            assert(held == p.effective());
            if s.acc() >= 0 {
                lemma_smaller_stake(
                    p.staked_amount as int,
                    p.staked_amount as int,
                    p.boost_multiplier as int,
                    s.acc(),
                );
            }
        }
    }
}

// Refusals

/// What is said of a refusal depends on its kind alone.
pub proof fn law_refusal_texts(e: StakingError)
    ensures
        e is AuthRequired ==> e.text() == "authorization required"@,
        e is AlreadyInitialized ==> e.text() == "already initialized"@,
        e is NotInitialized ==> e.text() == "not initialized"@,
        e is NotAdmin ==> e.text() == "not admin"@,
        e is AmountNotPositive ==> e.text() == "amount must be positive"@,
        e is NewRewardsNotPositive ==> e.text() == "new_rewards must be positive"@,
        e is InsufficientStake ==> e.text() == "insufficient staked amount"@,
        e is StillLocked ==> e.text() == "tokens are still locked"@,
        e is NoPendingRewards ==> e.text() == "no pending rewards"@,
        e is NoStakers ==> e.text() == "no stakers"@,
        e is Overflow ==> e.text() == "arithmetic overflow"@,
{
}

} // verus!
