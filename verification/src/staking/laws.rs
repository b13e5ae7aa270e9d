//! What holds of the staking pool as a whole.

use vstd::prelude::*;
use crate::address::Address;
use crate::invocation::{Effect, Event, Invocation};
use super::contract::ledger_excerpt;
use super::model::{
    boost_at, boosted, clamped, fits, lock_end, owed_by_formula, sum_effective, sum_entitlement,
    sum_over, sum_pending, sum_staked, Position, StakingError, StakingState, MAX_BOOST,
    MAX_LOCK_DURATION, MIN_BOOST, MIN_LOCK_DURATION, SCALE_FACTOR,
};

verus! {

// ── Boost ─────────────────────────────────────────────────────────────────
/// A boost is never under 1x nor over 4x. It is 1x when no lock time is left and
/// 4x when the longest lock or more is left.
pub proof fn law_boost_range(expiry: int, now: int)
    ensures
        MIN_BOOST <= boost_at(expiry, now) <= MAX_BOOST,
        expiry <= now ==> boost_at(expiry, now) == MIN_BOOST,
        expiry >= now + MAX_LOCK_DURATION ==> boost_at(expiry, now) == MAX_BOOST,
{
    let left = clamped(expiry - now, 0, MAX_LOCK_DURATION as int);
    assert(0 <= 30_000 * left / 126_144_000 <= 30_000);
}

/// The longer the lock still runs, the larger the boost.
pub proof fn law_boost_grows_with_lock(expiry: int, longer: int, now: int)
    requires
        expiry <= longer,
    ensures
        boost_at(expiry, now) <= boost_at(longer, now),
{
    let a = clamped(expiry - now, 0, MAX_LOCK_DURATION as int);
    let b = clamped(longer - now, 0, MAX_LOCK_DURATION as int);
    assert(30_000 * a / 126_144_000 <= 30_000 * b / 126_144_000);
}

/// A boosted amount is no less than the raw amount and at most four times it.
pub proof fn law_boosted_range(raw: int, boost: int)
    requires
        0 <= raw,
        MIN_BOOST <= boost <= MAX_BOOST,
    ensures
        raw <= boosted(raw, boost) <= 4 * raw,
        boosted(raw, MIN_BOOST as int) == raw,
        boosted(raw, MAX_BOOST as int) == 4 * raw,
        0 <= raw * boost,
{
    assert(raw * 10_000 <= raw * boost <= raw * 40_000) by (nonlinear_arith)
        requires
            0 <= raw,
            10_000 <= boost <= 40_000,
    ;
}

// ── Sums over positions ───────────────────────────────────────────────────
/// Any one position can be taken out of the sum.
proof fn lemma_sum_split(m: Map<Address, Position>, f: spec_fn(Position) -> int, a: Address)
    requires
        m.dom().finite(),
        m.contains_key(a),
    ensures
        sum_over(m, f) == f(m[a]) + sum_over(m.remove(a), f),
    decreases m.dom().len(),
{
    let c = m.dom().choose();
    assert(m.dom().contains(c));
    if c != a {
        lemma_sum_split(m.remove(c), f, a);
        lemma_sum_split(m.remove(a), f, c);
        assert(m.remove(c).remove(a) =~= m.remove(a).remove(c));
    }
}

/// Filing a position changes the sum by that position alone.
proof fn lemma_sum_insert(
    m: Map<Address, Position>,
    f: spec_fn(Position) -> int,
    a: Address,
    p: Position,
)
    requires
        m.dom().finite(),
    ensures
        sum_over(m.insert(a, p), f) == sum_over(m, f) + f(p) - if m.contains_key(a) {
            f(m[a])
        } else {
            0
        },
{
    lemma_sum_split(m.insert(a, p), f, a);
    if m.contains_key(a) {
        lemma_sum_split(m, f, a);
        assert(m.insert(a, p).remove(a) =~= m.remove(a));
    } else {
        assert(m.insert(a, p).remove(a) =~= m);
    }
}

/// A sum of terms that are not negative is not negative.
proof fn lemma_sum_not_negative(m: Map<Address, Position>, f: spec_fn(Position) -> int)
    requires
        m.dom().finite(),
        forall|a: Address| #[trigger] m.contains_key(a) ==> f(m[a]) >= 0,
    ensures
        sum_over(m, f) >= 0,
    decreases m.dom().len(),
{
    if !m.dom().is_empty() {
        let c = m.dom().choose();
        assert(m.contains_key(c));
        lemma_sum_not_negative(m.remove(c), f);
    }
}

// ── Products ──────────────────────────────────────────────────────────────
proof fn lemma_product_not_negative(a: int, b: int)
    by (nonlinear_arith)
    requires
        0 <= a,
        0 <= b,
    ensures
        0 <= a * b,
{
}

/// A smaller stake under the same boost has no larger effective amount, and
/// accrues no more.
pub(crate) proof fn lemma_smaller_stake(less: int, more: int, boost: int, acc: int)
    requires
        0 <= less <= more,
        MIN_BOOST <= boost <= MAX_BOOST,
        acc >= 0,
    ensures
        0 <= less * boost <= more * boost,
        0 <= boosted(less, boost) <= boosted(more, boost),
        0 <= boosted(less, boost) * acc <= boosted(more, boost) * acc,
{
    assert(0 <= less * boost <= more * boost) by (nonlinear_arith)
        requires
            0 <= less <= more,
            0 <= boost,
    ;
    let small = boosted(less, boost);
    let large = boosted(more, boost);
    lemma_product_not_negative(small, acc);
    assert(small * acc <= large * acc) by (nonlinear_arith)
        requires
            small <= large,
            0 <= acc,
    ;
}

/// What an amount accrues, computed from its parts above and below the scale.
pub(crate) proof fn lemma_accrued_by_parts(effective: int, acc: int)
    requires
        0 <= effective,
        0 <= acc,
    ensures
        ({
            let scale = SCALE_FACTOR as int;
            let (a, b) = (effective / scale, effective % scale);
            let (q, r) = (acc / scale, acc % scale);
            &&& effective * acc / scale == effective * q + a * r + b * r / scale
            &&& 0 <= effective * q
            &&& 0 <= a * r <= effective
            &&& 0 <= b * r < scale * scale
        }),
{
    let scale = SCALE_FACTOR as int;
    let (a, b) = (effective / scale, effective % scale);
    let (q, r) = (acc / scale, acc % scale);
    lemma_product_not_negative(effective, q);
    lemma_product_not_negative(a, r);
    lemma_product_not_negative(b, r);
    assert(a * r <= a * scale) by (nonlinear_arith)
        requires
            0 <= a,
            r <= scale,
    ;
    assert(b * r < scale * scale) by (nonlinear_arith)
        requires
            0 <= b < scale,
            0 <= r < scale,
    ;
    let over = effective * q + a * r;
    assert(effective * acc == over * scale + b * r) by (nonlinear_arith)
        requires
            effective == a * scale + b,
            acc == q * scale + r,
            over == effective * q + a * r,
    ;
}

/// The sum over no position is zero.
pub(crate) proof fn lemma_sum_of_none()
    ensures
        sum_effective(Map::empty()) == 0,
{
    assert(Map::<Address, Position>::empty().dom().is_empty());
}

/// The sum over a single position is that position's.
pub(crate) proof fn lemma_sum_of_one(who: Address, p: Position)
    ensures
        sum_effective(Map::empty().insert(who, p)) == p.effective(),
{
    let none = Map::<Address, Position>::empty();
    lemma_sum_of_none();
    lemma_sum_insert(none, |p: Position| p.effective(), who, p);
}

// ── Positions ─────────────────────────────────────────────────────────────
/// Positions are sound, also those of addresses that never staked.
proof fn lemma_position(s: StakingState, who: Address)
    requires
        s.valid(),
    ensures
        s.position(who).valid(),
        s.position(who).effective() >= s.position(who).staked_amount,
        !s.positions.contains_key(who) ==> s.position(who).effective() == 0,
        s.acc() >= 0,
        s.position(who).effective() * s.acc() >= 0,
        s.position(who).accrued(s.acc()) >= 0,
{
    let p = s.position(who);
    law_boosted_range(p.staked_amount as int, p.boost_multiplier as int);
    let e = p.effective();
    let acc = s.acc();
    lemma_product_not_negative(e, acc);
}

/// What staking makes of a position, where no quantity leaves its type.
pub(crate) proof fn lemma_after_stake(
    s: StakingState,
    call: Invocation,
    staker: Address,
    amount: int,
    duration: int,
)
    requires
        s.valid(),
        0 <= duration,
        s.stake_refusal(call, staker, amount, duration) is None,
    ensures
        ({
            let now = call.timestamp as int;
            let before = s.position(staker);
            let after = s.staked(staker, amount, duration, now).position(staker);
            &&& after == before.after_stake(amount, duration, now, s.acc())
            &&& after.valid()
            &&& after.staked_amount == before.staked_amount + amount
            &&& after.lock_expiry == lock_end(before.lock_expiry as int, now, duration)
            &&& after.boost_multiplier == boost_at(after.lock_expiry as int, now)
            &&& fits(after.effective() * s.acc())
            &&& after.accrued(s.acc()) >= 0
            &&& after.rewards_debt == after.accrued(s.acc()) - before.pending(s.acc())
            &&& after.pending(s.acc()) == before.pending(s.acc())
        }),
{
    let now = call.timestamp as int;
    let before = s.position(staker);
    let expiry = lock_end(before.lock_expiry as int, now, duration);
    law_boost_range(expiry, now);
    lemma_position(s, staker);
    let staked = before.staked_amount + amount;
    let boost = boost_at(expiry, now);
    law_boosted_range(staked, boost);
    let e = boosted(staked, boost);
    let acc = s.acc();
    lemma_product_not_negative(e, acc);
}

/// What taking a stake out makes of a position, where no quantity leaves its type.
pub(crate) proof fn lemma_after_unstake(s: StakingState, call: Invocation, staker: Address, amount: int)
    requires
        s.valid(),
        s.unstake_refusal(call, staker, amount) is None,
    ensures
        ({
            let before = s.position(staker);
            let after = s.unstaked(staker, amount).position(staker);
            &&& after == before.after_unstake(amount, s.acc())
            &&& after.valid()
            &&& after.staked_amount == before.staked_amount - amount
            &&& after.effective() <= before.effective()
            &&& after.rewards_debt == after.accrued(s.acc())
            &&& after.accrued(s.acc()) >= 0
            &&& after.debt_covered(s.acc())
            &&& after.pending(s.acc()) == 0
            &&& fits(
                s.pool->0.total_effective_staked - before.effective() + after.effective(),
            )
        }),
{
    let before = s.position(staker);
    lemma_position(s, staker);
    let less = before.staked_amount - amount;
    let more = before.staked_amount as int;
    let boost = before.boost_multiplier as int;
    law_boosted_range(less, boost);
    lemma_smaller_stake(less, more, boost, s.acc());
    if less == 0 {
        assert(boosted(less, boost) * s.acc() == 0) by (nonlinear_arith)
            requires
                boosted(less, boost) == 0,
        ;
    }
    assert(s.positions.contains_key(staker));
}

// ── The total is the sum of the effective amounts ─────────────────────────
/// A new position keeps the records fitting together, if its debt is covered.
proof fn lemma_with_position(s: StakingState, who: Address, p: Position)
    requires
        s.valid(),
        s.pool is Some,
        p.valid(),
        p.debt_covered(s.acc()),
        fits(s.pool->0.total_effective_staked - s.position(who).effective() + p.effective()),
    ensures
        s.with_position(who, p).valid(),
        s.consistent() ==> s.with_position(who, p).consistent(),
{
    let after = s.with_position(who, p);
    lemma_position(s, who);
    lemma_sum_insert(s.positions, |p: Position| p.effective(), who, p);
    assert(after.positions == s.positions.insert(who, p));
    assert forall|a: Address| #[trigger] after.positions.contains_key(a) implies after.positions[a].valid()
        && after.positions[a].debt_covered(s.acc()) by {
        if a != who {
            assert(s.positions.contains_key(a));
        }
    }
    assert(sum_effective(after.positions) >= 0) by {
        assert forall|a: Address| #[trigger] after.positions.contains_key(a) implies after.positions[a].effective()
            >= 0 by {
            let q = after.positions[a];
            law_boosted_range(q.staked_amount as int, q.boost_multiplier as int);
        }
        lemma_sum_not_negative(after.positions, |p: Position| p.effective());
    }
}

/// A fresh pool is consistent.
pub proof fn law_initialize_keeps_consistency(
    s: StakingState,
    lp_token: Address,
    reward_token: Address,
    admin: Address,
)
    requires
        s.valid(),
        s.pool is None,
    ensures
        s.initialized(lp_token, reward_token, admin).valid(),
        s.consistent() ==> s.initialized(lp_token, reward_token, admin).consistent(),
{
}

/// After a stake the total is still the sum of all effective amounts, and
/// everybody's debt is covered.
pub proof fn law_stake_keeps_consistency(
    s: StakingState,
    call: Invocation,
    staker: Address,
    amount: i128,
    duration: u64,
)
    requires
        s.valid(),
        s.stake_refusal(call, staker, amount as int, duration as int) is None,
    ensures
        s.staked(staker, amount as int, duration as int, call.timestamp as int).valid(),
        s.consistent() ==> s.staked(staker, amount as int, duration as int, call.timestamp as int).consistent(),
{
    lemma_after_stake(s, call, staker, amount as int, duration as int);
    lemma_position(s, staker);
    lemma_with_position(
        s,
        staker,
        s.position(staker).after_stake(
            amount as int,
            duration as int,
            call.timestamp as int,
            s.acc(),
        ),
    );
}

/// After a claim the records still fit together.
pub proof fn law_claim_keeps_consistency(s: StakingState, call: Invocation, staker: Address)
    requires
        s.valid(),
        s.claim_refusal(call, staker) is None,
    ensures
        s.claimed(staker).valid(),
        s.consistent() ==> s.claimed(staker).consistent(),
{
    let after = s.claimed(staker);
    let p = s.position(staker).settled(s.acc());
    lemma_position(s, staker);
    lemma_sum_insert(s.positions, |p: Position| p.effective(), staker, p);
    assert forall|a: Address| #[trigger] after.positions.contains_key(a) implies after.positions[a].valid()
        && after.positions[a].debt_covered(s.acc()) by {
        if a != staker {
            assert(s.positions.contains_key(a));
        }
    }
}

/// After a stake was taken out the records still fit together.
pub proof fn law_unstake_keeps_consistency(
    s: StakingState,
    call: Invocation,
    staker: Address,
    amount: i128,
)
    requires
        s.valid(),
        s.unstake_refusal(call, staker, amount as int) is None,
    ensures
        s.unstaked(staker, amount as int).valid(),
        s.consistent() ==> s.unstaked(staker, amount as int).consistent(),
{
    lemma_after_unstake(s, call, staker, amount as int);
    lemma_with_position(s, staker, s.position(staker).after_unstake(amount as int, s.acc()));
}

/// After rewards were added the records still fit together.
pub proof fn law_add_rewards_keeps_consistency(
    s: StakingState,
    call: Invocation,
    admin: Address,
    amount: i128,
)
    requires
        s.valid(),
        s.add_rewards_refusal(call, admin, amount as int) is None,
    ensures
        s.rewards_added(amount as int).valid(),
        s.consistent() ==> s.rewards_added(amount as int).consistent(),
{
}

/// After a distribution the records still fit together.
pub proof fn law_update_rewards_keeps_consistency(
    s: StakingState,
    call: Invocation,
    admin: Address,
    new_rewards: i128,
)
    requires
        s.valid(),
        s.update_rewards_refusal(call, admin, new_rewards as int) is None,
    ensures
        s.rewards_updated(new_rewards as int).valid(),
        s.consistent() ==> s.rewards_updated(new_rewards as int).consistent(),
{
    let after = s.rewards_updated(new_rewards as int);
    law_accumulator_never_falls(s, call, admin, new_rewards);
    assert forall|a: Address| #[trigger] after.positions.contains_key(a) implies after.positions[a].debt_covered(
        after.acc(),
    ) by {
        lemma_position(s, a);
        let e = s.positions[a].effective();
        let (less, more) = (s.acc(), after.acc());
        assert(e * less <= e * more) by (nonlinear_arith)
            requires
                0 <= e,
                less <= more,
        ;
    }
}

/// Rewards per share never fall.
pub proof fn law_accumulator_never_falls(
    s: StakingState,
    call: Invocation,
    admin: Address,
    new_rewards: i128,
)
    requires
        s.valid(),
        s.update_rewards_refusal(call, admin, new_rewards as int) is None,
    ensures
        s.rewards_updated(new_rewards as int).acc() == s.acc() + s.share_increase(
            new_rewards as int,
        ),
        s.share_increase(new_rewards as int) >= 0,
{
    vstd::arithmetic::div_mod::lemma_div_pos_is_pos(
        new_rewards * SCALE_FACTOR,
        s.pool->0.total_effective_staked as int,
    );
}

// ── What a lock earns ─────────────────────────────────────────────────────
/// Staking without a lock gives no boost: where no lock runs and none is asked
/// for, the effective amount is the staked amount, and no lock begins.
pub proof fn law_no_lock_no_boost(
    s: StakingState,
    call: Invocation,
    staker: Address,
    amount: i128,
)
    requires
        s.valid(),
        s.stake_refusal(call, staker, amount as int, 0) is None,
        s.position(staker).lock_expiry <= call.timestamp,
    ensures
        ({
            let after = s.staked(staker, amount as int, 0, call.timestamp as int).position(staker);
            &&& after.boost_multiplier == MIN_BOOST
            &&& after.effective() == after.staked_amount
            &&& after.lock_expiry == s.position(staker).lock_expiry
        }),
{
    lemma_after_stake(s, call, staker, amount as int, 0);
    let after = s.staked(staker, amount as int, 0, call.timestamp as int).position(staker);
    law_boost_range(after.lock_expiry as int, call.timestamp as int);
    law_boosted_range(after.staked_amount as int, MIN_BOOST as int);
}

/// The longest lock gives the largest boost: the effective amount of the whole
/// position is four times the staked amount.
pub proof fn law_longest_lock_quadruples(
    s: StakingState,
    call: Invocation,
    staker: Address,
    amount: i128,
    duration: u64,
)
    requires
        s.valid(),
        duration >= MAX_LOCK_DURATION,
        s.stake_refusal(call, staker, amount as int, duration as int) is None,
    ensures
        ({
            let after = s.staked(
                staker,
                amount as int,
                duration as int,
                call.timestamp as int,
            ).position(staker);
            &&& after.boost_multiplier == MAX_BOOST
            &&& after.effective() == 4 * after.staked_amount
        }),
{
    lemma_after_stake(s, call, staker, amount as int, duration as int);
    let after = s.staked(
        staker,
        amount as int,
        duration as int,
        call.timestamp as int,
    ).position(staker);
    law_boost_range(after.lock_expiry as int, call.timestamp as int);
    law_boosted_range(after.staked_amount as int, MAX_BOOST as int);
}

// ── LP tokens ─────────────────────────────────────────────────────────────
/// The LP tokens on record grow by exactly what is staked: a boost leaves them
/// alone.
pub proof fn law_stake_adds_lp(
    s: StakingState,
    call: Invocation,
    staker: Address,
    amount: i128,
    duration: u64,
)
    requires
        s.valid(),
        s.stake_refusal(call, staker, amount as int, duration as int) is None,
    ensures
        ({
            let after = s.staked(staker, amount as int, duration as int, call.timestamp as int);
            &&& sum_staked(after.positions) == sum_staked(s.positions) + amount
            &&& after.position(staker).staked_amount == s.position(staker).staked_amount + amount
        }),
{
    lemma_after_stake(s, call, staker, amount as int, duration as int);
    let p = s.position(staker).after_stake(
        amount as int,
        duration as int,
        call.timestamp as int,
        s.acc(),
    );
    lemma_sum_insert(s.positions, |p: Position| p.staked_amount as int, staker, p);
}

/// The LP tokens on record shrink by exactly what is taken out.
pub proof fn law_unstake_removes_lp(
    s: StakingState,
    call: Invocation,
    staker: Address,
    amount: i128,
)
    requires
        s.valid(),
        s.unstake_refusal(call, staker, amount as int) is None,
    ensures
        sum_staked(s.unstaked(staker, amount as int).positions) == sum_staked(s.positions) - amount,
        s.unstaked(staker, amount as int).position(staker).staked_amount == s.position(
            staker,
        ).staked_amount - amount,
{
    lemma_after_unstake(s, call, staker, amount as int);
    let p = s.position(staker).after_unstake(amount as int, s.acc());
    assert(s.positions.contains_key(staker));
    lemma_sum_insert(s.positions, |p: Position| p.staked_amount as int, staker, p);
}

/// A claim moves no LP tokens.
pub proof fn law_claim_keeps_lp(s: StakingState, call: Invocation, staker: Address)
    requires
        s.valid(),
        s.claim_refusal(call, staker) is None,
    ensures
        sum_staked(s.claimed(staker).positions) == sum_staked(s.positions),
        s.claimed(staker).position(staker).staked_amount == s.position(staker).staked_amount,
{
    lemma_sum_insert(
        s.positions,
        |p: Position| p.staked_amount as int,
        staker,
        s.position(staker).settled(s.acc()),
    );
}

/// Someone who had nothing staked gets back what they staked, once the lock has
/// ended, and the total is then what it was.
pub proof fn law_stake_then_unstake(
    s: StakingState,
    call: Invocation,
    staker: Address,
    amount: i128,
    duration: u64,
    later: Invocation,
)
    requires
        s.valid(),
        s.position(staker).staked_amount == 0,
        s.stake_refusal(call, staker, amount as int, duration as int) is None,
        later.authorized(staker),
        ({
            let mid = s.staked(staker, amount as int, duration as int, call.timestamp as int);
            later.timestamp >= mid.position(staker).lock_expiry
        }),
    ensures
        ({
            let mid = s.staked(staker, amount as int, duration as int, call.timestamp as int);
            let after = mid.unstaked(staker, amount as int);
            &&& mid.unstake_refusal(later, staker, amount as int) is None
            &&& mid.pending(staker) == 0
            &&& after.position(staker).staked_amount == 0
            &&& after.pool == s.pool
        }),
{
    let mid = s.staked(staker, amount as int, duration as int, call.timestamp as int);
    lemma_after_stake(s, call, staker, amount as int, duration as int);
    law_stake_keeps_consistency(s, call, staker, amount, duration);
    lemma_position(s, staker);
    lemma_position(mid, staker);
    assert(mid.pending(staker) == 0);
    lemma_after_unstake(mid, later, staker, amount as int);
}

/// Staking and taking the same amount out again, at the same time and with
/// nothing pending, leaves everything as it was, whatever was staked before:
/// where no boost and no running lock is involved, the position and the pool's
/// record are the same again, the LP tokens moved in and out cancel, and no
/// reward token moves.
pub proof fn law_stake_then_unstake_restores(
    s: StakingState,
    call: Invocation,
    staker: Address,
    amount: i128,
)
    requires
        s.valid(),
        s.position(staker).boost_multiplier == MIN_BOOST,
        s.position(staker).lock_expiry <= call.timestamp,
        s.pending(staker) == 0,
        s.stake_refusal(call, staker, amount as int, 0) is None,
    ensures
        ({
            let now = call.timestamp as int;
            let mid = s.staked(staker, amount as int, 0, now);
            let after = mid.unstaked(staker, amount as int);
            let lp_token = s.pool->0.lp_token;
            &&& mid.unstake_refusal(call, staker, amount as int) is None
            &&& mid.pending(staker) == 0
            &&& after.position(staker) == s.position(staker)
            &&& after.pool == s.pool
            &&& sum_staked(after.positions) == sum_staked(s.positions)
            &&& s.stake_effects(call.contract, staker, amount, 0, now)[0] == (Effect::TransferFrom {
                token: lp_token,
                spender: staker,
                from: staker,
                to: call.contract,
                amount,
            })
            &&& mid.unstake_effects(call.contract, staker, amount) == seq![
                Effect::Transfer { token: lp_token, from: call.contract, to: staker, amount },
                Effect::Publish { event: Event::Unstaked { staker, amount, rewards: 0 } },
            ]
        }),
{
    let now = call.timestamp as int;
    let before = s.position(staker);
    let mid = s.staked(staker, amount as int, 0, now);
    lemma_after_stake(s, call, staker, amount as int, 0);
    law_boost_range(before.lock_expiry as int, now);
    law_stake_keeps_consistency(s, call, staker, amount, 0);
    lemma_position(s, staker);
    lemma_position(mid, staker);
    lemma_after_unstake(mid, call, staker, amount as int);
    let after = mid.unstaked(staker, amount as int);
    law_pending_by_formula(s, staker);
    assert(after.position(staker).staked_amount == before.staked_amount);
    assert(before.rewards_debt == before.accrued(s.acc()));
    law_stake_adds_lp(s, call, staker, amount, 0);
    law_unstake_removes_lp(mid, call, staker, amount);
    assert(mid.unstake_effects(call.contract, staker, amount) =~= seq![
        Effect::Transfer { token: s.pool->0.lp_token, from: call.contract, to: staker, amount },
        Effect::Publish { event: Event::Unstaked { staker, amount, rewards: 0 } },
    ]);
}

// ── Rewards of one staker ─────────────────────────────────────────────────
/// What is owed to anyone is the plain formula over what is reported of them:
/// the effective amount times the rewards per share, in whole tokens, less the
/// debt, and never below zero. Whoever has nothing staked is owed nothing.
pub proof fn law_pending_by_formula(s: StakingState, who: Address)
    requires
        s.valid(),
    ensures
        s.pending(who) == owed_by_formula(s.position(who).info(), s.acc()),
        s.pending(who) >= 0,
        s.position(who).staked_amount == 0 ==> s.pending(who) == 0,
        s.position(who).info().effective_amount == s.position(who).effective(),
        s.position(who).debt_covered(s.acc()),
{
    let p = s.position(who);
    lemma_position(s, who);
    law_boosted_range(p.staked_amount as int, p.boost_multiplier as int);
    if s.pool is None {
        assert(!s.positions.contains_key(who));
    }
    if p.staked_amount == 0 {
        assert(p.effective() * s.acc() == 0) by (nonlinear_arith)
            requires
                p.effective() == 0,
        ;
    }
}

/// Staking more loses no rewards: what was owed before is still owed.
pub proof fn law_stake_keeps_pending(
    s: StakingState,
    call: Invocation,
    staker: Address,
    amount: i128,
    duration: u64,
)
    requires
        s.valid(),
        s.stake_refusal(call, staker, amount as int, duration as int) is None,
    ensures
        s.staked(staker, amount as int, duration as int, call.timestamp as int).pending(staker)
            == s.pending(staker),
{
    lemma_after_stake(s, call, staker, amount as int, duration as int);
}

/// A claim pays everything owed: nothing is owed afterwards, and a second claim
/// is refused for want of rewards.
pub proof fn law_claim_pays_everything(
    s: StakingState,
    call: Invocation,
    staker: Address,
    again: Invocation,
)
    requires
        s.valid(),
        s.claim_refusal(call, staker) is None,
        again.authorized(staker),
    ensures
        s.claimed(staker).pending(staker) == 0,
        s.claimed(staker).claim_refusal(again, staker) == Some(StakingError::NoPendingRewards),
{
    lemma_position(s, staker);
}

/// Taking out a stake leaves no rewards owed: they were all paid.
pub proof fn law_unstake_pays_everything(
    s: StakingState,
    call: Invocation,
    staker: Address,
    amount: i128,
)
    requires
        s.valid(),
        s.unstake_refusal(call, staker, amount as int) is None,
    ensures
        s.unstaked(staker, amount as int).pending(staker) == 0,
{
    lemma_after_unstake(s, call, staker, amount as int);
}

/// Rewards that are added are owed to nobody until they are distributed.
pub proof fn law_added_rewards_are_not_owed(s: StakingState, amount: i128, who: Address)
    requires
        s.valid(),
    ensures
        s.rewards_added(amount as int).pending(who) == s.pending(who),
        s.rewards_added(amount as int).position(who) == s.position(who),
{
}

/// What one staker does changes neither the position of another nor the rewards
/// owed to them.
pub proof fn law_stakers_are_independent(
    s: StakingState,
    staker: Address,
    other: Address,
    amount: i128,
    duration: u64,
    now: u64,
)
    requires
        s.valid(),
        other != staker,
    ensures
        s.staked(staker, amount as int, duration as int, now as int).position(other) == s.position(
            other,
        ),
        s.staked(staker, amount as int, duration as int, now as int).pending(other) == s.pending(
            other,
        ),
        s.claimed(staker).position(other) == s.position(other),
        s.claimed(staker).pending(other) == s.pending(other),
        s.unstaked(staker, amount as int).position(other) == s.position(other),
        s.unstaked(staker, amount as int).pending(other) == s.pending(other),
{
}

// ── Locks ─────────────────────────────────────────────────────────────────
/// A lock is never shortened, whatever a staker does.
pub proof fn law_lock_never_shortened(
    s: StakingState,
    call: Invocation,
    staker: Address,
    amount: i128,
    duration: u64,
)
    requires
        s.valid(),
    ensures
        s.stake_refusal(call, staker, amount as int, duration as int) is None ==> s.staked(
            staker,
            amount as int,
            duration as int,
            call.timestamp as int,
        ).position(staker).lock_expiry >= s.position(staker).lock_expiry,
        s.claimed(staker).position(staker).lock_expiry == s.position(staker).lock_expiry,
        s.unstaked(staker, amount as int).position(staker).lock_expiry == s.position(
            staker,
        ).lock_expiry,
{
    if s.stake_refusal(call, staker, amount as int, duration as int) is None {
        lemma_after_stake(s, call, staker, amount as int, duration as int);
    }
}

/// A stake with a lock stays: until the lock ends, one week later at the
/// earliest, nothing can be taken out.
pub proof fn law_locked_stake_stays(
    s: StakingState,
    call: Invocation,
    staker: Address,
    amount: i128,
    duration: u64,
    later: Invocation,
    part: i128,
)
    requires
        s.valid(),
        duration > 0,
        s.stake_refusal(call, staker, amount as int, duration as int) is None,
        later.authorized(staker),
        0 < part <= s.position(staker).staked_amount + amount,
    ensures
        ({
            let after = s.staked(staker, amount as int, duration as int, call.timestamp as int);
            &&& after.position(staker).lock_expiry >= call.timestamp + MIN_LOCK_DURATION
            &&& later.timestamp < after.position(staker).lock_expiry ==> after.unstake_refusal(
                later,
                staker,
                part as int,
            ) == Some(StakingError::StillLocked)
        }),
{
    lemma_after_stake(s, call, staker, amount as int, duration as int);
}

// ── Distribution ──────────────────────────────────────────────────────────
/// A distribution hands out no more than the new rewards, and leaves over less
/// than one unit of rewards per share.
pub proof fn law_distribution_bound(
    s: StakingState,
    call: Invocation,
    admin: Address,
    new_rewards: i128,
)
    requires
        s.valid(),
        s.update_rewards_refusal(call, admin, new_rewards as int) is None,
    ensures
        ({
            let total = s.pool->0.total_effective_staked;
            let increase = s.share_increase(new_rewards as int);
            total * increase <= new_rewards * SCALE_FACTOR < total * (increase + 1)
        }),
{
    let total = s.pool->0.total_effective_staked as int;
    let scaled = new_rewards * SCALE_FACTOR;
    let increase = scaled / total;
    vstd::arithmetic::div_mod::lemma_fundamental_div_mod(scaled, total);
    vstd::arithmetic::div_mod::lemma_mod_bound(scaled, total);
    assert(total * (increase + 1) == total * increase + total) by (nonlinear_arith);
}

/// A distribution raises what is owed to each staker by their share of it, that
/// is their effective amount times the growth of the rewards per share, rounded
/// to a whole token one way or the other.
pub proof fn law_share_of_distribution(
    s: StakingState,
    call: Invocation,
    admin: Address,
    new_rewards: i128,
    staker: Address,
)
    requires
        s.valid(),
        s.update_rewards_refusal(call, admin, new_rewards as int) is None,
    ensures
        ({
            let share = s.position(staker).effective() * s.share_increase(new_rewards as int);
            let gain = s.rewards_updated(new_rewards as int).pending(staker) - s.pending(staker);
            share / (SCALE_FACTOR as int) <= gain <= share / (SCALE_FACTOR as int) + 1
        }),
{
    let after = s.rewards_updated(new_rewards as int);
    law_accumulator_never_falls(s, call, admin, new_rewards);
    lemma_position(s, staker);
    law_update_rewards_keeps_consistency(s, call, admin, new_rewards);
    lemma_position(after, staker);
    let e = s.position(staker).effective();
    let acc = s.acc();
    let increase = s.share_increase(new_rewards as int);
    assert(e * (acc + increase) == e * acc + e * increase) by (nonlinear_arith);
    lemma_product_not_negative(e, increase);
    if s.position(staker).staked_amount == 0 {
        law_boosted_range(0, s.position(staker).boost_multiplier as int);
        assert(e == 0);
        assert(e * increase == 0) by (nonlinear_arith)
            requires
                e == 0,
        ;
    } else {
        assert(s.positions.contains_key(staker));
        assert(after.positions.contains_key(staker));
    }
}

/// A distribution is shared by effective amount: what is owed to each staker
/// never falls, rises by at most their part of the new rewards in proportion to
/// the total, and a token of rounding, and rises by exactly that part, in whole
/// tokens, where the rewards per share come out even and so does what the staker
/// accrued before.
pub proof fn law_distribution_in_proportion(
    s: StakingState,
    call: Invocation,
    admin: Address,
    new_rewards: i128,
    staker: Address,
)
    requires
        s.valid(),
        s.update_rewards_refusal(call, admin, new_rewards as int) is None,
    ensures
        ({
            let total = s.pool->0.total_effective_staked as int;
            let effective = s.position(staker).effective();
            let part = effective * new_rewards / total;
            let gain = s.rewards_updated(new_rewards as int).pending(staker) - s.pending(staker);
            &&& 0 <= gain <= part + 1
            &&& (new_rewards * SCALE_FACTOR) % total == 0 && (effective * s.acc())
                % (SCALE_FACTOR as int) == 0 ==> gain == part
        }),
{
    let after = s.rewards_updated(new_rewards as int);
    law_share_of_distribution(s, call, admin, new_rewards, staker);
    law_accumulator_never_falls(s, call, admin, new_rewards);
    law_distribution_bound(s, call, admin, new_rewards);
    law_update_rewards_keeps_consistency(s, call, admin, new_rewards);
    law_pending_by_formula(s, staker);
    law_pending_by_formula(after, staker);
    lemma_position(s, staker);
    let total = s.pool->0.total_effective_staked as int;
    let scale = SCALE_FACTOR as int;
    let e = s.position(staker).effective();
    let n = new_rewards as int;
    let increase = s.share_increase(n);
    let share = e * increase;
    let part = e * n / total;
    lemma_product_not_negative(e, increase);
    lemma_product_not_negative(e, n);
    vstd::arithmetic::div_mod::lemma_fundamental_div_mod(e * n, total);
    vstd::arithmetic::div_mod::lemma_mod_bound(e * n, total);
    // In units of the total, the share is at most the part of the new rewards.
    assert(total * share <= scale * (e * n)) by (nonlinear_arith)
        requires
            share == e * increase,
            total * increase <= n * scale,
            0 <= e,
    ;
    let whole = share / scale;
    assert(whole * scale <= share < (whole + 1) * scale);
    assert(whole <= part) by (nonlinear_arith)
        requires
            total > 0,
            scale > 0,
            whole * scale <= share,
            total * share <= scale * (e * n),
            e * n < total * part + total,
    ;
    if (n * scale) % total == 0 && (e * s.acc()) % scale == 0 {
        vstd::arithmetic::div_mod::lemma_fundamental_div_mod(n * scale, total);
        assert(total * share == scale * (e * n)) by (nonlinear_arith)
            requires
                share == e * increase,
                total * increase == n * scale,
        ;
        assert(part <= whole) by (nonlinear_arith)
            requires
                total > 0,
                scale > 0,
                share < (whole + 1) * scale,
                total * share == scale * (e * n),
                total * part <= e * n,
        ;
        let acc = s.acc();
        assert(e * (acc + increase) == e * acc + share) by (nonlinear_arith)
            requires
                share == e * increase,
        ;
    }
}

/// Rewards follow effective amounts: with `factor` times the effective amount,
/// `factor` times the rewards accrue, up to the rounding to whole tokens.
pub proof fn law_rewards_follow_effective_amounts(
    p: Position,
    q: Position,
    factor: nat,
    acc: nat,
)
    requires
        p.valid(),
        q.valid(),
        factor > 0,
        q.effective() == factor * p.effective(),
    ensures
        factor * p.accrued(acc as int) <= q.accrued(acc as int) < factor * (p.accrued(acc as int)
            + 1),
{
    law_boosted_range(p.staked_amount as int, p.boost_multiplier as int);
    law_boosted_range(q.staked_amount as int, q.boost_multiplier as int);
    let e = p.effective();
    let x = e * acc;
    let scale = SCALE_FACTOR as int;
    assert(x >= 0) by (nonlinear_arith)
        requires
            x == e * acc,
            e >= 0,
            acc >= 0,
    ;
    assert(q.effective() * acc == factor * x) by (nonlinear_arith)
        requires
            q.effective() == factor * e,
            x == e * acc,
    ;
    let whole = x / scale;
    assert(factor * x >= factor * (whole * scale) && factor * x < factor * ((whole + 1) * scale))
        by (nonlinear_arith)
        requires
            factor > 0,
            whole * scale <= x < (whole + 1) * scale,
    ;
    assert(factor * (whole * scale) == (factor * whole) * scale) by (nonlinear_arith);
    assert(factor * ((whole + 1) * scale) == (factor * (whole + 1)) * scale) by (nonlinear_arith);
    assert(factor * x >= 0) by (nonlinear_arith)
        requires
            factor > 0,
            x >= 0,
    ;
}

// ── What the pool owes ────────────────────────────────────────────────────
/// A term by term bound carries over to the sums.
proof fn lemma_sum_scaled_bound(
    m: Map<Address, Position>,
    f: spec_fn(Position) -> int,
    g: spec_fn(Position) -> int,
)
    requires
        m.dom().finite(),
        forall|a: Address| #[trigger] m.contains_key(a) ==> SCALE_FACTOR * f(m[a]) <= g(m[a]),
    ensures
        SCALE_FACTOR * sum_over(m, f) <= sum_over(m, g),
    decreases m.dom().len(),
{
    if !m.dom().is_empty() {
        let c = m.dom().choose();
        assert(m.contains_key(c));
        lemma_sum_scaled_bound(m.remove(c), f, g);
    }
}

/// More rewards per share raise the entitlement by the effective amounts.
proof fn lemma_entitlement_grows(m: Map<Address, Position>, acc: int, increase: int)
    requires
        m.dom().finite(),
    ensures
        sum_entitlement(m, acc + increase) == sum_entitlement(m, acc) + sum_effective(m) * increase,
    decreases m.dom().len(),
{
    if !m.dom().is_empty() {
        let c = m.dom().choose();
        assert(m.contains_key(c));
        lemma_entitlement_grows(m.remove(c), acc, increase);
        let e = m[c].effective();
        let rest = sum_effective(m.remove(c));
        assert(e * (acc + increase) == e * acc + e * increase) by (nonlinear_arith);
        assert((e + rest) * increase == e * increase + rest * increase) by (nonlinear_arith);
    } else {
        assert(0 * increase == 0);
    }
}

/// The rewards owed to all stakers together are covered by their entitlement.
pub proof fn law_pending_within_entitlement(s: StakingState)
    requires
        s.valid(),
    ensures
        SCALE_FACTOR * sum_pending(s.positions, s.acc()) <= sum_entitlement(s.positions, s.acc()),
{
    let acc = s.acc();
    assert forall|a: Address| #[trigger] s.positions.contains_key(a) implies SCALE_FACTOR
        * s.positions[a].pending(acc) <= s.positions[a].effective() * acc - SCALE_FACTOR
        * s.positions[a].rewards_debt by {
        lemma_position(s, a);
    }
    lemma_sum_scaled_bound(
        s.positions,
        |p: Position| p.pending(acc),
        |p: Position| p.effective() * acc - SCALE_FACTOR * p.rewards_debt,
    );
}

/// A distribution raises the entitlement of all stakers together by no more than
/// the new rewards.
pub proof fn law_distribution_raises_entitlement(
    s: StakingState,
    call: Invocation,
    admin: Address,
    new_rewards: i128,
)
    requires
        s.valid(),
        s.update_rewards_refusal(call, admin, new_rewards as int) is None,
    ensures
        ({
            let after = s.rewards_updated(new_rewards as int);
            sum_entitlement(after.positions, after.acc()) <= sum_entitlement(s.positions, s.acc())
                + SCALE_FACTOR * new_rewards
        }),
{
    law_accumulator_never_falls(s, call, admin, new_rewards);
    law_distribution_bound(s, call, admin, new_rewards);
    let increase = s.share_increase(new_rewards as int);
    lemma_entitlement_grows(s.positions, s.acc(), increase);
    let (on_record, total) = (sum_effective(s.positions), s.pool->0.total_effective_staked as int);
    assert(on_record * increase <= total * increase) by (nonlinear_arith)
        requires
            on_record <= total,
            0 <= increase,
    ;
}

/// A claim lowers the entitlement by exactly what it pays.
pub proof fn law_claim_lowers_entitlement(s: StakingState, call: Invocation, staker: Address)
    requires
        s.valid(),
        s.claim_refusal(call, staker) is None,
    ensures
        sum_entitlement(s.claimed(staker).positions, s.acc()) == sum_entitlement(
            s.positions,
            s.acc(),
        ) - SCALE_FACTOR * s.pending(staker),
{
    let acc = s.acc();
    lemma_position(s, staker);
    assert(s.positions.contains_key(staker));
    lemma_sum_insert(
        s.positions,
        |p: Position| p.effective() * acc - SCALE_FACTOR * p.rewards_debt,
        staker,
        s.position(staker).settled(acc),
    );
}

/// Staking creates no entitlement but for rounding: less than one token.
pub proof fn law_stake_raises_no_entitlement(
    s: StakingState,
    call: Invocation,
    staker: Address,
    amount: i128,
    duration: u64,
)
    requires
        s.valid(),
        s.stake_refusal(call, staker, amount as int, duration as int) is None,
    ensures
        ({
            let after = s.staked(staker, amount as int, duration as int, call.timestamp as int);
            sum_entitlement(after.positions, s.acc()) < sum_entitlement(s.positions, s.acc())
                + SCALE_FACTOR
        }),
{
    let acc = s.acc();
    lemma_position(s, staker);
    lemma_after_stake(s, call, staker, amount as int, duration as int);
    let p = s.position(staker).after_stake(
        amount as int,
        duration as int,
        call.timestamp as int,
        acc,
    );
    law_boosted_range(p.staked_amount as int, p.boost_multiplier as int);
    let e = p.effective();
    lemma_product_not_negative(e, acc);
    lemma_sum_insert(
        s.positions,
        |p: Position| p.effective() * acc - SCALE_FACTOR * p.rewards_debt,
        staker,
        p,
    );
}

/// Taking out a stake lowers the entitlement by what is paid, but for rounding:
/// less than one token.
pub proof fn law_unstake_lowers_entitlement(
    s: StakingState,
    call: Invocation,
    staker: Address,
    amount: i128,
)
    requires
        s.valid(),
        s.unstake_refusal(call, staker, amount as int) is None,
    ensures
        sum_entitlement(s.unstaked(staker, amount as int).positions, s.acc()) < sum_entitlement(
            s.positions,
            s.acc(),
        ) - SCALE_FACTOR * s.pending(staker) + SCALE_FACTOR,
{
    let acc = s.acc();
    lemma_position(s, staker);
    lemma_after_unstake(s, call, staker, amount as int);
    let p = s.position(staker).after_unstake(amount as int, acc);
    law_boosted_range(p.staked_amount as int, p.boost_multiplier as int);
    let e = p.effective();
    lemma_product_not_negative(e, acc);
    assert(s.positions.contains_key(staker));
    lemma_sum_insert(
        s.positions,
        |p: Position| p.effective() * acc - SCALE_FACTOR * p.rewards_debt,
        staker,
        p,
    );
}

// ── Records ───────────────────────────────────────────────────────────────
/// Two states name the same tokens and the same admin.
pub open spec fn same_terms(s: StakingState, t: StakingState) -> bool {
    match (s.pool, t.pool) {
        (Some(a), Some(b)) => a.lp_token == b.lp_token && a.reward_token == b.reward_token
            && a.admin == b.admin,
        (None, None) => true,
        _ => false,
    }
}

/// The tokens and the admin of a pool never change once they are set.
pub proof fn law_terms_are_fixed(
    s: StakingState,
    staker: Address,
    amount: i128,
    duration: u64,
    now: u64,
)
    requires
        s.valid(),
    ensures
        same_terms(s, s.staked(staker, amount as int, duration as int, now as int)),
        same_terms(s, s.claimed(staker)),
        same_terms(s, s.unstaked(staker, amount as int)),
        same_terms(s, s.rewards_added(amount as int)),
        same_terms(s, s.rewards_updated(amount as int)),
{
}

/// An operation of a staker depends on the pool's record and the staker's own
/// position, and on no other position: two states that agree on these refuse
/// alike, and agree on these afterwards.
pub proof fn law_one_position_suffices(
    s: StakingState,
    t: StakingState,
    call: Invocation,
    staker: Address,
    amount: i128,
    duration: u64,
)
    requires
        s.valid(),
        t.valid(),
        s.pool == t.pool,
        s.position(staker) == t.position(staker),
    ensures
        s.stake_refusal(call, staker, amount as int, duration as int) == t.stake_refusal(
            call,
            staker,
            amount as int,
            duration as int,
        ),
        s.claim_refusal(call, staker) == t.claim_refusal(call, staker),
        s.unstake_refusal(call, staker, amount as int) == t.unstake_refusal(
            call,
            staker,
            amount as int,
        ),
        agree(
            s.staked(staker, amount as int, duration as int, call.timestamp as int),
            t.staked(staker, amount as int, duration as int, call.timestamp as int),
            staker,
        ),
        agree(s.claimed(staker), t.claimed(staker), staker),
        agree(s.unstaked(staker, amount as int), t.unstaked(staker, amount as int), staker),
{
}

/// The pool's record and one position, taken out of a sound state, are sound by
/// themselves, and they are what an operation of `who` depends on.
pub proof fn law_excerpt_is_sound(s: StakingState, who: Address)
    requires
        s.valid(),
    ensures
        ({
            let excerpt = ledger_excerpt(
                s.pool,
                if s.positions.contains_key(who) {
                    Some((who, s.positions[who]))
                } else {
                    None
                },
            );
            excerpt.valid() && agree(excerpt, s, who)
        }),
{
    let f = |p: Position| p.effective();
    assert forall|a: Address| #[trigger] s.positions.contains_key(a) implies f(s.positions[a])
        >= 0 by {
        lemma_position(s, a);
    }
    lemma_sum_of_none();
    lemma_sum_not_negative(s.positions, f);
    if s.positions.contains_key(who) {
        lemma_sum_of_one(who, s.positions[who]);
        lemma_sum_split(s.positions, f, who);
        lemma_sum_not_negative(s.positions.remove(who), f);
    }
}

/// Two states have the same pool record and the same position of `who`.
pub open spec fn agree(s: StakingState, t: StakingState, who: Address) -> bool {
    s.pool == t.pool && s.position(who) == t.position(who)
}

/// An authorization is asked for once: when `who` has authorized the call, no
/// operation of theirs is refused for want of an authorization.
pub proof fn law_authorization_is_asked_once(
    s: StakingState,
    call: Invocation,
    who: Address,
    amount: i128,
    duration: u64,
)
    requires
        call.authorized(who),
    ensures
        !(s.stake_refusal(call, who, amount as int, duration as int) matches Some(
            StakingError::AuthRequired { .. },
        )),
        !(s.claim_refusal(call, who) matches Some(StakingError::AuthRequired { .. })),
        !(s.unstake_refusal(call, who, amount as int) matches Some(
            StakingError::AuthRequired { .. },
        )),
        !(s.add_rewards_refusal(call, who, amount as int) matches Some(
            StakingError::AuthRequired { .. },
        )),
        !(s.update_rewards_refusal(call, who, amount as int) matches Some(
            StakingError::AuthRequired { .. },
        )),
{
}

} // verus!
