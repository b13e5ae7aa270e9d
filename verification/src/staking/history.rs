//! What holds of the staking pool over any run of operations.

use vstd::prelude::*;
use crate::address::Address;
use crate::invocation::{Effect, Event, Invocation};
use super::guarantees::{
    law_claim_in_numbers, law_owed_in_numbers, law_stake_moves_the_amount,
    law_unstake_moves_the_amount, lemma_effective_range,
};
use super::laws::{
    law_accumulator_never_falls, law_add_rewards_keeps_consistency, law_claim_keeps_consistency,
    law_claim_keeps_lp, law_claim_lowers_entitlement, law_distribution_raises_entitlement,
    law_pending_within_entitlement, law_stake_adds_lp, law_stake_keeps_consistency,
    law_stake_raises_no_entitlement, law_unstake_keeps_consistency,
    law_unstake_lowers_entitlement, law_unstake_removes_lp, law_update_rewards_keeps_consistency,
};
use super::model::{
    sum_entitlement, sum_pending, sum_staked, StakingError, StakingState, SCALE_FACTOR,
};

verus! {

/// An operation that changes an initialized pool.
pub enum Operation {
    AddRewards { admin: Address, amount: i128 },
    UpdateRewards { admin: Address, new_rewards: i128 },
    Stake { staker: Address, amount: i128, duration: u64 },
    Claim { staker: Address },
    Unstake { staker: Address, amount: i128 },
}

/// An operation and the call that it is part of.
pub struct Step {
    pub call: Invocation,
    pub operation: Operation,
}

impl Step {
    /// Why the operation is refused in state `s`, if it is.
    pub open spec fn refusal(self, s: StakingState) -> Option<StakingError> {
        match self.operation {
            Operation::AddRewards { admin, amount } => s.add_rewards_refusal(
                self.call,
                admin,
                amount as int,
            ),
            Operation::UpdateRewards { admin, new_rewards } => s.update_rewards_refusal(
                self.call,
                admin,
                new_rewards as int,
            ),
            Operation::Stake { staker, amount, duration } => s.stake_refusal(
                self.call,
                staker,
                amount as int,
                duration as int,
            ),
            Operation::Claim { staker } => s.claim_refusal(self.call, staker),
            Operation::Unstake { staker, amount } => s.unstake_refusal(
                self.call,
                staker,
                amount as int,
            ),
        }
    }

    /// The state that the operation leads to from `s`; the same state if it is
    /// refused.
    pub open spec fn next(self, s: StakingState) -> StakingState {
        if self.refusal(s) is Some {
            s
        } else {
            match self.operation {
                Operation::AddRewards { amount, .. } => s.rewards_added(amount as int),
                Operation::UpdateRewards { new_rewards, .. } => s.rewards_updated(
                    new_rewards as int,
                ),
                Operation::Stake { staker, amount, duration } => s.staked(
                    staker,
                    amount as int,
                    duration as int,
                    self.call.timestamp as int,
                ),
                Operation::Claim { staker } => s.claimed(staker),
                Operation::Unstake { staker, amount } => s.unstaked(staker, amount as int),
            }
        }
    }

    /// What the host is asked to do.
    pub open spec fn effects(self, s: StakingState) -> Seq<Effect> {
        let contract = self.call.contract;
        if self.refusal(s) is Some {
            seq![]
        } else {
            match self.operation {
                Operation::AddRewards { admin, amount } => s.add_rewards_effects(
                    contract,
                    admin,
                    amount,
                ),
                Operation::UpdateRewards { new_rewards, .. } => seq![
                    Effect::Publish { event: Event::RewardsUpdated { new_rewards } },
                ],
                Operation::Stake { staker, amount, duration } => s.stake_effects(
                    contract,
                    staker,
                    amount,
                    duration as int,
                    self.call.timestamp as int,
                ),
                Operation::Claim { staker } => s.claim_effects(contract, staker),
                Operation::Unstake { staker, amount } => s.unstake_effects(
                    contract,
                    staker,
                    amount,
                ),
            }
        }
    }

    /// By how much the operation changes the stake of `who`.
    pub open spec fn stake_change(self, s: StakingState, who: Address) -> int {
        if self.refusal(s) is Some {
            0
        } else {
            match self.operation {
                Operation::Stake { staker, amount, .. } => if staker == who {
                    amount as int
                } else {
                    0
                },
                Operation::Unstake { staker, amount } => if staker == who {
                    -amount
                } else {
                    0
                },
                _ => 0,
            }
        }
    }

    /// What the operation comes to in the books.
    pub open spec fn entry(self, s: StakingState) -> Books {
        if self.refusal(s) is Some {
            Books::blank()
        } else {
            match self.operation {
                Operation::AddRewards { amount, .. } => Books {
                    added: amount as int,
                    ..Books::blank()
                },
                Operation::UpdateRewards { new_rewards, .. } => Books {
                    distributed: new_rewards as int,
                    ..Books::blank()
                },
                Operation::Stake { amount, .. } => Books {
                    lp_held: amount as int,
                    stake_changes: 1,
                    ..Books::blank()
                },
                Operation::Claim { staker } => Books {
                    paid: s.pending(staker),
                    ..Books::blank()
                },
                Operation::Unstake { staker, amount } => Books {
                    lp_held: -amount,
                    paid: s.pending(staker),
                    stake_changes: 1,
                    ..Books::blank()
                },
            }
        }
    }
}

/// What a run of operations comes to.
pub struct Books {
    /// Reward tokens that were added.
    pub added: int,
    /// Rewards that were distributed.
    pub distributed: int,
    /// Rewards that were paid to stakers.
    pub paid: int,
    /// LP tokens that came in, less those that went out.
    pub lp_held: int,
    /// How often a stake was changed.
    pub stake_changes: int,
}

impl Books {
    pub open spec fn blank() -> Books {
        Books { added: 0, distributed: 0, paid: 0, lp_held: 0, stake_changes: 0 }
    }

    pub open spec fn plus(self, other: Books) -> Books {
        Books {
            added: self.added + other.added,
            distributed: self.distributed + other.distributed,
            paid: self.paid + other.paid,
            lp_held: self.lp_held + other.lp_held,
            stake_changes: self.stake_changes + other.stake_changes,
        }
    }
}

/// The state after a run of operations.
pub open spec fn run(s: StakingState, steps: Seq<Step>) -> StakingState
    decreases steps.len(),
{
    if steps.len() == 0 {
        s
    } else {
        steps.last().next(run(s, steps.drop_last()))
    }
}

/// The books of a run of operations.
pub open spec fn books(s: StakingState, steps: Seq<Step>) -> Books
    decreases steps.len(),
{
    if steps.len() == 0 {
        Books::blank()
    } else {
        books(s, steps.drop_last()).plus(steps.last().entry(run(s, steps.drop_last())))
    }
}

/// A pool that was just set up.
pub open spec fn fresh(lp_token: Address, reward_token: Address, admin: Address) -> StakingState {
    StakingState::empty().initialized(lp_token, reward_token, admin)
}

/// One operation keeps the records fitting together.
proof fn lemma_step_keeps_consistency(s: StakingState, step: Step)
    requires
        s.consistent(),
        s.pool is Some,
    ensures
        step.next(s).consistent(),
        step.next(s).pool is Some,
{
    if step.refusal(s) is None {
        match step.operation {
            Operation::AddRewards { admin, amount } => {
                law_add_rewards_keeps_consistency(s, step.call, admin, amount);
            },
            Operation::UpdateRewards { admin, new_rewards } => {
                law_update_rewards_keeps_consistency(s, step.call, admin, new_rewards);
            },
            Operation::Stake { staker, amount, duration } => {
                law_stake_keeps_consistency(s, step.call, staker, amount, duration);
            },
            Operation::Claim { staker } => {
                law_claim_keeps_consistency(s, step.call, staker);
            },
            Operation::Unstake { staker, amount } => {
                law_unstake_keeps_consistency(s, step.call, staker, amount);
            },
        }
    }
}

/// Whatever is done with a pool, its records fit together: the total is the sum
/// of the effective amounts, and everybody's debt is covered.
pub proof fn law_every_state_is_consistent(
    lp_token: Address,
    reward_token: Address,
    admin: Address,
    steps: Seq<Step>,
)
    ensures
        run(fresh(lp_token, reward_token, admin), steps).consistent(),
        run(fresh(lp_token, reward_token, admin), steps).pool is Some,
    decreases steps.len(),
{
    let s = fresh(lp_token, reward_token, admin);
    if steps.len() == 0 {
        assert(s.positions.dom().is_empty());
    } else {
        law_every_state_is_consistent(lp_token, reward_token, admin, steps.drop_last());
        lemma_step_keeps_consistency(run(s, steps.drop_last()), steps.last());
    }
}

/// The reward balance on record is what was added less what was distributed.
pub proof fn law_balance_is_added_less_distributed(
    lp_token: Address,
    reward_token: Address,
    admin: Address,
    steps: Seq<Step>,
)
    ensures
        ({
            let s = fresh(lp_token, reward_token, admin);
            let total = books(s, steps);
            run(s, steps).pool->0.reward_pool_balance == total.added - total.distributed
        }),
    decreases steps.len(),
{
    let s = fresh(lp_token, reward_token, admin);
    if steps.len() > 0 {
        law_balance_is_added_less_distributed(lp_token, reward_token, admin, steps.drop_last());
        law_every_state_is_consistent(lp_token, reward_token, admin, steps.drop_last());
    }
}

/// The LP tokens on record are those that came in less those that went out: no
/// boost and no reward touches them.
pub proof fn law_lp_on_record_is_lp_held(
    lp_token: Address,
    reward_token: Address,
    admin: Address,
    steps: Seq<Step>,
)
    ensures
        ({
            let s = fresh(lp_token, reward_token, admin);
            sum_staked(run(s, steps).positions) == books(s, steps).lp_held
        }),
    decreases steps.len(),
{
    let s = fresh(lp_token, reward_token, admin);
    if steps.len() > 0 {
        law_lp_on_record_is_lp_held(lp_token, reward_token, admin, steps.drop_last());
        law_every_state_is_consistent(lp_token, reward_token, admin, steps.drop_last());
        let before = run(s, steps.drop_last());
        let step = steps.last();
        if step.refusal(before) is None {
            match step.operation {
                Operation::Stake { staker, amount, duration } => {
                    law_stake_adds_lp(before, step.call, staker, amount, duration);
                },
                Operation::Claim { staker } => {
                    law_claim_keeps_lp(before, step.call, staker);
                },
                Operation::Unstake { staker, amount } => {
                    law_unstake_removes_lp(before, step.call, staker, amount);
                },
                _ => {},
            }
        }
    }
}

/// What `who` staked less what `who` took out in a run of operations.
pub open spec fn net_stake(s: StakingState, steps: Seq<Step>, who: Address) -> int
    decreases steps.len(),
{
    if steps.len() == 0 {
        0
    } else {
        net_stake(s, steps.drop_last(), who) + steps.last().stake_change(
            run(s, steps.drop_last()),
            who,
        )
    }
}

/// The stake of each address is what it staked less what it took out.
pub proof fn law_stake_on_record_is_net_stake(
    lp_token: Address,
    reward_token: Address,
    admin: Address,
    steps: Seq<Step>,
    who: Address,
)
    ensures
        ({
            let s = fresh(lp_token, reward_token, admin);
            run(s, steps).position(who).staked_amount == net_stake(s, steps, who)
        }),
    decreases steps.len(),
{
    let s = fresh(lp_token, reward_token, admin);
    if steps.len() > 0 {
        law_stake_on_record_is_net_stake(lp_token, reward_token, admin, steps.drop_last(), who);
        law_every_state_is_consistent(lp_token, reward_token, admin, steps.drop_last());
        let before = run(s, steps.drop_last());
        let step = steps.last();
        if step.refusal(before) is None {
            match step.operation {
                Operation::Stake { staker, amount, duration } => {
                    law_stake_adds_lp(before, step.call, staker, amount, duration);
                },
                Operation::Unstake { staker, amount } => {
                    law_unstake_removes_lp(before, step.call, staker, amount);
                },
                _ => {},
            }
        }
    }
}

/// Rewards per share never fall: after any part of a run they are at most what
/// they are after the whole.
pub proof fn law_rewards_per_share_never_fall(
    lp_token: Address,
    reward_token: Address,
    admin: Address,
    steps: Seq<Step>,
    part: int,
)
    requires
        0 <= part <= steps.len(),
    ensures
        ({
            let s = fresh(lp_token, reward_token, admin);
            run(s, steps.take(part)).acc() <= run(s, steps).acc()
        }),
    decreases steps.len(),
{
    let s = fresh(lp_token, reward_token, admin);
    if part == steps.len() {
        assert(steps.take(part) =~= steps);
    } else {
        law_rewards_per_share_never_fall(lp_token, reward_token, admin, steps.drop_last(), part);
        assert(steps.drop_last().take(part) =~= steps.take(part));
        law_every_state_is_consistent(lp_token, reward_token, admin, steps.drop_last());
        let before = run(s, steps.drop_last());
        let step = steps.last();
        if step.refusal(before) is None {
            match step.operation {
                Operation::UpdateRewards { admin, new_rewards } => {
                    law_accumulator_never_falls(before, step.call, admin, new_rewards);
                },
                _ => {},
            }
        }
    }
}

/// The two tokens and the admin are those that the pool was set up with.
pub proof fn law_terms_are_those_of_the_start(
    lp_token: Address,
    reward_token: Address,
    admin: Address,
    steps: Seq<Step>,
)
    ensures
        ({
            let pool = run(fresh(lp_token, reward_token, admin), steps).pool;
            &&& pool is Some
            &&& pool->0.lp_token == lp_token
            &&& pool->0.reward_token == reward_token
            &&& pool->0.admin == admin
        }),
    decreases steps.len(),
{
    if steps.len() > 0 {
        law_terms_are_those_of_the_start(lp_token, reward_token, admin, steps.drop_last());
    }
}

/// How much of `token` the host is asked to move to `contract`.
pub open spec fn tokens_in(effects: Seq<Effect>, token: Address, contract: Address) -> int
    decreases effects.len(),
{
    if effects.len() == 0 {
        0
    } else {
        tokens_in(effects.drop_last(), token, contract) + match effects.last() {
            Effect::TransferFrom { token: moved, to, amount, .. } => if moved == token && to
                == contract {
                amount as int
            } else {
                0
            },
            _ => 0,
        }
    }
}

/// How much of `token` the host is asked to move out of `contract`.
pub open spec fn tokens_out(effects: Seq<Effect>, token: Address, contract: Address) -> int
    decreases effects.len(),
{
    if effects.len() == 0 {
        0
    } else {
        tokens_out(effects.drop_last(), token, contract) + match effects.last() {
            Effect::Transfer { token: moved, from, amount, .. } => if moved == token && from
                == contract {
                amount as int
            } else {
                0
            },
            _ => 0,
        }
    }
}

/// How much of `token` came in by a run of operations, by the transfers that the
/// host was asked for.
pub open spec fn received(s: StakingState, steps: Seq<Step>, token: Address) -> int
    decreases steps.len(),
{
    if steps.len() == 0 {
        0
    } else {
        received(s, steps.drop_last(), token) + tokens_in(
            steps.last().effects(run(s, steps.drop_last())),
            token,
            steps.last().call.contract,
        )
    }
}

/// How much of `token` went out by a run of operations, by the transfers that the
/// host was asked for.
pub open spec fn handed_out(s: StakingState, steps: Seq<Step>, token: Address) -> int
    decreases steps.len(),
{
    if steps.len() == 0 {
        0
    } else {
        handed_out(s, steps.drop_last(), token) + tokens_out(
            steps.last().effects(run(s, steps.drop_last())),
            token,
            steps.last().call.contract,
        )
    }
}

/// The transfers of one operation are what it comes to in the books.
proof fn lemma_transfers_of_step(s: StakingState, step: Step)
    requires
        s.valid(),
        s.pool is Some,
        s.pool->0.lp_token != s.pool->0.reward_token,
    ensures
        ({
            let lp = s.pool->0.lp_token;
            let reward = s.pool->0.reward_token;
            let moved = step.effects(s);
            let contract = step.call.contract;
            let entry = step.entry(s);
            &&& tokens_in(moved, lp, contract) - tokens_out(moved, lp, contract) == entry.lp_held
            &&& tokens_in(moved, reward, contract) == entry.added
            &&& tokens_out(moved, reward, contract) == entry.paid
        }),
{
    reveal_with_fuel(tokens_in, 5);
    reveal_with_fuel(tokens_out, 5);
    if step.refusal(s) is None {
        match step.operation {
            Operation::Stake { staker, amount, duration } => {
                law_stake_moves_the_amount(s, step.call, staker, amount, duration);
            },
            Operation::Claim { staker } => {
                lemma_effective_range(s, staker);
                law_claim_in_numbers(s, step.call, staker, s.position(staker).effective());
            },
            Operation::Unstake { staker, amount } => {
                lemma_effective_range(s, staker);
                law_owed_in_numbers(s, staker, s.position(staker).effective());
                law_unstake_moves_the_amount(s, step.call, staker, amount);
            },
            _ => {},
        }
    }
}

/// LP tokens that were transferred in, less those that were transferred out, are
/// exactly those on record, and reward tokens were transferred exactly as they
/// were added and paid. The two tokens must be different.
pub proof fn law_transfers_match_records(
    lp_token: Address,
    reward_token: Address,
    admin: Address,
    steps: Seq<Step>,
)
    requires
        lp_token != reward_token,
    ensures
        ({
            let s = fresh(lp_token, reward_token, admin);
            let end = run(s, steps);
            &&& received(s, steps, lp_token) - handed_out(s, steps, lp_token) == sum_staked(
                end.positions,
            )
            &&& received(s, steps, reward_token) == books(s, steps).added
            &&& handed_out(s, steps, reward_token) == books(s, steps).paid
        }),
{
    law_lp_on_record_is_lp_held(lp_token, reward_token, admin, steps);
    lemma_transfers_match_books(lp_token, reward_token, admin, steps);
}

/// The transfers of a run are what it comes to in the books.
proof fn lemma_transfers_match_books(
    lp_token: Address,
    reward_token: Address,
    admin: Address,
    steps: Seq<Step>,
)
    requires
        lp_token != reward_token,
    ensures
        ({
            let s = fresh(lp_token, reward_token, admin);
            let total = books(s, steps);
            &&& received(s, steps, lp_token) - handed_out(s, steps, lp_token) == total.lp_held
            &&& received(s, steps, reward_token) == total.added
            &&& handed_out(s, steps, reward_token) == total.paid
        }),
    decreases steps.len(),
{
    let s = fresh(lp_token, reward_token, admin);
    if steps.len() > 0 {
        lemma_transfers_match_books(lp_token, reward_token, admin, steps.drop_last());
        law_every_state_is_consistent(lp_token, reward_token, admin, steps.drop_last());
        law_terms_are_those_of_the_start(lp_token, reward_token, admin, steps.drop_last());
        lemma_transfers_of_step(run(s, steps.drop_last()), steps.last());
    }
}

/// The entitlement and what was paid stay within what was distributed, with one
/// token for each change of a stake.
proof fn lemma_entitlement_within_distributed(
    lp_token: Address,
    reward_token: Address,
    admin: Address,
    steps: Seq<Step>,
)
    ensures
        ({
            let s = fresh(lp_token, reward_token, admin);
            let total = books(s, steps);
            let end = run(s, steps);
            sum_entitlement(end.positions, end.acc()) + SCALE_FACTOR * total.paid <= SCALE_FACTOR
                * (total.distributed + total.stake_changes)
        }),
    decreases steps.len(),
{
    let s = fresh(lp_token, reward_token, admin);
    if steps.len() > 0 {
        lemma_entitlement_within_distributed(lp_token, reward_token, admin, steps.drop_last());
        law_every_state_is_consistent(lp_token, reward_token, admin, steps.drop_last());
        let before = run(s, steps.drop_last());
        let step = steps.last();
        if step.refusal(before) is None {
            match step.operation {
                Operation::AddRewards { .. } => {},
                Operation::UpdateRewards { admin, new_rewards } => {
                    law_distribution_raises_entitlement(before, step.call, admin, new_rewards);
                },
                Operation::Stake { staker, amount, duration } => {
                    law_stake_raises_no_entitlement(before, step.call, staker, amount, duration);
                },
                Operation::Claim { staker } => {
                    law_claim_lowers_entitlement(before, step.call, staker);
                },
                Operation::Unstake { staker, amount } => {
                    law_unstake_lowers_entitlement(before, step.call, staker, amount);
                },
            }
        }
    }
}

/// Stakers never get more than was distributed, but for rounding: what was paid
/// and what is still owed, to all together, is at most what was distributed and
/// one token for each change of a stake.
pub proof fn law_payouts_within_distributions(
    lp_token: Address,
    reward_token: Address,
    admin: Address,
    steps: Seq<Step>,
)
    ensures
        ({
            let s = fresh(lp_token, reward_token, admin);
            let total = books(s, steps);
            let end = run(s, steps);
            total.paid + sum_pending(end.positions, end.acc()) <= total.distributed
                + total.stake_changes
        }),
{
    lemma_entitlement_within_distributed(lp_token, reward_token, admin, steps);
    law_every_state_is_consistent(lp_token, reward_token, admin, steps);
    law_pending_within_entitlement(run(fresh(lp_token, reward_token, admin), steps));
}

} // verus!
