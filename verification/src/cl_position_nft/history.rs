//! What holds of the position tokens over any run of operations.

use vstd::prelude::*;
use crate::address::Address;
use crate::invocation::Invocation;
use super::laws::{
    law_approve_keeps_consistency, law_burn_keeps_consistency, law_initialize_keeps_consistency,
    law_mint_keeps_consistency,
};
use super::model::{NftState, PositionMeta};

verus! {

/// An operation that changes the position tokens.
pub enum Operation {
    Initialize { cl_pool: Address },
    Mint { to: Address, position: PositionMeta },
    Burn { token_id: u64 },
    Approve { caller: Address, token_id: u64, approved: Address },
}

/// An operation and the call that it is part of.
pub struct Step {
    pub call: Invocation,
    pub operation: Operation,
}

/// What was given when a token was minted.
pub struct Mint {
    pub to: Address,
    pub position: PositionMeta,
}

impl Step {
    /// The operation is accepted in state `s`.
    pub open spec fn accepted(self, s: NftState) -> bool {
        match self.operation {
            Operation::Initialize { .. } => s.initialize_refusal() is None,
            Operation::Mint { to, .. } => s.mint_refusal(self.call, to) is None,
            Operation::Burn { token_id } => s.burn_refusal(self.call, token_id) is None,
            Operation::Approve { caller, token_id, .. } => s.approve_refusal(
                self.call,
                caller,
                token_id,
            ) is None,
        }
    }

    /// The state that the operation leads to from `s`; the same state if it is
    /// refused.
    pub open spec fn next(self, s: NftState) -> NftState {
        if !self.accepted(s) {
            s
        } else {
            match self.operation {
                Operation::Initialize { cl_pool } => s.initialized(cl_pool),
                Operation::Mint { to, position } => s.minted(to, position),
                Operation::Burn { token_id } => s.burned(token_id),
                Operation::Approve { token_id, approved, .. } => s.approved(token_id, approved),
            }
        }
    }
}

/// The state after a run of operations on a new contract.
pub open spec fn run(steps: Seq<Step>) -> NftState
    decreases steps.len(),
{
    if steps.len() == 0 {
        NftState::empty()
    } else {
        steps.last().next(run(steps.drop_last()))
    }
}

/// The mints of a run that were accepted, in order.
pub open spec fn mints(steps: Seq<Step>) -> Seq<Mint>
    decreases steps.len(),
{
    if steps.len() == 0 {
        Seq::empty()
    } else {
        let before = mints(steps.drop_last());
        match steps.last().operation {
            Operation::Mint { to, position } => if steps.last().accepted(
                run(steps.drop_last()),
            ) {
                before.push(Mint { to, position })
            } else {
                before
            },
            _ => before,
        }
    }
}

/// Whatever is done with the tokens, the list of each address holds exactly the
/// tokens that it owns, each once, in the order in which they were minted.
pub proof fn law_every_state_is_consistent(steps: Seq<Step>)
    ensures
        run(steps).consistent(),
    decreases steps.len(),
{
    if steps.len() > 0 {
        law_every_state_is_consistent(steps.drop_last());
        let s = run(steps.drop_last());
        let step = steps.last();
        if step.accepted(s) {
            match step.operation {
                Operation::Initialize { cl_pool } => {
                    law_initialize_keeps_consistency(s, cl_pool);
                },
                Operation::Mint { to, position } => {
                    law_mint_keeps_consistency(s, step.call, to, position);
                },
                Operation::Burn { token_id } => {
                    law_burn_keeps_consistency(s, step.call, token_id);
                },
                Operation::Approve { caller, token_id, approved } => {
                    law_approve_keeps_consistency(s, step.call, caller, token_id, approved);
                },
            }
        }
    }
}

/// The next id is the number of mints that were accepted, so ids count up from
/// zero, one for each.
pub proof fn law_next_id_counts_mints(steps: Seq<Step>)
    ensures
        run(steps).next_token_id == mints(steps).len(),
    decreases steps.len(),
{
    if steps.len() > 0 {
        law_next_id_counts_mints(steps.drop_last());
        law_every_state_is_consistent(steps.drop_last());
    }
}

/// A token that exists has the owner and the position that were given when it was
/// minted, and it is the mint that its id counts.
pub proof fn law_token_is_as_minted(steps: Seq<Step>, id: u64)
    requires
        run(steps).tokens.contains_key(id),
    ensures
        id < mints(steps).len(),
        run(steps).tokens[id].position == mints(steps)[id as int].position,
        run(steps).tokens[id].owner == mints(steps)[id as int].to,
    decreases steps.len(),
{
    if steps.len() > 0 {
        law_next_id_counts_mints(steps.drop_last());
        if run(steps.drop_last()).tokens.contains_key(id) {
            law_token_is_as_minted(steps.drop_last(), id);
        }
    }
}

/// Once the pool is registered it stays: after any part of a run that registered
/// one, the whole run has the same.
pub proof fn law_registered_pool_stays(steps: Seq<Step>, part: int)
    requires
        0 <= part <= steps.len(),
        run(steps.take(part)).cl_pool is Some,
    ensures
        run(steps).cl_pool == run(steps.take(part)).cl_pool,
    decreases steps.len(),
{
    if part == steps.len() {
        assert(steps.take(part) =~= steps);
    } else {
        assert(steps.drop_last().take(part) =~= steps.take(part));
        law_registered_pool_stays(steps.drop_last(), part);
    }
}

} // verus!
