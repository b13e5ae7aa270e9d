//! One call of a contract: what the host has established about it, and what
//! the contract asks the host to do.
//!
//! A contract keeps its state in memory and leaves everything outside it to the
//! host: tokens move and events are published by the host, from the list of
//! effects that the call leaves behind. Whether an address authorizes the call
//! is the host's finding as well. An operation that needs an authorization
//! which the host has not established yet refuses and names the address; the
//! host may then establish it and repeat the operation, for a refused operation
//! changes nothing.

use vstd::prelude::*;
use crate::address::{lists, Address};

verus! {

/// An event that a contract publishes.
#[derive(Clone, Copy, Debug, PartialEq, Eq)]
pub enum Event {
    /// Reward tokens were paid into the staking pool.
    RewardsAdded { admin: Address, amount: i128 },
    /// LP tokens were staked, with the boost and the lock expiry that now hold.
    Staked { staker: Address, amount: i128, boost: i128, expiry: u64 },
    /// Accrued rewards were paid out.
    Claimed { staker: Address, amount: i128 },
    /// LP tokens were returned, together with the rewards paid on the way.
    Unstaked { staker: Address, amount: i128, rewards: i128 },
    /// Rewards were distributed over the stakers.
    RewardsUpdated { new_rewards: i128 },
    /// A position token was minted.
    NftMint { to: Address, token_id: u64 },
    /// A position token was burned.
    NftBurn { owner: Address, token_id: u64 },
}

impl Event {
    /// The name under which the event is published.
    pub open spec fn name(self) -> Seq<char> {
        match self {
            Event::RewardsAdded { .. } => "rewards_added"@,
            Event::Staked { .. } => "staked"@,
            Event::Claimed { .. } => "claimed"@,
            Event::Unstaked { .. } => "unstaked"@,
            Event::RewardsUpdated { .. } => "rewards_updated"@,
            Event::NftMint { .. } => "mint"@,
            Event::NftBurn { .. } => "burn"@,
        }
    }

    /// The first topic of the event.
    pub fn topic(&self) -> (topic: &'static str)
        ensures
            topic@ == self.name(),
    {
        match self {
            Event::RewardsAdded { .. } => "rewards_added",
            Event::Staked { .. } => "staked",
            Event::Claimed { .. } => "claimed",
            Event::Unstaked { .. } => "unstaked",
            Event::RewardsUpdated { .. } => "rewards_updated",
            Event::NftMint { .. } => "mint",
            Event::NftBurn { .. } => "burn",
        }
    }
}

/// Something that a contract asks of the host.
#[derive(Clone, Copy, Debug, PartialEq, Eq)]
pub enum Effect {
    /// Move `amount` of `token` from `from` to `to` on the allowance of `spender`.
    TransferFrom { token: Address, spender: Address, from: Address, to: Address, amount: i128 },
    /// Move `amount` of `token` from `from` to `to`.
    Transfer { token: Address, from: Address, to: Address, amount: i128 },
    /// Publish an event.
    Publish { event: Event },
}

/// A call of a contract.
pub struct Invocation {
    /// The address of the contract that is called.
    pub contract: Address,
    /// The ledger time in seconds.
    pub timestamp: u64,
    /// The addresses whose authorization of this call the host has established.
    pub signers: Vec<Address>,
    /// What the host is asked to do, in order.
    pub effects: Vec<Effect>,
}

impl Invocation {
    /// A call that nobody has authorized yet and that asks for nothing yet.
    pub fn new(contract: Address, timestamp: u64) -> (call: Self)
        ensures
            call.contract == contract,
            call.timestamp == timestamp,
            call.signers@ == Seq::<Address>::empty(),
            call.effects@ == Seq::<Effect>::empty(),
    {
        Invocation { contract, timestamp, signers: Vec::new(), effects: Vec::new() }
    }

    /// Whether `who` has authorized the call.
    pub open spec fn authorized(self, who: Address) -> bool {
        self.signers@.contains(who)
    }

    /// The call is the same as `other` up to what the host is asked to do.
    pub open spec fn same_call(self, other: Self) -> bool {
        &&& self.contract == other.contract
        &&& self.timestamp == other.timestamp
        &&& self.signers@ == other.signers@
    }

    /// Records that the host has established the authorization of `who`.
    pub fn authorize(&mut self, who: Address)
        ensures
            final(self).contract == old(self).contract,
            final(self).timestamp == old(self).timestamp,
            final(self).signers@ == old(self).signers@.push(who),
            final(self).effects@ == old(self).effects@,
    {
        self.signers.push(who);
    }

    /// Whether the authorization of `who` has been established.
    pub fn is_authorized(&self, who: &Address) -> (granted: bool)
        ensures
            granted == self.authorized(*who),
    {
        lists(&self.signers, who)
    }

    /// Asks the host for one more effect.
    pub fn ask(&mut self, effect: Effect)
        ensures
            final(self).same_call(*old(self)),
            final(self).effects@ == old(self).effects@.push(effect),
    {
        self.effects.push(effect);
    }
}

/// An address has authorized a call exactly when it is among the signers.
pub proof fn law_authorized_is_signed(call: Invocation, who: Address)
    ensures
        call.authorized(who) <==> exists|i: int|
            0 <= i < call.signers@.len() && #[trigger] call.signers@[i] == who,
{
}

/// Two calls are the same when they are of the same contract, at the same time
/// and with the same signers, whatever they ask for.
pub proof fn law_same_call_in_full(a: Invocation, b: Invocation)
    ensures
        a.same_call(b) <==> a.contract == b.contract && a.timestamp == b.timestamp && a.signers@
            == b.signers@,
{
}

/// The name of an event depends on its kind alone, and tells the kind.
pub proof fn law_event_names(event: Event)
    ensures
        event is RewardsAdded ==> event.name() == "rewards_added"@,
        event is Staked ==> event.name() == "staked"@,
        event is Claimed ==> event.name() == "claimed"@,
        event is Unstaked ==> event.name() == "unstaked"@,
        event is RewardsUpdated ==> event.name() == "rewards_updated"@,
        event is NftMint ==> event.name() == "mint"@,
        event is NftBurn ==> event.name() == "burn"@,
{
}

} // verus!
