//! What each operation on the position tokens does, field by field: when it is
//! refused and why, and what it leaves on record.

use soroban_sdk::Vec as HostVec;
use vstd::prelude::*;
use crate::address::Address;
use crate::invocation::Invocation;
use super::contract::ledger_excerpt;
use super::model::{NftError, NftRejection, NftState, PositionMeta, Token};
use super::token_list::{holds_ids, list_items, token_ids, without_first};

verus! {

// Lists

/// The list of an address is the one on record, and empty without one.
pub proof fn law_list_on_record(s: NftState, owner: Address)
    ensures
        s.owned.contains_key(owner) ==> s.list(owner) == s.owned[owner],
        !s.owned.contains_key(owner) ==> s.list(owner).len() == 0,
{
}

/// A list of token ids holds an id in every place, and these ids in this order
/// are what it reads as.
pub proof fn law_list_reads_as_its_items(list: HostVec<u64>)
    ensures
        token_ids(list).len() == list_items(list).len(),
        holds_ids(list) <==> forall|i: int|
            0 <= i < list_items(list).len() ==> (#[trigger] list_items(list)[i]) is Some,
        holds_ids(list) ==> forall|i: int|
            0 <= i < list_items(list).len() ==> #[trigger] list_items(list)[i] == Some(
                token_ids(list)[i],
            ),
{
}

/// Taking an id out takes out its first place and no other: what stood before
/// stays, and what stood behind moves up by one.
pub proof fn law_first_is_taken_out(list: Seq<u64>, id: u64, at: int)
    requires
        0 <= at < list.len(),
        list[at] == id,
        forall|i: int| 0 <= i < at ==> list[i] != id,
    ensures
        without_first(list, id).len() == list.len() - 1,
        forall|i: int| 0 <= i < at ==> #[trigger] without_first(list, id)[i] == list[i],
        forall|i: int|
            at <= i < list.len() - 1 ==> #[trigger] without_first(list, id)[i] == list[i + 1],
{
    list.index_of_first_ensures(id);
}

/// Taking out an id that does not occur changes nothing.
pub proof fn law_nothing_is_taken_out(list: Seq<u64>, id: u64)
    requires
        !list.contains(id),
    ensures
        without_first(list, id) == list,
{
    list.index_of_first_ensures(id);
}

// Setting up

/// Before it is set up, the contract has no pool, no token and no list, and the
/// first id is zero.
pub proof fn law_nothing_at_first()
    ensures
        NftState::empty().cl_pool is None,
        NftState::empty().next_token_id == 0,
        forall|id: u64| !NftState::empty().tokens.contains_key(id),
        forall|owner: Address| !NftState::empty().owned.contains_key(owner),
{
}

/// The pool can be registered exactly while there is none. Ids then count from
/// zero.
pub proof fn law_initialize_in_full(s: NftState, cl_pool: Address)
    ensures
        s.initialize_refusal() is None <==> s.cl_pool is None,
        s.initialize_refusal() is Some ==> s.initialize_refusal() == Some(
            NftError::AlreadyInitialized,
        ),
        s.initialized(cl_pool).cl_pool == Some(cl_pool),
        s.initialized(cl_pool).next_token_id == 0,
        s.initialized(cl_pool).tokens == s.tokens,
        s.initialized(cl_pool).owned == s.owned,
{
}

/// The call passes for the pool's exactly when a pool is registered and has
/// signed it.
pub proof fn law_pool_passes(s: NftState, call: Invocation)
    ensures
        s.pool_refusal(call) is None <==> s.cl_pool is Some && call.signers@.contains(
            s.cl_pool->0,
        ),
        s.cl_pool is None ==> s.pool_refusal(call) == Some(
            NftRejection::Failed { error: NftError::Unauthorized },
        ),
        s.cl_pool is Some && !call.signers@.contains(s.cl_pool->0) ==> s.pool_refusal(call)
            == Some(NftRejection::AuthRequired { address: s.cl_pool->0 }),
{
}

// Minting

/// A token is minted whenever the registered pool has signed the call and there
/// is room for one more id, at all and in the list of its owner.
pub proof fn law_mint_refusals(s: NftState, call: Invocation, to: Address)
    ensures
        ({
            let refusal = s.mint_refusal(call, to);
            let signed = s.cl_pool is Some && call.signers@.contains(s.cl_pool->0);
            let room = s.next_token_id < u64::MAX && s.list(to).len() != u32::MAX;
            &&& refusal is None <==> signed && room
            &&& refusal == Some(NftRejection::Failed { error: NftError::Unauthorized })
                <==> s.cl_pool is None
            &&& s.cl_pool is Some && !signed ==> refusal == Some(
                NftRejection::AuthRequired { address: s.cl_pool->0 },
            )
            &&& refusal == Some(NftRejection::Overflow) <==> signed && !room
        }),
{
}

/// A mint gives the next id to a token with the owner and the position given and
/// nobody approved, and puts the id behind all others in the owner's list. The
/// next id goes up by one, and everything else stays.
pub proof fn law_mint_in_full(
    s: NftState,
    call: Invocation,
    to: Address,
    position: PositionMeta,
    other: Address,
    id: u64,
)
    requires
        s.mint_refusal(call, to) is None,
    ensures
        ({
            let after = s.minted(to, position);
            let new = s.next_token_id;
            &&& after.cl_pool == s.cl_pool
            &&& after.next_token_id == new + 1
            &&& after.tokens.contains_key(new)
            &&& after.tokens[new].owner == to
            &&& after.tokens[new].approved is None
            &&& after.tokens[new].position == position
            &&& id != new ==> after.tokens.contains_key(id) == s.tokens.contains_key(id)
            &&& id != new ==> after.tokens[id] == s.tokens[id]
            &&& after.list(to).len() == s.list(to).len() + 1
            &&& after.list(to).last() == new
            &&& after.list(to).drop_last() == s.list(to)
            &&& other != to ==> after.list(other) == s.list(other)
        }),
{
    assert(s.list(to).push(s.next_token_id).drop_last() =~= s.list(to));
}

// Burning

/// A token is burned whenever it exists and the registered pool has signed the
/// call.
pub proof fn law_burn_refusals(s: NftState, call: Invocation, id: u64)
    ensures
        ({
            let refusal = s.burn_refusal(call, id);
            let signed = s.cl_pool is Some && call.signers@.contains(s.cl_pool->0);
            &&& refusal is None <==> signed && s.tokens.contains_key(id)
            &&& refusal == Some(NftRejection::Failed { error: NftError::Unauthorized })
                <==> s.cl_pool is None
            &&& s.cl_pool is Some && !signed ==> refusal == Some(
                NftRejection::AuthRequired { address: s.cl_pool->0 },
            )
            &&& refusal == Some(NftRejection::Failed { error: NftError::TokenNotFound })
                <==> signed && !s.tokens.contains_key(id)
        }),
{
}

/// A burn clears the token and takes its id out of the owner's list, where it
/// stands first. Every other token and every other list stays, and so do the
/// pool and the next id.
pub proof fn law_burn_in_full(
    s: NftState,
    call: Invocation,
    id: u64,
    other_id: u64,
    other: Address,
    at: int,
)
    requires
        s.burn_refusal(call, id) is None,
    ensures
        ({
            let after = s.burned(id);
            let owner = s.tokens[id].owner;
            let list = s.list(owner);
            &&& after.cl_pool == s.cl_pool
            &&& after.next_token_id == s.next_token_id
            &&& !after.tokens.contains_key(id)
            &&& other_id != id ==> after.tokens.contains_key(other_id) == s.tokens.contains_key(
                other_id,
            )
            &&& other_id != id && s.tokens.contains_key(other_id) ==> after.tokens[other_id]
                == s.tokens[other_id]
            &&& other != owner ==> after.list(other) == s.list(other)
            &&& !list.contains(id) ==> after.list(owner) == list
            &&& 0 <= at < list.len() && list[at] == id && (forall|i: int|
                0 <= i < at ==> list[i] != id) ==> after.list(owner) == list.take(at) + list.skip(
                at + 1,
            )
        }),
{
    let list = s.list(s.tokens[id].owner);
    list.index_of_first_ensures(id);
    if 0 <= at < list.len() && list[at] == id && (forall|i: int| 0 <= i < at ==> list[i] != id) {
        law_first_is_taken_out(list, id, at);
        assert(without_first(list, id) =~= list.take(at) + list.skip(at + 1));
    }
}

// Approving

/// An approval is accepted whenever the token exists, the caller owns it and has
/// signed the call.
pub proof fn law_approve_refusals(s: NftState, call: Invocation, caller: Address, id: u64)
    ensures
        ({
            let refusal = s.approve_refusal(call, caller, id);
            let found = s.tokens.contains_key(id);
            let owns = s.tokens[id].owner == caller;
            let signed = call.signers@.contains(caller);
            &&& refusal is None <==> found && owns && signed
            &&& refusal == Some(NftRejection::Failed { error: NftError::TokenNotFound })
                <==> !found
            &&& refusal == Some(NftRejection::Failed { error: NftError::Unauthorized }) <==> found
                && !owns
            &&& refusal == Some(NftRejection::AuthRequired { address: caller }) <==> found && owns
                && !signed
        }),
{
}

/// Once an approval is accepted, the address is the one approved for the token,
/// whichever token it is and whoever was approved before. Its owner and position
/// stay, and so do all other tokens with their approvals, and everything else.
pub proof fn law_approve_in_full(
    s: NftState,
    call: Invocation,
    caller: Address,
    id: u64,
    approved: Address,
    other: u64,
)
    requires
        s.approve_refusal(call, caller, id) is None,
    ensures
        ({
            let after = s.approved(id, approved);
            &&& after.tokens.contains_key(id)
            &&& after.tokens[id].approved == Some(approved)
            &&& after.tokens[id].owner == s.tokens[id].owner
            &&& after.tokens[id].position == s.tokens[id].position
            &&& after.tokens.contains_key(other) == s.tokens.contains_key(other)
            &&& other != id ==> after.tokens[other] == s.tokens[other]
            &&& after.owned == s.owned
            &&& after.cl_pool == s.cl_pool
            &&& after.next_token_id == s.next_token_id
        }),
{
}

// Records

/// Records taken from the ledger stand in the state as they were given, and no
/// others do.
pub proof fn law_excerpt_in_full(
    cl_pool: Option<Address>,
    next_token_id: u64,
    token: Option<(u64, Token)>,
    list: Option<(Address, HostVec<u64>)>,
    id: u64,
    owner: Address,
)
    ensures
        ({
            let s = ledger_excerpt(cl_pool, next_token_id, token, list);
            &&& s.cl_pool == cl_pool
            &&& s.next_token_id == next_token_id
            &&& s.tokens.contains_key(id) <==> token is Some && (token->0).0 == id
            &&& s.tokens.contains_key(id) ==> s.tokens[id] == (token->0).1
            &&& s.owned.contains_key(owner) <==> list is Some && (list->0).0 == owner
            &&& s.owned.contains_key(owner) ==> s.owned[owner] == token_ids((list->0).1)
        }),
{
}

/// Such records are sound exactly when the token's id was given out, and where no
/// pool is registered, when no id was and there is no list.
pub proof fn law_sound_excerpt(
    cl_pool: Option<Address>,
    next_token_id: u64,
    token: Option<(u64, Token)>,
    list: Option<(Address, HostVec<u64>)>,
)
    ensures
        ledger_excerpt(cl_pool, next_token_id, token, list).valid() <==> {
            &&& token is Some ==> (token->0).0 < next_token_id
            &&& cl_pool is None ==> next_token_id == 0 && list is None
        },
{
    let s = ledger_excerpt(cl_pool, next_token_id, token, list);
    if token is Some {
        assert(s.tokens.contains_key((token->0).0));
    }
    if list is Some {
        assert(s.owned.dom().contains((list->0).0));
    }
}

/// The numbers of the errors.
pub proof fn law_error_numbers(e: NftError)
    ensures
        e == NftError::AlreadyInitialized ==> e.number() == 1,
        e == NftError::Unauthorized ==> e.number() == 2,
        e == NftError::TokenNotFound ==> e.number() == 3,
{
}

} // verus!
