//! What holds of the position tokens as a whole.

use vstd::prelude::*;
use crate::address::Address;
use crate::invocation::Invocation;
use super::model::{NftError, NftRejection, NftState, PositionMeta, Token};
use super::token_list::without_first;

verus! {

/// Taking an id out of a list of increasing ids leaves all others, in order.
proof fn lemma_without_first(list: Seq<u64>, id: u64)
    requires
        forall|i: int, j: int| 0 <= i < j < list.len() ==> list[i] < list[j],
    ensures
        forall|x: u64| #[trigger]
            without_first(list, id).contains(x) <==> list.contains(x) && x != id,
        forall|i: int, j: int|
            0 <= i < j < without_first(list, id).len() ==> without_first(list, id)[i]
                < without_first(list, id)[j],
{
    list.index_of_first_ensures(id);
    let rest = without_first(list, id);
    if list.contains(id) {
        let at = list.index_of_first(id)->0;
        assert forall|x: u64| #[trigger] rest.contains(x) <==> list.contains(x) && x != id by {
            if rest.contains(x) {
                let i = choose|i: int| 0 <= i < rest.len() && rest[i] == x;
                let k = if i < at {
                    i
                } else {
                    i + 1
                };
                assert(list[k] == x);
            }
            if list.contains(x) && x != id {
                let k = choose|k: int| 0 <= k < list.len() && list[k] == x;
                let i = if k < at {
                    k
                } else {
                    k - 1
                };
                assert(rest[i] == x);
            }
        }
    }
}

// ── The lists hold exactly the tokens owned ───────────────────────────────
/// A fresh contract is consistent.
pub proof fn law_initialize_keeps_consistency(s: NftState, cl_pool: Address)
    requires
        s.consistent(),
        s.cl_pool is None,
    ensures
        s.initialized(cl_pool).consistent(),
{
    let after = s.initialized(cl_pool);
    assert(forall|owner: Address| after.list(owner) == s.list(owner));
}

/// After a mint the list of each address still holds exactly the tokens that it
/// owns, each once, in the order in which they were minted.
pub proof fn law_mint_keeps_consistency(
    s: NftState,
    call: Invocation,
    to: Address,
    position: PositionMeta,
)
    requires
        s.consistent(),
        s.mint_refusal(call, to) is None,
    ensures
        s.minted(to, position).consistent(),
{
    let after = s.minted(to, position);
    let new = s.next_token_id;
    assert(!s.tokens.contains_key(new));
    assert forall|owner: Address, id: u64| #[trigger]
        after.list(owner).contains(id) <==> after.tokens.contains_key(id)
            && after.tokens[id].owner == owner by {
        assert(s.list(owner).contains(id) <==> s.tokens.contains_key(id) && s.tokens[id].owner
            == owner);
        if owner == to {
            let list = s.list(to);
            assert(after.list(to) == list.push(new));
            assert(list.push(new)[list.len() as int] == new);
            if list.push(new).contains(id) && id != new {
                let i = choose|i: int| 0 <= i < list.push(new).len() && list.push(new)[i] == id;
                assert(list[i] == id);
            }
            if list.contains(id) {
                let i = choose|i: int| 0 <= i < list.len() && list[i] == id;
                assert(list.push(new)[i] == id);
            }
        } else {
            assert(after.list(owner) == s.list(owner));
        }
    }
    assert forall|owner: Address, i: int, j: int|
        0 <= i < j < after.list(owner).len() implies #[trigger] after.list(owner)[i]
        < #[trigger] after.list(owner)[j] by {
        let list = s.list(owner);
        if owner == to {
            assert(after.list(to) == list.push(new));
            if j == list.len() {
                assert(list.contains(list[i]));
                assert(s.tokens.contains_key(list[i]));
            } else {
                assert(list[i] < list[j]);
            }
        } else {
            assert(after.list(owner) == list);
            assert(list[i] < list[j]);
        }
    }
}

/// After a burn the list of each address still holds exactly the tokens that it
/// owns, each once, in the order in which they were minted.
pub proof fn law_burn_keeps_consistency(s: NftState, call: Invocation, token_id: u64)
    requires
        s.consistent(),
        s.burn_refusal(call, token_id) is None,
    ensures
        s.burned(token_id).consistent(),
{
    let after = s.burned(token_id);
    let last_owner = s.tokens[token_id].owner;
    assert(s.list(last_owner).contains(token_id));
    lemma_without_first(s.list(last_owner), token_id);
    assert forall|owner: Address, id: u64| #[trigger]
        after.list(owner).contains(id) <==> after.tokens.contains_key(id)
            && after.tokens[id].owner == owner by {
        assert(s.list(owner).contains(id) <==> s.tokens.contains_key(id) && s.tokens[id].owner
            == owner);
        if owner != last_owner {
            assert(after.list(owner) == s.list(owner));
        }
    }
    assert forall|owner: Address, i: int, j: int|
        0 <= i < j < after.list(owner).len() implies #[trigger] after.list(owner)[i]
        < #[trigger] after.list(owner)[j] by {
        if owner != last_owner {
            assert(after.list(owner) == s.list(owner));
            assert(s.list(owner)[i] < s.list(owner)[j]);
        }
    }
}

/// An approval leaves the lists and the owners alone.
pub proof fn law_approve_keeps_consistency(
    s: NftState,
    call: Invocation,
    caller: Address,
    token_id: u64,
    approved: Address,
)
    requires
        s.consistent(),
        s.approve_refusal(call, caller, token_id) is None,
    ensures
        s.approved(token_id, approved).consistent(),
{
    let after = s.approved(token_id, approved);
    assert forall|owner: Address, id: u64| #[trigger]
        after.list(owner).contains(id) <==> after.tokens.contains_key(id)
            && after.tokens[id].owner == owner by {
        assert(after.list(owner) == s.list(owner));
        assert(s.list(owner).contains(id) <==> s.tokens.contains_key(id) && s.tokens[id].owner
            == owner);
    }
    assert forall|owner: Address, i: int, j: int|
        0 <= i < j < after.list(owner).len() implies #[trigger] after.list(owner)[i]
        < #[trigger] after.list(owner)[j] by {
        assert(after.list(owner) == s.list(owner));
        assert(s.list(owner)[i] < s.list(owner)[j]);
    }
}

// ── The life of a token ───────────────────────────────────────────────────
/// A minted token belongs to whom it was minted for, stands for the position
/// given, is approved for nobody, and comes last in its owner's list. All other
/// tokens, and all other lists, are as they were.
pub proof fn law_mint_records_token(
    s: NftState,
    call: Invocation,
    to: Address,
    position: PositionMeta,
    other: u64,
    someone: Address,
)
    requires
        s.valid(),
        s.mint_refusal(call, to) is None,
        other != s.next_token_id,
        someone != to,
    ensures
        ({
            let after = s.minted(to, position);
            let id = s.next_token_id;
            &&& after.tokens.contains_key(id)
            &&& after.tokens[id] == (Token { owner: to, approved: None, position })
            &&& after.list(to) == s.list(to).push(id)
            &&& after.tokens.contains_key(other) == s.tokens.contains_key(other)
            &&& s.tokens.contains_key(other) ==> after.tokens[other] == s.tokens[other]
            &&& after.list(someone) == s.list(someone)
        }),
{
}

/// A burned token is gone, from the tokens and from every list, and so is its
/// approval: burning it again, or approving someone for it, is answered with
/// "token not found". All other tokens are as they were.
pub proof fn law_burn_clears_token(
    s: NftState,
    call: Invocation,
    token_id: u64,
    other: u64,
    owner: Address,
    again: Invocation,
    caller: Address,
)
    requires
        s.consistent(),
        s.burn_refusal(call, token_id) is None,
        other != token_id,
        s.pool_refusal(again) is None,
    ensures
        ({
            let after = s.burned(token_id);
            let not_found = Some(NftRejection::Failed { error: NftError::TokenNotFound });
            &&& !after.tokens.contains_key(token_id)
            &&& !after.list(owner).contains(token_id)
            &&& after.burn_refusal(again, token_id) == not_found
            &&& after.approve_refusal(again, caller, token_id) == not_found
            &&& after.tokens.contains_key(other) == s.tokens.contains_key(other)
            &&& s.tokens.contains_key(other) ==> after.tokens[other] == s.tokens[other]
            &&& after.list(owner).contains(other) == s.list(owner).contains(other)
        }),
{
    law_burn_keeps_consistency(s, call, token_id);
    let after = s.burned(token_id);
    assert(after.list(owner).contains(token_id) <==> after.tokens.contains_key(token_id)
        && after.tokens[token_id].owner == owner);
    assert(after.list(owner).contains(other) <==> after.tokens.contains_key(other)
        && after.tokens[other].owner == owner);
    assert(s.list(owner).contains(other) <==> s.tokens.contains_key(other)
        && s.tokens[other].owner == owner);
}

/// Burning a token right after its mint gives the tokens and the lists back as
/// they were; only the id is spent.
pub proof fn law_mint_then_burn(
    s: NftState,
    call: Invocation,
    to: Address,
    position: PositionMeta,
    owner: Address,
)
    requires
        s.consistent(),
        s.mint_refusal(call, to) is None,
    ensures
        ({
            let mid = s.minted(to, position);
            let after = mid.burned(s.next_token_id);
            &&& mid.burn_refusal(call, s.next_token_id) is None
            &&& after.tokens == s.tokens
            &&& after.list(owner) == s.list(owner)
            &&& after.next_token_id == s.next_token_id + 1
        }),
{
    let id = s.next_token_id;
    let mid = s.minted(to, position);
    let after = mid.burned(id);
    let list = s.list(to);
    assert(!s.tokens.contains_key(id));
    assert(after.tokens =~= s.tokens);
    assert(list.contains(id) <==> s.tokens.contains_key(id) && s.tokens[id].owner == to);
    assert(mid.list(to) == list.push(id));
    assert(list.push(id)[list.len() as int] == id);
    list.push(id).index_of_first_ensures(id);
    let at = list.push(id).index_of_first(id)->0;
    assert(at == list.len()) by {
        if at < list.len() {
            assert(list[at] == id);
        }
    }
    assert(list.push(id).remove(at) =~= list);
}

/// Ids are never given out twice: a new token's id was not in use and is larger
/// than every id in use, and no operation takes the next id back.
pub proof fn law_ids_are_never_reused(
    s: NftState,
    call: Invocation,
    to: Address,
    position: PositionMeta,
    id: u64,
    approved: Address,
)
    requires
        s.valid(),
        s.mint_refusal(call, to) is None,
    ensures
        s.tokens.contains_key(id) ==> id < s.next_token_id,
        !s.tokens.contains_key(s.next_token_id),
        s.minted(to, position).next_token_id == s.next_token_id + 1,
        s.burned(id).next_token_id == s.next_token_id,
        s.approved(id, approved).next_token_id == s.next_token_id,
{
}

// ── Who may do what ───────────────────────────────────────────────────────
/// Without the authorization of the registered pool nothing is minted and
/// nothing is burned.
pub proof fn law_only_pool_mints_and_burns(s: NftState, call: Invocation, to: Address, id: u64)
    requires
        match s.cl_pool {
            Some(pool) => !call.authorized(pool),
            None => true,
        },
    ensures
        s.mint_refusal(call, to) is Some,
        s.burn_refusal(call, id) is Some,
{
}

/// Nobody but the owner of a token, with their authorization, approves someone
/// for it.
pub proof fn law_only_owner_approves(s: NftState, call: Invocation, caller: Address, id: u64)
    requires
        s.approve_refusal(call, caller, id) is None,
    ensures
        s.tokens.contains_key(id),
        caller == s.tokens[id].owner,
        call.authorized(caller),
{
}

/// An authorization is asked for once: a mint or a burn that the registered pool
/// has authorized, and an approval that the caller has, is not refused for want
/// of an authorization.
pub proof fn law_authorization_is_asked_once(
    s: NftState,
    call: Invocation,
    to: Address,
    id: u64,
    caller: Address,
)
    requires
        s.cl_pool matches Some(pool) ==> call.authorized(pool),
        call.authorized(caller),
    ensures
        !(s.mint_refusal(call, to) matches Some(NftRejection::AuthRequired { .. })),
        !(s.burn_refusal(call, id) matches Some(NftRejection::AuthRequired { .. })),
        !(s.approve_refusal(call, caller, id) matches Some(NftRejection::AuthRequired { .. })),
{
}

/// The registered pool never changes once it is set.
pub proof fn law_pool_is_fixed(
    s: NftState,
    to: Address,
    position: PositionMeta,
    id: u64,
    approved: Address,
)
    ensures
        s.minted(to, position).cl_pool == s.cl_pool,
        s.burned(id).cl_pool == s.cl_pool,
        s.approved(id, approved).cl_pool == s.cl_pool,
{
}

// ── Records ───────────────────────────────────────────────────────────────
/// A mint depends on the pool, the next id and the list of the receiver, and on
/// no other token or list; a burn or an approval on the pool, the token and its
/// owner's list. States that agree on these refuse alike and agree on these
/// afterwards.
pub proof fn law_one_record_suffices(
    s: NftState,
    t: NftState,
    call: Invocation,
    who: Address,
    position: PositionMeta,
    id: u64,
    approved: Address,
)
    requires
        s.cl_pool == t.cl_pool,
        s.next_token_id == t.next_token_id,
        s.list(who) == t.list(who),
        s.tokens.contains_key(id) == t.tokens.contains_key(id),
        s.tokens.contains_key(id) ==> s.tokens[id] == t.tokens[id] && s.tokens[id].owner == who,
    ensures
        s.mint_refusal(call, who) == t.mint_refusal(call, who),
        s.minted(who, position).list(who) == t.minted(who, position).list(who),
        s.minted(who, position).next_token_id == t.minted(who, position).next_token_id,
        s.minted(who, position).tokens[s.next_token_id] == t.minted(
            who,
            position,
        ).tokens[s.next_token_id],
        s.burn_refusal(call, id) == t.burn_refusal(call, id),
        s.tokens.contains_key(id) ==> s.burned(id).list(who) == t.burned(id).list(who),
        s.approve_refusal(call, who, id) == t.approve_refusal(call, who, id),
        s.tokens.contains_key(id) ==> s.approved(id, approved).tokens[id] == t.approved(
            id,
            approved,
        ).tokens[id],
{
}

} // verus!
