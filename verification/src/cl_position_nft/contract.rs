//! The contract of the position tokens.

use soroban_sdk::{Env, Vec as HostVec};
use std::collections::BTreeMap;
use vstd::prelude::*;
use crate::address::{Address, AddressMap};
use crate::invocation::{Effect, Event, Invocation};
use super::laws::{
    law_approve_keeps_consistency, law_burn_keeps_consistency, law_initialize_keeps_consistency,
    law_mint_keeps_consistency,
};
use super::model::{NftError, NftRejection, NftState, PositionMeta, Token};
use super::token_list::{
    append, holds_ids, is_id_list, list_clone, list_len, list_new, take_out, token_ids,
};

verus! {

broadcast use vstd::std_specs::btree::group_btree_axioms;

/// The contract of the position tokens with its state.
pub struct ClPositionNft {
    env: Env,
    cl_pool: Option<Address>,
    next_token_id: u64,
    tokens: BTreeMap<u64, Token>,
    owned: AddressMap<HostVec<u64>>,
}

impl View for ClPositionNft {
    type V = NftState;

    closed spec fn view(&self) -> NftState {
        NftState {
            cl_pool: self.cl_pool,
            next_token_id: self.next_token_id,
            tokens: self.tokens@,
            owned: self.owned@.map_values(|list: HostVec<u64>| token_ids(list)),
        }
    }
}

impl ClPositionNft {
    /// The table of token lists is sound, and the lists hold token ids alone.
    pub closed spec fn table_wf(self) -> bool {
        &&& self.owned.wf()
        &&& forall|owner: Address| #[trigger]
            self.owned@.contains_key(owner) ==> holds_ids(self.owned@[owner])
    }

    pub open spec fn wf(self) -> bool {
        self.table_wf() && self@.valid()
    }

    /// A contract that is not initialized yet. Its lists of tokens live in `env`.
    pub fn new(env: Env) -> (contract: Self)
        ensures
            contract.wf(),
            contract@ == NftState::empty(),
            contract@.consistent(),
    {
        let contract = ClPositionNft {
            env,
            cl_pool: None,
            next_token_id: 0,
            tokens: BTreeMap::new(),
            owned: AddressMap::new(),
        };
        assert(contract@ =~= NftState::empty());
        contract
    }

    /// Registers the pool that may mint and burn tokens. This can be done once.
    pub fn initialize(&mut self, cl_pool: Address) -> (outcome: Result<(), NftError>)
        requires
            old(self).wf(),
        ensures
            final(self).wf(),
            old(self)@.consistent() ==> final(self)@.consistent(),
            match outcome {
                Ok(()) => {
                    &&& old(self)@.initialize_refusal() is None
                    &&& final(self)@ == old(self)@.initialized(cl_pool)
                },
                Err(e) => {
                    &&& old(self)@.initialize_refusal() == Some(e)
                    &&& final(self)@ == old(self)@
                },
            },
    {
        if self.cl_pool.is_some() {
            return Err(NftError::AlreadyInitialized);
        }
        self.cl_pool = Some(cl_pool);
        self.next_token_id = 0;
        proof {
            if old(self)@.consistent() {
                law_initialize_keeps_consistency(old(self)@, cl_pool);
            }
        }
        Ok(())
    }

    /// The registered pool, if the call has its authorization.
    pub fn require_pool(&self, call: &Invocation) -> (outcome: Result<Address, NftRejection>)
        ensures
            match outcome {
                Ok(pool) => self@.pool_refusal(*call) is None && self@.cl_pool == Some(pool),
                Err(e) => self@.pool_refusal(*call) == Some(e),
            },
    {
        match self.cl_pool {
            None => Err(NftRejection::Failed { error: NftError::Unauthorized }),
            Some(pool) => if call.is_authorized(&pool) {
                Ok(pool)
            } else {
                Err(NftRejection::AuthRequired { address: pool })
            },
        }
    }

    /// Mints a token for a position and hands it to `to`. Only the registered
    /// pool may. Returns the id: ids count up from zero.
    pub fn mint(
        &mut self,
        call: &mut Invocation,
        to: Address,
        pool: Address,
        lower_tick: i32,
        upper_tick: i32,
    ) -> (outcome: Result<u64, NftRejection>)
        requires
            old(self).wf(),
        ensures
            final(self).wf(),
            old(self)@.consistent() ==> final(self)@.consistent(),
            final(call).same_call(*old(call)),
            match outcome {
                Ok(token_id) => {
                    &&& old(self)@.mint_refusal(*old(call), to) is None
                    &&& token_id == old(self)@.next_token_id
                    &&& final(self)@ == old(self)@.minted(
                        to,
                        (PositionMeta { pool, lower_tick, upper_tick }),
                    )
                    &&& final(call).effects@ == old(call).effects@.push(
                        Effect::Publish { event: Event::NftMint { to, token_id } },
                    )
                },
                Err(e) => {
                    &&& old(self)@.mint_refusal(*old(call), to) == Some(e)
                    &&& final(self)@ == old(self)@
                    &&& final(call).effects@ == old(call).effects@
                },
            },
    {
        match self.require_pool(call) {
            Ok(_) => {},
            Err(e) => return Err(e),
        }
        let token_id = self.next_token_id;
        if token_id == u64::MAX {
            return Err(NftRejection::Overflow);
        }
        let mut list = self.tokens_of(&to);
        if list_len(&list) == u32::MAX {
            return Err(NftRejection::Overflow);
        }
        self.next_token_id = token_id + 1;
        let position = PositionMeta { pool, lower_tick, upper_tick };
        self.tokens.insert(token_id, Token { owner: to, approved: None, position });
        append(&mut list, token_id);
        self.owned.set(to, list);
        call.ask(Effect::Publish { event: Event::NftMint { to, token_id } });
        assert(self@ =~= old(self)@.minted(to, position));
        proof {
            if old(self)@.consistent() {
                law_mint_keeps_consistency(old(self)@, *old(call), to, position);
            }
        }
        Ok(token_id)
    }

    /// Burns a token. Only the registered pool may.
    pub fn burn(&mut self, call: &mut Invocation, token_id: u64) -> (outcome: Result<
        (),
        NftRejection,
    >)
        requires
            old(self).wf(),
        ensures
            final(self).wf(),
            old(self)@.consistent() ==> final(self)@.consistent(),
            final(call).same_call(*old(call)),
            match outcome {
                Ok(()) => {
                    &&& old(self)@.burn_refusal(*old(call), token_id) is None
                    &&& final(self)@ == old(self)@.burned(token_id)
                    &&& final(call).effects@ == old(call).effects@.push(
                        Effect::Publish {
                            event: Event::NftBurn {
                                owner: old(self)@.tokens[token_id].owner,
                                token_id,
                            },
                        },
                    )
                },
                Err(e) => {
                    &&& old(self)@.burn_refusal(*old(call), token_id) == Some(e)
                    &&& final(self)@ == old(self)@
                    &&& final(call).effects@ == old(call).effects@
                },
            },
    {
        match self.require_pool(call) {
            Ok(_) => {},
            Err(e) => return Err(e),
        }
        let owner = match self.owner_of(token_id) {
            Ok(owner) => owner,
            Err(error) => return Err(NftRejection::Failed { error }),
        };
        self.tokens.remove(&token_id);
        let mut list = self.tokens_of(&owner);
        if take_out(&mut list, token_id) {
            self.owned.set(owner, list);
        }
        call.ask(Effect::Publish { event: Event::NftBurn { owner, token_id } });
        assert(self@ =~= old(self)@.burned(token_id));
        proof {
            if old(self)@.consistent() {
                law_burn_keeps_consistency(old(self)@, *old(call), token_id);
            }
        }
        Ok(())
    }

    /// The owner of a token.
    pub fn owner_of(&self, token_id: u64) -> (owner: Result<Address, NftError>)
        ensures
            match owner {
                Ok(owner) => self@.tokens.contains_key(token_id) && owner
                    == self@.tokens[token_id].owner,
                Err(e) => !self@.tokens.contains_key(token_id) && e == NftError::TokenNotFound,
            },
    {
        match self.tokens.get(&token_id) {
            Some(token) => Ok(token.owner),
            None => Err(NftError::TokenNotFound),
        }
    }

    /// The position that a token stands for.
    pub fn get_position(&self, token_id: u64) -> (position: Result<PositionMeta, NftError>)
        ensures
            match position {
                Ok(position) => self@.tokens.contains_key(token_id) && position
                    == self@.tokens[token_id].position,
                Err(e) => !self@.tokens.contains_key(token_id) && e == NftError::TokenNotFound,
            },
    {
        match self.tokens.get(&token_id) {
            Some(token) => Ok(token.position),
            None => Err(NftError::TokenNotFound),
        }
    }

    /// The ids of all tokens of `owner`.
    pub fn tokens_of(&self, owner: &Address) -> (list: HostVec<u64>)
        requires
            self.table_wf(),
        ensures
            holds_ids(list),
            token_ids(list) == self@.list(*owner),
    {
        match self.owned.get(owner) {
            Some(list) => list_clone(list),
            None => {
                let list = list_new(&self.env);
                assert(token_ids(list) =~= Seq::<u64>::empty());
                list
            },
        }
    }

    /// Lets `approved` transfer a token. Only its owner may.
    pub fn approve(
        &mut self,
        call: &Invocation,
        caller: Address,
        token_id: u64,
        approved: Address,
    ) -> (outcome: Result<(), NftRejection>)
        requires
            old(self).wf(),
        ensures
            final(self).wf(),
            old(self)@.consistent() ==> final(self)@.consistent(),
            match outcome {
                Ok(()) => {
                    &&& old(self)@.approve_refusal(*call, caller, token_id) is None
                    &&& final(self)@ == old(self)@.approved(token_id, approved)
                    &&& final(self)@.tokens.contains_key(token_id)
                    &&& final(self)@.tokens[token_id].approved == Some(approved)
                },
                Err(e) => {
                    &&& old(self)@.approve_refusal(*call, caller, token_id) == Some(e)
                    &&& final(self)@ == old(self)@
                },
            },
    {
        let token = match self.tokens.get(&token_id) {
            Some(token) => *token,
            None => return Err(NftRejection::Failed { error: NftError::TokenNotFound }),
        };
        if caller != token.owner {
            return Err(NftRejection::Failed { error: NftError::Unauthorized });
        }
        if !call.is_authorized(&caller) {
            return Err(NftRejection::AuthRequired { address: caller });
        }
        self.tokens.insert(token_id, Token { approved: Some(approved), ..token });
        proof {
            if old(self)@.consistent() {
                law_approve_keeps_consistency(old(self)@, *call, caller, token_id, approved);
            }
        }
        Ok(())
    }

    /// The address approved for a token, if any.
    pub fn get_approved(&self, token_id: u64) -> (approved: Option<Address>)
        ensures
            approved == (if self@.tokens.contains_key(token_id) {
                self@.tokens[token_id].approved
            } else {
                None
            }),
    {
        match self.tokens.get(&token_id) {
            Some(token) => token.approved,
            None => None,
        }
    }

    /// The id that the next token gets.
    pub fn next_token_id(&self) -> (id: u64)
        ensures
            id == self@.next_token_id,
    {
        self.next_token_id
    }

    /// Whether the pool has been registered.
    pub fn is_initialized(&self) -> (yes: bool)
        ensures
            yes == (self@.cl_pool is Some),
    {
        self.cl_pool.is_some()
    }

    /// The registered pool.
    pub fn cl_pool(&self) -> (pool: Address)
        requires
            self@.cl_pool is Some,
        ensures
            self@.cl_pool == Some(pool),
    {
        self.cl_pool.unwrap()
    }

    /// The contract with the records given, as they were kept on the ledger: the
    /// registered pool, the next id and, where they are given, one token and one
    /// list of tokens. An operation touches no other records, so this excerpt is
    /// all it needs. There is none if the records are not sound, or if the list
    /// holds anything but token ids.
    pub fn from_ledger(
        env: Env,
        cl_pool: Option<Address>,
        next_token_id: u64,
        token: Option<(u64, Token)>,
        list: Option<(Address, HostVec<u64>)>,
    ) -> (contract: Option<Self>)
        ensures
            match contract {
                Some(contract) => {
                    &&& list matches Some((_, ids)) ==> holds_ids(ids)
                    &&& contract.wf()
                    &&& contract@ == ledger_excerpt(cl_pool, next_token_id, token, list)
                },
                None => {
                    ||| list matches Some((_, ids)) && !holds_ids(ids)
                    ||| !ledger_excerpt(cl_pool, next_token_id, token, list).valid()
                },
            },
    {
        let ghost excerpt = ledger_excerpt(cl_pool, next_token_id, token, list);
        let mut tokens: BTreeMap<u64, Token> = BTreeMap::new();
        let mut owned: AddressMap<HostVec<u64>> = AddressMap::new();
        if let Some((id, record)) = token {
            assert(excerpt.tokens.contains_key(id));
            if id >= next_token_id {
                return None;
            }
            tokens.insert(id, record);
        }
        if cl_pool.is_none() && next_token_id != 0 {
            return None;
        }
        if let Some((owner, ids)) = list {
            assert(excerpt.owned.contains_key(owner));
            if cl_pool.is_none() {
                assert(!excerpt.owned.dom().is_empty());
                return None;
            }
            if !is_id_list(&ids) {
                return None;
            }
            owned.set(owner, ids);
        }
        let contract = ClPositionNft { env, cl_pool, next_token_id, tokens, owned };
        assert(contract@ =~= excerpt);
        Some(contract)
    }
}

/// The state made of the pool, the next id, and at most one token and one list.
pub open spec fn ledger_excerpt(
    cl_pool: Option<Address>,
    next_token_id: u64,
    token: Option<(u64, Token)>,
    list: Option<(Address, HostVec<u64>)>,
) -> NftState {
    NftState {
        cl_pool,
        next_token_id,
        tokens: match token {
            Some((id, record)) => Map::empty().insert(id, record),
            None => Map::empty(),
        },
        owned: match list {
            Some((owner, ids)) => Map::empty().insert(owner, token_ids(ids)),
            None => Map::empty(),
        },
    }
}

} // verus!
