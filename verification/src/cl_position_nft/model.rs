//! The state of the position tokens and what each operation makes of it.

use vstd::prelude::*;
use crate::address::Address;
use crate::invocation::Invocation;
use super::token_list::without_first;

verus! {

/// The errors that the contract reports to its callers.
#[derive(Clone, Copy, Debug, PartialEq, Eq, Structural)]
pub enum NftError {
    AlreadyInitialized,
    Unauthorized,
    TokenNotFound,
}

impl NftError {
    /// The number under which callers see the error.
    pub open spec fn number(self) -> int {
        match self {
            NftError::AlreadyInitialized => 1,
            NftError::Unauthorized => 2,
            NftError::TokenNotFound => 3,
        }
    }

    /// The number under which callers see the error.
    pub fn code(&self) -> (code: u32)
        ensures
            code == self.number(),
    {
        match self {
            NftError::AlreadyInitialized => 1,
            NftError::Unauthorized => 2,
            NftError::TokenNotFound => 3,
        }
    }
}

/// Why an operation was refused.
#[derive(Clone, Copy, Debug, PartialEq, Eq)]
pub enum NftRejection {
    /// The call needs the authorization of this address.
    AuthRequired { address: Address },
    /// The contract reports an error.
    Failed { error: NftError },
    /// No further token id, or no room in a list of token ids, is left.
    Overflow,
}

/// What is recorded of a position when its token is minted.
#[derive(Clone, Copy, Debug, PartialEq, Eq)]
pub struct PositionMeta {
    /// The pool that the position belongs to.
    pub pool: Address,
    /// Lower tick of the position's range.
    pub lower_tick: i32,
    /// Upper tick of the position's range.
    pub upper_tick: i32,
}

/// What is recorded of a token.
#[derive(Clone, Copy, Debug, PartialEq, Eq)]
pub struct Token {
    pub owner: Address,
    /// The address that the owner approved, if any.
    pub approved: Option<Address>,
    pub position: PositionMeta,
}

/// The position tokens.
#[verifier::ext_equal]
pub struct NftState {
    /// The registered pool, once the contract is initialized.
    pub cl_pool: Option<Address>,
    /// The id that the next token gets.
    pub next_token_id: u64,
    /// The tokens that exist.
    pub tokens: Map<u64, Token>,
    /// The list of tokens of each address that ever owned one.
    pub owned: Map<Address, Seq<u64>>,
}

impl NftState {
    /// The state before initialization.
    pub open spec fn empty() -> NftState {
        NftState { cl_pool: None, next_token_id: 0, tokens: Map::empty(), owned: Map::empty() }
    }

    /// Every token got its id before the next one is given out, and there is
    /// nothing before initialization. This also holds of an excerpt with some of
    /// the records.
    pub open spec fn valid(self) -> bool {
        &&& forall|id: u64| #[trigger] self.tokens.contains_key(id) ==> id < self.next_token_id
        &&& self.cl_pool is None ==> self.next_token_id == 0 && self.owned.dom().is_empty()
    }

    /// The list of tokens of `owner`.
    pub open spec fn list(self, owner: Address) -> Seq<u64> {
        if self.owned.contains_key(owner) {
            self.owned[owner]
        } else {
            Seq::empty()
        }
    }

    /// The records fit together: the list of an address holds exactly the tokens
    /// that it owns, each once, in the order in which they were minted.
    pub open spec fn consistent(self) -> bool {
        &&& self.valid()
        &&& forall|owner: Address, id: u64| #[trigger]
            self.list(owner).contains(id) <==> self.tokens.contains_key(id)
                && self.tokens[id].owner == owner
        &&& forall|owner: Address, i: int, j: int|
            0 <= i < j < self.list(owner).len() ==> #[trigger] self.list(owner)[i]
                < #[trigger] self.list(owner)[j]
    }

    // ── initialize ────────────────────────────────────────────────────────
    /// Why setting up the contract is refused, if it is: it is done once.
    pub open spec fn initialize_refusal(self) -> Option<NftError> {
        if self.cl_pool is Some {
            Some(NftError::AlreadyInitialized)
        } else {
            None
        }
    }

    pub open spec fn initialized(self, cl_pool: Address) -> NftState {
        NftState { cl_pool: Some(cl_pool), next_token_id: 0, ..self }
    }

    // ── require_pool ──────────────────────────────────────────────────────
    /// Why the call may not mint or burn, if it may not: only the registered pool
    /// may.
    pub open spec fn pool_refusal(self, call: Invocation) -> Option<NftRejection> {
        match self.cl_pool {
            None => Some(NftRejection::Failed { error: NftError::Unauthorized }),
            Some(pool) => if !call.authorized(pool) {
                Some(NftRejection::AuthRequired { address: pool })
            } else {
                None
            },
        }
    }

    // ── mint ──────────────────────────────────────────────────────────────
    /// Why a mint is refused, if it is.
    pub open spec fn mint_refusal(self, call: Invocation, to: Address) -> Option<NftRejection> {
        if self.pool_refusal(call) is Some {
            self.pool_refusal(call)
        } else if self.next_token_id == u64::MAX || self.list(to).len() == u32::MAX {
            Some(NftRejection::Overflow)
        } else {
            None
        }
    }

    pub open spec fn minted(self, to: Address, position: PositionMeta) -> NftState {
        let id = self.next_token_id;
        NftState {
            next_token_id: (id + 1) as u64,
            tokens: self.tokens.insert(id, Token { owner: to, approved: None, position }),
            owned: self.owned.insert(to, self.list(to).push(id)),
            ..self
        }
    }

    // ── burn ──────────────────────────────────────────────────────────────
    /// Why a burn is refused, if it is.
    pub open spec fn burn_refusal(self, call: Invocation, token_id: u64) -> Option<NftRejection> {
        if self.pool_refusal(call) is Some {
            self.pool_refusal(call)
        } else if !self.tokens.contains_key(token_id) {
            Some(NftRejection::Failed { error: NftError::TokenNotFound })
        } else {
            None
        }
    }

    pub open spec fn burned(self, token_id: u64) -> NftState {
        let owner = self.tokens[token_id].owner;
        NftState {
            tokens: self.tokens.remove(token_id),
            owned: if self.list(owner).contains(token_id) {
                self.owned.insert(owner, without_first(self.list(owner), token_id))
            } else {
                self.owned
            },
            ..self
        }
    }

    // ── approve ───────────────────────────────────────────────────────────
    /// Why an approval is refused, if it is.
    pub open spec fn approve_refusal(
        self,
        call: Invocation,
        caller: Address,
        token_id: u64,
    ) -> Option<NftRejection> {
        if !self.tokens.contains_key(token_id) {
            Some(NftRejection::Failed { error: NftError::TokenNotFound })
        } else if caller != self.tokens[token_id].owner {
            Some(NftRejection::Failed { error: NftError::Unauthorized })
        } else if !call.authorized(caller) {
            Some(NftRejection::AuthRequired { address: caller })
        } else {
            None
        }
    }

    pub open spec fn approved(self, token_id: u64, approved: Address) -> NftState {
        NftState {
            tokens: self.tokens.insert(
                token_id,
                Token { approved: Some(approved), ..self.tokens[token_id] },
            ),
            ..self
        }
    }
}

} // verus!
