# liquidity_contracts

Verified logic of two contracts around a liquidity pool.

- `src/staking/`: LP tokens are staked for rewards, with an optional lock for a
  boost of one to four times.
- `src/cl_position_nft/`: receipt tokens for concentrated-liquidity positions,
  minted and burned by the registered pool.

Each contract is laid out alike. `model.rs` says what the state is and what each
operation makes of it, `contract.rs` holds the operations, `laws.rs` proves what
holds of the contract as a whole, and `history.rs` what holds over any run of
operations.

The logic does no input or output. `src/invocation.rs` describes a call: the
ledger time, the authorizations established so far, and the effects (transfers
and events) that the call asks for. An operation that lacks an authorization
refuses, names the address, and changes nothing; it can then be repeated.
`app/` is the part that talks to the host: storage, authorization, transfers and
events.

The lists of token ids are vectors of the host. What is trusted of these vectors
stands in `src/cl_position_nft/token_list.rs`.
