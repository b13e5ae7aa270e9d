use liquidity_contracts::address::Address;
use liquidity_contracts::cl_position_nft::contract::ClPositionNft;
use liquidity_contracts::cl_position_nft::model::{NftError, NftRejection, PositionMeta, Token};
use liquidity_contracts::cl_position_nft::token_list::{is_id_list, take_out};
use liquidity_contracts::invocation::{Effect, Event, Invocation};
use soroban_sdk::{Env, TryFromVal, Val, Vec as HostVec};

fn address(n: u8) -> Address {
    let mut strkey: [u8; 56] = [b'A'; 56];
    strkey[0] = b'G';
    strkey[55] = n;
    Address { strkey }
}

fn call(signers: &[Address]) -> Invocation {
    let mut call = Invocation::new(address(0), 0);
    for who in signers {
        call.authorize(*who);
    }
    call
}

fn setup() -> (Env, ClPositionNft, Address, Address) {
    let env = Env::default();
    let mut nft = ClPositionNft::new(env.clone());
    let pool = address(1);
    let user = address(2);
    assert_eq!(nft.initialize(pool), Ok(()));
    (env, nft, pool, user)
}

fn mint(nft: &mut ClPositionNft, to: Address, lower: i32, upper: i32) -> u64 {
    let pool = nft.cl_pool();
    nft.mint(&mut call(&[pool]), to, pool, lower, upper).unwrap()
}

fn not_found() -> NftRejection {
    NftRejection::Failed { error: NftError::TokenNotFound }
}

fn items(list: &HostVec<u64>) -> Vec<u64> {
    list.iter().collect()
}

#[test]
fn mint_assigns_sequential_ids_starting_at_zero() {
    let (_env, mut nft, pool, user) = setup();
    let mut call = call(&[pool]);

    let id0 = nft.mint(&mut call, user, pool, -100, 100).unwrap();
    let id1 = nft.mint(&mut call, user, pool, -200, 200).unwrap();

    assert_eq!(id0, 0);
    assert_eq!(id1, 1);

    assert_eq!(nft.owner_of(id0), Ok(user));
    assert_eq!(nft.owner_of(id1), Ok(user));

    let meta0 = nft.get_position(id0).unwrap();
    assert_eq!(meta0.lower_tick, -100);
    assert_eq!(meta0.upper_tick, 100);

    let owned = nft.tokens_of(&user);
    assert_eq!(owned.len(), 2);
    assert_eq!(owned.get(0), Some(0_u64));
    assert_eq!(owned.get(1), Some(1_u64));

    assert_eq!(
        call.effects,
        vec![
            Effect::Publish { event: Event::NftMint { to: user, token_id: 0 } },
            Effect::Publish { event: Event::NftMint { to: user, token_id: 1 } },
        ]
    );
}

#[test]
fn mint_stores_correct_position_meta() {
    let (_env, mut nft, pool, user) = setup();
    let id = mint(&mut nft, user, -500, 500);
    let meta = nft.get_position(id).unwrap();
    assert_eq!(meta.pool, pool);
    assert_eq!(meta.lower_tick, -500);
    assert_eq!(meta.upper_tick, 500);
}

#[test]
fn burn_clears_all_state() {
    let (_env, mut nft, pool, user) = setup();

    let id = mint(&mut nft, user, -100, 100);
    let approved = address(9);
    assert_eq!(nft.approve(&call(&[user]), user, id, approved), Ok(()));
    assert_eq!(nft.get_approved(id), Some(approved));

    let mut call = call(&[pool]);
    assert_eq!(nft.burn(&mut call, id), Ok(()));

    assert!(nft.owner_of(id).is_err());
    assert!(nft.get_position(id).is_err());
    assert_eq!(nft.get_approved(id), None);
    let owned = nft.tokens_of(&user);
    assert_eq!(owned.len(), 0);
    assert_eq!(
        call.effects,
        vec![Effect::Publish { event: Event::NftBurn { owner: user, token_id: id } }]
    );
}

#[test]
fn double_burn_returns_token_not_found() {
    let (_env, mut nft, pool, user) = setup();
    let id = mint(&mut nft, user, -100, 100);
    let mut call = call(&[pool]);
    assert_eq!(nft.burn(&mut call, id), Ok(()));
    assert_eq!(nft.burn(&mut call, id), Err(not_found()));
}

#[test]
fn burn_non_existent_token_returns_token_not_found() {
    let (_env, mut nft, pool, _) = setup();
    assert_eq!(nft.burn(&mut call(&[pool]), 999_u64), Err(not_found()));
}

#[test]
fn mint_by_unauthorized_caller_is_rejected() {
    let (_env, mut nft, pool, _) = setup();
    let attacker = address(7);
    let mut call = call(&[attacker]);
    let result = nft.mint(&mut call, attacker, pool, -100, 100);
    assert!(result.is_err());
    assert_eq!(result, Err(NftRejection::AuthRequired { address: pool }));
    assert_eq!(nft.tokens_of(&attacker).len(), 0);
    assert!(call.effects.is_empty());
}

#[test]
fn burn_by_unauthorized_caller_is_rejected() {
    let (_env, mut nft, pool, user) = setup();
    let id = mint(&mut nft, user, -100, 100);

    let result = nft.burn(&mut call(&[user]), id);
    assert!(result.is_err());
    assert_eq!(result, Err(NftRejection::AuthRequired { address: pool }));
    assert_eq!(nft.owner_of(id), Ok(user));
}

#[test]
fn owner_of_non_existent_token_returns_not_found() {
    let (_env, nft, _, _) = setup();
    assert_eq!(nft.owner_of(42_u64), Err(NftError::TokenNotFound));
}

#[test]
fn tokens_of_empty_returns_empty_vec() {
    let (_env, nft, _, _) = setup();
    let nobody = address(8);
    let owned = nft.tokens_of(&nobody);
    assert_eq!(owned.len(), 0);
}

#[test]
fn multiple_users_have_independent_token_lists() {
    let (_env, mut nft, _, user_a) = setup();
    let user_b = address(3);

    let id0 = mint(&mut nft, user_a, -100, 100);
    let id1 = mint(&mut nft, user_b, -200, 200);
    let id2 = mint(&mut nft, user_a, -300, 300);

    let a_owned = nft.tokens_of(&user_a);
    let b_owned = nft.tokens_of(&user_b);

    assert_eq!(a_owned.len(), 2);
    assert!(a_owned.iter().any(|id| id == id0));
    assert!(a_owned.iter().any(|id| id == id2));

    assert_eq!(b_owned.len(), 1);
    assert!(b_owned.iter().any(|id| id == id1));
}

#[test]
fn cl_pool_returns_registered_pool() {
    let (_env, nft, pool, _) = setup();
    assert!(nft.is_initialized());
    assert_eq!(nft.cl_pool(), pool);
}

#[test]
fn initialize_twice_returns_already_initialized() {
    let (_env, mut nft, pool, _) = setup();
    assert_eq!(nft.initialize(pool), Err(NftError::AlreadyInitialized));
    assert_eq!(nft.initialize(address(5)), Err(NftError::AlreadyInitialized));
    assert_eq!(nft.cl_pool(), pool);
}

#[test]
fn nothing_is_minted_or_burned_before_initialization() {
    let mut nft = ClPositionNft::new(Env::default());
    let unauthorized = NftRejection::Failed { error: NftError::Unauthorized };
    let mut call = call(&[address(1)]);
    assert!(!nft.is_initialized());
    assert_eq!(nft.mint(&mut call, address(2), address(1), 0, 1), Err(unauthorized));
    assert_eq!(nft.burn(&mut call, 0), Err(unauthorized));
}

#[test]
fn only_the_owner_approves() {
    let (_env, mut nft, _, user) = setup();
    let id = mint(&mut nft, user, -100, 100);
    let stranger = address(4);
    let spender = address(6);

    assert_eq!(nft.approve(&call(&[user]), user, id + 1, spender), Err(not_found()));
    assert_eq!(
        nft.approve(&call(&[stranger]), stranger, id, spender),
        Err(NftRejection::Failed { error: NftError::Unauthorized })
    );
    assert_eq!(
        nft.approve(&call(&[stranger]), user, id, spender),
        Err(NftRejection::AuthRequired { address: user })
    );
    assert_eq!(nft.get_approved(id), None);
    assert_eq!(nft.approve(&call(&[user]), user, id, spender), Ok(()));
    assert_eq!(nft.approve(&call(&[user]), user, id, stranger), Ok(()));
    assert_eq!(nft.get_approved(id), Some(stranger));
    assert_eq!(nft.owner_of(id), Ok(user));
}

#[test]
fn burning_from_the_middle_keeps_the_order() {
    let (_env, mut nft, pool, user) = setup();
    for i in 0..4 {
        assert_eq!(mint(&mut nft, user, -i, i), i as u64);
    }
    assert_eq!(nft.burn(&mut call(&[pool]), 1), Ok(()));
    assert_eq!(items(&nft.tokens_of(&user)), vec![0, 2, 3]);
    assert_eq!(nft.burn(&mut call(&[pool]), 3), Ok(()));
    assert_eq!(items(&nft.tokens_of(&user)), vec![0, 2]);
}

#[test]
fn ids_are_never_reused() {
    let (_env, mut nft, pool, user) = setup();
    let first = mint(&mut nft, user, -1, 1);
    assert_eq!(nft.burn(&mut call(&[pool]), first), Ok(()));
    let second = mint(&mut nft, user, -1, 1);
    assert_eq!(second, first + 1);
    assert_eq!(items(&nft.tokens_of(&user)), vec![second]);
    assert_eq!(nft.burn(&mut call(&[pool]), first), Err(not_found()));
}

#[test]
fn a_list_handed_out_is_a_copy() {
    let (_env, mut nft, _, user) = setup();
    mint(&mut nft, user, -1, 1);
    let mut list = nft.tokens_of(&user);
    list.push_back(77);
    assert_eq!(items(&nft.tokens_of(&user)), vec![0]);
    mint(&mut nft, user, -1, 1);
    assert_eq!(items(&list), vec![0, 77]);
    assert_eq!(items(&nft.tokens_of(&user)), vec![0, 1]);
}

#[test]
fn take_out_removes_the_first_occurrence() {
    let env = Env::default();
    let mut list: HostVec<u64> = HostVec::new(&env);
    for id in [5, 8, u64::MAX, 8] {
        list.push_back(id);
    }
    assert!(take_out(&mut list, 8));
    assert_eq!(items(&list), vec![5, u64::MAX, 8]);
    assert!(!take_out(&mut list, 9));
    assert_eq!(items(&list), vec![5, u64::MAX, 8]);
    assert!(take_out(&mut list, u64::MAX));
    assert_eq!(items(&list), vec![5, 8]);
}

#[test]
fn a_list_of_something_else_is_not_taken() {
    let env = Env::default();
    let mut mixed: HostVec<Val> = HostVec::new(&env);
    mixed.push_back(Val::try_from_val(&env, &3_u64).unwrap());
    let ids = HostVec::<u64>::try_from_val(&env, &mixed.to_val()).unwrap();
    mixed.push_back(Val::from_bool(true).to_val());
    let not_ids = HostVec::<u64>::try_from_val(&env, &mixed.to_val()).unwrap();

    assert!(is_id_list(&HostVec::new(&env)));
    assert!(is_id_list(&ids));
    assert!(!is_id_list(&not_ids));

    let pool = address(1);
    let user = address(2);
    let taken =
        ClPositionNft::from_ledger(env.clone(), Some(pool), 4, None, Some((user, ids))).unwrap();
    assert_eq!(items(&taken.tokens_of(&user)), vec![3]);
    let refused = ClPositionNft::from_ledger(env, Some(pool), 4, None, Some((user, not_ids)));
    assert!(refused.is_none());
}

#[test]
fn the_last_id_cannot_be_given_out() {
    let pool = address(1);
    let mut nft =
        ClPositionNft::from_ledger(Env::default(), Some(pool), u64::MAX, None, None).unwrap();
    assert_eq!(
        nft.mint(&mut call(&[pool]), address(2), pool, 0, 1),
        Err(NftRejection::Overflow)
    );
    assert_eq!(nft.tokens_of(&address(2)).len(), 0);
}

#[test]
fn an_excerpt_of_the_tokens_is_enough() {
    let env = Env::default();
    let pool = address(1);
    let user = address(2);
    let position = PositionMeta { pool, lower_tick: -3, upper_tick: 3 };
    let token = Token { owner: user, approved: Some(address(4)), position };
    let mut list: HostVec<u64> = HostVec::new(&env);
    list.push_back(2);
    list.push_back(5);

    let mut nft = ClPositionNft::from_ledger(
        env.clone(),
        Some(pool),
        6,
        Some((5, token)),
        Some((user, list.clone())),
    )
    .unwrap();
    assert_eq!(nft.get_position(5), Ok(position));
    assert_eq!(nft.get_approved(5), Some(address(4)));
    assert_eq!(mint(&mut nft, user, -1, 1), 6);
    assert_eq!(nft.burn(&mut call(&[pool]), 5), Ok(()));
    assert_eq!(items(&nft.tokens_of(&user)), vec![2, 6]);

    let beyond = ClPositionNft::from_ledger(env.clone(), Some(pool), 5, Some((5, token)), None);
    assert!(beyond.is_none());
    let unregistered = ClPositionNft::from_ledger(env.clone(), None, 0, None, Some((user, list)));
    assert!(unregistered.is_none());
    assert!(ClPositionNft::from_ledger(env.clone(), None, 1, None, None).is_none());
    assert!(ClPositionNft::from_ledger(env, None, 0, None, None).is_some());
}

#[test]
fn errors_have_their_numbers() {
    assert_eq!(NftError::AlreadyInitialized.code(), 1);
    assert_eq!(NftError::Unauthorized.code(), 2);
    assert_eq!(NftError::TokenNotFound.code(), 3);
}

#[test]
fn token_events_have_their_topics() {
    let to = address(2);
    assert_eq!(Event::NftMint { to, token_id: 0 }.topic(), "mint");
    assert_eq!(Event::NftBurn { owner: to, token_id: 0 }.topic(), "burn");
}

#[test]
fn a_refused_operation_succeeds_once_authorized() {
    let (_env, mut nft, pool, user) = setup();
    let mut call = call(&[]);
    assert_eq!(
        nft.mint(&mut call, user, pool, -1, 1),
        Err(NftRejection::AuthRequired { address: pool })
    );
    call.authorize(pool);
    assert_eq!(nft.mint(&mut call, user, pool, -1, 1), Ok(0));
    assert_eq!(
        nft.approve(&call, user, 0, pool),
        Err(NftRejection::AuthRequired { address: user })
    );
    call.authorize(user);
    assert_eq!(nft.approve(&call, user, 0, pool), Ok(()));
    assert_eq!(call.effects.len(), 1);
}

#[test]
fn a_run_of_operations_keeps_tokens_as_minted() {
    let mut nft = ClPositionNft::new(Env::default());
    let pool = address(1);
    let users = [address(2), address(3)];
    assert!(nft.mint(&mut call(&[pool]), users[0], pool, -1, 1).is_err());
    assert_eq!(nft.initialize(pool), Ok(()));
    let mut minted = 0;
    for i in 0..6_i32 {
        let to = users[(i % 2) as usize];
        assert!(nft.mint(&mut call(&[to]), to, pool, 0, 1).is_err());
        assert_eq!(mint(&mut nft, to, -i, i + 10), minted);
        minted += 1;
        assert!(nft.initialize(to).is_err());
    }
    assert_eq!(nft.burn(&mut call(&[pool]), 2), Ok(()));
    assert_eq!(nft.approve(&call(&[users[1]]), users[1], 3, users[0]), Ok(()));
    assert_eq!(nft.burn(&mut call(&[pool]), 5), Ok(()));

    assert_eq!(nft.cl_pool(), pool);
    for id in [0_u64, 1, 3, 4] {
        let i = id as i32;
        let position = PositionMeta { pool, lower_tick: -i, upper_tick: i + 10 };
        assert_eq!(nft.get_position(id), Ok(position));
        assert_eq!(nft.owner_of(id), Ok(users[(i % 2) as usize]));
    }
    assert_eq!(items(&nft.tokens_of(&users[0])), vec![0, 4]);
    assert_eq!(items(&nft.tokens_of(&users[1])), vec![1, 3]);
    assert_eq!(mint(&mut nft, users[0], 0, 1), minted);
}

#[test]
fn only_the_registered_pool_passes() {
    let (_env, nft, pool, user) = setup();
    assert_eq!(nft.require_pool(&call(&[user, pool])), Ok(pool));
    assert_eq!(
        nft.require_pool(&call(&[user])),
        Err(NftRejection::AuthRequired { address: pool })
    );
    assert_eq!(
        ClPositionNft::new(Env::default()).require_pool(&call(&[pool])),
        Err(NftRejection::Failed { error: NftError::Unauthorized })
    );
}
