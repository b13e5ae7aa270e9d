use liquidity_contracts::address::{lists, Address, AddressMap};
use liquidity_contracts::invocation::{Effect, Event, Invocation};
use liquidity_contracts::staking::contract::Staking;
use liquidity_contracts::staking::model::{
    PoolInfo, Position, StakingError, BOOST_SCALE, MAX_BOOST, MAX_LOCK_DURATION, MIN_BOOST,
    MIN_LOCK_DURATION, SCALE_FACTOR,
};

fn address(n: u8) -> Address {
    let mut strkey: [u8; 56] = [b'A'; 56];
    strkey[0] = b'G';
    strkey[55] = n;
    Address { strkey }
}

fn contract() -> Address {
    address(0)
}

fn lp_token() -> Address {
    address(1)
}

fn reward_token() -> Address {
    address(2)
}

fn call(now: u64, signers: &[Address]) -> Invocation {
    let mut call = Invocation::new(contract(), now);
    for who in signers {
        call.authorize(*who);
    }
    call
}

fn setup() -> (Address, Address, Staking) {
    let admin = address(3);
    let staker = address(4);
    let mut staking = Staking::new();
    assert_eq!(staking.initialize(lp_token(), reward_token(), admin), Ok(()));
    assert_eq!(staking.add_rewards(&mut call(0, &[admin]), admin, 10_000), Ok(()));
    (admin, staker, staking)
}

fn pool_record() -> PoolInfo {
    PoolInfo {
        lp_token: lp_token(),
        reward_token: reward_token(),
        admin: address(3),
        total_effective_staked: 0,
        reward_pool_balance: 0,
        accumulated_rewards_per_share: 0,
    }
}

#[test]
fn test_stake_no_lock_one_x_boost() {
    let (_, staker, mut staking) = setup();

    assert_eq!(staking.stake(&mut call(0, &[staker]), staker, 1_000), Ok(()));

    let info = staking.get_staker_info(&staker);
    assert_eq!(info.staked_amount, 1_000);
    assert_eq!(info.boost_multiplier, BOOST_SCALE);
    assert_eq!(info.effective_amount, 1_000);
    assert_eq!(info.lock_expiry, 0);

    let pool = staking.get_pool_info();
    assert_eq!(pool.total_effective_staked, 1_000);
}

#[test]
fn test_stake_locked_max_duration_four_x_boost() {
    let (_, staker, mut staking) = setup();

    let mut call = call(0, &[staker]);
    assert_eq!(staking.stake_locked(&mut call, staker, 1_000, MAX_LOCK_DURATION), Ok(()));

    let info = staking.get_staker_info(&staker);
    assert_eq!(info.staked_amount, 1_000);
    assert_eq!(info.boost_multiplier, MAX_BOOST);
    assert_eq!(info.effective_amount, 4_000);

    let pool = staking.get_pool_info();
    assert_eq!(pool.total_effective_staked, 4_000);
}

#[test]
fn test_boosted_staker_earns_more_rewards() {
    let (admin, staker_a, mut staking) = setup();
    let staker_b = address(5);

    assert_eq!(staking.stake(&mut call(0, &[staker_a]), staker_a, 1_000), Ok(()));
    assert_eq!(
        staking.stake_locked(&mut call(0, &[staker_b]), staker_b, 1_000, MAX_LOCK_DURATION),
        Ok(())
    );
    assert_eq!(staking.update_rewards(&mut call(0, &[admin]), admin, 500), Ok(()));

    let pending_a = staking.pending_rewards(&staker_a);
    let pending_b = staking.pending_rewards(&staker_b);

    assert_eq!(pending_a, Ok(100));
    assert_eq!(pending_b, Ok(400));
}

#[test]
fn test_unstake_locked_before_expiry_panics() {
    let (_, staker, mut staking) = setup();

    let mut call = call(0, &[staker]);
    assert_eq!(staking.stake_locked(&mut call, staker, 1_000, MIN_LOCK_DURATION), Ok(()));

    let result = staking.unstake(&mut call, staker, 1_000);
    assert!(result.is_err());
    assert_eq!(result, Err(StakingError::StillLocked));
}

#[test]
fn test_unstake_after_lock_expiry_succeeds() {
    let (admin, staker, mut staking) = setup();

    let now = 0;
    assert_eq!(
        staking.stake_locked(&mut call(now, &[staker]), staker, 1_000, MIN_LOCK_DURATION),
        Ok(())
    );
    assert_eq!(staking.update_rewards(&mut call(now, &[admin]), admin, 100), Ok(()));

    let later = now + MIN_LOCK_DURATION + 1;
    let (lp_returned, rewards) =
        staking.unstake(&mut call(later, &[staker]), staker, 1_000).unwrap();
    assert_eq!(lp_returned, 1_000);
    assert!(rewards > 0);
}

#[test]
fn test_stake_and_claim() {
    let (admin, staker, mut staking) = setup();

    assert_eq!(staking.stake(&mut call(0, &[staker]), staker, 1_000), Ok(()));
    assert_eq!(staking.update_rewards(&mut call(0, &[admin]), admin, 100), Ok(()));

    let pending = staking.pending_rewards(&staker);
    assert_eq!(pending, Ok(100));

    let claimed = staking.claim(&mut call(0, &[staker]), staker);
    assert_eq!(claimed, Ok(100));
    assert_eq!(staking.pending_rewards(&staker), Ok(0));
}

#[test]
fn boost_grows_linearly_with_the_lock() {
    assert_eq!(Staking::_boost_for_remaining(0, 0), MIN_BOOST);
    assert_eq!(Staking::_boost_for_remaining(5, 9), MIN_BOOST);
    assert_eq!(Staking::_boost_for_remaining(100 + MIN_LOCK_DURATION, 100), 10_143);
    assert_eq!(Staking::_boost_for_remaining(MAX_LOCK_DURATION / 2, 0), 25_000);
    assert_eq!(Staking::_boost_for_remaining(MAX_LOCK_DURATION, 1), 39_999);
    assert_eq!(Staking::_boost_for_remaining(7 + MAX_LOCK_DURATION, 7), MAX_BOOST);
    assert_eq!(Staking::_boost_for_remaining(u64::MAX, 0), MAX_BOOST);
    assert_eq!(MAX_LOCK_DURATION, 126_144_000);
    assert_eq!(MIN_LOCK_DURATION, 604_800);
}

#[test]
fn effective_amount_is_rounded_toward_zero() {
    assert_eq!(Staking::_effective_amount(1_000, 10_143), 1_014);
    assert_eq!(Staking::_effective_amount(3, 39_999), 11);
    assert_eq!(Staking::_effective_amount(-3, 39_999), -11);
    assert_eq!(Staking::_effective_amount(0, MAX_BOOST), 0);
}

#[test]
fn lock_durations_are_brought_into_range() {
    let (_, staker, mut staking) = setup();
    assert_eq!(staking.stake_locked(&mut call(50, &[staker]), staker, 10, 1), Ok(()));
    assert_eq!(staking.get_staker_info(&staker).lock_expiry, 50 + MIN_LOCK_DURATION);

    let other = address(6);
    assert_eq!(staking.stake_locked(&mut call(50, &[other]), other, 10, u64::MAX), Ok(()));
    assert_eq!(staking.get_staker_info(&other).lock_expiry, 50 + MAX_LOCK_DURATION);
}

#[test]
fn a_running_lock_is_never_shortened() {
    let (_, staker, mut staking) = setup();
    let mut first = call(0, &[staker]);
    assert_eq!(staking.stake_locked(&mut first, staker, 100, MAX_LOCK_DURATION), Ok(()));

    let half = MAX_LOCK_DURATION / 2;
    let mut second = call(half, &[staker]);
    assert_eq!(staking.stake_locked(&mut second, staker, 100, MIN_LOCK_DURATION), Ok(()));
    let info = staking.get_staker_info(&staker);
    assert_eq!(info.lock_expiry, MAX_LOCK_DURATION);
    assert_eq!(info.boost_multiplier, 25_000);
    assert_eq!(info.effective_amount, 500);

    assert_eq!(staking.stake(&mut second, staker, 100), Ok(()));
    let info = staking.get_staker_info(&staker);
    assert_eq!(info.lock_expiry, MAX_LOCK_DURATION);
    assert_eq!(info.boost_multiplier, 25_000);
}

#[test]
fn the_total_is_the_sum_of_effective_amounts() {
    let (_, staker, mut staking) = setup();
    let other = address(6);
    assert_eq!(staking.stake(&mut call(0, &[other]), other, 700), Ok(()));
    assert_eq!(staking.stake(&mut call(0, &[staker]), staker, 1_000), Ok(()));
    assert_eq!(
        staking.stake_locked(&mut call(0, &[staker]), staker, 1_000, MAX_LOCK_DURATION),
        Ok(())
    );
    assert_eq!(staking.get_staker_info(&staker).effective_amount, 8_000);
    assert_eq!(staking.get_pool_info().total_effective_staked, 8_700);

    let late = MAX_LOCK_DURATION;
    assert_eq!(staking.stake(&mut call(late, &[staker]), staker, 500), Ok(()));
    assert_eq!(staking.get_staker_info(&staker).effective_amount, 2_500);
    assert_eq!(staking.get_pool_info().total_effective_staked, 3_200);
}

#[test]
fn staking_more_loses_no_rewards() {
    let (admin, staker, mut staking) = setup();
    assert_eq!(staking.stake(&mut call(0, &[staker]), staker, 1_000), Ok(()));
    assert_eq!(staking.update_rewards(&mut call(0, &[admin]), admin, 100), Ok(()));
    assert_eq!(
        staking.stake_locked(&mut call(0, &[staker]), staker, 1_000, MAX_LOCK_DURATION),
        Ok(())
    );
    assert_eq!(staking.pending_rewards(&staker), Ok(100));
    assert_eq!(staking.get_staker_info(&staker).rewards_debt, 700);

    assert_eq!(staking.update_rewards(&mut call(0, &[admin]), admin, 80), Ok(()));
    assert_eq!(staking.pending_rewards(&staker), Ok(180));
    assert_eq!(staking.claim(&mut call(0, &[staker]), staker), Ok(180));
}

#[test]
fn rewards_carried_over_can_exceed_what_accrued() {
    let (admin, staker, mut staking) = setup();
    assert_eq!(
        staking.stake_locked(&mut call(0, &[staker]), staker, 1_000, MAX_LOCK_DURATION),
        Ok(())
    );
    assert_eq!(staking.update_rewards(&mut call(0, &[admin]), admin, 400), Ok(()));
    let late = MAX_LOCK_DURATION;
    assert_eq!(staking.stake(&mut call(late, &[staker]), staker, 1_000), Ok(()));
    assert_eq!(staking.get_staker_info(&staker).effective_amount, 2_000);
    assert_eq!(staking.get_staker_info(&staker).rewards_debt, -200);
    assert_eq!(staking.pending_rewards(&staker), Ok(400));
}

#[test]
fn a_second_claim_finds_nothing() {
    let (admin, staker, mut staking) = setup();
    let mut call_staker = call(0, &[staker]);
    assert_eq!(staking.claim(&mut call_staker, staker), Err(StakingError::NoPendingRewards));
    assert_eq!(staking.stake(&mut call_staker, staker, 1_000), Ok(()));
    assert_eq!(staking.claim(&mut call_staker, staker), Err(StakingError::NoPendingRewards));
    assert_eq!(staking.update_rewards(&mut call(0, &[admin]), admin, 100), Ok(()));
    assert_eq!(staking.claim(&mut call_staker, staker), Ok(100));
    assert_eq!(staking.claim(&mut call_staker, staker), Err(StakingError::NoPendingRewards));
}

#[test]
fn stakers_do_not_affect_each_other() {
    let (admin, staker, mut staking) = setup();
    let other = address(6);
    assert_eq!(staking.stake(&mut call(0, &[other]), other, 3_000), Ok(()));
    assert_eq!(staking.stake(&mut call(0, &[staker]), staker, 1_000), Ok(()));
    assert_eq!(staking.update_rewards(&mut call(0, &[admin]), admin, 400), Ok(()));
    let before = staking.get_staker_info(&other);
    assert_eq!(staking.claim(&mut call(0, &[staker]), staker), Ok(100));
    assert_eq!(staking.stake(&mut call(0, &[staker]), staker, 5_000), Ok(()));
    assert_eq!(staking.unstake(&mut call(0, &[staker]), staker, 6_000), Ok((6_000, 0)));
    assert_eq!(staking.get_staker_info(&other), before);
    assert_eq!(staking.pending_rewards(&other), Ok(300));
}

#[test]
fn a_stake_comes_back_whole() {
    let (_, staker, mut staking) = setup();
    let before = staking.get_pool_info();
    assert_eq!(staking.stake_locked(&mut call(9, &[staker]), staker, 777, 1), Ok(()));
    let end = 9 + MIN_LOCK_DURATION;
    assert_eq!(
        staking.unstake(&mut call(end - 1, &[staker]), staker, 777),
        Err(StakingError::StillLocked)
    );
    assert_eq!(staking.unstake(&mut call(end, &[staker]), staker, 777), Ok((777, 0)));
    assert_eq!(staking.get_pool_info(), before);
    assert_eq!(staking.get_staker_info(&staker).staked_amount, 0);
}

#[test]
fn a_part_of_a_stake_can_be_taken_out() {
    let (admin, staker, mut staking) = setup();
    assert_eq!(staking.stake(&mut call(0, &[staker]), staker, 1_000), Ok(()));
    assert_eq!(staking.update_rewards(&mut call(0, &[admin]), admin, 100), Ok(()));
    let mut call_staker = call(0, &[staker]);
    assert_eq!(staking.unstake(&mut call_staker, staker, 400), Ok((400, 100)));
    let info = staking.get_staker_info(&staker);
    assert_eq!(info.staked_amount, 600);
    assert_eq!(info.rewards_debt, 60);
    assert_eq!(staking.pending_rewards(&staker), Ok(0));
    assert_eq!(staking.get_pool_info().total_effective_staked, 600);
    assert_eq!(
        call_staker.effects,
        vec![
            Effect::Transfer {
                token: reward_token(),
                from: contract(),
                to: staker,
                amount: 100,
            },
            Effect::Publish { event: Event::Claimed { staker, amount: 100 } },
            Effect::Transfer { token: lp_token(), from: contract(), to: staker, amount: 400 },
            Effect::Publish { event: Event::Unstaked { staker, amount: 400, rewards: 100 } },
        ]
    );
}

#[test]
fn operations_ask_for_their_transfers_and_events() {
    let (admin, staker, mut staking) = setup();
    let mut adding = call(0, &[admin]);
    assert_eq!(staking.add_rewards(&mut adding, admin, 5), Ok(()));
    assert_eq!(
        adding.effects,
        vec![
            Effect::TransferFrom {
                token: reward_token(),
                spender: admin,
                from: admin,
                to: contract(),
                amount: 5,
            },
            Effect::Publish { event: Event::RewardsAdded { admin, amount: 5 } },
        ]
    );

    let mut staking_call = call(30, &[staker]);
    let lock = MAX_LOCK_DURATION;
    assert_eq!(staking.stake_locked(&mut staking_call, staker, 8, lock), Ok(()));
    assert_eq!(
        staking_call.effects,
        vec![
            Effect::TransferFrom {
                token: lp_token(),
                spender: staker,
                from: staker,
                to: contract(),
                amount: 8,
            },
            Effect::Publish {
                event: Event::Staked { staker, amount: 8, boost: MAX_BOOST, expiry: 30 + lock },
            },
        ]
    );

    let mut updating = call(30, &[admin]);
    assert_eq!(staking.update_rewards(&mut updating, admin, 64), Ok(()));
    assert_eq!(
        updating.effects,
        vec![Effect::Publish { event: Event::RewardsUpdated { new_rewards: 64 } }]
    );
    assert_eq!(staking.get_pool_info().accumulated_rewards_per_share, 2 * SCALE_FACTOR);

    let mut claiming = call(30, &[staker]);
    assert_eq!(staking.claim(&mut claiming, staker), Ok(64));
    assert_eq!(
        claiming.effects,
        vec![
            Effect::Transfer {
                token: reward_token(),
                from: contract(),
                to: staker,
                amount: 64,
            },
            Effect::Publish { event: Event::Claimed { staker, amount: 64 } },
        ]
    );
}

#[test]
fn the_reward_balance_is_what_was_added_less_what_was_distributed() {
    let (admin, staker, mut staking) = setup();
    assert_eq!(staking.get_pool_info().reward_pool_balance, 10_000);
    assert_eq!(staking.stake(&mut call(0, &[staker]), staker, 1_000), Ok(()));
    assert_eq!(staking.update_rewards(&mut call(0, &[admin]), admin, 100), Ok(()));
    assert_eq!(staking.get_pool_info().reward_pool_balance, 9_900);
    assert_eq!(staking.claim(&mut call(0, &[staker]), staker), Ok(100));
    assert_eq!(staking.get_pool_info().reward_pool_balance, 9_900);
    assert_eq!(staking.update_rewards(&mut call(0, &[admin]), admin, 50), Ok(()));
    assert_eq!(staking.unstake(&mut call(0, &[staker]), staker, 1_000), Ok((1_000, 50)));
    assert_eq!(staking.get_pool_info().reward_pool_balance, 9_850);
    assert_eq!(staking.add_rewards(&mut call(0, &[admin]), admin, 7), Ok(()));
    assert_eq!(staking.get_pool_info().reward_pool_balance, 9_857);
}

#[test]
fn staking_and_taking_out_again_leaves_everything_as_it_was() {
    let (admin, staker, mut staking) = setup();
    let mut call_staker = call(0, &[staker]);
    assert_eq!(staking.stake(&mut call_staker, staker, 1_000), Ok(()));
    assert_eq!(staking.update_rewards(&mut call(0, &[admin]), admin, 100), Ok(()));
    assert_eq!(staking.claim(&mut call_staker, staker), Ok(100));
    let position = staking.get_staker_info(&staker);
    let pool = staking.get_pool_info();

    let mut again = call(0, &[staker]);
    assert_eq!(staking.stake(&mut again, staker, 333), Ok(()));
    assert_eq!(staking.unstake(&mut again, staker, 333), Ok((333, 0)));
    assert_eq!(staking.get_staker_info(&staker), position);
    assert_eq!(staking.get_pool_info(), pool);
    assert_eq!(
        again.effects[2],
        Effect::Transfer { token: lp_token(), from: contract(), to: staker, amount: 333 }
    );
    assert_eq!(again.effects.len(), 4);
}

#[test]
fn a_distribution_is_shared_in_proportion() {
    let (admin, staker, mut staking) = setup();
    let other = address(6);
    assert_eq!(staking.stake(&mut call(0, &[staker]), staker, 3), Ok(()));
    assert_eq!(staking.stake(&mut call(0, &[other]), other, 5), Ok(()));
    assert_eq!(staking.update_rewards(&mut call(0, &[admin]), admin, 100), Ok(()));
    assert_eq!(staking.pending_rewards(&staker), Ok(37));
    assert_eq!(staking.pending_rewards(&other), Ok(62));
    assert_eq!(staking.update_rewards(&mut call(0, &[admin]), admin, 100), Ok(()));
    assert_eq!(staking.pending_rewards(&staker), Ok(75));
    assert_eq!(staking.pending_rewards(&other), Ok(125));
}

#[test]
fn whoever_took_everything_out_owes_nothing_and_is_owed_nothing() {
    let (admin, staker, mut staking) = setup();
    let other = address(6);
    let mut call_staker = call(0, &[staker]);
    assert_eq!(staking.stake(&mut call_staker, staker, 10), Ok(()));
    assert_eq!(staking.stake(&mut call(0, &[other]), other, 10), Ok(()));
    assert_eq!(staking.update_rewards(&mut call(0, &[admin]), admin, 40), Ok(()));
    assert_eq!(staking.unstake(&mut call_staker, staker, 10), Ok((10, 20)));
    assert_eq!(staking.get_staker_info(&staker).rewards_debt, 0);
    assert_eq!(staking.update_rewards(&mut call(0, &[admin]), admin, 40), Ok(()));
    assert_eq!(staking.pending_rewards(&staker), Ok(0));
    assert_eq!(staking.pending_rewards(&other), Ok(60));
}

#[test]
fn a_distribution_is_rounded_down_per_share() {
    let (admin, staker, mut staking) = setup();
    let other = address(6);
    assert_eq!(staking.stake(&mut call(0, &[staker]), staker, 1), Ok(()));
    assert_eq!(staking.stake(&mut call(0, &[other]), other, 2), Ok(()));
    assert_eq!(staking.update_rewards(&mut call(0, &[admin]), admin, 100), Ok(()));
    assert_eq!(
        staking.get_pool_info().accumulated_rewards_per_share,
        33_333_333_333_333_333_333
    );
    assert_eq!(staking.pending_rewards(&staker), Ok(33));
    assert_eq!(staking.pending_rewards(&other), Ok(66));
}

#[test]
fn claims_together_stay_within_the_distribution() {
    let (admin, staker, mut staking) = setup();
    let other = address(6);
    let third = address(7);
    for who in [staker, other, third] {
        assert_eq!(staking.stake(&mut call(0, &[who]), who, 1), Ok(()));
    }
    assert_eq!(staking.update_rewards(&mut call(0, &[admin]), admin, 500), Ok(()));
    let mut paid = 0;
    for who in [staker, other, third] {
        paid += staking.claim(&mut call(0, &[who]), who).unwrap();
    }
    assert_eq!(paid, 498);
    assert_eq!(staking.update_rewards(&mut call(0, &[admin]), admin, 1), Ok(()));
    for who in [staker, other, third] {
        assert_eq!(staking.pending_rewards(&who), Ok(0));
    }
    assert_eq!(staking.update_rewards(&mut call(0, &[admin]), admin, 1), Ok(()));
    for who in [staker, other] {
        assert_eq!(staking.unstake(&mut call(0, &[who]), who, 1), Ok((1, 1)));
    }
}

#[test]
fn added_rewards_are_owed_to_nobody() {
    let (admin, staker, mut staking) = setup();
    assert_eq!(staking.stake(&mut call(0, &[staker]), staker, 1_000), Ok(()));
    assert_eq!(staking.add_rewards(&mut call(0, &[admin]), admin, 900), Ok(()));
    assert_eq!(staking.pending_rewards(&staker), Ok(0));
}

#[test]
fn authorization_is_needed_first() {
    let (admin, staker, mut staking) = setup();
    let stranger = address(9);
    let mut call = call(0, &[stranger]);
    let staker_needed = StakingError::AuthRequired { address: staker };
    let admin_needed = StakingError::AuthRequired { address: admin };
    assert_eq!(staking.stake(&mut call, staker, 0), Err(staker_needed));
    assert_eq!(staking.stake_locked(&mut call, staker, 1, 1), Err(staker_needed));
    assert_eq!(staking.claim(&mut call, staker), Err(staker_needed));
    assert_eq!(staking.unstake(&mut call, staker, 0), Err(staker_needed));
    assert_eq!(staking.add_rewards(&mut call, admin, 0), Err(admin_needed));
    assert_eq!(staking.update_rewards(&mut call, admin, 0), Err(admin_needed));
    assert_eq!(staking.add_rewards(&mut call, stranger, 1), Err(StakingError::NotAdmin));
    assert_eq!(staking.update_rewards(&mut call, stranger, 1), Err(StakingError::NotAdmin));
    assert!(call.effects.is_empty());
}

#[test]
fn amounts_must_be_positive_and_covered() {
    let (admin, staker, mut staking) = setup();
    let mut call = call(0, &[staker, admin]);
    assert_eq!(staking.stake(&mut call, staker, 0), Err(StakingError::AmountNotPositive));
    assert_eq!(staking.unstake(&mut call, staker, -1), Err(StakingError::AmountNotPositive));
    assert_eq!(staking.add_rewards(&mut call, admin, 0), Err(StakingError::AmountNotPositive));
    assert_eq!(
        staking.update_rewards(&mut call, admin, 0),
        Err(StakingError::NewRewardsNotPositive)
    );
    assert_eq!(staking.update_rewards(&mut call, admin, 1), Err(StakingError::NoStakers));
    assert_eq!(staking.unstake(&mut call, staker, 1), Err(StakingError::InsufficientStake));
}

#[test]
fn a_pool_is_initialized_once_and_first() {
    let mut staking = Staking::new();
    let who = address(4);
    let mut call = call(0, &[who]);
    assert!(!staking.is_initialized());
    assert_eq!(staking.stake(&mut call, who, 1), Err(StakingError::NotInitialized));
    assert_eq!(staking.add_rewards(&mut call, who, 1), Err(StakingError::NotInitialized));
    assert_eq!(staking.update_rewards(&mut call, who, 1), Err(StakingError::NotInitialized));
    assert_eq!(staking.claim(&mut call, who), Err(StakingError::NoPendingRewards));
    assert_eq!(staking.unstake(&mut call, who, 1), Err(StakingError::InsufficientStake));
    assert_eq!(staking.pending_rewards(&who), Ok(0));

    assert_eq!(staking.initialize(lp_token(), reward_token(), who), Ok(()));
    assert!(staking.is_initialized());
    assert_eq!(
        staking.initialize(who, who, who),
        Err(StakingError::AlreadyInitialized)
    );
    assert_eq!(staking.get_pool_info().lp_token, lp_token());
    assert_eq!(staking.get_pool_info().admin, who);
}

#[test]
fn quantities_that_do_not_fit_are_refused() {
    let (admin, staker, mut staking) = setup();
    let mut call = call(0, &[admin, staker]);
    assert_eq!(staking.stake(&mut call, staker, i128::MAX), Err(StakingError::Overflow));
    assert_eq!(staking.add_rewards(&mut call, admin, i128::MAX), Err(StakingError::Overflow));
    assert_eq!(staking.stake(&mut call, staker, 1), Ok(()));
    assert_eq!(staking.update_rewards(&mut call, admin, i128::MAX), Err(StakingError::Overflow));
    assert!(staking.update_rewards(&mut call, admin, 100_000_000_000_000_000_000).is_ok());
    assert_eq!(staking.update_rewards(&mut call, admin, 100_000_000_000_000_000_000), Err(
        StakingError::Overflow
    ));
    assert_eq!(staking.stake(&mut call, staker, 1), Err(StakingError::Overflow));
    assert_eq!(staking.pending_rewards(&staker), Ok(100_000_000_000_000_000_000));

    let mut late = self::call(u64::MAX, &[staker]);
    assert_eq!(staking.stake_locked(&mut late, staker, 1, 1), Err(StakingError::Overflow));
}

#[test]
fn an_excerpt_of_the_pool_is_enough() {
    let staker = address(4);
    let pool = PoolInfo {
        total_effective_staked: 5_000,
        accumulated_rewards_per_share: 2 * SCALE_FACTOR,
        reward_pool_balance: 90,
        ..pool_record()
    };
    let position = Position {
        staked_amount: 1_000,
        rewards_debt: 1_930,
        lock_expiry: 40,
        boost_multiplier: MIN_BOOST,
    };
    let mut staking = Staking::from_ledger(Some(pool), Some((staker, position))).unwrap();
    assert_eq!(staking.pending_rewards(&staker), Ok(70));
    assert_eq!(staking.unstake(&mut call(40, &[staker]), staker, 1_000), Ok((1_000, 70)));
    let info = staking.get_pool_info();
    assert_eq!(info.total_effective_staked, 4_000);
    assert_eq!(info.reward_pool_balance, 90);
}

#[test]
fn unsound_records_are_not_taken() {
    let who = address(4);
    let position = Position {
        staked_amount: 1,
        rewards_debt: 0,
        lock_expiry: 0,
        boost_multiplier: MIN_BOOST,
    };
    let pool = PoolInfo { total_effective_staked: 1, ..pool_record() };
    assert!(Staking::from_ledger(None, None).is_some());
    assert!(Staking::from_ledger(Some(pool), Some((who, position))).is_some());
    assert!(Staking::from_ledger(None, Some((who, position))).is_none());
    let negative = PoolInfo { total_effective_staked: -1, ..pool };
    assert!(Staking::from_ledger(Some(negative), None).is_none());
    let negative = PoolInfo { accumulated_rewards_per_share: -1, ..pool };
    assert!(Staking::from_ledger(Some(negative), None).is_none());
    for boost in [MIN_BOOST - 1, MAX_BOOST + 1] {
        let odd = Position { boost_multiplier: boost, ..position };
        assert!(Staking::from_ledger(Some(pool), Some((who, odd))).is_none());
    }
    for amount in [-1, i128::MAX] {
        let odd = Position { staked_amount: amount, ..position };
        assert!(Staking::from_ledger(Some(pool), Some((who, odd))).is_none());
    }
    assert!(Staking::from_ledger(Some(pool_record()), Some((who, position))).is_none());
    let indebted = Position { rewards_debt: 1, ..position };
    assert!(Staking::from_ledger(Some(pool), Some((who, indebted))).is_none());
    for debt in [-1, 1] {
        let odd = Position { staked_amount: 0, rewards_debt: debt, ..position };
        assert!(Staking::from_ledger(Some(pool), Some((who, odd))).is_none());
    }
}

#[test]
fn a_debt_is_held_against_all_that_accrued() {
    let who = address(4);
    let taken = |staked_amount: i128, acc: i128, rewards_debt: i128| {
        let pool = PoolInfo {
            total_effective_staked: i128::MAX,
            accumulated_rewards_per_share: acc,
            ..pool_record()
        };
        let position =
            Position { staked_amount, rewards_debt, lock_expiry: 0, boost_multiplier: MIN_BOOST };
        Staking::from_ledger(Some(pool), Some((who, position))).is_some()
    };
    // 3 * 1.5 = 4.5
    assert!(taken(3, 3 * SCALE_FACTOR / 2, 4));
    assert!(!taken(3, 3 * SCALE_FACTOR / 2, 5));
    // The product does not fit, what accrued does.
    let large = 5 * SCALE_FACTOR + 3;
    let acc = 100 * SCALE_FACTOR + SCALE_FACTOR / 2;
    assert!(large.checked_mul(acc).is_none());
    let accrued = 100 * large + large / 2;
    assert!(taken(large, acc, accrued));
    assert!(!taken(large, acc, accrued + 1));
    // What accrued does not fit either.
    assert!(taken(large, i128::MAX, i128::MAX));
}

#[test]
fn settling_moves_nothing() {
    let (admin, staker, mut staking) = setup();
    let other = address(6);
    assert_eq!(staking._settle_pending(&staker), Ok(0));
    assert_eq!(staking.stake(&mut call(0, &[staker]), staker, 1_000), Ok(()));
    assert_eq!(staking.stake(&mut call(0, &[other]), other, 3_000), Ok(()));
    assert_eq!(staking.update_rewards(&mut call(0, &[admin]), admin, 400), Ok(()));
    let pool = staking.get_pool_info();
    let infos = [staking.get_staker_info(&staker), staking.get_staker_info(&other)];

    assert_eq!(staking._settle_pending(&staker), Ok(100));
    assert_eq!(staking._settle_pending(&staker), Ok(100));

    assert_eq!(staking.pending_rewards(&staker), Ok(100));
    assert_eq!(staking.pending_rewards(&other), Ok(300));
    assert_eq!(staking.get_pool_info(), pool);
    assert_eq!([staking.get_staker_info(&staker), staking.get_staker_info(&other)], infos);
}

#[test]
fn a_run_of_operations_keeps_the_books() {
    let (admin, staker, mut staking) = setup();
    let other = address(6);
    let terms = staking.get_pool_info();
    let mut acc = 0;
    let mut net = [0, 0];
    for round in 1..6 {
        assert_eq!(staking.stake(&mut call(round, &[staker]), staker, 100), Ok(()));
        net[0] += 100;
        assert_eq!(staking.stake(&mut call(round, &[other]), other, 70), Ok(()));
        net[1] += 70;
        assert_eq!(staking.update_rewards(&mut call(round, &[admin]), admin, 50), Ok(()));
        assert!(staking.get_pool_info().accumulated_rewards_per_share > acc);
        acc = staking.get_pool_info().accumulated_rewards_per_share;
        assert!(staking.unstake(&mut call(round, &[other]), other, 30).is_ok());
        net[1] -= 30;
        assert!(staking.unstake(&mut call(round, &[staker]), staker, 10_000).is_err());
        assert!(staking.claim(&mut call(round, &[staker]), staker).is_ok());

        assert_eq!(staking.get_staker_info(&staker).staked_amount, net[0]);
        assert_eq!(staking.get_staker_info(&other).staked_amount, net[1]);
        assert_eq!(staking._staker_effective(&other), net[1]);
        let pool = staking.get_pool_info();
        assert_eq!(pool.accumulated_rewards_per_share, acc);
        assert_eq!(pool.total_effective_staked, net[0] + net[1]);
        assert_eq!(pool.lp_token, terms.lp_token);
        assert_eq!(pool.reward_token, terms.reward_token);
        assert_eq!(pool.admin, admin);
    }
    assert_eq!(net, [500, 200]);
}

#[test]
fn refusals_have_their_messages() {
    let address = address(4);
    assert_eq!(StakingError::AuthRequired { address }.message(), "authorization required");
    assert_eq!(StakingError::AlreadyInitialized.message(), "already initialized");
    assert_eq!(StakingError::NotInitialized.message(), "not initialized");
    assert_eq!(StakingError::NotAdmin.message(), "not admin");
    assert_eq!(StakingError::AmountNotPositive.message(), "amount must be positive");
    assert_eq!(StakingError::NewRewardsNotPositive.message(), "new_rewards must be positive");
    assert_eq!(StakingError::InsufficientStake.message(), "insufficient staked amount");
    assert_eq!(StakingError::StillLocked.message(), "tokens are still locked");
    assert_eq!(StakingError::NoPendingRewards.message(), "no pending rewards");
    assert_eq!(StakingError::NoStakers.message(), "no stakers");
    assert_eq!(StakingError::Overflow.message(), "arithmetic overflow");
}

#[test]
fn pool_events_have_their_topics() {
    let who = address(4);
    assert_eq!(Event::RewardsAdded { admin: who, amount: 1 }.topic(), "rewards_added");
    let staked = Event::Staked { staker: who, amount: 1, boost: MIN_BOOST, expiry: 0 };
    assert_eq!(staked.topic(), "staked");
    assert_eq!(Event::Claimed { staker: who, amount: 1 }.topic(), "claimed");
    assert_eq!(Event::Unstaked { staker: who, amount: 1, rewards: 0 }.topic(), "unstaked");
    assert_eq!(Event::RewardsUpdated { new_rewards: 1 }.topic(), "rewards_updated");
}

#[test]
fn addresses_are_told_apart_by_every_character() {
    let a = address(4);
    for i in 0..56 {
        let mut strkey = a.strkey;
        strkey[i] ^= 1;
        assert!(a != Address { strkey });
    }
    assert!(a == Address { strkey: a.strkey });
    assert!(lists(&vec![address(1), a], &a));
    assert!(!lists(&vec![address(1), address(2)], &a));
}

#[test]
fn a_table_keeps_one_record_per_address() {
    let mut table: AddressMap<u32> = AddressMap::new();
    assert_eq!(table.get(&address(1)), None);
    table.set(address(1), 10);
    table.set(address(2), 20);
    table.set(address(1), 11);
    assert_eq!(table.get(&address(1)), Some(&11));
    assert_eq!(table.get(&address(2)), Some(&20));
    assert_eq!(table.get(&address(3)), None);
}

#[test]
fn a_refused_stake_succeeds_once_authorized() {
    let (_, staker, mut staking) = setup();
    let mut call = call(0, &[]);
    assert_eq!(
        staking.stake(&mut call, staker, 5),
        Err(StakingError::AuthRequired { address: staker })
    );
    assert_eq!(staking.get_staker_info(&staker).staked_amount, 0);
    call.authorize(staker);
    assert_eq!(staking.stake(&mut call, staker, 5), Ok(()));
    assert_eq!(staking.get_staker_info(&staker).staked_amount, 5);
    assert_eq!(call.effects.len(), 2);
}
