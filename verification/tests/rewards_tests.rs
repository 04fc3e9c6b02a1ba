use amm_core::errors::PoolError;
use amm_core::pool::Pool;

#[test]
fn test_two_users_rewards() {
    let user1: u64 = 1;
    let user2: u64 = 2;
    let mut liqpool = Pool::initialize(user1, vec![10, 20], 30).unwrap();

    let mut user1_reward: i128 = 0;
    let mut user2_reward: i128 = 0;

    let total_reward_1: i128 = 10_5000000_i128 * 60;
    assert_eq!(
        liqpool.set_rewards_config(user1, 0, 60, total_reward_1),
        Ok(true)
    );

    // two users deposit for equal value; the second 30 time units after
    // the schedule starts, so it gets only a quarter of the total
    liqpool.deposit(user1, vec![100, 100], 0).unwrap();
    assert_eq!(liqpool.claim(user1, 30), Ok(total_reward_1 / 2));
    user1_reward += total_reward_1 / 2;
    liqpool.deposit(user2, vec![100, 100], 30).unwrap();
    assert_eq!(liqpool.claim(user1, 130), Ok(total_reward_1 / 4));
    user1_reward += total_reward_1 / 4;
    assert_eq!(liqpool.claim(user2, 130), Ok(total_reward_1 / 4));
    user2_reward += total_reward_1 / 4;
    assert_eq!(user1_reward, total_reward_1 / 4 * 3);
    assert_eq!(user2_reward, total_reward_1 / 4);
}

#[test]
fn reward_schedule_of_630_over_60() {
    // a schedule of 630 reward units over 60 time units carries the
    // fractional rate 10.5 exactly
    let mut p = Pool::initialize(1, vec![10, 20], 30).unwrap();
    p.deposit(1, vec![100, 100], 0).unwrap();
    assert_eq!(p.set_rewards_config(1, 0, 60, 630), Ok(true));
    assert_eq!(p.claim(1, 30), Ok(315));
    // the schedule expired at 60; the second half is still owed
    assert_eq!(p.claim(1, 90), Ok(315));
    // nothing further accrues
    assert_eq!(p.claim(1, 90), Ok(0));
    assert_eq!(p.claim(1, 500), Ok(0));
}

#[test]
fn reward_claim_twice_same_instant() {
    let mut p = Pool::initialize(1, vec![10, 20], 30).unwrap();
    p.deposit(1, vec![100, 100], 0).unwrap();
    assert_eq!(p.set_rewards_config(1, 0, 10, 1000), Ok(true));
    assert_eq!(p.claim(1, 5), Ok(500));
    assert_eq!(p.claim(1, 5), Ok(0));
}

#[test]
fn reward_config_error_cases() {
    let mut p = Pool::initialize(1, vec![10, 20], 30).unwrap();
    assert_eq!(
        p.set_rewards_config(2, 0, 60, 1000).err(),
        Some(PoolError::Unauthorized)
    );
    assert_eq!(
        p.set_rewards_config(1, 60, 60, 1000).err(),
        Some(PoolError::InvalidArgument)
    );
    assert_eq!(
        p.set_rewards_config(1, 0, 60, 0).err(),
        Some(PoolError::InvalidArgument)
    );
    // a budget whose scaled rate cannot be represented is reported
    assert_eq!(
        p.set_rewards_config(1, 0, 60, i128::MAX / 2).err(),
        Some(PoolError::ArithmeticOverflow)
    );
}

#[test]
fn reward_read_only_estimate_matches_claim() {
    let mut p = Pool::initialize(1, vec![10, 20], 30).unwrap();
    p.deposit(1, vec![100, 100], 0).unwrap();
    assert_eq!(p.set_rewards_config(1, 0, 60, 630), Ok(true));
    assert_eq!(p.get_user_reward(1, 30), Ok(315));
    // reading did not consume anything
    assert_eq!(p.claim(1, 30), Ok(315));
}

#[test]
fn reward_for_holderless_stretch_goes_to_nobody() {
    let mut p = Pool::initialize(1, vec![10, 20], 30).unwrap();
    assert_eq!(p.set_rewards_config(1, 0, 60, 600), Ok(true));
    // nobody holds shares for the first 30 time units
    p.deposit(1, vec![100, 100], 30).unwrap();
    assert_eq!(p.claim(1, 60), Ok(300));
    assert_eq!(p.claim(1, 120), Ok(0));
}

#[test]
fn rewards_info_snapshot() {
    let mut p = Pool::initialize(1, vec![10, 20], 30).unwrap();
    p.deposit(1, vec![100, 100], 0).unwrap();
    assert_eq!(p.set_rewards_config(1, 0, 60, 630), Ok(true));
    let (rate, expires_at, accumulator, owed) = p.get_rewards_info(1, 30).unwrap();
    // 630 units over 60 time units, kept scaled: 10.5 per time unit
    assert_eq!(rate, 10_500_000_000);
    assert_eq!(expires_at, 60);
    assert_eq!(accumulator, 0);
    assert_eq!(owed, 315);
}

#[test]
fn rewards_admin_handover() {
    let mut p = Pool::initialize(1, vec![10, 20], 30).unwrap();
    assert_eq!(
        p.initialize_rewards_config(2, 2).err(),
        Some(PoolError::Unauthorized)
    );
    assert_eq!(p.initialize_rewards_config(1, 2), Ok(true));
    // the new admin controls the schedule now
    assert_eq!(
        p.set_rewards_config(1, 0, 60, 630).err(),
        Some(PoolError::Unauthorized)
    );
    assert_eq!(p.set_rewards_config(2, 0, 60, 630), Ok(true));
}
