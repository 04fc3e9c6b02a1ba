use amm_core::errors::PoolError;
use amm_core::pool::Pool;

#[test]
fn test() {
    let user1: u64 = 1;
    let token1: u64 = 10;
    let token2: u64 = 20;
    let mut liqpool = Pool::initialize(user1, vec![token1, token2], 30).unwrap();

    // the ledger adapter holds the users' token balances; mirror it here
    let mut user1_token1: i128 = 1000;
    let mut user1_token2: i128 = 1000;
    let mut user1_reward: i128 = 0;

    let total_reward_1: i128 = 10_5000000_i128 * 60;
    assert_eq!(
        liqpool.set_rewards_config(user1, 0, 60, total_reward_1),
        Ok(true)
    );

    let (actual, shares) = liqpool.deposit(user1, vec![100, 100], 0).unwrap();
    assert_eq!(actual, vec![100, 100]);
    assert_eq!(shares, 100);
    user1_token1 -= 100;
    user1_token2 -= 100;

    assert_eq!(user1_reward, 0);
    // 30 time units passed, half of the reward is available
    assert_eq!(liqpool.claim(user1, 30), Ok(total_reward_1 / 2));
    user1_reward += total_reward_1 / 2;
    assert_eq!(user1_reward, total_reward_1 / 2);
    // 60 more passed; the schedule expired but half is still unclaimed
    assert_eq!(liqpool.claim(user1, 90), Ok(total_reward_1 / 2));
    user1_reward += total_reward_1 / 2;
    assert_eq!(user1_reward, total_reward_1);

    // more rewards added with different configs
    let total_reward_2: i128 = 20_0000000_i128 * 100;
    assert_eq!(
        liqpool.set_rewards_config(user1, 90, 190, total_reward_2),
        Ok(true)
    );
    let total_reward_3: i128 = 6_0000000_i128 * 50;
    assert_eq!(
        liqpool.set_rewards_config(user1, 195, 245, total_reward_3),
        Ok(true)
    );
    // both rewards are available for the user
    assert_eq!(liqpool.claim(user1, 695), Ok(total_reward_2 + total_reward_3));
    user1_reward += total_reward_2 + total_reward_3;
    assert_eq!(user1_reward, total_reward_1 + total_reward_2 + total_reward_3);

    assert_eq!(liqpool.get_share_balance(user1), 100);
    assert_eq!(user1_token1, 900);
    assert_eq!(liqpool.get_reserves(), vec![100, 100]);
    assert_eq!(user1_token2, 900);

    assert_eq!(liqpool.estimate_swap_out(0, 1, 49), Ok(97));
    let paid = liqpool.swap_out(user1, 0, 1, 49, 100).unwrap();
    assert_eq!(paid, 97);
    user1_token1 -= paid;
    user1_token2 += 49;

    assert_eq!(user1_token1, 803);
    assert_eq!(user1_token2, 949);
    assert_eq!(liqpool.get_reserves(), vec![197, 51]);

    let amounts = liqpool.withdraw(user1, 100, vec![197, 51], 695).unwrap();
    assert_eq!(amounts, vec![197, 51]);
    user1_token1 += amounts[0];
    user1_token2 += amounts[1];

    assert_eq!(liqpool.claim(user1, 1295), Ok(0));
    assert_eq!(user1_reward, total_reward_1 + total_reward_2 + total_reward_3);

    assert_eq!(user1_token1, 1000);
    assert_eq!(user1_token2, 1000);
    assert_eq!(liqpool.get_share_balance(user1), 0);
    assert_eq!(liqpool.get_reserves(), vec![0, 0]);
    assert_eq!(liqpool.get_total_shares(), 0);
}

#[test]
fn initialize_rejects_bad_token_sets() {
    assert_eq!(
        Pool::initialize(1, vec![10], 30).err(),
        Some(PoolError::InvalidArgument)
    );
    assert_eq!(
        Pool::initialize(1, vec![10, 10], 30).err(),
        Some(PoolError::InvalidArgument)
    );
    assert_eq!(
        Pool::initialize(1, vec![10, 20], 10000).err(),
        Some(PoolError::InvalidArgument)
    );
    // tokens are canonically sorted whatever order the caller gives
    let p = Pool::initialize(1, vec![20, 10], 30).unwrap();
    assert_eq!(p.get_tokens(), vec![10, 20]);
    assert_eq!(p.get_fee_fraction(), 30);
}

#[test]
fn swap_error_cases() {
    let mut p = Pool::initialize(1, vec![10, 20], 30).unwrap();
    // empty pool has no liquidity to quote against
    assert_eq!(
        p.estimate_swap(0, 1, 10).err(),
        Some(PoolError::InsufficientLiquidity)
    );
    p.deposit(1, vec![100, 100], 0).unwrap();
    assert_eq!(
        p.estimate_swap(0, 0, 10).err(),
        Some(PoolError::InvalidArgument)
    );
    assert_eq!(
        p.estimate_swap(0, 2, 10).err(),
        Some(PoolError::InvalidArgument)
    );
    assert_eq!(
        p.estimate_swap(0, 1, 0).err(),
        Some(PoolError::InvalidArgument)
    );
    assert_eq!(
        p.estimate_swap(0, 1, -5).err(),
        Some(PoolError::InvalidArgument)
    );
    // asking for the whole reserve out cannot be served
    assert_eq!(
        p.estimate_swap_out(0, 1, 100).err(),
        Some(PoolError::InsufficientLiquidity)
    );
    // an output floor above what the input buys is slippage
    assert_eq!(
        p.swap(1, 0, 1, 49, 100).err(),
        Some(PoolError::SlippageExceeded)
    );
    // an intermediate product beyond the integer range is reported
    assert_eq!(
        p.estimate_swap(0, 1, i128::MAX / 2).err(),
        Some(PoolError::ArithmeticOverflow)
    );
    // the failed attempts changed nothing
    assert_eq!(p.get_reserves(), vec![100, 100]);
}

#[test]
fn exact_input_swap_formula() {
    let mut p = Pool::initialize(1, vec![10, 20], 0).unwrap();
    p.deposit(1, vec![100, 100], 0).unwrap();
    // no fee: out = floor(49 * 100 / 149)
    assert_eq!(p.estimate_swap(0, 1, 49), Ok(32));
    assert_eq!(p.swap(1, 0, 1, 49, 32), Ok(32));
    assert_eq!(p.get_reserves(), vec![149, 68]);
    // the constant product never shrank
    assert!(149 * 68 >= 100 * 100);
}

#[test]
fn swap_fee_monotonicity_scenario() {
    let mut fees_and_outputs: Vec<(u32, i128)> = Vec::new();
    for fee in [0u32, 30, 300, 5000] {
        let mut p = Pool::initialize(1, vec![10, 20], fee).unwrap();
        p.deposit(1, vec![100, 100], 0).unwrap();
        fees_and_outputs.push((fee, p.estimate_swap(0, 1, 49).unwrap()));
    }
    assert_eq!(fees_and_outputs[0], (0, 32));
    assert_eq!(fees_and_outputs[1], (30, 32));
    assert_eq!(fees_and_outputs[3], (5000, 19));
    for w in fees_and_outputs.windows(2) {
        assert!(w[1].1 <= w[0].1);
    }
}

#[test]
fn deposit_withdraw_round_trip() {
    let mut p = Pool::initialize(1, vec![10, 20], 30).unwrap();
    p.deposit(1, vec![100, 300], 0).unwrap();
    // a second deposit at a skewed offer is clipped to the pool ratio
    let (actual, shares) = p.deposit(2, vec![10, 40], 0).unwrap();
    assert_eq!(actual, vec![10, 30]);
    assert_eq!(shares, 10);
    // withdrawing the fresh shares returns at most what was taken
    let back = p.withdraw(2, shares, vec![0, 0], 0).unwrap();
    assert!(back[0] <= actual[0] && back[1] <= actual[1]);
    assert_eq!(back, vec![10, 30]);
    assert_eq!(p.get_share_balance(2), 0);
}

#[test]
fn deposit_error_cases() {
    let mut p = Pool::initialize(1, vec![10, 20], 30).unwrap();
    assert_eq!(
        p.deposit(1, vec![100], 0).err(),
        Some(PoolError::InvalidArgument)
    );
    assert_eq!(
        p.deposit(1, vec![100, 0], 0).err(),
        Some(PoolError::InvalidArgument)
    );
    p.deposit(1, vec![100, 100], 0).unwrap();
    assert_eq!(
        p.deposit(2, vec![-1, 100], 0).err(),
        Some(PoolError::InvalidArgument)
    );
    // an offer too small to mint a single share is rejected
    assert_eq!(
        p.deposit(2, vec![0, 0], 0).err(),
        Some(PoolError::InvalidArgument)
    );
}

#[test]
fn withdraw_error_cases() {
    let mut p = Pool::initialize(1, vec![10, 20], 30).unwrap();
    p.deposit(1, vec![100, 100], 0).unwrap();
    assert_eq!(
        p.withdraw(1, 0, vec![0, 0], 0).err(),
        Some(PoolError::InvalidArgument)
    );
    assert_eq!(
        p.withdraw(1, 101, vec![0, 0], 0).err(),
        Some(PoolError::InvalidArgument)
    );
    assert_eq!(
        p.withdraw(2, 1, vec![0, 0], 0).err(),
        Some(PoolError::InvalidArgument)
    );
    assert_eq!(
        p.withdraw(1, 50, vec![51, 0], 0).err(),
        Some(PoolError::SlippageExceeded)
    );
    assert_eq!(p.get_reserves(), vec![100, 100]);
}
