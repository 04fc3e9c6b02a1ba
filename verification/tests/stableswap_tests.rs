use amm_core::errors::PoolError;
use amm_core::stableswap::{estimate_stableswap_swap, get_d};

#[test]
fn stableswap_balanced_pool_trades_near_parity() {
    // a high amplification keeps a balanced pool close to a 1:1 price
    assert_eq!(estimate_stableswap_swap(100, 100, 85, 10, 0), Ok(10));
    assert_eq!(estimate_stableswap_swap(100, 100, 85, 10, 30), Ok(9));
    assert_eq!(
        estimate_stableswap_swap(1_000_000, 1_000_000, 100, 100_000, 0),
        Ok(99_950)
    );
    // a low amplification behaves closer to constant product
    assert_eq!(estimate_stableswap_swap(100, 100, 1, 50, 0), Ok(43));
}

#[test]
fn stableswap_invariant_of_balanced_pool() {
    // for equal balances the invariant is their sum
    assert_eq!(get_d(100, 100, 85), Ok(200));
    assert_eq!(get_d(1_000_000, 1_000_000, 10), Ok(2_000_000));
}

#[test]
fn stableswap_error_cases() {
    assert_eq!(
        estimate_stableswap_swap(100, 100, 85, 0, 0).err(),
        Some(PoolError::InvalidArgument)
    );
    assert_eq!(
        estimate_stableswap_swap(100, 100, 0, 10, 0).err(),
        Some(PoolError::InvalidArgument)
    );
    assert_eq!(
        estimate_stableswap_swap(100, 100, 85, 10, 10000).err(),
        Some(PoolError::InvalidArgument)
    );
    assert_eq!(
        estimate_stableswap_swap(0, 100, 85, 10, 0).err(),
        Some(PoolError::InsufficientLiquidity)
    );
    assert_eq!(
        estimate_stableswap_swap(i128::MAX / 2, i128::MAX / 2, 85, i128::MAX / 2, 0).err(),
        Some(PoolError::ArithmeticOverflow)
    );
}
