use amm_core::errors::PoolError;
use amm_core::pool_utils::{
    deploy_stableswap_pool, deploy_standard_pool, get_custom_salt, get_standard_pool_salt,
    merge_salt, pool_salt, PoolKind, Registry,
};

#[test]
fn deploy_two_fee_tiers_distinct_addresses() {
    let e = soroban_sdk::Env::default();
    let mut reg = Registry::new();
    let (_, addr1, pool1) = deploy_standard_pool(&mut reg, &e, 1, vec![10, 20], 30).unwrap();
    let (_, addr2, _) = deploy_standard_pool(&mut reg, &e, 1, vec![10, 20], 100).unwrap();
    // two fee tiers for the same pair live at two deterministic addresses
    assert_ne!(addr1, addr2);
    assert_eq!(addr1.len(), 32);
    assert_eq!(pool1.get_fee_fraction(), 30);
    assert_eq!(pool1.get_tokens(), vec![10, 20]);
    // the same fee tier again, even with the tokens reordered, collides
    assert_eq!(
        deploy_standard_pool(&mut reg, &e, 1, vec![20, 10], 30).err(),
        Some(PoolError::AlreadyExists)
    );
    assert_eq!(reg.entries.len(), 2);
}

#[test]
fn deploy_rejects_bad_arguments() {
    let e = soroban_sdk::Env::default();
    let mut reg = Registry::new();
    assert_eq!(
        deploy_standard_pool(&mut reg, &e, 1, vec![10], 30).err(),
        Some(PoolError::InvalidArgument)
    );
    assert_eq!(
        deploy_standard_pool(&mut reg, &e, 1, vec![10, 10], 30).err(),
        Some(PoolError::InvalidArgument)
    );
    assert_eq!(
        deploy_standard_pool(&mut reg, &e, 1, vec![10, 20], 10000).err(),
        Some(PoolError::InvalidArgument)
    );
    assert_eq!(reg.entries.len(), 0);
}

#[test]
fn stableswap_deployments_use_fresh_counters() {
    let e = soroban_sdk::Env::default();
    let mut reg = Registry::new();
    let (sub1, addr1) = deploy_stableswap_pool(&mut reg, &e, 1, vec![10, 20], 85, 30, 0).unwrap();
    let (sub2, addr2) = deploy_stableswap_pool(&mut reg, &e, 1, vec![10, 20], 200, 30, 0).unwrap();
    // the strictly increasing counter gives every deployment a fresh salt
    assert_ne!(sub1, sub2);
    assert_ne!(addr1, addr2);
    assert_eq!(reg.stable_swap_counter, 2);
    assert_eq!(reg.entries.len(), 2);
    assert_eq!(reg.entries[0].kind, PoolKind::StableSwap);
}

#[test]
fn group_salt_ignores_caller_order() {
    let e = soroban_sdk::Env::default();
    let s1 = pool_salt(&e, &vec![10, 20, 30]);
    let s2 = pool_salt(&e, &vec![30, 10, 20]);
    assert_eq!(s1, s2);
    assert_eq!(s1.len(), 32);
    let other = pool_salt(&e, &vec![10, 20, 31]);
    assert_ne!(s1, other);
}

#[test]
fn salts_depend_on_their_inputs() {
    let e = soroban_sdk::Env::default();
    let a = get_standard_pool_salt(&e, 30);
    let b = get_standard_pool_salt(&e, 100);
    // a real digest comes back: fixed width, input-sensitive
    assert_eq!(a.len(), 32);
    assert_ne!(a, b);
    assert_eq!(a, get_standard_pool_salt(&e, 30));
    let m1 = merge_salt(&e, &a, &b);
    let m2 = merge_salt(&e, &b, &a);
    assert_eq!(m1.len(), 32);
    assert_ne!(m1, m2);
}

#[test]
fn custom_salt_covers_type_and_arguments() {
    let e = soroban_sdk::Env::default();
    let ty = vec![0x70u8, 0x6f, 0x6f, 0x6c];
    // the length prefixes keep differently split arguments apart, even
    // when the arguments themselves contain zero bytes
    let args1 = vec![vec![1u8, 0], vec![3u8]];
    let args2 = vec![vec![1u8], vec![0u8, 3]];
    let c1 = get_custom_salt(&e, &ty, &args1);
    let c2 = get_custom_salt(&e, &ty, &args2);
    assert_eq!(c1.len(), 32);
    assert_ne!(c1, c2);
    assert_eq!(c1, get_custom_salt(&e, &ty, &args1));
    // the type name cannot bleed into the first argument either
    let a = get_custom_salt(&e, &vec![1u8], &vec![vec![2u8]]);
    let b = get_custom_salt(&e, &vec![1u8, 0, 0, 0, 0, 0, 0, 0, 1, 2], &vec![]);
    assert_ne!(a, b);
}

#[test]
fn get_pools_enumerates_one_group() {
    let e = soroban_sdk::Env::default();
    let mut reg = Registry::new();
    let (_, addr1, _) = deploy_standard_pool(&mut reg, &e, 1, vec![10, 20], 30).unwrap();
    let (_, addr2, _) = deploy_standard_pool(&mut reg, &e, 1, vec![10, 20], 100).unwrap();
    deploy_standard_pool(&mut reg, &e, 1, vec![10, 30], 30).unwrap();
    let group = pool_salt(&e, &vec![20, 10]);
    assert_eq!(reg.get_pools(&group), vec![addr1, addr2]);
    let empty = reg.get_pools(&pool_salt(&e, &vec![40, 50]));
    assert_eq!(empty.len(), 0);
}
