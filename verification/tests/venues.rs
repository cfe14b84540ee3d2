//! Venue models: pool swaps, liquidity add/remove, the staking venue, and
//! the one-to-one staking pool.

use vault_core::errors::VaultError;
use vault_core::liquidity::{
    add_liquidity_to_pool, get_optimal_liquidity_amounts, remove_liquidity_from_pool,
};
use vault_core::pool::{get_pool_for_pair, get_swap_quote, swap_via_pool, swap_via_router, Pool};
use vault_core::staking::{
    get_staked_balance, get_staking_rate, stake_tokens, unstake_tokens, MockStakingPool,
    StakingPool,
};

fn pair_pool(reserve_a: i128, reserve_b: i128) -> Pool {
    Pool { address: 77, token_a: 10, token_b: 11, reserve_a, reserve_b, lp_supply: 0 }
}

#[test]
fn pool_swap_moves_both_reserves() {
    let mut pool = pair_pool(1000, 1000);
    let out = swap_via_pool(&mut pool, 10, 11, 100, 0).unwrap();
    assert_eq!(out, 90);
    assert_eq!(pool.reserve_a, 1100);
    assert_eq!(pool.reserve_b, 910);
    assert_eq!(pool.get_reserves(), (1100, 910));
}

#[test]
fn pool_swap_honours_the_minimum_output() {
    let mut pool = pair_pool(1000, 1000);
    assert_eq!(swap_via_pool(&mut pool, 10, 11, 100, 91), Err(VaultError::SlippageTooHigh));
    // Failure left the pool untouched.
    assert_eq!(pool.get_reserves(), (1000, 1000));
    assert_eq!(swap_via_pool(&mut pool, 10, 11, 100, 90), Ok(90));
}

#[test]
fn pool_swap_rejects_foreign_tokens_and_bad_amounts() {
    let mut pool = pair_pool(1000, 1000);
    assert_eq!(swap_via_pool(&mut pool, 99, 11, 100, 0), Err(VaultError::InvalidConfiguration));
    assert_eq!(swap_via_pool(&mut pool, 10, 11, 0, 0), Err(VaultError::InvalidAmount));
    assert_eq!(swap_via_pool(&mut pool, 10, 11, -4, 0), Err(VaultError::InvalidAmount));
    assert_eq!(pool.get_reserves(), (1000, 1000));
}

#[test]
fn router_resolves_the_pair_in_either_orientation() {
    let mut pools = vec![pair_pool(1000, 1000)];
    assert_eq!(get_pool_for_pair(&pools, 10, 11), Ok(0));
    assert_eq!(get_pool_for_pair(&pools, 11, 10), Ok(0));
    assert_eq!(get_pool_for_pair(&pools, 10, 12), Err(VaultError::PoolNotFound));
    // Swapping the counter token draws on the first reserve.
    let out = swap_via_router(&mut pools, 11, 10, 100, 0).unwrap();
    assert_eq!(out, 90);
    assert_eq!(pools[0].reserve_a, 910);
    assert_eq!(pools[0].reserve_b, 1100);
}

#[test]
fn quote_matches_the_executed_swap() {
    let pools = vec![pair_pool(1000, 1000)];
    assert_eq!(get_swap_quote(&pools, 10, 11, 100), Ok(90));
    assert_eq!(get_swap_quote(&pools, 10, 12, 100), Err(VaultError::PoolNotFound));
    assert_eq!(get_swap_quote(&pools, 10, 11, 0), Err(VaultError::InvalidAmount));
}

#[test]
fn liquidity_quote_keeps_the_reserve_ratio() {
    assert_eq!(get_optimal_liquidity_amounts(100, 1000, 2000), Ok(200));
    assert_eq!(get_optimal_liquidity_amounts(100, 3000, 1000), Ok(33));
    assert_eq!(get_optimal_liquidity_amounts(0, 1000, 1000), Err(VaultError::InvalidAmount));
    assert_eq!(get_optimal_liquidity_amounts(100, 0, 1000), Err(VaultError::InvalidAmount));
}

#[test]
fn add_then_remove_liquidity_round_trips() {
    let mut pool = pair_pool(0, 0);
    let (lp, actual_a, actual_b) = add_liquidity_to_pool(&mut pool, 10, 11, 100, 100, 5).unwrap();
    assert_eq!((lp, actual_a, actual_b), (100, 100, 100));
    assert_eq!(pool.get_reserves(), (100, 100));
    assert_eq!(pool.lp_supply, 100);

    let (back_a, back_b) = remove_liquidity_from_pool(&mut pool, 10, 11, 50, 5).unwrap();
    assert_eq!((back_a, back_b), (50, 50));
    assert_eq!(pool.get_reserves(), (50, 50));
    assert_eq!(pool.lp_supply, 50);
}

#[test]
fn add_liquidity_balances_against_live_reserves() {
    // Reserves 1:2, so 100 of the first asset wants 200 of the second.
    let mut pool = pair_pool(1000, 2000);
    pool.lp_supply = 1000;
    let (lp, actual_a, actual_b) = add_liquidity_to_pool(&mut pool, 10, 11, 100, 250, 50).unwrap();
    assert_eq!(actual_a, 100);
    assert_eq!(actual_b, 200);
    // min(100*1000/1000, 200*1000/2000) == 100
    assert_eq!(lp, 100);
    assert_eq!(pool.get_reserves(), (1100, 2200));
    assert_eq!(pool.lp_supply, 1100);
}

#[test]
fn add_liquidity_validates_amounts_and_slippage() {
    let mut pool = pair_pool(1000, 1000);
    assert_eq!(
        add_liquidity_to_pool(&mut pool, 10, 11, 0, 100, 5),
        Err(VaultError::InvalidAmount)
    );
    assert_eq!(
        add_liquidity_to_pool(&mut pool, 10, 11, 100, 100, 101),
        Err(VaultError::InvalidConfiguration)
    );
    assert_eq!(
        add_liquidity_to_pool(&mut pool, 10, 11, 100, 100, -1),
        Err(VaultError::InvalidConfiguration)
    );
    assert_eq!(pool.get_reserves(), (1000, 1000));
}

#[test]
fn remove_liquidity_rejects_more_than_outstanding() {
    let mut pool = pair_pool(100, 100);
    pool.lp_supply = 100;
    assert_eq!(
        remove_liquidity_from_pool(&mut pool, 10, 11, 101, 5),
        Err(VaultError::InsufficientLiquidity)
    );
    assert_eq!(
        remove_liquidity_from_pool(&mut pool, 10, 11, 0, 5),
        Err(VaultError::InvalidAmount)
    );
    assert_eq!(pool.lp_supply, 100);
}

#[test]
fn staking_venue_mints_and_redeems_at_its_rate() {
    // Two staking tokens per base unit.
    let mut venue = StakingPool::new(1, 2);
    assert_eq!(get_staking_rate(&venue), Ok((1, 2)));
    let st = stake_tokens(&mut venue, 99, 10, 100).unwrap();
    assert_eq!(st, 200);
    assert_eq!(get_staked_balance(&venue, 99), Ok(200));
    let base = unstake_tokens(&mut venue, 99, 200).unwrap();
    assert_eq!(base, 100);
    assert_eq!(get_staked_balance(&venue, 99), Ok(0));
}

#[test]
fn staking_venue_rejects_overdrawn_unstaking() {
    let mut venue = StakingPool::new(1, 1);
    stake_tokens(&mut venue, 99, 10, 100).unwrap();
    assert_eq!(unstake_tokens(&mut venue, 99, 101), Err(VaultError::InsufficientBalance));
    assert_eq!(unstake_tokens(&mut venue, 98, 1), Err(VaultError::InsufficientBalance));
    assert_eq!(unstake_tokens(&mut venue, 99, 0), Err(VaultError::InvalidAmount));
    assert_eq!(stake_tokens(&mut venue, 99, 10, 0), Err(VaultError::InvalidAmount));
    assert_eq!(get_staked_balance(&venue, 99), Ok(100));
}

#[test]
fn test_stake_and_unstake() {
    let mut pool = MockStakingPool::new();
    let token: u32 = 7;
    let user: u32 = 1;
    pool.initialize(token);

    // The asset-transfer side lives with the host; the test tracks the
    // custodied balances alongside the pool's own bookkeeping.
    let mut user_balance: i128 = 1000;
    let mut pool_balance: i128 = 0;
    assert_eq!(user_balance, 1000);

    // Stake 500 tokens.
    let staked = pool.stake_tokens(user, 500);
    user_balance -= staked;
    pool_balance += staked;
    assert_eq!(staked, 500);
    assert_eq!(user_balance, 500);
    assert_eq!(pool_balance, 500);
    assert_eq!(pool.get_user_stake(user), 500);
    assert_eq!(pool.get_total_staked(), 500);

    // Unstake 200 tokens.
    let unstaked = pool.unstake_tokens(user, 200);
    user_balance += unstaked;
    pool_balance -= unstaked;
    assert_eq!(unstaked, 200);
    assert_eq!(user_balance, 700);
    assert_eq!(pool_balance, 300);
    assert_eq!(pool.get_user_stake(user), 300);
    assert_eq!(pool.get_total_staked(), 300);

    // Check staking rate.
    assert_eq!(pool.get_staking_rate(), 1_000_000);
}

#[test]
fn mock_pool_deletes_emptied_stake_records() {
    let mut pool = MockStakingPool::new();
    pool.initialize(3);
    assert_eq!(pool.get_token(), 3);
    pool.stake_tokens(1, 50);
    pool.stake_tokens(2, 70);
    pool.unstake_tokens(1, 50);
    assert_eq!(pool.stakes.len(), 1);
    assert_eq!(pool.get_user_stake(1), 0);
    assert_eq!(pool.get_user_stake(2), 70);
    assert_eq!(pool.get_total_staked(), 70);
}

#[test]
fn router_rejects_bad_amounts_before_consulting_any_pool() {
    // A non-positive amount is rejected before the pool lookup, so even an
    // unknown pair reports the amount error, not a missing pool.
    let mut no_pools: Vec<Pool> = vec![];
    assert_eq!(swap_via_router(&mut no_pools, 1, 2, 0, 0), Err(VaultError::InvalidAmount));
    assert_eq!(swap_via_router(&mut no_pools, 1, 2, -5, 0), Err(VaultError::InvalidAmount));
    assert_eq!(swap_via_router(&mut no_pools, 1, 2, 5, 0), Err(VaultError::PoolNotFound));
}
