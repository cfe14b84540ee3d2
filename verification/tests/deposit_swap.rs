//! Depositing with a non-base asset: the auto-swap path and its
//! router-not-set failure.

use vault_core::errors::VaultError;
use vault_core::pool::Pool;
use vault_core::types::VaultConfig;
use vault_core::vault::VaultContract;

const BASE: u32 = 1;
const OTHER: u32 = 2;

fn vault_with_router(router: Option<u32>) -> VaultContract {
    let mut vault = VaultContract::new();
    vault
        .initialize(
            VaultConfig {
                owner: 1,
                name: String::from("swapping"),
                assets: vec![BASE],
                rules: vec![],
                router_address: router,
                staking_pool_address: None,
                factory_address: None,
            },
            0,
        )
        .unwrap();
    vault
}

fn base_pool() -> Pool {
    Pool { address: 77, token_a: OTHER, token_b: BASE, reserve_a: 1000, reserve_b: 1000, lp_supply: 0 }
}

#[test]
fn base_asset_deposits_skip_the_swap() {
    let mut vault = vault_with_router(None);
    let mut pools = vec![base_pool()];
    let minted = vault.deposit_with_token(42, 1000, BASE, &mut pools, 5).unwrap();
    assert_eq!(minted, 1000);
    assert_eq!(pools[0].reserve_a, 1000);
    assert_eq!(pools[0].reserve_b, 1000);
}

#[test]
fn non_base_deposit_without_a_router_fails_cleanly() {
    let mut vault = vault_with_router(None);
    let mut pools = vec![base_pool()];
    assert_eq!(
        vault.deposit_with_token(42, 100, OTHER, &mut pools, 5),
        Err(VaultError::RouterNotSet)
    );
    // No transfer and no state mutation is observable afterwards.
    let state = vault.get_state();
    assert_eq!(state.total_shares, 0);
    assert_eq!(state.total_value, 0);
    assert_eq!(vault.get_position(42).shares, 0);
    assert_eq!(pools[0].reserve_a, 1000);
    assert_eq!(pools[0].reserve_b, 1000);
}

#[test]
fn non_base_deposit_swaps_through_the_pool_first() {
    let mut vault = vault_with_router(Some(5));
    let mut pools = vec![base_pool()];
    let minted = vault.deposit_with_token(42, 100, OTHER, &mut pools, 5).unwrap();
    // 100 of the other token buys floor(100*997*1000 / (1000*1000 +
    // 100*997)) == 90 base units; the bootstrap mint is one-to-one.
    assert_eq!(minted, 90);
    let state = vault.get_state();
    assert_eq!(state.total_shares, 90);
    assert_eq!(state.total_value, 90);
    assert_eq!(vault.get_position(42).shares, 90);
    assert_eq!(pools[0].reserve_a, 1100);
    assert_eq!(pools[0].reserve_b, 910);
}

#[test]
fn non_base_deposit_needs_a_pool_for_the_pair() {
    let mut vault = vault_with_router(Some(5));
    let mut pools: Vec<Pool> = vec![];
    assert_eq!(
        vault.deposit_with_token(42, 100, OTHER, &mut pools, 5),
        Err(VaultError::PoolNotFound)
    );
    assert_eq!(vault.get_state().total_shares, 0);
}

#[test]
fn plain_deposit_equals_base_token_deposit() {
    let mut with_token = vault_with_router(None);
    let mut plain = vault_with_router(None);
    let mut pools: Vec<Pool> = vec![];
    let a = with_token.deposit_with_token(42, 250, BASE, &mut pools, 9).unwrap();
    let b = plain.deposit(42, 250, 9).unwrap();
    assert_eq!(a, b);
    assert_eq!(with_token.get_state(), plain.get_state());
    assert_eq!(with_token.get_position(42), plain.get_position(42));
}
