//! Share-accounting scenarios: deposits, withdrawals, rounding, and the
//! conservation of shares across depositors.

use vault_core::errors::VaultError;
use vault_core::types::{UserPosition, VaultConfig, VaultState};
use vault_core::vault::{PositionEntry, VaultContract};

fn basic_config(assets: Vec<u32>) -> VaultConfig {
    VaultConfig {
        owner: 1,
        name: String::from("vault"),
        assets,
        rules: vec![],
        router_address: None,
        staking_pool_address: None,
        factory_address: None,
    }
}

fn fresh_vault() -> VaultContract {
    let mut vault = VaultContract::new();
    vault.initialize(basic_config(vec![10]), 0).unwrap();
    vault
}

#[test]
fn first_deposit_bootstraps_one_to_one() {
    let mut vault = fresh_vault();
    let shares = vault.deposit(42, 1000, 5).unwrap();
    assert_eq!(shares, 1000);
    let state = vault.get_state();
    assert_eq!(state.total_shares, 1000);
    assert_eq!(state.total_value, 1000);
    let position = vault.get_position(42);
    assert_eq!(position.shares, 1000);
    assert_eq!(position.last_deposit, 5);
}

#[test]
fn withdraw_returns_proportional_amount() {
    let mut vault = fresh_vault();
    vault.deposit(42, 1000, 5).unwrap();
    let amount = vault.withdraw(42, 200).unwrap();
    assert_eq!(amount, 200);
    let state = vault.get_state();
    assert_eq!(state.total_shares, 800);
    assert_eq!(state.total_value, 800);
    assert_eq!(vault.get_position(42).shares, 800);
}

#[test]
fn full_withdraw_deletes_the_position_record() {
    let mut vault = fresh_vault();
    vault.deposit(42, 300, 1).unwrap();
    let amount = vault.withdraw(42, 300).unwrap();
    assert_eq!(amount, 300);
    assert_eq!(vault.positions.len(), 0);
    assert_eq!(vault.get_position(42), UserPosition { shares: 0, last_deposit: 0 });
    let state = vault.get_state();
    assert_eq!(state.total_shares, 0);
    assert_eq!(state.total_value, 0);
}

#[test]
fn round_trip_never_profits_the_depositor() {
    // A vault whose share price is 10/3: minting truncates, and the
    // withdrawal of everything minted returns less than was deposited.
    let mut vault = VaultContract {
        config: Some(basic_config(vec![10])),
        state: VaultState { total_shares: 3, total_value: 10, last_rebalance: 0 },
        positions: vec![PositionEntry {
            user: 1,
            position: UserPosition { shares: 3, last_deposit: 0 },
        }],
        staking_position: None,
        liquidity_position: None,
    };
    let minted = vault.deposit(2, 7, 9).unwrap();
    assert_eq!(minted, 2); // floor(7 * 3 / 10)
    let returned = vault.withdraw(2, minted).unwrap();
    assert_eq!(returned, 6); // floor(2 * 17 / 5)
    assert!(returned <= 7);
}

#[test]
fn shares_always_sum_to_total_shares() {
    let mut vault = fresh_vault();
    let check = |vault: &VaultContract| {
        let sum: i128 = vault.positions.iter().map(|e| e.position.shares).sum();
        assert_eq!(sum, vault.get_state().total_shares);
    };
    check(&vault);
    vault.deposit(1, 1000, 0).unwrap();
    check(&vault);
    vault.deposit(2, 501, 0).unwrap();
    check(&vault);
    vault.deposit(3, 77, 0).unwrap();
    check(&vault);
    vault.withdraw(2, 400).unwrap();
    check(&vault);
    vault.withdraw(1, 1000).unwrap();
    check(&vault);
    vault.deposit(2, 13, 0).unwrap();
    check(&vault);
    vault.withdraw(3, 77).unwrap();
    check(&vault);
}

#[test]
fn deposit_requires_an_initialized_vault() {
    let mut vault = VaultContract::new();
    assert_eq!(vault.deposit(1, 100, 0), Err(VaultError::NotInitialized));
    assert_eq!(vault.withdraw(1, 100), Err(VaultError::NotInitialized));
}

#[test]
fn deposit_rejects_non_positive_amounts() {
    let mut vault = fresh_vault();
    assert_eq!(vault.deposit(1, 0, 0), Err(VaultError::InvalidAmount));
    assert_eq!(vault.deposit(1, -5, 0), Err(VaultError::InvalidAmount));
    assert_eq!(vault.get_state().total_shares, 0);
}

#[test]
fn withdraw_rejects_bad_share_counts() {
    let mut vault = fresh_vault();
    vault.deposit(1, 100, 0).unwrap();
    assert_eq!(vault.withdraw(1, 0), Err(VaultError::InvalidAmount));
    assert_eq!(vault.withdraw(1, -3), Err(VaultError::InvalidAmount));
    assert_eq!(vault.withdraw(1, 101), Err(VaultError::InsufficientShares));
    assert_eq!(vault.withdraw(2, 1), Err(VaultError::InsufficientShares));
    assert_eq!(vault.get_state().total_shares, 100);
}

#[test]
fn initialize_runs_only_once() {
    let mut vault = VaultContract::new();
    assert_eq!(vault.initialize(basic_config(vec![10]), 7), Ok(()));
    assert_eq!(
        vault.initialize(basic_config(vec![11]), 8),
        Err(VaultError::AlreadyInitialized)
    );
    assert_eq!(vault.get_state().last_rebalance, 7);
}

#[test]
fn initialize_rejects_an_empty_asset_list() {
    let mut vault = VaultContract::new();
    assert_eq!(
        vault.initialize(basic_config(vec![]), 0),
        Err(VaultError::InvalidConfiguration)
    );
}

#[test]
fn venue_setters_are_owner_only() {
    let mut vault = fresh_vault();
    assert_eq!(vault.set_router(2, 50), Err(VaultError::Unauthorized));
    assert_eq!(vault.set_router(1, 50), Ok(()));
    assert_eq!(vault.set_staking_pool(3, 60), Err(VaultError::Unauthorized));
    assert_eq!(vault.set_staking_pool(1, 60), Ok(()));
    assert_eq!(vault.set_factory(4, 70), Err(VaultError::Unauthorized));
    assert_eq!(vault.set_factory(1, 70), Ok(()));
    let cfg = vault.get_config().unwrap();
    assert_eq!(cfg.router_address, Some(50));
    assert_eq!(cfg.staking_pool_address, Some(60));
    assert_eq!(cfg.factory_address, Some(70));
}

#[test]
fn setters_require_an_initialized_vault() {
    let mut vault = VaultContract::new();
    assert_eq!(vault.set_router(1, 50), Err(VaultError::NotInitialized));
    assert!(vault.get_config().is_err());
    assert!(!vault.has_staking_position());
    assert!(!vault.has_liquidity_position());
    assert_eq!(vault.get_staking_position(), Err(VaultError::NotInitialized));
    assert_eq!(vault.get_liquidity_position(), Err(VaultError::NotInitialized));
}
