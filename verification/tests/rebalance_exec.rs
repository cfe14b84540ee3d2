//! The rebalance executor: equilibrium idempotence, greedy deficit
//! correction, staking, and liquidity provision.

use vault_core::errors::VaultError;
use vault_core::pool::Pool;
use vault_core::rebalance::{
    execute_liquidity_action, execute_rebalance, execute_rebalance_action, execute_stake_action,
};
use vault_core::staking::StakingPool;
use vault_core::types::{ConditionType, RebalanceRule, RuleAction, VaultConfig};
use vault_core::vault::VaultContract;

fn rebalance_rule(alloc: Vec<i128>) -> RebalanceRule {
    RebalanceRule {
        condition_type: ConditionType::Allocation,
        threshold: 5_0000,
        action: RuleAction::Rebalance,
        target_allocation: alloc,
    }
}

fn pair_pool(reserve_a: i128, reserve_b: i128) -> Pool {
    Pool { address: 77, token_a: 10, token_b: 11, reserve_a, reserve_b, lp_supply: 0 }
}

#[test]
fn rebalance_at_equilibrium_is_idempotent() {
    let rule = rebalance_rule(vec![50_0000, 50_0000]);
    let assets: Vec<u32> = vec![10, 11];
    let mut balances: Vec<i128> = vec![500, 500];
    let mut pools = vec![pair_pool(1000, 1000)];
    // Twice in a row: no swap, no state change either time.
    for _ in 0..2 {
        assert_eq!(
            execute_rebalance_action(&rule, &assets, 1000, Some(5), &mut balances, &mut pools),
            Ok(())
        );
        assert_eq!(balances, vec![500, 500]);
        assert_eq!(pools[0].reserve_a, 1000);
        assert_eq!(pools[0].reserve_b, 1000);
    }
}

#[test]
fn rebalance_corrects_a_deficit_through_the_pool() {
    let rule = rebalance_rule(vec![50_0000, 50_0000]);
    let assets: Vec<u32> = vec![10, 11];
    let mut balances: Vec<i128> = vec![1000, 0];
    let mut pools = vec![pair_pool(1000, 1000)];
    assert_eq!(
        execute_rebalance_action(&rule, &assets, 1000, Some(5), &mut balances, &mut pools),
        Ok(())
    );
    // The second asset's deficit of 500 is bought with the first asset's
    // surplus of 500: floor(500*997*1000 / (1000*1000 + 500*997)) == 332.
    assert_eq!(balances, vec![500, 332]);
    assert_eq!(pools[0].reserve_a, 1500);
    assert_eq!(pools[0].reserve_b, 668);
}

#[test]
fn rebalance_validates_its_allocation() {
    let assets: Vec<u32> = vec![10, 11];
    let mut balances: Vec<i128> = vec![1000, 0];
    let mut pools = vec![pair_pool(1000, 1000)];
    // Length mismatch.
    assert_eq!(
        execute_rebalance_action(
            &rebalance_rule(vec![100_0000]),
            &assets,
            1000,
            Some(5),
            &mut balances,
            &mut pools
        ),
        Err(VaultError::InvalidConfiguration)
    );
    // A sum that is neither 100% nor 0%.
    assert_eq!(
        execute_rebalance_action(
            &rebalance_rule(vec![50_0000, 49_0000]),
            &assets,
            1000,
            Some(5),
            &mut balances,
            &mut pools
        ),
        Err(VaultError::InvalidConfiguration)
    );
    // No router configured.
    assert_eq!(
        execute_rebalance_action(
            &rebalance_rule(vec![50_0000, 50_0000]),
            &assets,
            1000,
            None,
            &mut balances,
            &mut pools
        ),
        Err(VaultError::InvalidConfiguration)
    );
    // Nothing was touched by any failure.
    assert_eq!(balances, vec![1000, 0]);
    assert_eq!(pools[0].reserve_a, 1000);
}

#[test]
fn rebalance_fails_without_a_pool_for_the_pair() {
    let rule = rebalance_rule(vec![50_0000, 50_0000]);
    let assets: Vec<u32> = vec![10, 11];
    let mut balances: Vec<i128> = vec![1000, 0];
    let mut pools: Vec<Pool> = vec![];
    assert_eq!(
        execute_rebalance_action(&rule, &assets, 1000, Some(5), &mut balances, &mut pools),
        Err(VaultError::PoolNotFound)
    );
    assert_eq!(balances, vec![1000, 0]);
}

#[test]
fn stake_action_moves_a_scaled_amount_to_the_venue() {
    let rule = RebalanceRule {
        condition_type: ConditionType::Apy,
        threshold: 10_0000, // ten percent
        action: RuleAction::Stake,
        target_allocation: vec![],
    };
    let assets: Vec<u32> = vec![10];
    let mut balances: Vec<i128> = vec![1000];
    let mut staking = StakingPool::new(1, 1);
    let pos =
        execute_stake_action(&rule, &assets, 1000, Some(9), 99, &mut balances, &mut staking, 42)
            .unwrap();
    assert_eq!(pos.staking_pool, 9);
    assert_eq!(pos.original_token, 10);
    assert_eq!(pos.staked_amount, 100);
    assert_eq!(pos.st_token_amount, 100);
    assert_eq!(pos.timestamp, 42);
    assert_eq!(balances, vec![900]);
}

#[test]
fn stake_action_rejects_more_than_the_balance() {
    let rule = RebalanceRule {
        condition_type: ConditionType::Apy,
        threshold: 50_0000, // half of total value
        action: RuleAction::Stake,
        target_allocation: vec![],
    };
    let assets: Vec<u32> = vec![10];
    let mut balances: Vec<i128> = vec![100]; // less than 500
    let mut staking = StakingPool::new(1, 1);
    assert_eq!(
        execute_stake_action(&rule, &assets, 1000, Some(9), 99, &mut balances, &mut staking, 0),
        Err(VaultError::InsufficientBalance)
    );
    assert_eq!(balances, vec![100]);
}

#[test]
fn stake_action_requires_a_configured_venue() {
    let rule = RebalanceRule {
        condition_type: ConditionType::Apy,
        threshold: 10_0000,
        action: RuleAction::Stake,
        target_allocation: vec![],
    };
    let assets: Vec<u32> = vec![10];
    let mut balances: Vec<i128> = vec![1000];
    let mut staking = StakingPool::new(1, 1);
    assert_eq!(
        execute_stake_action(&rule, &assets, 1000, None, 99, &mut balances, &mut staking, 0),
        Err(VaultError::InvalidConfiguration)
    );
}

#[test]
fn liquidity_action_splits_the_budget_over_the_first_two_assets() {
    let rule = RebalanceRule {
        condition_type: ConditionType::Apy,
        threshold: 20_0000, // twenty percent of 1000 -> 200, split 100/100
        action: RuleAction::Liquidity,
        target_allocation: vec![],
    };
    let assets: Vec<u32> = vec![10, 11];
    let mut balances: Vec<i128> = vec![1000, 1000];
    let mut pools = vec![pair_pool(0, 0)];
    let pos = execute_liquidity_action(
        &rule,
        &assets,
        1000,
        Some(5),
        Some(6),
        &mut balances,
        &mut pools,
        42,
    )
    .unwrap();
    assert_eq!(pos.pool_address, 77);
    assert_eq!(pos.token_a, 10);
    assert_eq!(pos.token_b, 11);
    assert_eq!(pos.amount_a_provided, 100);
    assert_eq!(pos.amount_b_provided, 100);
    assert_eq!(pos.lp_tokens, 100);
    assert_eq!(pos.timestamp, 42);
    assert_eq!(balances, vec![900, 900]);
    assert_eq!(pools[0].reserve_a, 100);
    assert_eq!(pools[0].reserve_b, 100);
    assert_eq!(pools[0].lp_supply, 100);
}

#[test]
fn liquidity_action_needs_two_assets_and_both_venues() {
    let rule = RebalanceRule {
        condition_type: ConditionType::Apy,
        threshold: 20_0000,
        action: RuleAction::Liquidity,
        target_allocation: vec![],
    };
    let one_asset: Vec<u32> = vec![10];
    let mut balances: Vec<i128> = vec![1000];
    let mut pools = vec![pair_pool(0, 0)];
    assert_eq!(
        execute_liquidity_action(
            &rule,
            &one_asset,
            1000,
            Some(5),
            Some(6),
            &mut balances,
            &mut pools,
            0
        ),
        Err(VaultError::InvalidConfiguration)
    );
    let assets: Vec<u32> = vec![10, 11];
    let mut balances2: Vec<i128> = vec![1000, 1000];
    assert_eq!(
        execute_liquidity_action(&rule, &assets, 1000, None, Some(6), &mut balances2, &mut pools, 0),
        Err(VaultError::InvalidConfiguration)
    );
    assert_eq!(
        execute_liquidity_action(&rule, &assets, 1000, Some(5), None, &mut balances2, &mut pools, 0),
        Err(VaultError::InvalidConfiguration)
    );
}

#[test]
fn empty_vault_cannot_rebalance() {
    let mut vault = VaultContract::new();
    vault
        .initialize(
            VaultConfig {
                owner: 1,
                name: String::from("empty"),
                assets: vec![10, 11],
                rules: vec![rebalance_rule(vec![50_0000, 50_0000])],
                router_address: Some(5),
                staking_pool_address: None,
                factory_address: None,
            },
            0,
        )
        .unwrap();
    let mut balances: Vec<i128> = vec![0, 0];
    let mut pools = vec![pair_pool(1000, 1000)];
    let mut staking = StakingPool::new(1, 1);
    assert_eq!(
        execute_rebalance(&mut vault, 99, &mut balances, &mut pools, &mut staking, 0),
        Err(VaultError::InsufficientBalance)
    );
}

#[test]
fn force_rebalance_runs_without_a_satisfied_rule() {
    let t: u64 = 1000;
    let mut vault = VaultContract::new();
    vault
        .initialize(
            VaultConfig {
                owner: 1,
                name: String::from("forced"),
                assets: vec![10, 11],
                // A time rule far from firing: the trigger would no-op.
                rules: vec![RebalanceRule {
                    condition_type: ConditionType::Time,
                    threshold: 1_000_000,
                    action: RuleAction::Rebalance,
                    target_allocation: vec![50_0000, 50_0000],
                }],
                router_address: Some(5),
                staking_pool_address: None,
                factory_address: None,
            },
            t,
        )
        .unwrap();
    vault.deposit(7, 1000, t).unwrap();
    let mut balances: Vec<i128> = vec![1000, 0];
    let mut pools = vec![pair_pool(1000, 1000)];
    let mut staking = StakingPool::new(1, 1);

    // The gated trigger does nothing...
    assert_eq!(
        vault.trigger_rebalance(99, &mut balances, &mut pools, &mut staking, t + 10),
        Ok(())
    );
    assert_eq!(balances, vec![1000, 0]);
    assert_eq!(vault.get_state().last_rebalance, t);

    // ...while the forced variant executes the swaps.
    assert_eq!(
        vault.force_rebalance(99, &mut balances, &mut pools, &mut staking, t + 10),
        Ok(())
    );
    assert_eq!(balances, vec![500, 332]);
    assert_eq!(vault.get_state().last_rebalance, t + 10);
}

#[test]
fn trigger_stake_stores_the_position_snapshot() {
    let t: u64 = 1000;
    let mut vault = VaultContract::new();
    vault
        .initialize(
            VaultConfig {
                owner: 1,
                name: String::from("staker"),
                assets: vec![10],
                // The same threshold serves the time condition (seconds
                // elapsed) and the stake size (a tenth of total value).
                rules: vec![RebalanceRule {
                    condition_type: ConditionType::Time,
                    threshold: 10_0000,
                    action: RuleAction::Stake,
                    target_allocation: vec![],
                }],
                router_address: None,
                staking_pool_address: Some(9),
                factory_address: None,
            },
            t,
        )
        .unwrap();
    vault.deposit(7, 1000, t).unwrap();
    let mut balances: Vec<i128> = vec![1000];
    let mut pools: Vec<Pool> = vec![];
    let mut staking = StakingPool::new(1, 1);
    assert!(!vault.has_staking_position());

    // Before the time gate fires, the trigger is a no-op.
    assert_eq!(
        vault.trigger_stake(99, &mut balances, &mut pools, &mut staking, t + 10),
        Ok(())
    );
    assert!(!vault.has_staking_position());

    assert_eq!(
        vault.trigger_stake(99, &mut balances, &mut pools, &mut staking, t + 10_0000),
        Ok(())
    );
    assert!(vault.has_staking_position());
    let pos = vault.get_staking_position().unwrap();
    assert_eq!(pos.staking_pool, 9);
    assert_eq!(pos.original_token, 10);
    assert_eq!(pos.staked_amount, 100);
    assert_eq!(pos.st_token_amount, 100);
    assert_eq!(balances, vec![900]);
    assert_eq!(staking.balances.len(), 1);
    assert_eq!(staking.balances[0].user, 99);
    assert_eq!(staking.balances[0].amount, 100);
}

#[test]
fn force_rebalance_runs_every_rule_in_order() {
    let t: u64 = 1000;
    let mut vault = VaultContract::new();
    vault
        .initialize(
            VaultConfig {
                owner: 1,
                name: String::from("multi"),
                assets: vec![10, 11],
                rules: vec![
                    rebalance_rule(vec![50_0000, 50_0000]),
                    RebalanceRule {
                        condition_type: ConditionType::Apy,
                        threshold: 10_0000,
                        action: RuleAction::Stake,
                        target_allocation: vec![],
                    },
                ],
                router_address: Some(5),
                staking_pool_address: Some(9),
                factory_address: None,
            },
            t,
        )
        .unwrap();
    vault.deposit(7, 1000, t).unwrap();
    let mut balances: Vec<i128> = vec![1000, 0];
    let mut pools = vec![pair_pool(1000, 1000)];
    let mut staking = StakingPool::new(1, 1);
    assert_eq!(
        vault.force_rebalance(99, &mut balances, &mut pools, &mut staking, t + 1),
        Ok(())
    );
    // The rebalance rule swapped 500 into the second asset, then the stake
    // rule moved a tenth of the total value out of the first.
    assert_eq!(balances, vec![400, 332]);
    assert_eq!(pools[0].reserve_a, 1500);
    assert_eq!(pools[0].reserve_b, 668);
    let pos = vault.get_staking_position().unwrap();
    assert_eq!(pos.staked_amount, 100);
    assert_eq!(pos.st_token_amount, 100);
}

#[test]
fn a_failing_rule_rolls_back_the_whole_run() {
    let t: u64 = 1000;
    let mut vault = VaultContract::new();
    vault
        .initialize(
            VaultConfig {
                owner: 1,
                name: String::from("atomic"),
                assets: vec![10, 11],
                rules: vec![
                    rebalance_rule(vec![50_0000, 50_0000]),
                    // No staking venue is configured, so this rule fails.
                    RebalanceRule {
                        condition_type: ConditionType::Apy,
                        threshold: 10_0000,
                        action: RuleAction::Stake,
                        target_allocation: vec![],
                    },
                ],
                router_address: Some(5),
                staking_pool_address: None,
                factory_address: None,
            },
            t,
        )
        .unwrap();
    vault.deposit(7, 1000, t).unwrap();
    let mut balances: Vec<i128> = vec![1000, 0];
    let mut pools = vec![pair_pool(1000, 1000)];
    let mut staking = StakingPool::new(1, 1);
    assert_eq!(
        vault.force_rebalance(99, &mut balances, &mut pools, &mut staking, t + 1),
        Err(VaultError::InvalidConfiguration)
    );
    // The first rule's swap was rolled back with everything else.
    assert_eq!(balances, vec![1000, 0]);
    assert_eq!(pools[0].reserve_a, 1000);
    assert_eq!(pools[0].reserve_b, 1000);
    assert!(!vault.has_staking_position());
    assert_eq!(vault.get_state().last_rebalance, t);
}
