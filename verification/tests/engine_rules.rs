//! Rule evaluation and the time-gated trigger scenario.

use vault_core::engine::{
    evaluate_apy_condition, evaluate_price_condition, evaluate_rules, evaluate_single_rule,
};
use vault_core::pool::Pool;
use vault_core::staking::StakingPool;
use vault_core::types::{ConditionType, RebalanceRule, RuleAction, VaultConfig, VaultState};
use vault_core::vault::VaultContract;

fn rule(condition_type: ConditionType, threshold: i128, action: RuleAction) -> RebalanceRule {
    RebalanceRule { condition_type, threshold, action, target_allocation: vec![50_0000, 50_0000] }
}

fn zero_state(last_rebalance: u64) -> VaultState {
    VaultState { total_shares: 0, total_value: 0, last_rebalance }
}

#[test]
fn time_condition_compares_elapsed_seconds() {
    let r = rule(ConditionType::Time, 3600, RuleAction::Rebalance);
    let state = zero_state(1000);
    assert!(!evaluate_single_rule(&r, &state, 1000 + 3599));
    assert!(evaluate_single_rule(&r, &state, 1000 + 3600));
    assert!(evaluate_single_rule(&r, &state, 1000 + 9999));
    // A clock reading earlier than the last rebalance saturates to zero.
    assert!(!evaluate_single_rule(&r, &state, 500));
}

#[test]
fn apy_condition_accepts_plausible_thresholds_only() {
    let state = zero_state(0);
    assert!(evaluate_apy_condition(&rule(ConditionType::Apy, 1, RuleAction::Stake)));
    assert!(evaluate_apy_condition(&rule(ConditionType::Apy, 99_9999, RuleAction::Stake)));
    assert!(!evaluate_apy_condition(&rule(ConditionType::Apy, 0, RuleAction::Stake)));
    assert!(!evaluate_apy_condition(&rule(ConditionType::Apy, 100_0000, RuleAction::Stake)));
    assert!(!evaluate_single_rule(&rule(ConditionType::Apy, -5, RuleAction::Stake), &state, 0));
}

#[test]
fn allocation_condition_requires_vault_value() {
    let r = rule(ConditionType::Allocation, 5_0000, RuleAction::Rebalance);
    assert!(!evaluate_single_rule(&r, &zero_state(0), 0));
    let funded = VaultState { total_shares: 10, total_value: 10, last_rebalance: 0 };
    assert!(evaluate_single_rule(&r, &funded, 0));
}

#[test]
fn price_condition_requires_a_positive_threshold() {
    assert!(evaluate_price_condition(&rule(ConditionType::Price, 1, RuleAction::Rebalance)));
    assert!(!evaluate_price_condition(&rule(ConditionType::Price, 0, RuleAction::Rebalance)));
    assert!(!evaluate_price_condition(&rule(ConditionType::Price, -1, RuleAction::Rebalance)));
}

#[test]
fn rule_list_is_a_short_circuit_or() {
    let state = zero_state(1000);
    let rules = vec![
        rule(ConditionType::Time, 1_000_000, RuleAction::Rebalance),
        rule(ConditionType::Price, 5, RuleAction::Rebalance),
    ];
    assert!(evaluate_rules(&rules, &state, 1000));
    let unsatisfied = vec![rule(ConditionType::Time, 1_000_000, RuleAction::Rebalance)];
    assert!(!evaluate_rules(&unsatisfied, &state, 1000));
    assert!(!evaluate_rules(&vec![], &state, 1000));
}

#[test]
fn trigger_rebalance_respects_the_time_threshold() {
    let t: u64 = 50_000;
    let mut vault = VaultContract::new();
    vault
        .initialize(
            VaultConfig {
                owner: 1,
                name: String::from("timed"),
                assets: vec![10, 11],
                rules: vec![rule(ConditionType::Time, 3600, RuleAction::Rebalance)],
                router_address: Some(5),
                staking_pool_address: None,
                factory_address: None,
            },
            t,
        )
        .unwrap();
    vault.deposit(7, 1000, t).unwrap();
    // Custody already matches the 50/50 target, so an executed rebalance
    // swaps nothing; only the clock stamp tells the two cases apart.
    let mut balances: Vec<i128> = vec![500, 500];
    let mut pools: Vec<Pool> = vec![];
    let mut staking = StakingPool::new(1, 1);

    // One second early: a permissionless no-op.
    assert_eq!(
        vault.trigger_rebalance(99, &mut balances, &mut pools, &mut staking, t + 3599),
        Ok(())
    );
    assert_eq!(vault.get_state().last_rebalance, t);

    // On the threshold: the rebalance executes and stamps the clock.
    assert_eq!(
        vault.trigger_rebalance(99, &mut balances, &mut pools, &mut staking, t + 3600),
        Ok(())
    );
    assert_eq!(vault.get_state().last_rebalance, t + 3600);
    assert_eq!(balances, vec![500, 500]);
}
