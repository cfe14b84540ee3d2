//! Rule evaluation engine: a pure predicate over the vault's accounting
//! state, one rule, and the current timestamp.
//!
//! The `apy` and `price` conditions are deliberate placeholders — no live
//! yield or oracle data is wired in — and the `allocation` condition only
//! asks whether the vault holds value at all; drift magnitude is computed
//! downstream by the rebalance executor.

use vstd::prelude::*;

use crate::types::{ConditionType, RebalanceRule, RuleAction, VaultConfig, VaultState};

verus! {

/// Seconds elapsed from `last` to `now`, saturating at zero when the clock
/// reads earlier than the recorded instant.
pub open spec fn spec_elapsed(now: u64, last: u64) -> u64 {
    if now >= last {
        (now - last) as u64
    } else {
        0
    }
}

/// Whether one rule's condition holds for the given state at `now`.
///
/// The time threshold is interpreted as seconds through truncation of the
/// stored 128-bit value to `u64`, matching the stored-rule encoding.
pub open spec fn spec_rule_satisfied(rule: RebalanceRule, state: VaultState, now: u64) -> bool {
    match rule.condition_type {
        ConditionType::Time => spec_elapsed(now, state.last_rebalance) >= rule.threshold as u64,
        ConditionType::Apy => 0 < rule.threshold < 100_0000,
        ConditionType::Allocation => state.total_value > 0,
        ConditionType::Price => rule.threshold > 0,
    }
}

/// Whether any rule in the list is satisfied.
pub open spec fn spec_any_rule_satisfied(
    rules: Seq<RebalanceRule>,
    state: VaultState,
    now: u64,
) -> bool {
    exists|i: int| 0 <= i < rules.len() && #[trigger] spec_rule_satisfied(rules[i], state, now)
}

/// Whether any rule carrying the given action is satisfied.
pub open spec fn spec_any_action_satisfied(
    rules: Seq<RebalanceRule>,
    action: RuleAction,
    state: VaultState,
    now: u64,
) -> bool {
    exists|i: int|
        0 <= i < rules.len() && rules[i].action == action && #[trigger] spec_rule_satisfied(
            rules[i],
            state,
            now,
        )
}

/// Evaluate the time-based condition: enough seconds have passed since the
/// last rebalance.
pub fn evaluate_time_condition(rule: &RebalanceRule, state: &VaultState, now: u64) -> (r: bool)
    ensures
        r == (spec_elapsed(now, state.last_rebalance) >= rule.threshold as u64),
{
    let time_elapsed: u64 = if now >= state.last_rebalance {
        now - state.last_rebalance
    } else {
        0
    };
    time_elapsed >= #[verifier::truncate] (rule.threshold as u64)
}

/// Evaluate the yield-threshold condition: with no live yield data, a rule
/// is considered satisfied whenever its threshold is a plausible percentage.
pub fn evaluate_apy_condition(rule: &RebalanceRule) -> (r: bool)
    ensures
        r == (0 < rule.threshold < 100_0000),
{
    rule.threshold > 0 && rule.threshold < 100_0000
}

/// Evaluate the allocation-drift condition: satisfied whenever the vault
/// holds value; the executor measures the actual drift.
pub fn evaluate_allocation_condition(state: &VaultState) -> (r: bool)
    ensures
        r == (state.total_value > 0),
{
    state.total_value > 0
}

/// Evaluate the price-move condition: with no oracle wired in, satisfied for
/// any positive threshold.
pub fn evaluate_price_condition(rule: &RebalanceRule) -> (r: bool)
    ensures
        r == (rule.threshold > 0),
{
    rule.threshold > 0
}

/// Evaluate a single rule against the state at `now`.
pub fn evaluate_single_rule(rule: &RebalanceRule, state: &VaultState, now: u64) -> (r: bool)
    ensures
        r == spec_rule_satisfied(*rule, *state, now),
{
    match rule.condition_type {
        ConditionType::Time => evaluate_time_condition(rule, state, now),
        ConditionType::Apy => evaluate_apy_condition(rule),
        ConditionType::Allocation => evaluate_allocation_condition(state),
        ConditionType::Price => evaluate_price_condition(rule),
    }
}

/// Evaluate all rules; true as soon as any of them is satisfied
/// (short-circuit OR across the list).
pub fn evaluate_rules(rules: &Vec<RebalanceRule>, state: &VaultState, now: u64) -> (r: bool)
    ensures
        r == spec_any_rule_satisfied(rules@, *state, now),
{
    let mut i: usize = 0;
    while i < rules.len()
        invariant
            0 <= i <= rules.len(),
            forall|j: int| 0 <= j < i ==> !spec_rule_satisfied(rules@[j], *state, now),
        decreases rules.len() - i,
    {
        if evaluate_single_rule(&rules[i], state, now) {
            return true;
        }
        i = i + 1;
    }
    false
}

/// Whether an unconditional trigger should rebalance: false for an
/// uninitialized vault, so unconfigured vaults never trigger.
pub fn should_rebalance(config: &Option<VaultConfig>, state: &VaultState, now: u64) -> (r: bool)
    ensures
        r == match config {
            Some(cfg) => spec_any_rule_satisfied(cfg.rules@, *state, now),
            None => false,
        },
{
    match config {
        Some(cfg) => evaluate_rules(&cfg.rules, state, now),
        None => false,
    }
}

/// Whether any rule with the given action is satisfied; false for an
/// uninitialized vault. Gates the action-specific triggers.
pub fn should_act(config: &Option<VaultConfig>, action: RuleAction, state: &VaultState, now: u64)
    -> (r: bool)
    ensures
        r == match config {
            Some(cfg) => spec_any_action_satisfied(cfg.rules@, action, *state, now),
            None => false,
        },
{
    match config {
        Some(cfg) => any_action_satisfied(&cfg.rules, action, state, now),
        None => false,
    }
}

/// Scan the rule list for a satisfied rule carrying the given action.
pub fn any_action_satisfied(
    rules: &Vec<RebalanceRule>,
    action: RuleAction,
    state: &VaultState,
    now: u64,
) -> (r: bool)
    ensures
        r == spec_any_action_satisfied(rules@, action, *state, now),
{
    let mut i: usize = 0;
    while i < rules.len()
        invariant
            0 <= i <= rules.len(),
            forall|j: int|
                0 <= j < i ==> !(rules@[j].action == action && spec_rule_satisfied(
                    rules@[j],
                    *state,
                    now,
                )),
        decreases rules.len() - i,
    {
        if rules[i].action == action {
            if evaluate_single_rule(&rules[i], state, now) {
                proof {
                    let w = i as int;
                    assert(0 <= w < rules@.len() && rules@[w].action == action
                        && spec_rule_satisfied(rules@[w], *state, now));
                }
                return true;
            }
        }
        i = i + 1;
    }
    false
}

} // verus!
