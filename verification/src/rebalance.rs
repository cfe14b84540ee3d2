//! The rebalance executor: correcting per-asset deficits and surpluses
//! against a target allocation, staking part of the holdings, and providing
//! pool liquidity, each driven by the stored rules.
//!
//! The deficit/surplus matching is greedy and order-dependent: each asset in
//! deficit is corrected from the first surplus asset found, at most one
//! source per deficit, with balances updated in place so later corrections
//! see post-swap holdings. Repeated invocation at equilibrium — every asset
//! within one percent of its target — performs no swap and changes nothing.
//! Every error aborts the whole call with the caller's state untouched.

use vstd::prelude::*;

use crate::amm;
use crate::errors::VaultError;
use crate::liquidity::{
    add_liquidity_to_pool, get_optimal_liquidity_amounts, spec_accepted_amounts, spec_lp_minted,
    spec_quote,
};
use crate::pool::{
    first_pool_for_pair, get_pool_for_pair, lemma_first_pool_unique, lemma_pool_index_first,
    lemma_pool_index_none, pool_after_swap, spec_pool_index, swap_via_router, Pool,
};
use crate::staking::{spec_st_minted, stake_tokens, StakingPool};
use crate::types::spec_amount_of;
use crate::vault::VaultContract;
use crate::types::{
    copy_vec, lemma_sum_take_step, sum_i128, LiquidityPosition, RebalanceRule, RuleAction,
    StakingPosition, VaultConfig, ALLOCATION_SCALE,
};

verus! {

/// Truncating division for a positive divisor: rounds toward zero, as the
/// machine division does.
pub open spec fn div_trunc(a: int, b: int) -> int {
    if a >= 0 {
        a / b
    } else {
        -((-a) / b)
    }
}

/// Division by a positive divisor, with the machine's toward-zero rounding.
fn checked_div_pos(a: i128, b: i128) -> (r: i128)
    requires
        b > 0,
    ensures
        r == div_trunc(a as int, b as int),
{
    proof {
        if a >= 0 {
            vstd::arithmetic::div_mod::lemma_div_pos_is_pos(a as int, b as int);
            vstd::arithmetic::div_mod::lemma_div_nonincreasing(a as int, b as int);
        } else {
            vstd::arithmetic::div_mod::lemma_div_pos_is_pos(-(a as int), b as int);
            vstd::arithmetic::div_mod::lemma_div_nonincreasing(-(a as int), b as int);
        }
    }
    match a.checked_div(b) {
        Some(v) => v,
        None => vstd::pervasive::unreached(),
    }
}

/// A percentage-scaled amount: `floor_toward_zero(total_value * pct /
/// 100_0000)`. Used for targets, stake sizes and liquidity sizes.
pub open spec fn spec_scaled_amount(total_value: int, pct: int) -> int {
    div_trunc(total_value * pct, 100_0000)
}

/// Whether the product behind [`spec_scaled_amount`] fits in `i128`.
pub open spec fn spec_scaled_fits(total_value: int, pct: int) -> bool {
    i128::MIN <= total_value * pct <= i128::MAX
}

/// `total_value * pct / 100_0000`, or `InvalidAmount` when the product
/// leaves `i128`.
fn mul_div_scale(total_value: i128, pct: i128) -> (r: Result<i128, VaultError>)
    ensures
        match r {
            Ok(v) => {
                &&& spec_scaled_fits(total_value as int, pct as int)
                &&& v == spec_scaled_amount(total_value as int, pct as int)
            },
            Err(e) => {
                &&& e == VaultError::InvalidAmount
                &&& !spec_scaled_fits(total_value as int, pct as int)
            },
        },
{
    let prod = match total_value.checked_mul(pct) {
        Some(v) => v,
        None => {
            return Err(VaultError::InvalidAmount);
        },
    };
    Ok(checked_div_pos(prod, ALLOCATION_SCALE))
}

/// Whether every prefix sum of the allocation stays within `i128`, so the
/// running checked summation cannot overflow.
pub open spec fn spec_alloc_sums_fit(alloc: Seq<i128>) -> bool {
    forall|k: int| 0 <= k <= alloc.len() ==> i128::MIN <= #[trigger] sum_i128(alloc.take(k)) <= i128::MAX
}

/// Whether every per-asset target amount can be computed within `i128`.
pub open spec fn spec_targets_fit(total_value: int, alloc: Seq<i128>) -> bool {
    forall|k: int| 0 <= k < alloc.len() ==> spec_scaled_fits(total_value, (#[trigger] alloc[k]) as int)
}

/// Which validation a rebalance action fails on, if any: a target list not
/// aligned with the assets, an allocation that overflows or does not sum to
/// exactly 100% (or 0%), a missing router, or targets that overflow.
pub open spec fn spec_rebalance_validation(
    rule: RebalanceRule,
    assets: Seq<u32>,
    total_value: int,
    router: Option<u32>,
) -> Option<VaultError> {
    let alloc = rule.target_allocation@;
    if alloc.len() != assets.len() {
        Some(VaultError::InvalidConfiguration)
    } else if !spec_alloc_sums_fit(alloc) {
        Some(VaultError::InvalidConfiguration)
    } else if sum_i128(alloc) != 100_0000 && sum_i128(alloc) != 0 {
        Some(VaultError::InvalidConfiguration)
    } else if router is None {
        Some(VaultError::InvalidConfiguration)
    } else if !spec_targets_fit(total_value, alloc) {
        Some(VaultError::InvalidAmount)
    } else {
        None
    }
}

/// Whether every asset's balance already sits within the one-percent
/// tolerance of its target.
pub open spec fn spec_within_tolerance(
    balances: Seq<i128>,
    total_value: int,
    alloc: Seq<i128>,
) -> bool {
    forall|k: int|
        0 <= k < balances.len() ==> {
            let t = spec_scaled_amount(total_value, alloc[k] as int);
            -(total_value / 100) <= (#[trigger] balances[k]) - t <= total_value / 100
        }
}

/// The per-asset target amounts for a total value and allocation, as
/// machine integers (the validation guarantees each fits).
pub open spec fn spec_targets(total_value: int, alloc: Seq<i128>) -> Seq<i128> {
    Seq::new(alloc.len(), |k: int| spec_scaled_amount(total_value, alloc[k] as int) as i128)
}

/// The first index at or after `j`, other than `i`, whose balance exceeds
/// its target; the length when none does.
pub open spec fn spec_first_surplus(balances: Seq<i128>, targets: Seq<i128>, i: int, j: int) -> int
    decreases balances.len() - j,
{
    if j < 0 || j >= balances.len() {
        balances.len() as int
    } else if j != i && balances[j] > targets[j] {
        j
    } else {
        spec_first_surplus(balances, targets, i, j + 1)
    }
}

/// Skipping indices that are not in surplus does not move the scan.
proof fn lemma_first_surplus_skip(
    balances: Seq<i128>,
    targets: Seq<i128>,
    i: int,
    k: int,
    j: int,
)
    requires
        0 <= k <= j <= balances.len(),
        forall|m: int| k <= m < j ==> m == i || #[trigger] balances[m] <= targets[m],
    ensures
        spec_first_surplus(balances, targets, i, k) == spec_first_surplus(balances, targets, i, j),
    decreases j - k,
{
    if k < j {
        lemma_first_surplus_skip(balances, targets, i, k + 1, j);
    }
}

/// Outcome of correcting the deficit `diff` of asset `i` from the first
/// surplus source: the exact greedy step the executor performs. The swap
/// amount is the smaller of the deficit and the surplus, the pair's first
/// pool absorbs it and pays its constant-product output, and both balance
/// snapshots move accordingly; arithmetic that leaves `i128` and a missing
/// pool are errors.
pub open spec fn spec_correct_deficit(
    assets: Seq<u32>,
    targets: Seq<i128>,
    i: int,
    diff: int,
    balances: Seq<i128>,
    pools: Seq<Pool>,
) -> Result<(Seq<i128>, Seq<Pool>), VaultError> {
    let j = spec_first_surplus(balances, targets, i, 0);
    if j >= balances.len() {
        Ok((balances, pools))
    } else {
        let excess = balances[j] - targets[j];
        if excess > i128::MAX {
            Err(VaultError::InvalidAmount)
        } else {
            let amount = if diff < excess {
                diff
            } else {
                excess
            };
            let pidx = spec_pool_index(pools, assets[j], assets[i], 0);
            if pidx >= pools.len() {
                Err(VaultError::PoolNotFound)
            } else {
                let p = pools[pidx];
                let from = assets[j];
                if !crate::amm::swap_output_fits(p.reserve_in(from), p.reserve_out(from), amount) {
                    Err(VaultError::InvalidAmount)
                } else {
                    let out = crate::amm::swap_output_spec(
                        p.reserve_in(from),
                        p.reserve_out(from),
                        amount,
                    );
                    if out * 95 > i128::MAX {
                        Err(VaultError::InvalidAmount)
                    } else if balances[i] + out > i128::MAX {
                        Err(VaultError::InvalidAmount)
                    } else {
                        Ok(
                            (
                                balances.update(j, (balances[j] - amount) as i128).update(
                                    i,
                                    (balances[i] + out) as i128,
                                ),
                                pools.update(pidx, pool_after_swap(p, from, amount)),
                            ),
                        )
                    }
                }
            }
        }
    }
}

/// One index of the rebalance pass: compute the signed gap to the target,
/// skip the asset when the gap is within tolerance or is a surplus, and
/// correct a deficit through [`spec_correct_deficit`]. A gap whose
/// magnitude leaves `i128` is an error, as the checked arithmetic makes it.
pub open spec fn spec_rebalance_step(
    assets: Seq<u32>,
    targets: Seq<i128>,
    tolerance: int,
    i: int,
    balances: Seq<i128>,
    pools: Seq<Pool>,
) -> Result<(Seq<i128>, Seq<Pool>), VaultError> {
    let diff = targets[i] - balances[i];
    if diff > i128::MAX || diff <= i128::MIN {
        Err(VaultError::InvalidAmount)
    } else if (if diff >= 0 {
        diff
    } else {
        -diff
    }) <= tolerance {
        Ok((balances, pools))
    } else if diff <= 0 {
        Ok((balances, pools))
    } else {
        spec_correct_deficit(assets, targets, i, diff, balances, pools)
    }
}

/// The whole greedy rebalance pass from asset `i` on: each asset in index
/// order is handled by [`spec_rebalance_step`], later steps seeing the
/// post-swap snapshots, and the first error aborts the pass.
pub open spec fn spec_rebalance_pass(
    assets: Seq<u32>,
    targets: Seq<i128>,
    tolerance: int,
    i: int,
    balances: Seq<i128>,
    pools: Seq<Pool>,
) -> Result<(Seq<i128>, Seq<Pool>), VaultError>
    decreases assets.len() - i,
{
    if i < 0 || i >= assets.len() {
        Ok((balances, pools))
    } else {
        match spec_rebalance_step(assets, targets, tolerance, i, balances, pools) {
            Ok(bp) => spec_rebalance_pass(assets, targets, tolerance, i + 1, bp.0, bp.1),
            Err(e) => Err(e),
        }
    }
}

/// Indices within tolerance are skipped by the pass.
proof fn lemma_pass_skip_prefix(
    assets: Seq<u32>,
    targets: Seq<i128>,
    tolerance: int,
    k: int,
    balances: Seq<i128>,
    pools: Seq<Pool>,
)
    requires
        0 <= k <= assets.len(),
        balances.len() == assets.len(),
        targets.len() == assets.len(),
        0 <= tolerance <= i128::MAX,
        forall|m: int|
            0 <= m < k ==> -tolerance <= #[trigger] balances[m] - targets[m] <= tolerance,
    ensures
        spec_rebalance_pass(assets, targets, tolerance, 0, balances, pools)
            == spec_rebalance_pass(assets, targets, tolerance, k, balances, pools),
    decreases k,
{
    if k > 0 {
        lemma_pass_skip_prefix(assets, targets, tolerance, k - 1, balances, pools);
        assert(spec_rebalance_step(assets, targets, tolerance, k - 1, balances, pools)
            == Ok::<(Seq<i128>, Seq<Pool>), VaultError>((balances, pools)));
    }
}

/// The pass surfaces only arithmetic-overflow and missing-pool errors.
proof fn lemma_pass_error_kind(
    assets: Seq<u32>,
    targets: Seq<i128>,
    tolerance: int,
    i: int,
    balances: Seq<i128>,
    pools: Seq<Pool>,
    e: VaultError,
)
    requires
        spec_rebalance_pass(assets, targets, tolerance, i, balances, pools) == Err::<
            (Seq<i128>, Seq<Pool>),
            VaultError,
        >(e),
    ensures
        e == VaultError::InvalidAmount || e == VaultError::PoolNotFound,
    decreases assets.len() - i,
{
    if 0 <= i < assets.len() {
        match spec_rebalance_step(assets, targets, tolerance, i, balances, pools) {
            Ok(bp) => {
                lemma_pass_error_kind(assets, targets, tolerance, i + 1, bp.0, bp.1, e);
            },
            Err(e2) => {
                assert(spec_rebalance_step(assets, targets, tolerance, i, balances, pools)
                    == Err::<(Seq<i128>, Seq<Pool>), VaultError>(e2));
            },
        }
    }
}

/// The complete outcome of one rebalance action on a balance/pool state:
/// a validation error, the equilibrium no-op, or the greedy pass.
pub open spec fn spec_rebalance_action_outcome(
    rule: RebalanceRule,
    assets: Seq<u32>,
    total_value: int,
    router: Option<u32>,
    balances: Seq<i128>,
    pools: Seq<Pool>,
) -> Result<(Seq<i128>, Seq<Pool>), VaultError> {
    match spec_rebalance_validation(rule, assets, total_value, router) {
        Some(e) => Err(e),
        None => {
            if spec_within_tolerance(balances, total_value, rule.target_allocation@) {
                Ok((balances, pools))
            } else {
                spec_rebalance_pass(
                    assets,
                    spec_targets(total_value, rule.target_allocation@),
                    total_value / 100,
                    0,
                    balances,
                    pools,
                )
            }
        },
    }
}

/// The in-order fold of every rebalance-action rule from index `m` on:
/// each one transforms the balance/pool state through
/// [`spec_rebalance_action_outcome`], rules carrying other actions are
/// skipped, and the first error aborts the fold.
pub open spec fn spec_rebalance_rules_outcome(
    rules: Seq<RebalanceRule>,
    assets: Seq<u32>,
    total_value: int,
    router: Option<u32>,
    m: int,
    balances: Seq<i128>,
    pools: Seq<Pool>,
) -> Result<(Seq<i128>, Seq<Pool>), VaultError>
    decreases rules.len() - m,
{
    if m < 0 || m >= rules.len() {
        Ok((balances, pools))
    } else if rules[m].action != RuleAction::Rebalance {
        spec_rebalance_rules_outcome(rules, assets, total_value, router, m + 1, balances, pools)
    } else {
        match spec_rebalance_action_outcome(rules[m], assets, total_value, router, balances, pools) {
            Ok(bp) => spec_rebalance_rules_outcome(
                rules,
                assets,
                total_value,
                router,
                m + 1,
                bp.0,
                bp.1,
            ),
            Err(e) => Err(e),
        }
    }
}

/// Correct the deficit of asset `i` from the first surplus asset found:
/// swap the smaller of the deficit and the surplus through the pair's pool,
/// then update both balance snapshots so later corrections see post-swap
/// holdings. At most one source is used per deficit. The outcome — success
/// state or error — is exactly [`spec_correct_deficit`].
#[verifier::loop_isolation(false)]
fn correct_deficit(
    i: usize,
    diff: i128,
    assets: &Vec<u32>,
    targets: &Vec<i128>,
    balances: &mut Vec<i128>,
    pools: &mut Vec<Pool>,
) -> (r: Result<(), VaultError>)
    requires
        i < assets@.len(),
        old(balances)@.len() == assets@.len(),
        targets@.len() == assets@.len(),
        diff > 0,
        forall|j: int| 0 <= j < old(pools)@.len() ==> (#[trigger] old(pools)@[j]).wf(),
    ensures
        final(balances)@.len() == assets@.len(),
        final(pools)@.len() == old(pools)@.len(),
        forall|j: int| 0 <= j < final(pools)@.len() ==> (#[trigger] final(pools)@[j]).wf(),
        match r {
            Ok(()) => spec_correct_deficit(
                assets@,
                targets@,
                i as int,
                diff as int,
                old(balances)@,
                old(pools)@,
            ) == Ok::<(Seq<i128>, Seq<Pool>), VaultError>((final(balances)@, final(pools)@)),
            Err(e) => spec_correct_deficit(
                assets@,
                targets@,
                i as int,
                diff as int,
                old(balances)@,
                old(pools)@,
            ) == Err::<(Seq<i128>, Seq<Pool>), VaultError>(e),
        },
{
    let ghost bal0 = balances@;
    let ghost pls0 = pools@;
    let n = assets.len();
    // Find the first surplus source other than the deficit asset itself.
    let mut j: usize = 0;
    while j < n && !(j != i && balances[j] > targets[j])
        invariant
            0 <= j <= n,
            forall|m: int| 0 <= m < j ==> m == i || #[trigger] balances@[m] <= targets@[m],
        decreases n - j,
    {
        j = j + 1;
    }
    proof {
        lemma_first_surplus_skip(bal0, targets@, i as int, 0, j as int);
    }
    if j == n {
        return Ok(());
    }
    let source_current = balances[j];
    let source_target = targets[j];
    let excess = match source_current.checked_sub(source_target) {
        Some(v) => v,
        None => {
            return Err(VaultError::InvalidAmount);
        },
    };
    let amount_to_swap = if diff < excess {
        diff
    } else {
        excess
    };
    let idx = match get_pool_for_pair(pools, assets[j], assets[i]) {
        Ok(x) => x,
        Err(_) => {
            proof {
                lemma_pool_index_none(pls0, assets@[j as int], assets@[i as int], 0);
            }
            return Err(VaultError::PoolNotFound);
        },
    };
    proof {
        lemma_pool_index_first(pls0, assets@[j as int], assets@[i as int], 0, idx as int);
    }
    let from_token = assets[j];
    let (reserve_in, reserve_out) = if from_token == pools[idx].token_a {
        (pools[idx].reserve_a, pools[idx].reserve_b)
    } else {
        (pools[idx].reserve_b, pools[idx].reserve_a)
    };
    let expected = match amm::calculate_swap_output(reserve_in, reserve_out, amount_to_swap) {
        Ok(v) => v,
        Err(e) => {
            return Err(e);
        },
    };
    // Minimum output at a five-percent slippage budget.
    let min_prod = match expected.checked_mul(95) {
        Some(v) => v,
        None => {
            return Err(VaultError::InvalidAmount);
        },
    };
    proof {
        vstd::arithmetic::mul::lemma_mul_nonnegative(expected as int, 95);
        vstd::arithmetic::div_mod::lemma_div_pos_is_pos(min_prod as int, 100);
        vstd::arithmetic::div_mod::lemma_multiply_divide_le(
            min_prod as int,
            100,
            expected as int,
        );
    }
    let min_amount_out = min_prod / 100;
    let amount_out = match swap_via_router(
        pools,
        from_token,
        assets[i],
        amount_to_swap,
        min_amount_out,
    ) {
        Ok(v) => v,
        Err(e) => {
            proof {
                // The quote already established that this swap succeeds: the
                // pool trades the pair, the arithmetic fits, and the output
                // meets the slippage minimum. A failure here contradicts the
                // router's own contract.
                let w = choose|w: int|
                    {
                        &&& #[trigger] first_pool_for_pair(
                            pls0,
                            from_token,
                            assets@[i as int],
                            w,
                        )
                        &&& crate::pool::spec_swap_result(
                            pls0[w],
                            from_token,
                            amount_to_swap as int,
                            min_amount_out as int,
                        ) == Err::<int, VaultError>(e)
                    };
                lemma_first_pool_unique(pls0, from_token, assets@[i as int], w, idx as int);
                assert(false);
            }
            return Err(e);
        },
    };
    proof {
        let w = choose|w: int|
            {
                &&& #[trigger] first_pool_for_pair(pls0, from_token, assets@[i as int], w)
                &&& crate::pool::spec_swap_result(
                    pls0[w],
                    from_token,
                    amount_to_swap as int,
                    min_amount_out as int,
                ) == Ok::<int, VaultError>(amount_out as int)
                &&& pools@ == pls0.update(
                    w,
                    pool_after_swap(pls0[w], from_token, amount_to_swap as int),
                )
                &&& amount_out >= min_amount_out
            };
        lemma_first_pool_unique(pls0, from_token, assets@[i as int], w, idx as int);
    }
    balances.set(j, source_current - amount_to_swap);
    let credited = match balances[i].checked_add(amount_out) {
        Some(v) => v,
        None => {
            return Err(VaultError::InvalidAmount);
        },
    };
    balances.set(i, credited);
    proof {
        assert(balances@ =~= bal0.update(j as int, (bal0[j as int] - amount_to_swap) as i128)
            .update(i as int, (bal0[i as int] + amount_out) as i128));
    }
    Ok(())
}

/// Rebalance the custodied balances toward the rule's target allocation.
///
/// The outcome is exactly [`spec_rebalance_action_outcome`]: on success the
/// snapshots are the greedy pass's result, and validation failures and swap
/// failures abort the call with both `balances` and `pools` exactly as they
/// were. When every asset is already within the one-percent tolerance of
/// its target, the call succeeds without touching anything — rebalancing at
/// equilibrium is a no-op, and so is every repetition of it.
#[verifier::loop_isolation(false)]
#[verifier::rlimit(100)]
pub fn execute_rebalance_action(
    rule: &RebalanceRule,
    assets: &Vec<u32>,
    total_value: i128,
    router: Option<u32>,
    balances: &mut Vec<i128>,
    pools: &mut Vec<Pool>,
) -> (r: Result<(), VaultError>)
    requires
        total_value >= 0,
        old(balances)@.len() == assets@.len(),
        forall|j: int| 0 <= j < old(pools)@.len() ==> (#[trigger] old(pools)@[j]).wf(),
    ensures
        final(balances)@.len() == assets@.len(),
        final(pools)@.len() == old(pools)@.len(),
        forall|j: int| 0 <= j < final(pools)@.len() ==> (#[trigger] final(pools)@[j]).wf(),
        ({
            let outcome = spec_rebalance_action_outcome(
                *rule,
                assets@,
                total_value as int,
                router,
                old(balances)@,
                old(pools)@,
            );
            match outcome {
                Ok(bp) => r == Ok::<(), VaultError>(()) && final(balances)@ == bp.0
                    && final(pools)@ == bp.1,
                Err(e) => r == Err::<(), VaultError>(e) && final(balances)@ == old(balances)@
                    && final(pools)@ == old(pools)@,
            }
        }),
        // Rebalancing at equilibrium is a no-op, and so is every repetition.
        (spec_rebalance_validation(*rule, assets@, total_value as int, router) is None
            && spec_within_tolerance(
            old(balances)@,
            total_value as int,
            rule.target_allocation@,
        )) ==> (r == Ok::<(), VaultError>(()) && final(balances)@ == old(balances)@
            && final(pools)@ == old(pools)@),
{
    let n = assets.len();
    let alloc = &rule.target_allocation;
    if alloc.len() != n {
        return Err(VaultError::InvalidConfiguration);
    }
    // Total allocation must be exactly 100% (or 0%, meaning no-op allowed).
    let mut total_allocation: i128 = 0;
    let mut k: usize = 0;
    while k < n
        invariant
            n == alloc@.len(),
            0 <= k <= n,
            total_allocation == sum_i128(alloc@.take(k as int)),
            forall|m: int| 0 <= m <= k ==> i128::MIN <= #[trigger] sum_i128(alloc@.take(m)) <= i128::MAX,
        decreases n - k,
    {
        let a = alloc[k];
        proof {
            lemma_sum_take_step(alloc@, k as int);
        }
        total_allocation = match total_allocation.checked_add(a) {
            Some(v) => v,
            None => {
                return Err(VaultError::InvalidConfiguration);
            },
        };
        k = k + 1;
    }
    proof {
        assert(alloc@.take(n as int) =~= alloc@);
    }
    if total_allocation != 100_0000 && total_allocation != 0 {
        return Err(VaultError::InvalidConfiguration);
    }
    if router.is_none() {
        return Err(VaultError::InvalidConfiguration);
    }
    // Per-asset target amounts.
    let mut targets: Vec<i128> = Vec::new();
    let mut k2: usize = 0;
    while k2 < n
        invariant
            n == alloc@.len(),
            0 <= k2 <= n,
            targets@.len() == k2,
            total_value >= 0,
            forall|m: int|
                0 <= m < k2 ==> spec_scaled_fits(total_value as int, (#[trigger] alloc@[m]) as int),
            forall|m: int|
                0 <= m < k2 ==> #[trigger] targets@[m] == spec_scaled_amount(
                    total_value as int,
                    alloc@[m] as int,
                ),
        decreases n - k2,
    {
        let t = match mul_div_scale(total_value, alloc[k2]) {
            Ok(v) => v,
            Err(e) => {
                return Err(e);
            },
        };
        targets.push(t);
        k2 = k2 + 1;
    }
    let tolerance = total_value / 100;
    let ghost tgs = spec_targets(total_value as int, alloc@);
    proof {
        vstd::arithmetic::div_mod::lemma_div_pos_is_pos(total_value as int, 100);
        vstd::arithmetic::div_mod::lemma_div_nonincreasing(total_value as int, 100);
        assert(targets@ =~= tgs);
    }
    // Skip entirely when every asset is already within tolerance.
    let mut needs_rebalance = false;
    let mut k3: usize = 0;
    while k3 < n && !needs_rebalance
        invariant
            0 <= k3 <= n,
            !needs_rebalance ==> forall|m: int|
                0 <= m < k3 ==> {
                    let t = spec_scaled_amount(total_value as int, alloc@[m] as int);
                    -tolerance <= (#[trigger] balances@[m]) - t <= tolerance
                },
            needs_rebalance ==> !spec_within_tolerance(balances@, total_value as int, alloc@),
        decreases n - k3,
    {
        let current = balances[k3];
        let target = targets[k3];
        let diff = if current > target {
            match current.checked_sub(target) {
                Some(v) => v,
                None => {
                    proof {
                        assert(!spec_within_tolerance(balances@, total_value as int, alloc@));
                        lemma_pass_skip_prefix(
                            assets@,
                            tgs,
                            tolerance as int,
                            k3 as int,
                            balances@,
                            pools@,
                        );
                        assert(spec_rebalance_step(
                            assets@,
                            tgs,
                            tolerance as int,
                            k3 as int,
                            balances@,
                            pools@,
                        ) == Err::<(Seq<i128>, Seq<Pool>), VaultError>(VaultError::InvalidAmount));
                    }
                    return Err(VaultError::InvalidAmount);
                },
            }
        } else {
            match target.checked_sub(current) {
                Some(v) => v,
                None => {
                    proof {
                        assert(!spec_within_tolerance(balances@, total_value as int, alloc@));
                        lemma_pass_skip_prefix(
                            assets@,
                            tgs,
                            tolerance as int,
                            k3 as int,
                            balances@,
                            pools@,
                        );
                        assert(spec_rebalance_step(
                            assets@,
                            tgs,
                            tolerance as int,
                            k3 as int,
                            balances@,
                            pools@,
                        ) == Err::<(Seq<i128>, Seq<Pool>), VaultError>(VaultError::InvalidAmount));
                    }
                    return Err(VaultError::InvalidAmount);
                },
            }
        };
        if diff > tolerance {
            needs_rebalance = true;
            proof {
                let t = spec_scaled_amount(total_value as int, alloc@[k3 as int] as int);
                assert(!(-tolerance <= balances@[k3 as int] - t <= tolerance));
            }
        }
        k3 = k3 + 1;
    }
    if !needs_rebalance {
        proof {
            assert(spec_within_tolerance(balances@, total_value as int, alloc@));
        }
        return Ok(());
    }
    // Work on copies: any failure below leaves the caller's state untouched.
    let mut bal = copy_vec(balances);
    let mut pls = copy_vec(pools);
    let mut i: usize = 0;
    while i < n
        invariant
            n == alloc@.len(),
            0 <= i <= n,
            bal@.len() == n,
            targets@.len() == n,
            assets@.len() == n,
            tolerance == total_value / 100,
            tolerance >= 0,
            pls@.len() == old(pools)@.len(),
            forall|k4: int| 0 <= k4 < pls@.len() ==> (#[trigger] pls@[k4]).wf(),
            spec_rebalance_pass(assets@, tgs, tolerance as int, 0, old(balances)@, old(pools)@)
                == spec_rebalance_pass(assets@, tgs, tolerance as int, i as int, bal@, pls@),
        decreases n - i,
    {
        let ghost bal_pre = bal@;
        let ghost pls_pre = pls@;
        let current = bal[i];
        let target = targets[i];
        let diff = match target.checked_sub(current) {
            Some(v) => v,
            None => {
                proof {
                    assert(spec_rebalance_step(
                        assets@,
                        tgs,
                        tolerance as int,
                        i as int,
                        bal_pre,
                        pls_pre,
                    ) == Err::<(Seq<i128>, Seq<Pool>), VaultError>(VaultError::InvalidAmount));
                }
                return Err(VaultError::InvalidAmount);
            },
        };
        let abs_diff = if diff >= 0 {
            diff
        } else if diff == i128::MIN {
            proof {
                assert(spec_rebalance_step(
                    assets@,
                    tgs,
                    tolerance as int,
                    i as int,
                    bal_pre,
                    pls_pre,
                ) == Err::<(Seq<i128>, Seq<Pool>), VaultError>(VaultError::InvalidAmount));
            }
            return Err(VaultError::InvalidAmount);
        } else {
            -diff
        };
        if abs_diff > tolerance && diff > 0 {
            match correct_deficit(i, diff, assets, &targets, &mut bal, &mut pls) {
                Ok(()) => {
                    proof {
                        assert(spec_rebalance_step(
                            assets@,
                            tgs,
                            tolerance as int,
                            i as int,
                            bal_pre,
                            pls_pre,
                        ) == Ok::<(Seq<i128>, Seq<Pool>), VaultError>((bal@, pls@)));
                    }
                },
                Err(e) => {
                    proof {
                        assert(spec_rebalance_step(
                            assets@,
                            tgs,
                            tolerance as int,
                            i as int,
                            bal_pre,
                            pls_pre,
                        ) == Err::<(Seq<i128>, Seq<Pool>), VaultError>(e));
                    }
                    return Err(e);
                },
            }
        } else {
            proof {
                assert(spec_rebalance_step(
                    assets@,
                    tgs,
                    tolerance as int,
                    i as int,
                    bal_pre,
                    pls_pre,
                ) == Ok::<(Seq<i128>, Seq<Pool>), VaultError>((bal_pre, pls_pre)));
            }
        }
        i = i + 1;
    }
    *balances = bal;
    *pools = pls;
    Ok(())
}


/// Stake part of the holdings with the staking venue: the stake size is
/// `total_value * threshold / 100_0000`, drawn from the first asset. On
/// success the venue holds the minted staking tokens for the vault, the
/// first asset's balance snapshot is reduced by the staked amount, and the
/// returned snapshot records the whole movement. On any failure nothing is
/// touched.
pub fn execute_stake_action(
    rule: &RebalanceRule,
    assets: &Vec<u32>,
    total_value: i128,
    staking_pool_address: Option<u32>,
    vault_address: u32,
    balances: &mut Vec<i128>,
    staking: &mut StakingPool,
    now: u64,
) -> (r: Result<StakingPosition, VaultError>)
    requires
        total_value >= 0,
        old(balances)@.len() == assets@.len(),
        old(staking).wf(),
    ensures
        final(balances)@.len() == assets@.len(),
        final(staking).wf(),
        final(staking).rate_base == old(staking).rate_base,
        final(staking).rate_st == old(staking).rate_st,
        ({
            let amt = spec_scaled_amount(total_value as int, rule.threshold as int);
            let st = spec_st_minted(
                old(staking).rate_base as int,
                old(staking).rate_st as int,
                amt,
            );
            match r {
                Ok(pos) => {
                    &&& assets@.len() > 0
                    &&& spec_scaled_fits(total_value as int, rule.threshold as int)
                    &&& 0 < amt <= total_value
                    &&& amt <= old(balances)@[0]
                    &&& staking_pool_address is Some
                    &&& st > 0
                    &&& amt * old(staking).rate_st <= i128::MAX
                    &&& spec_amount_of(old(staking).balances@, vault_address) + st <= i128::MAX
                    &&& pos == (StakingPosition {
                        staking_pool: staking_pool_address->0,
                        original_token: assets@[0],
                        staked_amount: amt as i128,
                        st_token_amount: st as i128,
                        timestamp: now,
                    })
                    &&& final(balances)@ == old(balances)@.update(
                        0,
                        (old(balances)@[0] - amt) as i128,
                    )
                    &&& spec_amount_of(final(staking).balances@, vault_address) == spec_amount_of(
                        old(staking).balances@,
                        vault_address,
                    ) + st
                    &&& forall|u: u32|
                        u != vault_address ==> #[trigger] spec_amount_of(final(staking).balances@, u)
                            == spec_amount_of(old(staking).balances@, u)
                },
                Err(e) => {
                    &&& final(balances)@ == old(balances)@
                    &&& *final(staking) == *old(staking)
                    &&& (if assets@.len() == 0 {
                        e == VaultError::InvalidConfiguration
                    } else if !spec_scaled_fits(total_value as int, rule.threshold as int) {
                        e == VaultError::InvalidAmount
                    } else if amt > total_value {
                        e == VaultError::InsufficientBalance
                    } else if amt > old(balances)@[0] {
                        e == VaultError::InsufficientBalance
                    } else if staking_pool_address is None {
                        e == VaultError::InvalidConfiguration
                    } else {
                        e == VaultError::InvalidAmount && (amt <= 0 || amt
                            * old(staking).rate_st > i128::MAX || st <= 0 || spec_amount_of(
                            old(staking).balances@,
                            vault_address,
                        ) + st > i128::MAX)
                    })
                },
            }
        }),
{
    if assets.len() == 0 {
        return Err(VaultError::InvalidConfiguration);
    }
    let stake_amount = match mul_div_scale(total_value, rule.threshold) {
        Ok(v) => v,
        Err(e) => {
            return Err(e);
        },
    };
    if stake_amount > total_value {
        return Err(VaultError::InsufficientBalance);
    }
    let staking_token = assets[0];
    let balance = balances[0];
    if stake_amount > balance {
        return Err(VaultError::InsufficientBalance);
    }
    let staking_pool = match staking_pool_address {
        Some(p) => p,
        None => {
            return Err(VaultError::InvalidConfiguration);
        },
    };
    let st_tokens_received = match stake_tokens(
        staking,
        vault_address,
        staking_token,
        stake_amount,
    ) {
        Ok(v) => v,
        Err(e) => {
            return Err(e);
        },
    };
    balances.set(0, balance - stake_amount);
    Ok(
        StakingPosition {
            staking_pool,
            original_token: staking_token,
            staked_amount: stake_amount,
            st_token_amount: st_tokens_received,
            timestamp: now,
        },
    )
}

/// The complete outcome of one stake action on a balance snapshot, the
/// vault's staking-token balance with the venue, and the stored snapshot:
/// exactly the staged validations of the executor, then the deterministic
/// stake at the venue's rate.
pub open spec fn spec_stake_action_outcome(
    rule: RebalanceRule,
    assets: Seq<u32>,
    total_value: int,
    staking_pool_address: Option<u32>,
    rate_base: int,
    rate_st: int,
    balances: Seq<i128>,
    vault_stake: int,
    now: u64,
) -> Result<(Seq<i128>, int, StakingPosition), VaultError> {
    let amt = spec_scaled_amount(total_value, rule.threshold as int);
    let st = spec_st_minted(rate_base, rate_st, amt);
    if assets.len() == 0 {
        Err(VaultError::InvalidConfiguration)
    } else if !spec_scaled_fits(total_value, rule.threshold as int) {
        Err(VaultError::InvalidAmount)
    } else if amt > total_value {
        Err(VaultError::InsufficientBalance)
    } else if amt > balances[0] {
        Err(VaultError::InsufficientBalance)
    } else if staking_pool_address is None {
        Err(VaultError::InvalidConfiguration)
    } else if amt <= 0 || amt * rate_st > i128::MAX || st <= 0 || vault_stake + st
        > i128::MAX {
        Err(VaultError::InvalidAmount)
    } else {
        Ok(
            (
                balances.update(0, (balances[0] - amt) as i128),
                vault_stake + st,
                StakingPosition {
                    staking_pool: staking_pool_address->0,
                    original_token: assets[0],
                    staked_amount: amt as i128,
                    st_token_amount: st as i128,
                    timestamp: now,
                },
            ),
        )
    }
}

/// The in-order fold of every stake-action rule from index `m` on: each one
/// transforms the snapshot state through [`spec_stake_action_outcome`],
/// the latest stored snapshot winning, and the first error aborts the fold.
pub open spec fn spec_stake_rules_outcome(
    rules: Seq<RebalanceRule>,
    assets: Seq<u32>,
    total_value: int,
    staking_pool_address: Option<u32>,
    rate_base: int,
    rate_st: int,
    m: int,
    balances: Seq<i128>,
    vault_stake: int,
    staking_pos: Option<StakingPosition>,
    now: u64,
) -> Result<(Seq<i128>, int, Option<StakingPosition>), VaultError>
    decreases rules.len() - m,
{
    if m < 0 || m >= rules.len() {
        Ok((balances, vault_stake, staking_pos))
    } else if rules[m].action != RuleAction::Stake {
        spec_stake_rules_outcome(
            rules,
            assets,
            total_value,
            staking_pool_address,
            rate_base,
            rate_st,
            m + 1,
            balances,
            vault_stake,
            staking_pos,
            now,
        )
    } else {
        match spec_stake_action_outcome(
            rules[m],
            assets,
            total_value,
            staking_pool_address,
            rate_base,
            rate_st,
            balances,
            vault_stake,
            now,
        ) {
            Ok(bvp) => spec_stake_rules_outcome(
                rules,
                assets,
                total_value,
                staking_pool_address,
                rate_base,
                rate_st,
                m + 1,
                bvp.0,
                bvp.1,
                Some(bvp.2),
                now,
            ),
            Err(e) => Err(e),
        }
    }
}

/// The state a succeeding liquidity action leaves behind: the split chosen
/// against the pair's first pool, the amounts the venue accepts of it, the
/// minted provider tokens, and the updated custody and pool snapshots.
/// Meaningful exactly where the action succeeds; the action's own contract
/// guards every use.
pub open spec fn spec_liquidity_apply(
    rule: RebalanceRule,
    assets: Seq<u32>,
    total_value: int,
    balances: Seq<i128>,
    pools: Seq<Pool>,
    now: u64,
) -> (Seq<i128>, Seq<Pool>, LiquidityPosition) {
    let amt = spec_scaled_amount(total_value, rule.threshold as int);
    let pidx = spec_pool_index(pools, assets[0], assets[1], 0);
    let p = pools[pidx];
    let ra = p.reserve_in(assets[0]);
    let rb = p.reserve_out(assets[0]);
    let chosen = spec_liquidity_split(amt, ra, rb, balances[1] as int);
    let accepted = spec_accepted_amounts(ra, rb, chosen.0, chosen.1);
    let lp = spec_lp_minted(ra, rb, p.lp_supply as int, accepted.0, accepted.1);
    (
        balances.update(0, (balances[0] - accepted.0) as i128).update(
            1,
            (balances[1] - accepted.1) as i128,
        ),
        pools.update(
            pidx,
            crate::liquidity::pool_after_liquidity(p, assets[0], accepted.0, accepted.1, lp),
        ),
        LiquidityPosition {
            pool_address: p.address,
            token_a: assets[0],
            token_b: assets[1],
            lp_tokens: lp as i128,
            amount_a_provided: accepted.0 as i128,
            amount_b_provided: accepted.1 as i128,
            timestamp: now,
        },
    )
}

/// The in-order application of every liquidity-action rule from index `m`
/// on, assuming each succeeds — which is exactly the case on a run that
/// returned success, since any failure aborts the whole run.
pub open spec fn spec_liquidity_rules_apply(
    rules: Seq<RebalanceRule>,
    assets: Seq<u32>,
    total_value: int,
    m: int,
    balances: Seq<i128>,
    pools: Seq<Pool>,
    liquidity_pos: Option<LiquidityPosition>,
    now: u64,
) -> (Seq<i128>, Seq<Pool>, Option<LiquidityPosition>)
    decreases rules.len() - m,
{
    if m < 0 || m >= rules.len() {
        (balances, pools, liquidity_pos)
    } else if rules[m].action != RuleAction::Liquidity {
        spec_liquidity_rules_apply(
            rules,
            assets,
            total_value,
            m + 1,
            balances,
            pools,
            liquidity_pos,
            now,
        )
    } else {
        let s = spec_liquidity_apply(rules[m], assets, total_value, balances, pools, now);
        spec_liquidity_rules_apply(rules, assets, total_value, m + 1, s.0, s.1, Some(s.2), now)
    }
}

/// The amounts the liquidity action chooses to deposit: an even split of
/// the budget, adjusted toward the pool's live reserve ratio when it has
/// reserves — the quoted counterpart for the first half when affordable,
/// otherwise what the second asset's balance affords with the first amount
/// rescaled by the reserve ratio (kept at the half when the rescale would
/// leave `i128`).
pub open spec fn spec_liquidity_split(
    liquidity_amount: int,
    ra: int,
    rb: int,
    balance_b: int,
) -> (int, int) {
    let half = div_trunc(liquidity_amount, 2);
    if ra > 0 && rb > 0 {
        let optimal_b = spec_quote(half, ra, rb);
        if optimal_b <= balance_b {
            (half, optimal_b)
        } else {
            let b2 = if balance_b < half {
                balance_b
            } else {
                half
            };
            if i128::MIN <= b2 * ra <= i128::MAX {
                (div_trunc(b2 * ra, rb), b2)
            } else {
                (half, b2)
            }
        }
    } else {
        (half, half)
    }
}

/// Provide part of the holdings as liquidity for the first two assets:
/// the budget is `total_value * threshold / 100_0000`, split evenly and
/// then adjusted toward the pool's live reserve ratio when it has reserves,
/// falling back to what the second asset's balance affords. Liquidity is
/// added with a five-percent slippage budget; on success both balance
/// snapshots shrink by the amounts actually taken and the returned snapshot
/// records the position. On any failure nothing is touched.
pub fn execute_liquidity_action(
    rule: &RebalanceRule,
    assets: &Vec<u32>,
    total_value: i128,
    router_address: Option<u32>,
    factory_address: Option<u32>,
    balances: &mut Vec<i128>,
    pools: &mut Vec<Pool>,
    now: u64,
) -> (r: Result<LiquidityPosition, VaultError>)
    requires
        total_value >= 0,
        old(balances)@.len() == assets@.len(),
        forall|j: int| 0 <= j < old(pools)@.len() ==> (#[trigger] old(pools)@[j]).wf(),
    ensures
        final(balances)@.len() == assets@.len(),
        final(pools)@.len() == old(pools)@.len(),
        forall|j: int| 0 <= j < final(pools)@.len() ==> (#[trigger] final(pools)@[j]).wf(),
        ({
            let amt = spec_scaled_amount(total_value as int, rule.threshold as int);
            match r {
                Ok(pos) => {
                    &&& assets@.len() >= 2
                    &&& spec_scaled_fits(total_value as int, rule.threshold as int)
                    &&& amt <= total_value
                    &&& router_address is Some
                    &&& factory_address is Some
                    &&& ({
                        let pidx = spec_pool_index(old(pools)@, assets@[0], assets@[1], 0);
                        &&& 0 <= pidx < old(pools)@.len()
                        &&& ({
                            let p = old(pools)@[pidx];
                            let ra = p.reserve_in(assets@[0]);
                            let rb = p.reserve_out(assets@[0]);
                            let chosen = spec_liquidity_split(
                                amt,
                                ra,
                                rb,
                                old(balances)@[1] as int,
                            );
                            let accepted = spec_accepted_amounts(ra, rb, chosen.0, chosen.1);
                            &&& chosen.0 <= old(balances)@[0]
                            &&& chosen.1 <= old(balances)@[1]
                            &&& pos.amount_a_provided == accepted.0
                            &&& pos.amount_b_provided == accepted.1
                            &&& pos.lp_tokens == spec_lp_minted(
                                ra,
                                rb,
                                p.lp_supply as int,
                                accepted.0,
                                accepted.1,
                            )
                            &&& pos.pool_address == p.address
                            &&& final(pools)@[pidx].reserve_in(assets@[0]) == ra + accepted.0
                            &&& final(pools)@[pidx].reserve_out(assets@[0]) == rb + accepted.1
                            &&& final(pools)@[pidx].lp_supply == p.lp_supply + pos.lp_tokens
                            &&& final(pools)@[pidx].address == p.address
                            &&& final(pools)@[pidx].token_a == p.token_a
                            &&& final(pools)@[pidx].token_b == p.token_b
                            &&& forall|q: int|
                                0 <= q < old(pools)@.len() && q != pidx
                                    ==> #[trigger] final(pools)@[q] == old(pools)@[q]
                        })
                    })
                    &&& ({
                        let applied = spec_liquidity_apply(
                            *rule,
                            assets@,
                            total_value as int,
                            old(balances)@,
                            old(pools)@,
                            now,
                        );
                        &&& final(balances)@ == applied.0
                        &&& final(pools)@ == applied.1
                        &&& pos == applied.2
                    })
                    &&& pos.token_a == assets@[0]
                    &&& pos.token_b == assets@[1]
                    &&& pos.timestamp == now
                    &&& pos.lp_tokens > 0
                    &&& 0 <= pos.amount_a_provided <= old(balances)@[0]
                    &&& 0 <= pos.amount_b_provided <= old(balances)@[1]
                    &&& final(balances)@ == old(balances)@.update(
                        0,
                        (old(balances)@[0] - pos.amount_a_provided) as i128,
                    ).update(1, (old(balances)@[1] - pos.amount_b_provided) as i128)
                },
                Err(e) => {
                    &&& final(balances)@ == old(balances)@
                    &&& final(pools)@ == old(pools)@
                    &&& (if assets@.len() < 2 {
                        e == VaultError::InvalidConfiguration
                    } else if !spec_scaled_fits(total_value as int, rule.threshold as int) {
                        e == VaultError::InvalidAmount
                    } else if amt > total_value {
                        e == VaultError::InsufficientBalance
                    } else if router_address is None {
                        e == VaultError::InvalidConfiguration
                    } else if factory_address is None {
                        e == VaultError::InvalidConfiguration
                    } else {
                        let pidx = spec_pool_index(old(pools)@, assets@[0], assets@[1], 0);
                        if pidx >= old(pools)@.len() {
                            e == VaultError::PoolNotFound
                        } else {
                            let p = old(pools)@[pidx];
                            let ra = p.reserve_in(assets@[0]);
                            let rb = p.reserve_out(assets@[0]);
                            let half = div_trunc(amt, 2);
                            if ra > 0 && rb > 0 && (half <= 0 || half * rb > i128::MAX) {
                                e == VaultError::InvalidAmount
                            } else {
                                let chosen = spec_liquidity_split(
                                    amt,
                                    ra,
                                    rb,
                                    old(balances)@[1] as int,
                                );
                                if chosen.0 > old(balances)@[0] || chosen.1 > old(balances)@[1] {
                                    e == VaultError::InsufficientBalance
                                } else {
                                    match crate::liquidity::spec_add_liquidity_outcome(
                                        p,
                                        assets@[0],
                                        chosen.0,
                                        chosen.1,
                                        5,
                                    ) {
                                        Err(e2) => e == e2,
                                        Ok(laa) => e == VaultError::InvalidAmount && (old(
                                            balances,
                                        )@[0] - laa.1 < i128::MIN || old(balances)@[1] - laa.2
                                            < i128::MIN || laa.1 > old(balances)@[0] || laa.2
                                            > old(balances)@[1] || laa.1 < 0 || laa.2 < 0),
                                    }
                                }
                            }
                        }
                    })
                },
            }
        }),
{
    if assets.len() < 2 {
        return Err(VaultError::InvalidConfiguration);
    }
    let liquidity_amount = match mul_div_scale(total_value, rule.threshold) {
        Ok(v) => v,
        Err(e) => {
            return Err(e);
        },
    };
    if liquidity_amount > total_value {
        return Err(VaultError::InsufficientBalance);
    }
    if router_address.is_none() {
        return Err(VaultError::InvalidConfiguration);
    }
    if factory_address.is_none() {
        return Err(VaultError::InvalidConfiguration);
    }
    let token_a = assets[0];
    let token_b = assets[1];
    let balance_a = balances[0];
    let balance_b = balances[1];
    let idx = match get_pool_for_pair(pools, token_a, token_b) {
        Ok(x) => x,
        Err(e) => {
            proof {
                lemma_pool_index_none(pools@, token_a, token_b, 0);
            }
            return Err(e);
        },
    };
    proof {
        lemma_pool_index_first(pools@, token_a, token_b, 0, idx as int);
    }
    let mut p = pools[idx];
    // Orient the reserves so that `reserve_a` belongs to the first asset.
    let (reserve_a_correct, reserve_b_correct) = if p.token_a == token_a {
        (p.reserve_a, p.reserve_b)
    } else {
        (p.reserve_b, p.reserve_a)
    };
    let half = checked_div_pos(liquidity_amount, 2);
    let mut amount_a = half;
    let mut amount_b = half;
    if reserve_a_correct > 0 && reserve_b_correct > 0 {
        let optimal_b = match get_optimal_liquidity_amounts(
            amount_a,
            reserve_a_correct,
            reserve_b_correct,
        ) {
            Ok(v) => v,
            Err(e) => {
                return Err(e);
            },
        };
        if optimal_b <= balance_b {
            amount_b = optimal_b;
        } else {
            amount_b = if balance_b < half {
                balance_b
            } else {
                half
            };
            amount_a = match amount_b.checked_mul(reserve_a_correct) {
                Some(v) => checked_div_pos(v, reserve_b_correct),
                None => amount_a,
            };
        }
    }
    proof {
        assert(amount_a == spec_liquidity_split(
            liquidity_amount as int,
            reserve_a_correct as int,
            reserve_b_correct as int,
            balance_b as int,
        ).0 && amount_b == spec_liquidity_split(
            liquidity_amount as int,
            reserve_a_correct as int,
            reserve_b_correct as int,
            balance_b as int,
        ).1);
    }
    if amount_a > balance_a || amount_b > balance_b {
        return Err(VaultError::InsufficientBalance);
    }
    let (lp_tokens, actual_a, actual_b) = match add_liquidity_to_pool(
        &mut p,
        token_a,
        token_b,
        amount_a,
        amount_b,
        5,
    ) {
        Ok(v) => v,
        Err(e) => {
            return Err(e);
        },
    };
    let new_bal_a = match balance_a.checked_sub(actual_a) {
        Some(v) => v,
        None => {
            return Err(VaultError::InvalidAmount);
        },
    };
    let new_bal_b = match balance_b.checked_sub(actual_b) {
        Some(v) => v,
        None => {
            return Err(VaultError::InvalidAmount);
        },
    };
    if actual_a > balance_a || actual_b > balance_b || actual_a < 0 || actual_b < 0 {
        return Err(VaultError::InvalidAmount);
    }
    pools.set(idx, p);
    balances.set(0, new_bal_a);
    balances.set(1, new_bal_b);
    proof {
        assert forall|j: int| 0 <= j < pools@.len() implies (#[trigger] pools@[j]).wf() by {
            if j != idx {
                assert(pools@[j] == old(pools)@[j]);
            }
        }
        let applied = spec_liquidity_apply(
            *rule,
            assets@,
            total_value as int,
            old(balances)@,
            old(pools)@,
            now,
        );
        assert(pools@ =~= applied.1);
        assert(balances@ =~= applied.0);
    }
    Ok(
        LiquidityPosition {
            pool_address: p.address,
            token_a,
            token_b,
            lp_tokens,
            amount_a_provided: actual_a,
            amount_b_provided: actual_b,
            timestamp: now,
        },
    )
}


/// The state a succeeding full run leaves behind: every rule from index
/// `m` on applied in order, whatever its action — rebalance and stake rules
/// through their exact outcomes, liquidity rules through their success
/// state. Meaningful exactly where the run succeeds, since any failing rule
/// aborts the whole run.
pub open spec fn spec_all_rules_apply(
    rules: Seq<RebalanceRule>,
    assets: Seq<u32>,
    total_value: int,
    router: Option<u32>,
    staking_pool_address: Option<u32>,
    rate_base: int,
    rate_st: int,
    m: int,
    balances: Seq<i128>,
    pools: Seq<Pool>,
    vault_stake: int,
    staking_pos: Option<StakingPosition>,
    liquidity_pos: Option<LiquidityPosition>,
    now: u64,
) -> (Seq<i128>, Seq<Pool>, int, Option<StakingPosition>, Option<LiquidityPosition>)
    decreases rules.len() - m,
{
    if m < 0 || m >= rules.len() {
        (balances, pools, vault_stake, staking_pos, liquidity_pos)
    } else {
        let stepped = (match rules[m].action {
            RuleAction::Rebalance => (match spec_rebalance_action_outcome(
                rules[m],
                assets,
                total_value,
                router,
                balances,
                pools,
            ) {
                Ok(bp) => (bp.0, bp.1, vault_stake, staking_pos, liquidity_pos),
                Err(_) => (balances, pools, vault_stake, staking_pos, liquidity_pos),
            }),
            RuleAction::Stake => (match spec_stake_action_outcome(
                rules[m],
                assets,
                total_value,
                staking_pool_address,
                rate_base,
                rate_st,
                balances,
                vault_stake,
                now,
            ) {
                Ok(bvp) => (bvp.0, pools, bvp.1, Some(bvp.2), liquidity_pos),
                Err(_) => (balances, pools, vault_stake, staking_pos, liquidity_pos),
            }),
            RuleAction::Liquidity => ({
                let s = spec_liquidity_apply(rules[m], assets, total_value, balances, pools, now);
                (s.0, s.1, vault_stake, staking_pos, Some(s.2))
            }),
        });
        spec_all_rules_apply(
            rules,
            assets,
            total_value,
            router,
            staking_pool_address,
            rate_base,
            rate_st,
            m + 1,
            stepped.0,
            stepped.1,
            stepped.2,
            stepped.3,
            stepped.4,
            now,
        )
    }
}

/// Whether a rule passes the driver's action filter.
pub open spec fn spec_filter_matches(filter: Option<RuleAction>, action: RuleAction) -> bool {
    match filter {
        None => true,
        Some(a) => a == action,
    }
}

/// Run every stored rule whose action passes the filter, in order, against
/// working copies of the custody snapshot and the venues; commit everything
/// only when every rule succeeded. Any failure leaves custody, venues and
/// position snapshots exactly as they were — the whole call is atomic — and
/// what a successful run commits is the in-order fold of the per-rule
/// outcomes over the matching rules.
#[verifier::loop_isolation(false)]
fn run_rules(
    cfg: &VaultConfig,
    total_value: i128,
    vault_address: u32,
    filter: Option<RuleAction>,
    balances: &mut Vec<i128>,
    pools: &mut Vec<Pool>,
    staking: &mut StakingPool,
    staking_pos: &mut Option<StakingPosition>,
    liquidity_pos: &mut Option<LiquidityPosition>,
    now: u64,
) -> (r: Result<(), VaultError>)
    requires
        total_value >= 0,
        old(balances)@.len() == cfg.assets@.len(),
        forall|j: int| 0 <= j < old(pools)@.len() ==> (#[trigger] old(pools)@[j]).wf(),
        old(staking).wf(),
    ensures
        final(balances)@.len() == cfg.assets@.len(),
        final(pools)@.len() == old(pools)@.len(),
        forall|j: int| 0 <= j < final(pools)@.len() ==> (#[trigger] final(pools)@[j]).wf(),
        final(staking).wf(),
        final(staking).rate_base == old(staking).rate_base,
        final(staking).rate_st == old(staking).rate_st,
        r is Err ==> {
            &&& final(balances)@ == old(balances)@
            &&& final(pools)@ == old(pools)@
            &&& final(staking).balances@ == old(staking).balances@
            &&& *final(staking_pos) == *old(staking_pos)
            &&& *final(liquidity_pos) == *old(liquidity_pos)
            &&& !(r == Err::<(), VaultError>(VaultError::NotInitialized))
            &&& exists|m: int|
                0 <= m < cfg.rules@.len() && #[trigger] spec_filter_matches(
                    filter,
                    cfg.rules@[m].action,
                )
        },
        (forall|m: int|
            0 <= m < cfg.rules@.len() ==> !spec_filter_matches(
                filter,
                (#[trigger] cfg.rules@[m]).action,
            )) ==> {
            &&& r is Ok
            &&& final(balances)@ == old(balances)@
            &&& final(pools)@ == old(pools)@
            &&& final(staking).balances@ == old(staking).balances@
            &&& *final(staking_pos) == *old(staking_pos)
            &&& *final(liquidity_pos) == *old(liquidity_pos)
        },
        filter == Some(RuleAction::Rebalance) ==> {
            &&& final(staking).balances@ == old(staking).balances@
            &&& *final(staking_pos) == *old(staking_pos)
            &&& *final(liquidity_pos) == *old(liquidity_pos)
        },
        filter == Some(RuleAction::Rebalance) ==> (match spec_rebalance_rules_outcome(
            cfg.rules@,
            cfg.assets@,
            total_value as int,
            cfg.router_address,
            0,
            old(balances)@,
            old(pools)@,
        ) {
            Ok(bp) => r is Ok && final(balances)@ == bp.0 && final(pools)@ == bp.1,
            Err(e) => r == Err::<(), VaultError>(e) && final(balances)@ == old(balances)@
                && final(pools)@ == old(pools)@,
        }),
        filter == Some(RuleAction::Stake) ==> {
            &&& final(pools)@ == old(pools)@
            &&& *final(liquidity_pos) == *old(liquidity_pos)
        },
        filter == Some(RuleAction::Stake) ==> (match spec_stake_rules_outcome(
            cfg.rules@,
            cfg.assets@,
            total_value as int,
            cfg.staking_pool_address,
            old(staking).rate_base as int,
            old(staking).rate_st as int,
            0,
            old(balances)@,
            spec_amount_of(old(staking).balances@, vault_address),
            *old(staking_pos),
            now,
        ) {
            Ok(bvp) => {
                &&& r is Ok
                &&& final(balances)@ == bvp.0
                &&& spec_amount_of(final(staking).balances@, vault_address) == bvp.1
                &&& *final(staking_pos) == bvp.2
                &&& (forall|u: u32|
                    u != vault_address ==> #[trigger] spec_amount_of(final(staking).balances@, u)
                        == spec_amount_of(old(staking).balances@, u))
            },
            Err(e) => {
                &&& r == Err::<(), VaultError>(e)
                &&& final(balances)@ == old(balances)@
                &&& final(staking).balances@ == old(staking).balances@
                &&& *final(staking_pos) == *old(staking_pos)
            },
        }),
        filter == Some(RuleAction::Liquidity) ==> {
            &&& final(staking).balances@ == old(staking).balances@
            &&& *final(staking_pos) == *old(staking_pos)
        },
        (filter == Some(RuleAction::Liquidity) && r is Ok) ==> ({
            let applied = spec_liquidity_rules_apply(
                cfg.rules@,
                cfg.assets@,
                total_value as int,
                0,
                old(balances)@,
                old(pools)@,
                *old(liquidity_pos),
                now,
            );
            &&& final(balances)@ == applied.0
            &&& final(pools)@ == applied.1
            &&& *final(liquidity_pos) == applied.2
        }),
        (filter is None && r is Ok) ==> ({
            let applied = spec_all_rules_apply(
                cfg.rules@,
                cfg.assets@,
                total_value as int,
                cfg.router_address,
                cfg.staking_pool_address,
                old(staking).rate_base as int,
                old(staking).rate_st as int,
                0,
                old(balances)@,
                old(pools)@,
                spec_amount_of(old(staking).balances@, vault_address),
                *old(staking_pos),
                *old(liquidity_pos),
                now,
            );
            &&& final(balances)@ == applied.0
            &&& final(pools)@ == applied.1
            &&& spec_amount_of(final(staking).balances@, vault_address) == applied.2
            &&& *final(staking_pos) == applied.3
            &&& *final(liquidity_pos) == applied.4
            &&& (forall|u: u32|
                u != vault_address ==> #[trigger] spec_amount_of(final(staking).balances@, u)
                    == spec_amount_of(old(staking).balances@, u))
        }),
{
    let mut bal = copy_vec(balances);
    let mut pls = copy_vec(pools);
    let mut stk = StakingPool {
        rate_base: staking.rate_base,
        rate_st: staking.rate_st,
        balances: copy_vec(&staking.balances),
    };
    let mut spos = *staking_pos;
    let mut lpos = *liquidity_pos;
    let n = cfg.rules.len();
    let mut m: usize = 0;
    while m < n
        invariant
            0 <= m <= n,
            bal@.len() == cfg.assets@.len(),
            pls@.len() == old(pools)@.len(),
            forall|j: int| 0 <= j < pls@.len() ==> (#[trigger] pls@[j]).wf(),
            stk.wf(),
            stk.rate_base == old(staking).rate_base,
            stk.rate_st == old(staking).rate_st,
            (forall|k: int|
                0 <= k < m ==> !spec_filter_matches(filter, (#[trigger] cfg.rules@[k]).action))
                ==> {
                &&& bal@ == old(balances)@
                &&& pls@ == old(pools)@
                &&& stk.balances@ == old(staking).balances@
                &&& spos == *old(staking_pos)
                &&& lpos == *old(liquidity_pos)
            },
            filter == Some(RuleAction::Rebalance) ==> {
                &&& stk.balances@ == old(staking).balances@
                &&& spos == *old(staking_pos)
                &&& lpos == *old(liquidity_pos)
            },
            filter == Some(RuleAction::Rebalance) ==> spec_rebalance_rules_outcome(
                cfg.rules@,
                cfg.assets@,
                total_value as int,
                cfg.router_address,
                0,
                old(balances)@,
                old(pools)@,
            ) == spec_rebalance_rules_outcome(
                cfg.rules@,
                cfg.assets@,
                total_value as int,
                cfg.router_address,
                m as int,
                bal@,
                pls@,
            ),
            filter == Some(RuleAction::Stake) ==> {
                &&& pls@ == old(pools)@
                &&& lpos == *old(liquidity_pos)
                &&& spec_stake_rules_outcome(
                    cfg.rules@,
                    cfg.assets@,
                    total_value as int,
                    cfg.staking_pool_address,
                    old(staking).rate_base as int,
                    old(staking).rate_st as int,
                    0,
                    old(balances)@,
                    spec_amount_of(old(staking).balances@, vault_address),
                    *old(staking_pos),
                    now,
                ) == spec_stake_rules_outcome(
                    cfg.rules@,
                    cfg.assets@,
                    total_value as int,
                    cfg.staking_pool_address,
                    old(staking).rate_base as int,
                    old(staking).rate_st as int,
                    m as int,
                    bal@,
                    spec_amount_of(stk.balances@, vault_address),
                    spos,
                    now,
                )
                &&& (forall|u: u32|
                    u != vault_address ==> #[trigger] spec_amount_of(stk.balances@, u)
                        == spec_amount_of(old(staking).balances@, u))
            },
            filter is None ==> {
                &&& spec_all_rules_apply(
                    cfg.rules@,
                    cfg.assets@,
                    total_value as int,
                    cfg.router_address,
                    cfg.staking_pool_address,
                    old(staking).rate_base as int,
                    old(staking).rate_st as int,
                    0,
                    old(balances)@,
                    old(pools)@,
                    spec_amount_of(old(staking).balances@, vault_address),
                    *old(staking_pos),
                    *old(liquidity_pos),
                    now,
                ) == spec_all_rules_apply(
                    cfg.rules@,
                    cfg.assets@,
                    total_value as int,
                    cfg.router_address,
                    cfg.staking_pool_address,
                    old(staking).rate_base as int,
                    old(staking).rate_st as int,
                    m as int,
                    bal@,
                    pls@,
                    spec_amount_of(stk.balances@, vault_address),
                    spos,
                    lpos,
                    now,
                )
                &&& (forall|u: u32|
                    u != vault_address ==> #[trigger] spec_amount_of(stk.balances@, u)
                        == spec_amount_of(old(staking).balances@, u))
            },
            filter == Some(RuleAction::Liquidity) ==> {
                &&& stk.balances@ == old(staking).balances@
                &&& spos == *old(staking_pos)
                &&& spec_liquidity_rules_apply(
                    cfg.rules@,
                    cfg.assets@,
                    total_value as int,
                    0,
                    old(balances)@,
                    old(pools)@,
                    *old(liquidity_pos),
                    now,
                ) == spec_liquidity_rules_apply(
                    cfg.rules@,
                    cfg.assets@,
                    total_value as int,
                    m as int,
                    bal@,
                    pls@,
                    lpos,
                    now,
                )
            },
        decreases n - m,
    {
        let ghost rbal = bal@;
        let ghost rpls = pls@;
        let ghost rstk = stk.balances@;
        let ghost rspos = spos;
        let rule = &cfg.rules[m];
        let matches_filter = match filter {
            None => true,
            Some(a) => rule.action == a,
        };
        if matches_filter {
            match rule.action {
                RuleAction::Rebalance => {
                    match execute_rebalance_action(
                        rule,
                        &cfg.assets,
                        total_value,
                        cfg.router_address,
                        &mut bal,
                        &mut pls,
                    ) {
                        Ok(()) => {
                            proof {
                                if filter == Some(RuleAction::Rebalance) || filter is None {
                                    assert(spec_rebalance_action_outcome(
                                        cfg.rules@[m as int],
                                        cfg.assets@,
                                        total_value as int,
                                        cfg.router_address,
                                        rbal,
                                        rpls,
                                    ) == Ok::<(Seq<i128>, Seq<Pool>), VaultError>((bal@, pls@)));
                                }
                            }
                        },
                        Err(e) => {
                            proof {
                                assert(spec_filter_matches(filter, cfg.rules@[m as int].action));
                                if filter == Some(RuleAction::Rebalance) {
                                    assert(spec_rebalance_action_outcome(
                                        cfg.rules@[m as int],
                                        cfg.assets@,
                                        total_value as int,
                                        cfg.router_address,
                                        rbal,
                                        rpls,
                                    ) == Err::<(Seq<i128>, Seq<Pool>), VaultError>(e));
                                    assert(spec_rebalance_rules_outcome(
                                        cfg.rules@,
                                        cfg.assets@,
                                        total_value as int,
                                        cfg.router_address,
                                        m as int,
                                        rbal,
                                        rpls,
                                    ) == Err::<(Seq<i128>, Seq<Pool>), VaultError>(e));
                                }
                                let tv = total_value as int;
                                let alloc = cfg.rules@[m as int].target_allocation@;
                                if spec_rebalance_validation(
                                    cfg.rules@[m as int],
                                    cfg.assets@,
                                    tv,
                                    cfg.router_address,
                                ) is None && !spec_within_tolerance(bal@, tv, alloc) {
                                    lemma_pass_error_kind(
                                        cfg.assets@,
                                        spec_targets(tv, alloc),
                                        tv / 100,
                                        0,
                                        bal@,
                                        pls@,
                                        e,
                                    );
                                }
                            }
                            return Err(e);
                        },
                    }
                },
                RuleAction::Stake => {
                    let pos = match execute_stake_action(
                        rule,
                        &cfg.assets,
                        total_value,
                        cfg.staking_pool_address,
                        vault_address,
                        &mut bal,
                        &mut stk,
                        now,
                    ) {
                        Ok(p) => p,
                        Err(e) => {
                            proof {
                                assert(spec_filter_matches(filter, cfg.rules@[m as int].action));
                                if filter == Some(RuleAction::Stake) {
                                    assert(spec_stake_action_outcome(
                                        cfg.rules@[m as int],
                                        cfg.assets@,
                                        total_value as int,
                                        cfg.staking_pool_address,
                                        old(staking).rate_base as int,
                                        old(staking).rate_st as int,
                                        rbal,
                                        spec_amount_of(rstk, vault_address),
                                        now,
                                    ) == Err::<(Seq<i128>, int, StakingPosition), VaultError>(e));
                                }
                            }
                            return Err(e);
                        },
                    };
                    proof {
                        if filter == Some(RuleAction::Stake) || filter is None {
                            assert(spec_stake_action_outcome(
                                cfg.rules@[m as int],
                                cfg.assets@,
                                total_value as int,
                                cfg.staking_pool_address,
                                old(staking).rate_base as int,
                                old(staking).rate_st as int,
                                rbal,
                                spec_amount_of(rstk, vault_address),
                                now,
                            ) == Ok::<(Seq<i128>, int, StakingPosition), VaultError>(
                                (bal@, spec_amount_of(stk.balances@, vault_address), pos),
                            ));
                        }
                    }
                    spos = Some(pos);
                },
                RuleAction::Liquidity => {
                    let pos = match execute_liquidity_action(
                        rule,
                        &cfg.assets,
                        total_value,
                        cfg.router_address,
                        cfg.factory_address,
                        &mut bal,
                        &mut pls,
                        now,
                    ) {
                        Ok(p) => p,
                        Err(e) => {
                            proof {
                                assert(spec_filter_matches(filter, cfg.rules@[m as int].action));
                            }
                            return Err(e);
                        },
                    };
                    proof {
                        if filter == Some(RuleAction::Liquidity) || filter is None {
                            assert(spec_liquidity_apply(
                                cfg.rules@[m as int],
                                cfg.assets@,
                                total_value as int,
                                rbal,
                                rpls,
                                now,
                            ) == (bal@, pls@, pos));
                        }
                    }
                    lpos = Some(pos);
                },
            }
        }
        m = m + 1;
    }
    *balances = bal;
    *pools = pls;
    *staking = stk;
    *staking_pos = spos;
    *liquidity_pos = lpos;
    Ok(())
}


/// Shared shape of the four driver entry points: the vault keeps its
/// configuration, accounting state and depositor records; venue models keep
/// their parameters; and a failed run changes nothing anywhere.
pub open spec fn spec_driver_frame(
    pre_vault: VaultContract,
    post_vault: VaultContract,
    pre_balances: Seq<i128>,
    post_balances: Seq<i128>,
    pre_pools: Seq<Pool>,
    post_pools: Seq<Pool>,
    pre_staking: StakingPool,
    post_staking: StakingPool,
) -> bool {
    &&& post_vault.wf()
    &&& post_vault.config == pre_vault.config
    &&& post_vault.state == pre_vault.state
    &&& post_vault.positions@ == pre_vault.positions@
    &&& post_balances.len() == pre_balances.len()
    &&& post_pools.len() == pre_pools.len()
    &&& (forall|j: int| 0 <= j < post_pools.len() ==> (#[trigger] post_pools[j]).wf())
    &&& post_staking.wf()
    &&& post_staking.rate_base == pre_staking.rate_base
    &&& post_staking.rate_st == pre_staking.rate_st
}

/// Everything the drivers can touch, unchanged.
pub open spec fn spec_driver_unchanged(
    pre_vault: VaultContract,
    post_vault: VaultContract,
    pre_balances: Seq<i128>,
    post_balances: Seq<i128>,
    pre_pools: Seq<Pool>,
    post_pools: Seq<Pool>,
    pre_staking: StakingPool,
    post_staking: StakingPool,
) -> bool {
    &&& post_vault == pre_vault
    &&& post_balances == pre_balances
    &&& post_pools == pre_pools
    &&& post_staking.balances@ == pre_staking.balances@
}

/// Run rules through the shared driver with the given action filter,
/// taking the configuration out of the vault for the duration so the
/// stored position snapshots can be written back into it.
fn execute_filtered(
    vault: &mut VaultContract,
    vault_address: u32,
    filter: Option<RuleAction>,
    balances: &mut Vec<i128>,
    pools: &mut Vec<Pool>,
    staking: &mut StakingPool,
    now: u64,
) -> (r: Result<(), VaultError>)
    requires
        old(vault).wf(),
        (match old(vault).config {
            Some(cfg) => old(balances)@.len() == cfg.assets@.len(),
            None => true,
        }),
        forall|j: int| 0 <= j < old(pools)@.len() ==> (#[trigger] old(pools)@[j]).wf(),
        old(staking).wf(),
    ensures
        spec_driver_frame(
            *old(vault),
            *final(vault),
            old(balances)@,
            final(balances)@,
            old(pools)@,
            final(pools)@,
            *old(staking),
            *final(staking),
        ),
        r is Err ==> spec_driver_unchanged(
            *old(vault),
            *final(vault),
            old(balances)@,
            final(balances)@,
            old(pools)@,
            final(pools)@,
            *old(staking),
            *final(staking),
        ),
        old(vault).config is None ==> r == Err::<(), VaultError>(VaultError::NotInitialized),
        (old(vault).config is Some && old(vault).state.total_value == 0) ==> r == Err::<
            (),
            VaultError,
        >(VaultError::InsufficientBalance),
        (old(vault).config is Some && old(vault).state.total_value != 0 && (forall|m: int|
            0 <= m < old(vault).config->0.rules@.len() ==> !spec_filter_matches(
                filter,
                (#[trigger] old(vault).config->0.rules@[m]).action,
            ))) ==> r is Ok && spec_driver_unchanged(
            *old(vault),
            *final(vault),
            old(balances)@,
            final(balances)@,
            old(pools)@,
            final(pools)@,
            *old(staking),
            *final(staking),
        ),
        (old(vault).config is Some && r is Err) ==> !(r == Err::<(), VaultError>(
            VaultError::NotInitialized,
        )),
        (old(vault).config is Some && old(vault).state.total_value != 0 && r is Err) ==> exists|
            m: int,
        |
            0 <= m < old(vault).config->0.rules@.len() && #[trigger] spec_filter_matches(
                filter,
                old(vault).config->0.rules@[m].action,
            ),
        filter == Some(RuleAction::Rebalance) ==> {
            &&& final(staking).balances@ == old(staking).balances@
            &&& final(vault).staking_position == old(vault).staking_position
            &&& final(vault).liquidity_position == old(vault).liquidity_position
        },
        (filter == Some(RuleAction::Rebalance) && old(vault).config is Some && old(
            vault,
        ).state.total_value != 0) ==> (match spec_rebalance_rules_outcome(
            old(vault).config->0.rules@,
            old(vault).config->0.assets@,
            old(vault).state.total_value as int,
            old(vault).config->0.router_address,
            0,
            old(balances)@,
            old(pools)@,
        ) {
            Ok(bp) => r is Ok && final(balances)@ == bp.0 && final(pools)@ == bp.1,
            Err(e) => r == Err::<(), VaultError>(e) && final(balances)@ == old(balances)@
                && final(pools)@ == old(pools)@,
        }),
        filter == Some(RuleAction::Stake) ==> {
            &&& final(pools)@ == old(pools)@
            &&& final(vault).liquidity_position == old(vault).liquidity_position
        },
        (filter == Some(RuleAction::Stake) && old(vault).config is Some && old(
            vault,
        ).state.total_value != 0) ==> (match spec_stake_rules_outcome(
            old(vault).config->0.rules@,
            old(vault).config->0.assets@,
            old(vault).state.total_value as int,
            old(vault).config->0.staking_pool_address,
            old(staking).rate_base as int,
            old(staking).rate_st as int,
            0,
            old(balances)@,
            spec_amount_of(old(staking).balances@, vault_address),
            old(vault).staking_position,
            now,
        ) {
            Ok(bvp) => {
                &&& r is Ok
                &&& final(balances)@ == bvp.0
                &&& spec_amount_of(final(staking).balances@, vault_address) == bvp.1
                &&& final(vault).staking_position == bvp.2
            },
            Err(e) => {
                &&& r == Err::<(), VaultError>(e)
                &&& final(balances)@ == old(balances)@
                &&& final(staking).balances@ == old(staking).balances@
                &&& final(vault).staking_position == old(vault).staking_position
            },
        }),
        filter == Some(RuleAction::Liquidity) ==> {
            &&& final(staking).balances@ == old(staking).balances@
            &&& final(vault).staking_position == old(vault).staking_position
        },
        (filter is None && old(vault).config is Some && old(vault).state.total_value != 0
            && r is Ok) ==> ({
            let applied = spec_all_rules_apply(
            old(vault).config->0.rules@,
            old(vault).config->0.assets@,
            old(vault).state.total_value as int,
            old(vault).config->0.router_address,
            old(vault).config->0.staking_pool_address,
            old(staking).rate_base as int,
            old(staking).rate_st as int,
            0,
            old(balances)@,
            old(pools)@,
            spec_amount_of(old(staking).balances@, vault_address),
            old(vault).staking_position,
            old(vault).liquidity_position,
            now,
        );
            &&& final(balances)@ == applied.0
            &&& final(pools)@ == applied.1
            &&& spec_amount_of(final(staking).balances@, vault_address) == applied.2
            &&& final(vault).staking_position == applied.3
            &&& final(vault).liquidity_position == applied.4
        }),
        (filter == Some(RuleAction::Liquidity) && old(vault).config is Some && old(
            vault,
        ).state.total_value != 0 && r is Ok) ==> ({
            let applied = spec_liquidity_rules_apply(
                old(vault).config->0.rules@,
                old(vault).config->0.assets@,
                old(vault).state.total_value as int,
                0,
                old(balances)@,
                old(pools)@,
                old(vault).liquidity_position,
                now,
            );
            &&& final(balances)@ == applied.0
            &&& final(pools)@ == applied.1
            &&& final(vault).liquidity_position == applied.2
        }),
{
    let cfg = match vault.config.take() {
        Some(c) => c,
        None => {
            return Err(VaultError::NotInitialized);
        },
    };
    let total_value = vault.state.total_value;
    if total_value == 0 {
        vault.config = Some(cfg);
        proof {
            assert(*vault =~= *old(vault));
        }
        return Err(VaultError::InsufficientBalance);
    }
    let r = run_rules(
        &cfg,
        total_value,
        vault_address,
        filter,
        balances,
        pools,
        staking,
        &mut vault.staking_position,
        &mut vault.liquidity_position,
        now,
    );
    vault.config = Some(cfg);
    proof {
        if r is Err {
            assert(*vault =~= *old(vault));
        }
    }
    r
}

/// Execute every stored rule, whatever its action: rebalance rules swap
/// toward their target allocation, stake rules move holdings to the staking
/// venue, liquidity rules provide pool liquidity. Atomic: any failure
/// leaves the vault, custody and venues untouched.
pub fn execute_rebalance(
    vault: &mut VaultContract,
    vault_address: u32,
    balances: &mut Vec<i128>,
    pools: &mut Vec<Pool>,
    staking: &mut StakingPool,
    now: u64,
) -> (r: Result<(), VaultError>)
    requires
        old(vault).wf(),
        (match old(vault).config {
            Some(cfg) => old(balances)@.len() == cfg.assets@.len(),
            None => true,
        }),
        forall|j: int| 0 <= j < old(pools)@.len() ==> (#[trigger] old(pools)@[j]).wf(),
        old(staking).wf(),
    ensures
        spec_driver_frame(
            *old(vault),
            *final(vault),
            old(balances)@,
            final(balances)@,
            old(pools)@,
            final(pools)@,
            *old(staking),
            *final(staking),
        ),
        r is Err ==> spec_driver_unchanged(
            *old(vault),
            *final(vault),
            old(balances)@,
            final(balances)@,
            old(pools)@,
            final(pools)@,
            *old(staking),
            *final(staking),
        ),
        old(vault).config is None ==> r == Err::<(), VaultError>(VaultError::NotInitialized),
        (old(vault).config is Some && old(vault).state.total_value == 0) ==> r == Err::<
            (),
            VaultError,
        >(VaultError::InsufficientBalance),
        (old(vault).config is Some && r is Err) ==> !(r == Err::<(), VaultError>(
            VaultError::NotInitialized,
        )),
        (old(vault).config is Some && old(vault).state.total_value != 0
            && old(vault).config->0.rules@.len() == 0) ==> r is Ok && spec_driver_unchanged(
            *old(vault),
            *final(vault),
            old(balances)@,
            final(balances)@,
            old(pools)@,
            final(pools)@,
            *old(staking),
            *final(staking),
        ),
        (old(vault).config is Some && old(vault).state.total_value != 0 && r is Ok) ==> ({
            let applied = spec_all_rules_apply(
            old(vault).config->0.rules@,
            old(vault).config->0.assets@,
            old(vault).state.total_value as int,
            old(vault).config->0.router_address,
            old(vault).config->0.staking_pool_address,
            old(staking).rate_base as int,
            old(staking).rate_st as int,
            0,
            old(balances)@,
            old(pools)@,
            spec_amount_of(old(staking).balances@, vault_address),
            old(vault).staking_position,
            old(vault).liquidity_position,
            now,
        );
            &&& final(balances)@ == applied.0
            &&& final(pools)@ == applied.1
            &&& spec_amount_of(final(staking).balances@, vault_address) == applied.2
            &&& final(vault).staking_position == applied.3
            &&& final(vault).liquidity_position == applied.4
        }),
{
    execute_filtered(vault, vault_address, None, balances, pools, staking, now)
}

/// Execute only the rules whose action is `Rebalance`.
pub fn execute_rebalance_only(
    vault: &mut VaultContract,
    vault_address: u32,
    balances: &mut Vec<i128>,
    pools: &mut Vec<Pool>,
    staking: &mut StakingPool,
    now: u64,
) -> (r: Result<(), VaultError>)
    requires
        old(vault).wf(),
        (match old(vault).config {
            Some(cfg) => old(balances)@.len() == cfg.assets@.len(),
            None => true,
        }),
        forall|j: int| 0 <= j < old(pools)@.len() ==> (#[trigger] old(pools)@[j]).wf(),
        old(staking).wf(),
    ensures
        spec_driver_frame(
            *old(vault),
            *final(vault),
            old(balances)@,
            final(balances)@,
            old(pools)@,
            final(pools)@,
            *old(staking),
            *final(staking),
        ),
        r is Err ==> spec_driver_unchanged(
            *old(vault),
            *final(vault),
            old(balances)@,
            final(balances)@,
            old(pools)@,
            final(pools)@,
            *old(staking),
            *final(staking),
        ),
        old(vault).config is None ==> r == Err::<(), VaultError>(VaultError::NotInitialized),
        (old(vault).config is Some && old(vault).state.total_value == 0) ==> r == Err::<
            (),
            VaultError,
        >(VaultError::InsufficientBalance),
        (old(vault).config is Some && old(vault).state.total_value != 0 && (forall|m: int|
            0 <= m < old(vault).config->0.rules@.len() ==> (#[trigger] old(
                vault,
            ).config->0.rules@[m]).action != RuleAction::Rebalance)) ==> r is Ok
            && spec_driver_unchanged(
            *old(vault),
            *final(vault),
            old(balances)@,
            final(balances)@,
            old(pools)@,
            final(pools)@,
            *old(staking),
            *final(staking),
        ),
        (old(vault).config is Some && r is Err) ==> !(r == Err::<(), VaultError>(
            VaultError::NotInitialized,
        )),
        final(staking).balances@ == old(staking).balances@,
        final(vault).staking_position == old(vault).staking_position,
        final(vault).liquidity_position == old(vault).liquidity_position,
        (old(vault).config is Some && old(vault).state.total_value != 0) ==> (match
            spec_rebalance_rules_outcome(
            old(vault).config->0.rules@,
            old(vault).config->0.assets@,
            old(vault).state.total_value as int,
            old(vault).config->0.router_address,
            0,
            old(balances)@,
            old(pools)@,
        ) {
            Ok(bp) => r is Ok && final(balances)@ == bp.0 && final(pools)@ == bp.1,
            Err(e) => r == Err::<(), VaultError>(e) && final(balances)@ == old(balances)@
                && final(pools)@ == old(pools)@,
        }),
{
    execute_filtered(vault, vault_address, Some(RuleAction::Rebalance), balances, pools, staking, now)
}

/// Execute only the rules whose action is `Stake`.
pub fn execute_stake_only(
    vault: &mut VaultContract,
    vault_address: u32,
    balances: &mut Vec<i128>,
    pools: &mut Vec<Pool>,
    staking: &mut StakingPool,
    now: u64,
) -> (r: Result<(), VaultError>)
    requires
        old(vault).wf(),
        (match old(vault).config {
            Some(cfg) => old(balances)@.len() == cfg.assets@.len(),
            None => true,
        }),
        forall|j: int| 0 <= j < old(pools)@.len() ==> (#[trigger] old(pools)@[j]).wf(),
        old(staking).wf(),
    ensures
        spec_driver_frame(
            *old(vault),
            *final(vault),
            old(balances)@,
            final(balances)@,
            old(pools)@,
            final(pools)@,
            *old(staking),
            *final(staking),
        ),
        r is Err ==> spec_driver_unchanged(
            *old(vault),
            *final(vault),
            old(balances)@,
            final(balances)@,
            old(pools)@,
            final(pools)@,
            *old(staking),
            *final(staking),
        ),
        old(vault).config is None ==> r == Err::<(), VaultError>(VaultError::NotInitialized),
        (old(vault).config is Some && old(vault).state.total_value == 0) ==> r == Err::<
            (),
            VaultError,
        >(VaultError::InsufficientBalance),
        (old(vault).config is Some && r is Err) ==> !(r == Err::<(), VaultError>(
            VaultError::NotInitialized,
        )),
        (old(vault).config is Some && old(vault).state.total_value != 0 && (forall|m: int|
            0 <= m < old(vault).config->0.rules@.len() ==> (#[trigger] old(
                vault,
            ).config->0.rules@[m]).action != RuleAction::Stake)) ==> r is Ok
            && spec_driver_unchanged(
            *old(vault),
            *final(vault),
            old(balances)@,
            final(balances)@,
            old(pools)@,
            final(pools)@,
            *old(staking),
            *final(staking),
        ),
        final(pools)@ == old(pools)@,
        final(vault).liquidity_position == old(vault).liquidity_position,
        (old(vault).config is Some && old(vault).state.total_value != 0) ==> (match spec_stake_rules_outcome(
            old(vault).config->0.rules@,
            old(vault).config->0.assets@,
            old(vault).state.total_value as int,
            old(vault).config->0.staking_pool_address,
            old(staking).rate_base as int,
            old(staking).rate_st as int,
            0,
            old(balances)@,
            spec_amount_of(old(staking).balances@, vault_address),
            old(vault).staking_position,
            now,
        ) {
            Ok(bvp) => {
                &&& r is Ok
                &&& final(balances)@ == bvp.0
                &&& spec_amount_of(final(staking).balances@, vault_address) == bvp.1
                &&& final(vault).staking_position == bvp.2
            },
            Err(e) => {
                &&& r == Err::<(), VaultError>(e)
                &&& final(balances)@ == old(balances)@
                &&& final(staking).balances@ == old(staking).balances@
                &&& final(vault).staking_position == old(vault).staking_position
            },
        }),
{
    execute_filtered(vault, vault_address, Some(RuleAction::Stake), balances, pools, staking, now)
}

/// Execute only the rules whose action is `Liquidity`.
pub fn execute_liquidity_only(
    vault: &mut VaultContract,
    vault_address: u32,
    balances: &mut Vec<i128>,
    pools: &mut Vec<Pool>,
    staking: &mut StakingPool,
    now: u64,
) -> (r: Result<(), VaultError>)
    requires
        old(vault).wf(),
        (match old(vault).config {
            Some(cfg) => old(balances)@.len() == cfg.assets@.len(),
            None => true,
        }),
        forall|j: int| 0 <= j < old(pools)@.len() ==> (#[trigger] old(pools)@[j]).wf(),
        old(staking).wf(),
    ensures
        spec_driver_frame(
            *old(vault),
            *final(vault),
            old(balances)@,
            final(balances)@,
            old(pools)@,
            final(pools)@,
            *old(staking),
            *final(staking),
        ),
        r is Err ==> spec_driver_unchanged(
            *old(vault),
            *final(vault),
            old(balances)@,
            final(balances)@,
            old(pools)@,
            final(pools)@,
            *old(staking),
            *final(staking),
        ),
        old(vault).config is None ==> r == Err::<(), VaultError>(VaultError::NotInitialized),
        (old(vault).config is Some && old(vault).state.total_value == 0) ==> r == Err::<
            (),
            VaultError,
        >(VaultError::InsufficientBalance),
        (old(vault).config is Some && r is Err) ==> !(r == Err::<(), VaultError>(
            VaultError::NotInitialized,
        )),
        (old(vault).config is Some && old(vault).state.total_value != 0 && (forall|m: int|
            0 <= m < old(vault).config->0.rules@.len() ==> (#[trigger] old(
                vault,
            ).config->0.rules@[m]).action != RuleAction::Liquidity)) ==> r is Ok
            && spec_driver_unchanged(
            *old(vault),
            *final(vault),
            old(balances)@,
            final(balances)@,
            old(pools)@,
            final(pools)@,
            *old(staking),
            *final(staking),
        ),
        final(staking).balances@ == old(staking).balances@,
        final(vault).staking_position == old(vault).staking_position,
        (old(vault).config is Some && old(vault).state.total_value != 0 && r is Ok) ==> ({
            let applied = spec_liquidity_rules_apply(
                old(vault).config->0.rules@,
                old(vault).config->0.assets@,
                old(vault).state.total_value as int,
                0,
                old(balances)@,
                old(pools)@,
                old(vault).liquidity_position,
                now,
            );
            &&& final(balances)@ == applied.0
            &&& final(pools)@ == applied.1
            &&& final(vault).liquidity_position == applied.2
        }),
{
    execute_filtered(vault, vault_address, Some(RuleAction::Liquidity), balances, pools, staking, now)
}

} // verus!
