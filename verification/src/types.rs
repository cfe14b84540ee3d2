//! Vault data structures.
//!
//! Addresses (owner, assets, venues, depositors) are plain `u32` identifiers:
//! the vault's logic only ever compares them for equality, so an opaque
//! identifier carries everything it reads. Amounts are signed 128-bit values
//! denominated in the relevant token; timestamps are seconds as `u64`.

use vstd::prelude::*;

verus! {

/// One percent of one hundred percent, in hundred-thousandths:
/// `100_0000` stands for 100%.
pub const ALLOCATION_SCALE: i128 = 100_0000;

/// Basis points of ownership carried by one certificate: `10000` is 100%.
pub const MAX_OWNERSHIP_PCT: i128 = 10000;

/// What a rebalance rule's condition examines.
#[derive(Clone, Copy, Debug, PartialEq, Eq, Structural)]
pub enum ConditionType {
    /// Seconds elapsed since the last rebalance reach the threshold.
    Time,
    /// Yield threshold; evaluated as a plausibility check on the threshold
    /// itself while no live yield data is wired in.
    Apy,
    /// Allocation drift; satisfied whenever the vault holds value, the drift
    /// magnitude being computed downstream by the executor.
    Allocation,
    /// Price move; satisfied for any positive threshold while no oracle is
    /// wired in.
    Price,
}

/// What a satisfied rule makes the vault do.
#[derive(Clone, Copy, Debug, PartialEq, Eq, Structural)]
pub enum RuleAction {
    /// Swap between held assets toward the target allocation.
    Rebalance,
    /// Move part of the first asset into the staking venue.
    Stake,
    /// Provide part of the first two assets as pool liquidity.
    Liquidity,
}

/// One declarative rebalancing rule. `threshold` is in seconds for
/// [`ConditionType::Time`] and a scaled percentage otherwise;
/// `target_allocation` is in hundred-thousandths, aligned positionally with
/// the vault's asset list.
#[derive(Clone, Debug)]
pub struct RebalanceRule {
    pub condition_type: ConditionType,
    pub threshold: i128,
    pub action: RuleAction,
    pub target_allocation: Vec<i128>,
}

/// Static vault configuration: created once at initialization; only the
/// venue addresses may be updated afterwards, by the owner.
#[derive(Debug)]
pub struct VaultConfig {
    pub owner: u32,
    pub name: String,
    /// Held assets; index 0 is the base asset, the unit of account.
    pub assets: Vec<u32>,
    pub rules: Vec<RebalanceRule>,
    /// Swap router venue, if configured.
    pub router_address: Option<u32>,
    /// Liquid staking venue, if configured.
    pub staking_pool_address: Option<u32>,
    /// Pool factory used to look pools up, if configured.
    pub factory_address: Option<u32>,
}

/// Aggregate accounting state of a vault.
#[derive(Clone, Copy, Debug, PartialEq, Eq, Structural)]
pub struct VaultState {
    pub total_shares: i128,
    /// Denominated in base-asset units.
    pub total_value: i128,
    pub last_rebalance: u64,
}

/// One depositor's claim on the vault.
#[derive(Clone, Copy, Debug, PartialEq, Eq, Structural)]
pub struct UserPosition {
    pub shares: i128,
    pub last_deposit: u64,
}

/// A token identifier paired with an amount of it.
#[derive(Clone, Copy, Debug, PartialEq, Eq, Structural)]
pub struct AssetBalance {
    pub token: u32,
    pub amount: i128,
}

/// Snapshot of the vault's open position with the staking venue. At most one
/// is retained; each new stake action overwrites it.
#[derive(Clone, Copy, Debug, PartialEq, Eq, Structural)]
pub struct StakingPosition {
    pub staking_pool: u32,
    pub original_token: u32,
    pub staked_amount: i128,
    pub st_token_amount: i128,
    pub timestamp: u64,
}

/// Snapshot of the vault's open liquidity position. At most one is retained;
/// each new liquidity action overwrites it.
#[derive(Clone, Copy, Debug, PartialEq, Eq, Structural)]
pub struct LiquidityPosition {
    pub pool_address: u32,
    pub token_a: u32,
    pub token_b: u32,
    pub lp_tokens: i128,
    pub amount_a_provided: i128,
    pub amount_b_provided: i128,
    pub timestamp: u64,
}

/// Sum of a sequence of amounts, as an unbounded integer.
pub open spec fn sum_i128(s: Seq<i128>) -> int
    decreases s.len(),
{
    if s.len() == 0 {
        0
    } else {
        sum_i128(s.drop_last()) + s.last()
    }
}

/// Appending an element adds exactly that element to the sum.
pub proof fn lemma_sum_push(s: Seq<i128>, x: i128)
    ensures
        sum_i128(s.push(x)) == sum_i128(s) + x,
{
    assert(s.push(x).drop_last() =~= s);
}

/// Replacing one element moves the sum by the difference.
pub proof fn lemma_sum_update(s: Seq<i128>, i: int, v: i128)
    requires
        0 <= i < s.len(),
    ensures
        sum_i128(s.update(i, v)) == sum_i128(s) - s[i] + v,
    decreases s.len(),
{
    if i == s.len() - 1 {
        assert(s.update(i, v).drop_last() =~= s.drop_last());
    } else {
        lemma_sum_update(s.drop_last(), i, v);
        assert(s.update(i, v).drop_last() =~= s.drop_last().update(i, v));
    }
}

/// Removing one element subtracts exactly that element from the sum.
pub proof fn lemma_sum_remove(s: Seq<i128>, i: int)
    requires
        0 <= i < s.len(),
    ensures
        sum_i128(s.remove(i)) == sum_i128(s) - s[i],
    decreases s.len(),
{
    if i == s.len() - 1 {
        assert(s.remove(i) =~= s.drop_last());
    } else {
        lemma_sum_remove(s.drop_last(), i);
        assert(s.remove(i).drop_last() =~= s.drop_last().remove(i));
    }
}

/// Extending a prefix by one element adds exactly that element to the
/// prefix sum.
pub proof fn lemma_sum_take_step(s: Seq<i128>, i: int)
    requires
        0 <= i < s.len(),
    ensures
        sum_i128(s.take(i + 1)) == sum_i128(s.take(i)) + s[i],
{
    assert(s.take(i + 1).drop_last() =~= s.take(i));
    assert(s.take(i + 1).last() == s[i]);
}

/// Copy of a vector of plain values.
pub fn copy_vec<T: Copy>(v: &Vec<T>) -> (r: Vec<T>)
    ensures
        r@ == v@,
{
    let mut r: Vec<T> = Vec::new();
    let mut i: usize = 0;
    while i < v.len()
        invariant
            0 <= i <= v@.len(),
            r@ == v@.take(i as int),
        decreases v@.len() - i,
    {
        r.push(v[i]);
        proof {
            assert(r@ =~= v@.take(i + 1));
        }
        i = i + 1;
    }
    proof {
        assert(v@.take(v@.len() as int) =~= v@);
    }
    r
}

/// A sum of nonnegative amounts is nonnegative.
pub proof fn lemma_sum_nonneg(s: Seq<i128>)
    requires
        forall|i: int| 0 <= i < s.len() ==> s[i] >= 0,
    ensures
        sum_i128(s) >= 0,
    decreases s.len(),
{
    if s.len() > 0 {
        lemma_sum_nonneg(s.drop_last());
    }
}

/// Every element of a nonnegative sequence is at most the whole sum.
pub proof fn lemma_sum_element_bound(s: Seq<i128>, i: int)
    requires
        0 <= i < s.len(),
        forall|j: int| 0 <= j < s.len() ==> s[j] >= 0,
    ensures
        s[i] <= sum_i128(s),
    decreases s.len(),
{
    if i == s.len() - 1 {
        lemma_sum_nonneg(s.drop_last());
    } else {
        lemma_sum_element_bound(s.drop_last(), i);
    }
}

/// One per-user amount record, shared by the ledgers that key an amount
/// by a user identifier.
#[derive(Clone, Copy, Debug, PartialEq, Eq, Structural)]
pub struct AmountEntry {
    pub user: u32,
    pub amount: i128,
}

/// The amount recorded for `user`: the first record carrying that
/// identifier, or zero when none is stored.
pub open spec fn spec_amount_of(s: Seq<AmountEntry>, user: u32) -> int
    decreases s.len(),
{
    if s.len() == 0 {
        0
    } else if s[0].user == user {
        s[0].amount as int
    } else {
        spec_amount_of(s.drop_first(), user)
    }
}

/// No two records belong to the same user.
pub open spec fn entries_distinct(s: Seq<AmountEntry>) -> bool {
    forall|i: int, j: int|
        0 <= i < j < s.len() ==> (#[trigger] s[i]).user != (#[trigger] s[j]).user
}

/// The stored amounts, in record order.
pub open spec fn entry_amounts(s: Seq<AmountEntry>) -> Seq<i128> {
    s.map_values(|e: AmountEntry| e.amount)
}

/// A user with no record has a zero amount.
pub proof fn lemma_amount_absent(s: Seq<AmountEntry>, user: u32)
    requires
        forall|j: int| 0 <= j < s.len() ==> (#[trigger] s[j]).user != user,
    ensures
        spec_amount_of(s, user) == 0,
    decreases s.len(),
{
    if s.len() > 0 {
        lemma_amount_absent(s.drop_first(), user);
    }
}

/// The record scan returns the record at the first matching index.
pub proof fn lemma_amount_prefix(s: Seq<AmountEntry>, i: int, user: u32)
    requires
        0 <= i < s.len(),
        s[i].user == user,
        forall|j: int| 0 <= j < i ==> (#[trigger] s[j]).user != user,
    ensures
        spec_amount_of(s, user) == s[i].amount,
    decreases i,
{
    if i > 0 {
        lemma_amount_prefix(s.drop_first(), i - 1, user);
    }
}

/// Replacing the first record of `e.user` moves that user's amount to
/// `e.amount` and leaves every other user's amount alone.
pub proof fn lemma_amount_update(s: Seq<AmountEntry>, i: int, e: AmountEntry, u: u32)
    requires
        0 <= i < s.len(),
        s[i].user == e.user,
        forall|j: int| 0 <= j < i ==> (#[trigger] s[j]).user != e.user,
    ensures
        spec_amount_of(s.update(i, e), u) == if u == e.user {
            e.amount as int
        } else {
            spec_amount_of(s, u)
        },
    decreases s.len(),
{
    if i == 0 {
        assert(s.update(0, e).drop_first() =~= s.drop_first());
    } else {
        assert(s.update(i, e).drop_first() =~= s.drop_first().update(i - 1, e));
        lemma_amount_update(s.drop_first(), i - 1, e, u);
    }
}

/// Appending a record for a new user gives that user its amount and
/// leaves every other user's amount alone.
pub proof fn lemma_amount_push(s: Seq<AmountEntry>, e: AmountEntry, u: u32)
    requires
        forall|j: int| 0 <= j < s.len() ==> (#[trigger] s[j]).user != e.user,
    ensures
        spec_amount_of(s.push(e), u) == if u == e.user {
            e.amount as int
        } else {
            spec_amount_of(s, u)
        },
    decreases s.len(),
{
    if s.len() == 0 {
        assert(s.push(e)[0] == e);
        assert(s.push(e).drop_first() =~= Seq::<AmountEntry>::empty());
        if u != e.user {
            assert(spec_amount_of(s.push(e).drop_first(), u) == 0);
        }
    } else {
        assert(s.push(e)[0] == s[0]);
        assert(s.push(e).drop_first() =~= s.drop_first().push(e));
        assert forall|j: int|
            0 <= j < s.drop_first().len() implies (#[trigger] s.drop_first()[j]).user
            != e.user by {
            assert(s.drop_first()[j] == s[j + 1]);
        }
        lemma_amount_push(s.drop_first(), e, u);
    }
}

/// Removing the only record of a user zeroes that user's amount and
/// leaves every other user's amount alone.
pub proof fn lemma_amount_remove(s: Seq<AmountEntry>, i: int, u: u32)
    requires
        0 <= i < s.len(),
        forall|j: int| 0 <= j < s.len() && j != i ==> (#[trigger] s[j]).user != s[i].user,
    ensures
        spec_amount_of(s.remove(i), u) == if u == s[i].user {
            0
        } else {
            spec_amount_of(s, u)
        },
    decreases s.len(),
{
    if i == 0 {
        assert(s.remove(0) =~= s.drop_first());
        if u == s[0].user {
            lemma_amount_absent(s.drop_first(), u);
        }
    } else {
        assert(s.remove(i).drop_first() =~= s.drop_first().remove(i - 1));
        lemma_amount_remove(s.drop_first(), i - 1, u);
    }
}

/// Removing a record keeps users unique.
pub proof fn lemma_entries_distinct_remove(s: Seq<AmountEntry>, i: int)
    requires
        entries_distinct(s),
        0 <= i < s.len(),
    ensures
        entries_distinct(s.remove(i)),
{
    let t = s.remove(i);
    assert forall|p: int, q: int| 0 <= p < q < t.len() implies (#[trigger] t[p]).user
        != (#[trigger] t[q]).user by {
        let p0 = if p < i {
            p
        } else {
            p + 1
        };
        let q0 = if q < i {
            q
        } else {
            q + 1
        };
        assert(t[p] == s[p0] && t[q] == s[q0]);
        assert(s[p0].user != s[q0].user);
    }
}

/// Find the first record of `user` in an amount list.
pub fn find_entry(stakes: &Vec<AmountEntry>, user: u32) -> (r: Option<usize>)
    ensures
        match r {
            Some(i) => {
                &&& i < stakes@.len()
                &&& stakes@[i as int].user == user
                &&& forall|j: int| 0 <= j < i ==> (#[trigger] stakes@[j]).user != user
            },
            None => forall|j: int| 0 <= j < stakes@.len() ==> (#[trigger] stakes@[j]).user != user,
        },
{
    let mut i: usize = 0;
    while i < stakes.len()
        invariant
            0 <= i <= stakes@.len(),
            forall|j: int| 0 <= j < i ==> (#[trigger] stakes@[j]).user != user,
        decreases stakes@.len() - i,
    {
        if stakes[i].user == user {
            return Some(i);
        }
        i = i + 1;
    }
    None
}

} // verus!
