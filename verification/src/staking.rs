//! Liquid staking: an exchange-rate venue model, the vault-side staking
//! adapters, and a simple one-to-one staking pool.
//!
//! The venue holds per-staker balances of its liquid staking token and
//! quotes a fixed exchange rate `(rate_base, rate_st)`: depositing `x` base
//! units mints `floor(x * rate_st / rate_base)` staking tokens, withdrawing
//! `y` staking tokens releases `floor(y * rate_base / rate_st)` base units.

use vstd::prelude::*;

use crate::errors::VaultError;
use crate::types::{
    entries_distinct, entry_amounts, find_entry, lemma_amount_absent, lemma_amount_prefix,
    lemma_amount_push, lemma_amount_remove, lemma_amount_update, lemma_entries_distinct_remove,
    lemma_sum_push, lemma_sum_remove, lemma_sum_update, spec_amount_of, sum_i128, AmountEntry,
};

verus! {

/// The liquid staking venue: balances of its staking token per staker, and
/// the quoted exchange rate.
#[derive(Debug)]
pub struct StakingPool {
    /// Base-asset units per rate unit; positive.
    pub rate_base: i128,
    /// Staking-token units per rate unit; positive.
    pub rate_st: i128,
    /// Staking-token balances per staker.
    pub balances: Vec<AmountEntry>,
}

impl StakingPool {
    /// Well-formedness: positive rate, unique stakers, positive balances.
    pub open spec fn wf(self) -> bool {
        &&& self.rate_base > 0
        &&& self.rate_st > 0
        &&& entries_distinct(self.balances@)
        &&& forall|k: int|
            0 <= k < self.balances@.len() ==> (#[trigger] self.balances@[k]).amount > 0
    }

    /// A fresh venue quoting the given exchange rate.
    pub fn new(rate_base: i128, rate_st: i128) -> (r: StakingPool)
        requires
            rate_base > 0,
            rate_st > 0,
        ensures
            r.wf(),
            r.rate_base == rate_base,
            r.rate_st == rate_st,
            r.balances@.len() == 0,
    {
        StakingPool { rate_base, rate_st, balances: Vec::new() }
    }
}

/// Staking tokens minted for depositing `amount` at rate
/// `(rate_base, rate_st)`: proportional, truncating toward zero.
pub open spec fn spec_st_minted(rate_base: int, rate_st: int, amount: int) -> int {
    (amount * rate_st) / rate_base
}

/// Base units released for burning `st_amount` staking tokens.
pub open spec fn spec_st_redeemed(rate_base: int, rate_st: int, st_amount: int) -> int {
    (st_amount * rate_base) / rate_st
}

/// Stake `amount` for `sender` with the venue: the venue mints its staking
/// token at the quoted rate and credits the sender. Fails with
/// `InvalidAmount`, leaving the venue untouched, when the amount is not
/// positive, when the arithmetic leaves `i128`, or when the mint truncates
/// to nothing.
pub fn stake_tokens(pool: &mut StakingPool, sender: u32, token: u32, amount: i128) -> (r: Result<
    i128,
    VaultError,
>)
    requires
        old(pool).wf(),
    ensures
        final(pool).wf(),
        final(pool).rate_base == old(pool).rate_base,
        final(pool).rate_st == old(pool).rate_st,
        match r {
            Ok(st) => {
                &&& amount > 0
                &&& st == spec_st_minted(
                    old(pool).rate_base as int,
                    old(pool).rate_st as int,
                    amount as int,
                )
                &&& st > 0
                &&& amount * old(pool).rate_st <= i128::MAX
                &&& spec_amount_of(old(pool).balances@, sender) + st <= i128::MAX
                &&& spec_amount_of(final(pool).balances@, sender) == spec_amount_of(
                    old(pool).balances@,
                    sender,
                ) + st
                &&& forall|u: u32|
                    u != sender ==> #[trigger] spec_amount_of(final(pool).balances@, u) == spec_amount_of(
                        old(pool).balances@,
                        u,
                    )
            },
            Err(e) => {
                &&& *final(pool) == *old(pool)
                &&& e == VaultError::InvalidAmount
                &&& (amount <= 0 || amount * old(pool).rate_st > i128::MAX || spec_st_minted(
                    old(pool).rate_base as int,
                    old(pool).rate_st as int,
                    amount as int,
                ) <= 0 || spec_amount_of(old(pool).balances@, sender) + spec_st_minted(
                    old(pool).rate_base as int,
                    old(pool).rate_st as int,
                    amount as int,
                ) > i128::MAX)
            },
        },
{
    let _ = token;
    if amount <= 0 {
        return Err(VaultError::InvalidAmount);
    }
    let prod = match amount.checked_mul(pool.rate_st) {
        Some(v) => v,
        None => {
            return Err(VaultError::InvalidAmount);
        },
    };
    proof {
        vstd::arithmetic::mul::lemma_mul_nonnegative(amount as int, pool.rate_st as int);
        vstd::arithmetic::div_mod::lemma_div_pos_is_pos(prod as int, pool.rate_base as int);
    }
    let st = prod / pool.rate_base;
    if st <= 0 {
        return Err(VaultError::InvalidAmount);
    }
    let ghost balances0 = pool.balances@;
    match find_entry(&pool.balances, sender) {
        Some(i) => {
            let entry = pool.balances[i];
            proof {
                lemma_amount_prefix(balances0, i as int, sender);
            }
            let new_amount = match entry.amount.checked_add(st) {
                Some(v) => v,
                None => {
                    return Err(VaultError::InvalidAmount);
                },
            };
            let updated = AmountEntry { user: sender, amount: new_amount };
            pool.balances.set(i, updated);
            proof {
                lemma_amount_update(balances0, i as int, updated, sender);
                assert forall|u: u32| u != sender implies spec_amount_of(pool.balances@, u)
                    == spec_amount_of(balances0, u) by {
                    lemma_amount_update(balances0, i as int, updated, u);
                }
                assert forall|p: int, q: int|
                    0 <= p < q < pool.balances@.len() implies (#[trigger] pool.balances@[p]).user
                    != (#[trigger] pool.balances@[q]).user by {
                    assert(balances0[p].user != balances0[q].user);
                }
            }
            Ok(st)
        },
        None => {
            proof {
                lemma_amount_absent(balances0, sender);
            }
            let entry = AmountEntry { user: sender, amount: st };
            pool.balances.push(entry);
            proof {
                lemma_amount_push(balances0, entry, sender);
                assert forall|u: u32| u != sender implies spec_amount_of(pool.balances@, u)
                    == spec_amount_of(balances0, u) by {
                    lemma_amount_push(balances0, entry, u);
                }
                assert forall|p: int, q: int|
                    0 <= p < q < pool.balances@.len() implies (#[trigger] pool.balances@[p]).user
                    != (#[trigger] pool.balances@[q]).user by {
                    if q < balances0.len() {
                        assert(balances0[p].user != balances0[q].user);
                    } else {
                        assert(pool.balances@[q] == entry && pool.balances@[p] == balances0[p]);
                    }
                }
            }
            Ok(st)
        },
    }
}

/// Unstake `st_amount` staking tokens for `sender`: the venue burns them
/// and releases base units at the quoted rate. Fails with `InvalidAmount`
/// for a non-positive request, a redemption that truncates to nothing, or
/// overflow, and with `InsufficientBalance` when the sender holds fewer
/// staking tokens; the venue is untouched on failure.
pub fn unstake_tokens(pool: &mut StakingPool, sender: u32, st_amount: i128) -> (r: Result<
    i128,
    VaultError,
>)
    requires
        old(pool).wf(),
    ensures
        final(pool).wf(),
        final(pool).rate_base == old(pool).rate_base,
        final(pool).rate_st == old(pool).rate_st,
        match r {
            Ok(base) => {
                &&& 0 < st_amount <= spec_amount_of(old(pool).balances@, sender)
                &&& base == spec_st_redeemed(
                    old(pool).rate_base as int,
                    old(pool).rate_st as int,
                    st_amount as int,
                )
                &&& base > 0
                &&& spec_amount_of(final(pool).balances@, sender) == spec_amount_of(
                    old(pool).balances@,
                    sender,
                ) - st_amount
                &&& forall|u: u32|
                    u != sender ==> #[trigger] spec_amount_of(final(pool).balances@, u) == spec_amount_of(
                        old(pool).balances@,
                        u,
                    )
            },
            Err(e) => {
                &&& *final(pool) == *old(pool)
                &&& (if st_amount <= 0 {
                    e == VaultError::InvalidAmount
                } else if spec_amount_of(old(pool).balances@, sender) < st_amount {
                    e == VaultError::InsufficientBalance
                } else {
                    e == VaultError::InvalidAmount && (st_amount * old(pool).rate_base
                        > i128::MAX || spec_st_redeemed(
                        old(pool).rate_base as int,
                        old(pool).rate_st as int,
                        st_amount as int,
                    ) <= 0)
                })
            },
        },
{
    if st_amount <= 0 {
        return Err(VaultError::InvalidAmount);
    }
    let ghost balances0 = pool.balances@;
    let i = match find_entry(&pool.balances, sender) {
        Some(i) => i,
        None => {
            proof {
                lemma_amount_absent(balances0, sender);
            }
            return Err(VaultError::InsufficientBalance);
        },
    };
    let entry = pool.balances[i];
    proof {
        lemma_amount_prefix(balances0, i as int, sender);
    }
    if entry.amount < st_amount {
        return Err(VaultError::InsufficientBalance);
    }
    let prod = match st_amount.checked_mul(pool.rate_base) {
        Some(v) => v,
        None => {
            return Err(VaultError::InvalidAmount);
        },
    };
    proof {
        vstd::arithmetic::mul::lemma_mul_nonnegative(st_amount as int, pool.rate_base as int);
        vstd::arithmetic::div_mod::lemma_div_pos_is_pos(prod as int, pool.rate_st as int);
    }
    let base = prod / pool.rate_st;
    if base <= 0 {
        return Err(VaultError::InvalidAmount);
    }
    if entry.amount == st_amount {
        pool.balances.remove(i);
        proof {
            assert forall|j: int|
                0 <= j < balances0.len() && j != i implies (#[trigger] balances0[j]).user
                != balances0[i as int].user by {
                if j < i {
                    assert(balances0[j].user != balances0[i as int].user);
                }
            }
            lemma_entries_distinct_remove(balances0, i as int);
            lemma_amount_remove(balances0, i as int, sender);
            assert forall|u: u32| u != sender implies spec_amount_of(pool.balances@, u) == spec_amount_of(
                balances0,
                u,
            ) by {
                lemma_amount_remove(balances0, i as int, u);
            }
        }
    } else {
        let updated = AmountEntry { user: sender, amount: entry.amount - st_amount };
        pool.balances.set(i, updated);
        proof {
            lemma_amount_update(balances0, i as int, updated, sender);
            assert forall|u: u32| u != sender implies spec_amount_of(pool.balances@, u) == spec_amount_of(
                balances0,
                u,
            ) by {
                lemma_amount_update(balances0, i as int, updated, u);
            }
            assert forall|p: int, q: int|
                0 <= p < q < pool.balances@.len() implies (#[trigger] pool.balances@[p]).user
                != (#[trigger] pool.balances@[q]).user by {
                assert(balances0[p].user != balances0[q].user);
            }
        }
    }
    Ok(base)
}

/// The venue's quoted exchange rate, as `(base, st)`.
pub fn get_staking_rate(pool: &StakingPool) -> (r: Result<(i128, i128), VaultError>)
    ensures
        r == Ok::<(i128, i128), VaultError>((pool.rate_base, pool.rate_st)),
{
    Ok((pool.rate_base, pool.rate_st))
}

/// The staking-token balance the venue holds for `user`.
pub fn get_staked_balance(pool: &StakingPool, user: u32) -> (r: Result<i128, VaultError>)
    ensures
        r == Ok::<i128, VaultError>(spec_amount_of(pool.balances@, user) as i128),
        spec_amount_of(pool.balances@, user) <= i128::MAX,
{
    let ghost balances0 = pool.balances@;
    match find_entry(&pool.balances, user) {
        Some(i) => {
            proof {
                lemma_amount_prefix(balances0, i as int, user);
            }
            Ok(pool.balances[i].amount)
        },
        None => {
            proof {
                lemma_amount_absent(balances0, user);
            }
            Ok(0)
        },
    }
}

/// A staking pool that holds staked tokens one-to-one: staking `x` credits
/// exactly `x`, unstaking returns exactly what is asked, and a record is
/// deleted outright when its stake reaches zero.
#[derive(Debug)]
pub struct MockStakingPool {
    /// The staked token; absent until `initialize` has run.
    pub token: Option<u32>,
    /// Sum of all stakes.
    pub total_staked: i128,
    /// Per-staker stakes.
    pub stakes: Vec<AmountEntry>,
}

impl MockStakingPool {
    /// Well-formedness: unique stakers, positive stakes, and a total that is
    /// exactly their sum.
    pub open spec fn wf(self) -> bool {
        &&& entries_distinct(self.stakes@)
        &&& forall|k: int| 0 <= k < self.stakes@.len() ==> (#[trigger] self.stakes@[k]).amount > 0
        &&& sum_i128(entry_amounts(self.stakes@)) == self.total_staked
        &&& (self.token is None ==> self.stakes@.len() == 0 && self.total_staked == 0)
    }

    /// A fresh, uninitialized pool.
    pub fn new() -> (r: MockStakingPool)
        ensures
            r.wf(),
            r.token is None,
    {
        MockStakingPool { token: None, total_staked: 0, stakes: Vec::new() }
    }

    /// Initialize the pool with the token it stakes. A second
    /// initialization is the caller's error and is excluded here.
    pub fn initialize(&mut self, token: u32)
        requires
            old(self).wf(),
            old(self).token is None,
        ensures
            final(self).wf(),
            final(self).token == Some(token),
            final(self).total_staked == 0,
            final(self).stakes@.len() == 0,
    {
        self.token = Some(token);
        self.total_staked = 0;
    }

    /// Stake `amount` for `from`, one-to-one; returns the amount staked.
    /// Non-positive amounts and an uninitialized pool are the caller's
    /// error and are excluded here; the token transfer itself is the
    /// host's, performed alongside this call.
    pub fn stake_tokens(&mut self, from: u32, amount: i128) -> (r: i128)
        requires
            old(self).wf(),
            old(self).token is Some,
            amount > 0,
            spec_amount_of(old(self).stakes@, from) + amount <= i128::MAX,
            old(self).total_staked + amount <= i128::MAX,
        ensures
            final(self).wf(),
            final(self).token == old(self).token,
            r == amount,
            final(self).total_staked == old(self).total_staked + amount,
            spec_amount_of(final(self).stakes@, from) == spec_amount_of(old(self).stakes@, from) + amount,
            forall|u: u32|
                u != from ==> #[trigger] spec_amount_of(final(self).stakes@, u) == spec_amount_of(
                    old(self).stakes@,
                    u,
                ),
    {
        let ghost stakes0 = self.stakes@;
        match find_entry(&self.stakes, from) {
            Some(i) => {
                let entry = self.stakes[i];
                proof {
                    lemma_amount_prefix(stakes0, i as int, from);
                    assert(entry_amounts(stakes0)[i as int] == entry.amount);
                    crate::types::lemma_sum_element_bound(entry_amounts(stakes0), i as int);
                }
                let updated = AmountEntry { user: from, amount: entry.amount + amount };
                self.stakes.set(i, updated);
                proof {
                    lemma_amount_update(stakes0, i as int, updated, from);
                    assert forall|u: u32| u != from implies spec_amount_of(self.stakes@, u)
                        == spec_amount_of(stakes0, u) by {
                        lemma_amount_update(stakes0, i as int, updated, u);
                    }
                    assert forall|p: int, q: int|
                        0 <= p < q < self.stakes@.len() implies (#[trigger] self.stakes@[p]).user
                        != (#[trigger] self.stakes@[q]).user by {
                        assert(stakes0[p].user != stakes0[q].user);
                    }
                    assert(entry_amounts(self.stakes@) =~= entry_amounts(stakes0).update(
                        i as int,
                        updated.amount,
                    ));
                    lemma_sum_update(entry_amounts(stakes0), i as int, updated.amount);
                }
                self.total_staked = self.total_staked + amount;
                amount
            },
            None => {
                proof {
                    lemma_amount_absent(stakes0, from);
                    crate::types::lemma_sum_nonneg(entry_amounts(stakes0));
                }
                let entry = AmountEntry { user: from, amount };
                self.stakes.push(entry);
                proof {
                    lemma_amount_push(stakes0, entry, from);
                    assert forall|u: u32| u != from implies spec_amount_of(self.stakes@, u)
                        == spec_amount_of(stakes0, u) by {
                        lemma_amount_push(stakes0, entry, u);
                    }
                    assert forall|p: int, q: int|
                        0 <= p < q < self.stakes@.len() implies (#[trigger] self.stakes@[p]).user
                        != (#[trigger] self.stakes@[q]).user by {
                        if q < stakes0.len() {
                            assert(stakes0[p].user != stakes0[q].user);
                        } else {
                            assert(self.stakes@[q] == entry && self.stakes@[p] == stakes0[p]);
                        }
                    }
                    assert(entry_amounts(self.stakes@) =~= entry_amounts(stakes0).push(
                        entry.amount,
                    ));
                    lemma_sum_push(entry_amounts(stakes0), entry.amount);
                }
                self.total_staked = self.total_staked + amount;
                amount
            },
        }
    }

    /// Unstake `amount` for `from`, one-to-one; returns the amount
    /// unstaked and deletes the record when its stake reaches zero.
    /// Non-positive amounts, an uninitialized pool, and a stake smaller
    /// than the request are the caller's error and are excluded here.
    pub fn unstake_tokens(&mut self, from: u32, amount: i128) -> (r: i128)
        requires
            old(self).wf(),
            old(self).token is Some,
            amount > 0,
            spec_amount_of(old(self).stakes@, from) >= amount,
        ensures
            final(self).wf(),
            final(self).token == old(self).token,
            r == amount,
            final(self).total_staked == old(self).total_staked - amount,
            spec_amount_of(final(self).stakes@, from) == spec_amount_of(old(self).stakes@, from) - amount,
            forall|u: u32|
                u != from ==> #[trigger] spec_amount_of(final(self).stakes@, u) == spec_amount_of(
                    old(self).stakes@,
                    u,
                ),
    {
        let ghost stakes0 = self.stakes@;
        let i = match find_entry(&self.stakes, from) {
            Some(i) => i,
            None => {
                proof {
                    lemma_amount_absent(stakes0, from);
                }
                // Unreachable: the precondition grants a positive stake.
                return vstd::pervasive::unreached();
            },
        };
        let entry = self.stakes[i];
        proof {
            lemma_amount_prefix(stakes0, i as int, from);
            assert(entry_amounts(stakes0)[i as int] == entry.amount);
            crate::types::lemma_sum_element_bound(entry_amounts(stakes0), i as int);
        }
        if entry.amount == amount {
            self.stakes.remove(i);
            proof {
                assert forall|j: int|
                    0 <= j < stakes0.len() && j != i implies (#[trigger] stakes0[j]).user
                    != stakes0[i as int].user by {
                    if j < i {
                        assert(stakes0[j].user != stakes0[i as int].user);
                    }
                }
                lemma_entries_distinct_remove(stakes0, i as int);
                lemma_amount_remove(stakes0, i as int, from);
                assert forall|u: u32| u != from implies spec_amount_of(self.stakes@, u) == spec_amount_of(
                    stakes0,
                    u,
                ) by {
                    lemma_amount_remove(stakes0, i as int, u);
                }
                assert(entry_amounts(self.stakes@) =~= entry_amounts(stakes0).remove(i as int));
                lemma_sum_remove(entry_amounts(stakes0), i as int);
            }
        } else {
            let updated = AmountEntry { user: from, amount: entry.amount - amount };
            self.stakes.set(i, updated);
            proof {
                lemma_amount_update(stakes0, i as int, updated, from);
                assert forall|u: u32| u != from implies spec_amount_of(self.stakes@, u) == spec_amount_of(
                    stakes0,
                    u,
                ) by {
                    lemma_amount_update(stakes0, i as int, updated, u);
                }
                assert forall|p: int, q: int|
                    0 <= p < q < self.stakes@.len() implies (#[trigger] self.stakes@[p]).user
                    != (#[trigger] self.stakes@[q]).user by {
                    assert(stakes0[p].user != stakes0[q].user);
                }
                assert(entry_amounts(self.stakes@) =~= entry_amounts(stakes0).update(
                    i as int,
                    updated.amount,
                ));
                lemma_sum_update(entry_amounts(stakes0), i as int, updated.amount);
            }
        }
        self.total_staked = self.total_staked - amount;
        amount
    }

    /// The pool's fixed exchange rate: one-to-one, as a fixed-point value
    /// with six decimal places.
    pub fn get_staking_rate(&self) -> (r: i128)
        ensures
            r == 1_000_000int,
    {
        1_000_000
    }

    /// The stake recorded for `user`; zero when none is stored.
    pub fn get_user_stake(&self, user: u32) -> (r: i128)
        ensures
            r == spec_amount_of(self.stakes@, user),
    {
        let ghost stakes0 = self.stakes@;
        match find_entry(&self.stakes, user) {
            Some(i) => {
                proof {
                    lemma_amount_prefix(stakes0, i as int, user);
                }
                self.stakes[i].amount
            },
            None => {
                proof {
                    lemma_amount_absent(stakes0, user);
                }
                0
            },
        }
    }

    /// The sum of all stakes.
    pub fn get_total_staked(&self) -> (r: i128)
        ensures
            r == self.total_staked,
    {
        self.total_staked
    }

    /// The staked token. Calling before `initialize` is the caller's error
    /// and is excluded here.
    pub fn get_token(&self) -> (r: u32)
        requires
            self.token is Some,
        ensures
            Some(r) == self.token,
    {
        match self.token {
            Some(t) => t,
            None => {
                // Unreachable: the precondition grants an initialized pool.
                vstd::pervasive::unreached()
            },
        }
    }
}

} // verus!
