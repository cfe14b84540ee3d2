//! A pausable fungible token with owner-controlled minting: the asset
//! contract the vault custodies and moves.
//!
//! The ledger keeps per-account balances whose sum is exactly the total
//! supply, and per-(owner, spender) allowances. Authorization of callers
//! and allowance expiry belong to the host platform; the model stores the
//! allowance amount and leaves its lifetime to the host's ledger clock.
//! Transfers, burns and mints on a paused token, and moves beyond a balance
//! or an allowance, are the caller's error and are excluded by the
//! contracts here.

use vstd::prelude::*;
use vstd::string::StringExecFns;

use crate::types::{
    entries_distinct, entry_amounts, find_entry, lemma_amount_absent, lemma_amount_prefix,
    lemma_amount_push, lemma_amount_remove, lemma_amount_update, lemma_entries_distinct_remove,
    lemma_sum_element_bound, lemma_sum_nonneg, lemma_sum_push, lemma_sum_remove,
    lemma_sum_update, spec_amount_of, sum_i128, AmountEntry,
};

verus! {

/// One stored allowance: what `spender` may move out of `owner`'s balance.
#[derive(Clone, Copy, Debug, PartialEq, Eq, Structural)]
pub struct AllowanceEntry {
    pub owner: u32,
    pub spender: u32,
    pub amount: i128,
}

/// The allowance recorded for `(owner, spender)`: the first record carrying
/// that pair, or zero when none is stored.
pub open spec fn spec_allowance_of(s: Seq<AllowanceEntry>, owner: u32, spender: u32) -> int
    decreases s.len(),
{
    if s.len() == 0 {
        0
    } else if s[0].owner == owner && s[0].spender == spender {
        s[0].amount as int
    } else {
        spec_allowance_of(s.drop_first(), owner, spender)
    }
}

/// No two records carry the same (owner, spender) pair.
pub open spec fn allowance_pairs_distinct(s: Seq<AllowanceEntry>) -> bool {
    forall|i: int, j: int|
        0 <= i < j < s.len() ==> !((#[trigger] s[i]).owner == (#[trigger] s[j]).owner && s[i].spender
            == s[j].spender)
}

/// A pair with no record has a zero allowance.
proof fn lemma_allowance_absent(s: Seq<AllowanceEntry>, owner: u32, spender: u32)
    requires
        forall|j: int|
            0 <= j < s.len() ==> !((#[trigger] s[j]).owner == owner && s[j].spender == spender),
    ensures
        spec_allowance_of(s, owner, spender) == 0,
    decreases s.len(),
{
    if s.len() > 0 {
        lemma_allowance_absent(s.drop_first(), owner, spender);
    }
}

/// The allowance scan returns the record at the first matching index.
proof fn lemma_allowance_prefix(s: Seq<AllowanceEntry>, i: int, owner: u32, spender: u32)
    requires
        0 <= i < s.len(),
        s[i].owner == owner && s[i].spender == spender,
        forall|j: int|
            0 <= j < i ==> !((#[trigger] s[j]).owner == owner && s[j].spender == spender),
    ensures
        spec_allowance_of(s, owner, spender) == s[i].amount,
    decreases i,
{
    if i > 0 {
        lemma_allowance_prefix(s.drop_first(), i - 1, owner, spender);
    }
}

/// Replacing the first record of a pair moves that pair's allowance and
/// leaves every other pair's allowance alone.
proof fn lemma_allowance_update(
    s: Seq<AllowanceEntry>,
    i: int,
    e: AllowanceEntry,
    owner: u32,
    spender: u32,
)
    requires
        0 <= i < s.len(),
        s[i].owner == e.owner && s[i].spender == e.spender,
        forall|j: int|
            0 <= j < i ==> !((#[trigger] s[j]).owner == e.owner && s[j].spender == e.spender),
    ensures
        spec_allowance_of(s.update(i, e), owner, spender) == if owner == e.owner && spender
            == e.spender {
            e.amount as int
        } else {
            spec_allowance_of(s, owner, spender)
        },
    decreases s.len(),
{
    if i == 0 {
        assert(s.update(0, e).drop_first() =~= s.drop_first());
    } else {
        assert(s.update(i, e).drop_first() =~= s.drop_first().update(i - 1, e));
        lemma_allowance_update(s.drop_first(), i - 1, e, owner, spender);
    }
}

/// Appending a record for a new pair gives that pair its allowance and
/// leaves every other pair's allowance alone.
proof fn lemma_allowance_push(s: Seq<AllowanceEntry>, e: AllowanceEntry, owner: u32, spender: u32)
    requires
        forall|j: int|
            0 <= j < s.len() ==> !((#[trigger] s[j]).owner == e.owner && s[j].spender == e.spender),
    ensures
        spec_allowance_of(s.push(e), owner, spender) == if owner == e.owner && spender == e.spender {
            e.amount as int
        } else {
            spec_allowance_of(s, owner, spender)
        },
    decreases s.len(),
{
    if s.len() == 0 {
        assert(s.push(e)[0] == e);
        assert(s.push(e).drop_first() =~= Seq::<AllowanceEntry>::empty());
        if !(owner == e.owner && spender == e.spender) {
            assert(spec_allowance_of(s.push(e).drop_first(), owner, spender) == 0);
        }
    } else {
        assert(s.push(e)[0] == s[0]);
        assert(s.push(e).drop_first() =~= s.drop_first().push(e));
        assert forall|j: int|
            0 <= j < s.drop_first().len() implies !((#[trigger] s.drop_first()[j]).owner == e.owner
            && s.drop_first()[j].spender == e.spender) by {
            assert(s.drop_first()[j] == s[j + 1]);
        }
        lemma_allowance_push(s.drop_first(), e, owner, spender);
    }
}

/// Find the first record of an (owner, spender) pair.
fn find_allowance(allowances: &Vec<AllowanceEntry>, owner: u32, spender: u32) -> (r: Option<usize>)
    ensures
        match r {
            Some(i) => {
                &&& i < allowances@.len()
                &&& allowances@[i as int].owner == owner && allowances@[i as int].spender == spender
                &&& forall|j: int|
                    0 <= j < i ==> !((#[trigger] allowances@[j]).owner == owner
                        && allowances@[j].spender == spender)
            },
            None => forall|j: int|
                0 <= j < allowances@.len() ==> !((#[trigger] allowances@[j]).owner == owner
                    && allowances@[j].spender == spender),
        },
{
    let mut i: usize = 0;
    while i < allowances.len()
        invariant
            0 <= i <= allowances@.len(),
            forall|j: int|
                0 <= j < i ==> !((#[trigger] allowances@[j]).owner == owner
                    && allowances@[j].spender == spender),
        decreases allowances@.len() - i,
    {
        if allowances[i].owner == owner && allowances[i].spender == spender {
            return Some(i);
        }
        i = i + 1;
    }
    None
}

/// Errors of the example token contract.
#[derive(Clone, Copy, Debug, PartialEq, Eq, PartialOrd, Ord, Structural)]
pub enum ExampleContractError {
    Unauthorized,
}

/// Errors of the stable-coin deployment of the token.
#[derive(Clone, Copy, Debug, PartialEq, Eq, PartialOrd, Ord, Structural)]
pub enum USDCTokenError {
    Unauthorized,
}

/// A pausable fungible token: balances, allowances, supply, metadata, and
/// an owner who alone may mint, pause and unpause.
#[derive(Debug)]
pub struct ExampleContract {
    pub owner: u32,
    pub paused: bool,
    pub total_supply: i128,
    pub balances: Vec<AmountEntry>,
    pub allowances: Vec<AllowanceEntry>,
    pub decimals: u32,
    pub name: String,
    pub symbol: String,
}

impl ExampleContract {
    /// Well-formedness: unique accounts holding positive balances that sum
    /// to the supply, and unique allowance pairs with nonnegative amounts.
    pub open spec fn wf(self) -> bool {
        &&& entries_distinct(self.balances@)
        &&& forall|k: int|
            0 <= k < self.balances@.len() ==> (#[trigger] self.balances@[k]).amount > 0
        &&& sum_i128(entry_amounts(self.balances@)) == self.total_supply
        &&& allowance_pairs_distinct(self.allowances@)
        &&& forall|k: int|
            0 <= k < self.allowances@.len() ==> (#[trigger] self.allowances@[k]).amount >= 0
    }

    /// Construct the token with its metadata and the initial supply minted
    /// to the owner, as deployment does.
    pub fn new(owner: u32, initial_supply: i128, decimals: u32, name: String, symbol: String) -> (r:
        ExampleContract)
        requires
            initial_supply >= 0,
        ensures
            r.wf(),
            r.owner == owner,
            r.paused == false,
            r.total_supply == initial_supply,
            spec_amount_of(r.balances@, owner) == initial_supply,
            r.decimals == decimals,
            r.name@ == name@,
            r.symbol@ == symbol@,
    {
        let mut balances: Vec<AmountEntry> = Vec::new();
        if initial_supply > 0 {
            balances.push(AmountEntry { user: owner, amount: initial_supply });
            proof {
                assert(entry_amounts(balances@) =~= Seq::<i128>::empty().push(initial_supply));
                lemma_sum_push(Seq::<i128>::empty(), initial_supply);
            }
        }
        ExampleContract {
            owner,
            paused: false,
            total_supply: initial_supply,
            balances,
            allowances: Vec::new(),
            decimals,
            name,
            symbol,
        }
    }

    /// The balance of `account`; zero when none is recorded.
    pub fn balance(&self, account: u32) -> (r: i128)
        ensures
            r == spec_amount_of(self.balances@, account),
    {
        let ghost balances0 = self.balances@;
        match find_entry(&self.balances, account) {
            Some(i) => {
                proof {
                    lemma_amount_prefix(balances0, i as int, account);
                }
                self.balances[i].amount
            },
            None => {
                proof {
                    lemma_amount_absent(balances0, account);
                }
                0
            },
        }
    }

    /// The total supply: always the sum of all balances.
    pub fn total_supply(&self) -> (r: i128)
        ensures
            r == self.total_supply,
    {
        self.total_supply
    }

    /// Whether transfers, mints and burns are currently suspended.
    pub fn paused(&self) -> (r: bool)
        ensures
            r == self.paused,
    {
        self.paused
    }

    /// Suspend the token. Only the owner may; calling as anyone else is the
    /// caller's error and is excluded here.
    pub fn pause(&mut self, caller: u32)
        requires
            old(self).wf(),
            caller == old(self).owner,
        ensures
            final(self).wf(),
            *final(self) == (ExampleContract { paused: true, ..*old(self) }),
    {
        self.paused = true;
    }

    /// Lift the suspension. Only the owner may.
    pub fn unpause(&mut self, caller: u32)
        requires
            old(self).wf(),
            caller == old(self).owner,
        ensures
            final(self).wf(),
            *final(self) == (ExampleContract { paused: false, ..*old(self) }),
    {
        self.paused = false;
    }

    /// Take `amount` out of `account`'s balance, deleting the record when
    /// it empties.
    fn debit(&mut self, account: u32, amount: i128)
        requires
            old(self).wf(),
            0 < amount <= spec_amount_of(old(self).balances@, account),
        ensures
            final(self).wf(),
            final(self).total_supply == old(self).total_supply - amount,
            spec_amount_of(final(self).balances@, account) == spec_amount_of(
                old(self).balances@,
                account,
            ) - amount,
            forall|u: u32|
                u != account ==> #[trigger] spec_amount_of(final(self).balances@, u)
                    == spec_amount_of(old(self).balances@, u),
            final(self).allowances@ == old(self).allowances@,
            final(self).paused == old(self).paused,
            final(self).owner == old(self).owner,
            final(self).decimals == old(self).decimals,
            final(self).name@ == old(self).name@,
            final(self).symbol@ == old(self).symbol@,
    {
        let ghost balances0 = self.balances@;
        let i = match find_entry(&self.balances, account) {
            Some(i) => i,
            None => {
                proof {
                    lemma_amount_absent(balances0, account);
                }
                // Unreachable: the precondition grants a positive balance.
                vstd::pervasive::unreached()
            },
        };
        let entry = self.balances[i];
        proof {
            lemma_amount_prefix(balances0, i as int, account);
            assert(entry_amounts(balances0)[i as int] == entry.amount);
            lemma_sum_element_bound(entry_amounts(balances0), i as int);
        }
        if entry.amount == amount {
            self.balances.remove(i);
            proof {
                assert forall|j: int|
                    0 <= j < balances0.len() && j != i implies (#[trigger] balances0[j]).user
                    != balances0[i as int].user by {
                    if j < i {
                        assert(balances0[j].user != balances0[i as int].user);
                    }
                }
                lemma_entries_distinct_remove(balances0, i as int);
                lemma_amount_remove(balances0, i as int, account);
                assert forall|u: u32| u != account implies spec_amount_of(self.balances@, u)
                    == spec_amount_of(balances0, u) by {
                    lemma_amount_remove(balances0, i as int, u);
                }
                assert(entry_amounts(self.balances@) =~= entry_amounts(balances0).remove(i as int));
                lemma_sum_remove(entry_amounts(balances0), i as int);
            }
        } else {
            let updated = AmountEntry { user: account, amount: entry.amount - amount };
            self.balances.set(i, updated);
            proof {
                lemma_amount_update(balances0, i as int, updated, account);
                assert forall|u: u32| u != account implies spec_amount_of(self.balances@, u)
                    == spec_amount_of(balances0, u) by {
                    lemma_amount_update(balances0, i as int, updated, u);
                }
                assert forall|p: int, q: int|
                    0 <= p < q < self.balances@.len() implies (#[trigger] self.balances@[p]).user
                    != (#[trigger] self.balances@[q]).user by {
                    assert(balances0[p].user != balances0[q].user);
                }
                assert(entry_amounts(self.balances@) =~= entry_amounts(balances0).update(
                    i as int,
                    updated.amount,
                ));
                lemma_sum_update(entry_amounts(balances0), i as int, updated.amount);
            }
        }
        self.total_supply = self.total_supply - amount;
    }

    /// Add `amount` to `account`'s balance.
    fn credit(&mut self, account: u32, amount: i128)
        requires
            old(self).wf(),
            amount > 0,
            spec_amount_of(old(self).balances@, account) + amount <= i128::MAX,
            old(self).total_supply + amount <= i128::MAX,
        ensures
            final(self).wf(),
            final(self).total_supply == old(self).total_supply + amount,
            spec_amount_of(final(self).balances@, account) == spec_amount_of(
                old(self).balances@,
                account,
            ) + amount,
            forall|u: u32|
                u != account ==> #[trigger] spec_amount_of(final(self).balances@, u)
                    == spec_amount_of(old(self).balances@, u),
            final(self).allowances@ == old(self).allowances@,
            final(self).paused == old(self).paused,
            final(self).owner == old(self).owner,
            final(self).decimals == old(self).decimals,
            final(self).name@ == old(self).name@,
            final(self).symbol@ == old(self).symbol@,
    {
        let ghost balances0 = self.balances@;
        proof {
            lemma_sum_nonneg(entry_amounts(balances0));
        }
        match find_entry(&self.balances, account) {
            Some(i) => {
                let entry = self.balances[i];
                proof {
                    lemma_amount_prefix(balances0, i as int, account);
                    assert(entry_amounts(balances0)[i as int] == entry.amount);
                    lemma_sum_element_bound(entry_amounts(balances0), i as int);
                }
                let updated = AmountEntry { user: account, amount: entry.amount + amount };
                self.balances.set(i, updated);
                proof {
                    lemma_amount_update(balances0, i as int, updated, account);
                    assert forall|u: u32| u != account implies spec_amount_of(self.balances@, u)
                        == spec_amount_of(balances0, u) by {
                        lemma_amount_update(balances0, i as int, updated, u);
                    }
                    assert forall|p: int, q: int|
                        0 <= p < q < self.balances@.len() implies (
                    #[trigger] self.balances@[p]).user != (#[trigger] self.balances@[q]).user by {
                        assert(balances0[p].user != balances0[q].user);
                    }
                    assert(entry_amounts(self.balances@) =~= entry_amounts(balances0).update(
                        i as int,
                        updated.amount,
                    ));
                    lemma_sum_update(entry_amounts(balances0), i as int, updated.amount);
                }
            },
            None => {
                proof {
                    lemma_amount_absent(balances0, account);
                }
                let entry = AmountEntry { user: account, amount };
                self.balances.push(entry);
                proof {
                    lemma_amount_push(balances0, entry, account);
                    assert forall|u: u32| u != account implies spec_amount_of(self.balances@, u)
                        == spec_amount_of(balances0, u) by {
                        lemma_amount_push(balances0, entry, u);
                    }
                    assert forall|p: int, q: int|
                        0 <= p < q < self.balances@.len() implies (
                    #[trigger] self.balances@[p]).user != (#[trigger] self.balances@[q]).user by {
                        if q < balances0.len() {
                            assert(balances0[p].user != balances0[q].user);
                        } else {
                            assert(self.balances@[q] == entry && self.balances@[p] == balances0[p]);
                        }
                    }
                    assert(entry_amounts(self.balances@) =~= entry_amounts(balances0).push(
                        entry.amount,
                    ));
                    lemma_sum_push(entry_amounts(balances0), entry.amount);
                }
            },
        }
        self.total_supply = self.total_supply + amount;
    }

    /// Move `amount` from `from` to `to`. Requires an unpaused token, a
    /// positive amount within `from`'s balance, and room in `to`'s balance;
    /// violating any of these is the caller's error. Authorization of
    /// `from` is the host's.
    pub fn transfer(&mut self, from: u32, to: u32, amount: i128)
        requires
            old(self).wf(),
            !old(self).paused,
            0 < amount <= spec_amount_of(old(self).balances@, from),
            from != to ==> spec_amount_of(old(self).balances@, to) + amount <= i128::MAX,
        ensures
            final(self).wf(),
            final(self).total_supply == old(self).total_supply,
            spec_amount_of(final(self).balances@, from) == if from == to {
                spec_amount_of(old(self).balances@, from)
            } else {
                spec_amount_of(old(self).balances@, from) - amount
            },
            from != to ==> spec_amount_of(final(self).balances@, to) == spec_amount_of(
                old(self).balances@,
                to,
            ) + amount,
            forall|u: u32|
                u != from && u != to ==> #[trigger] spec_amount_of(final(self).balances@, u)
                    == spec_amount_of(old(self).balances@, u),
            final(self).allowances@ == old(self).allowances@,
            final(self).paused == old(self).paused,
            final(self).owner == old(self).owner,
    {
        if from == to {
            return ;
        }
        self.debit(from, amount);
        self.credit(to, amount);
    }

    /// Record an allowance for `spender` over `owner`'s balance. The
    /// expiry ledger accompanying it belongs to the host's clock and is
    /// not modelled; a nonnegative amount is required as the token itself
    /// requires.
    pub fn approve(&mut self, owner: u32, spender: u32, amount: i128, live_until_ledger: u32)
        requires
            old(self).wf(),
            amount >= 0,
        ensures
            final(self).wf(),
            spec_allowance_of(final(self).allowances@, owner, spender) == amount,
            forall|o: u32, s: u32|
                !(o == owner && s == spender) ==> #[trigger] spec_allowance_of(
                    final(self).allowances@,
                    o,
                    s,
                ) == spec_allowance_of(old(self).allowances@, o, s),
            final(self).balances@ == old(self).balances@,
            final(self).total_supply == old(self).total_supply,
            final(self).paused == old(self).paused,
            final(self).owner == old(self).owner,
    {
        let _ = live_until_ledger;
        let ghost allowances0 = self.allowances@;
        match find_allowance(&self.allowances, owner, spender) {
            Some(i) => {
                let updated = AllowanceEntry { owner, spender, amount };
                self.allowances.set(i, updated);
                proof {
                    lemma_allowance_update(allowances0, i as int, updated, owner, spender);
                    assert forall|o: u32, s: u32| !(o == owner && s == spender) implies
                        spec_allowance_of(self.allowances@, o, s) == spec_allowance_of(
                        allowances0,
                        o,
                        s,
                    ) by {
                        lemma_allowance_update(allowances0, i as int, updated, o, s);
                    }
                    assert forall|p: int, q: int|
                        0 <= p < q < self.allowances@.len() implies !((
                    #[trigger] self.allowances@[p]).owner == (#[trigger] self.allowances@[q]).owner
                        && self.allowances@[p].spender == self.allowances@[q].spender) by {
                        assert(!(allowances0[p].owner == allowances0[q].owner
                            && allowances0[p].spender == allowances0[q].spender));
                    }
                }
            },
            None => {
                let entry = AllowanceEntry { owner, spender, amount };
                self.allowances.push(entry);
                proof {
                    lemma_allowance_push(allowances0, entry, owner, spender);
                    assert forall|o: u32, s: u32| !(o == owner && s == spender) implies
                        spec_allowance_of(self.allowances@, o, s) == spec_allowance_of(
                        allowances0,
                        o,
                        s,
                    ) by {
                        lemma_allowance_push(allowances0, entry, o, s);
                    }
                    assert forall|p: int, q: int|
                        0 <= p < q < self.allowances@.len() implies !((
                    #[trigger] self.allowances@[p]).owner == (#[trigger] self.allowances@[q]).owner
                        && self.allowances@[p].spender == self.allowances@[q].spender) by {
                        if q < allowances0.len() {
                            assert(!(allowances0[p].owner == allowances0[q].owner
                                && allowances0[p].spender == allowances0[q].spender));
                        } else {
                            assert(self.allowances@[q] == entry && self.allowances@[p]
                                == allowances0[p]);
                        }
                    }
                }
            },
        }
    }

    /// The allowance recorded for `(owner, spender)`.
    pub fn allowance(&self, owner: u32, spender: u32) -> (r: i128)
        ensures
            r == spec_allowance_of(self.allowances@, owner, spender),
    {
        let ghost allowances0 = self.allowances@;
        match find_allowance(&self.allowances, owner, spender) {
            Some(i) => {
                proof {
                    lemma_allowance_prefix(allowances0, i as int, owner, spender);
                }
                self.allowances[i].amount
            },
            None => {
                proof {
                    lemma_allowance_absent(allowances0, owner, spender);
                }
                0
            },
        }
    }

    /// Move `amount` from `from` to `to` on `spender`'s authority,
    /// spending that much of the recorded allowance.
    pub fn transfer_from(&mut self, spender: u32, from: u32, to: u32, amount: i128)
        requires
            old(self).wf(),
            !old(self).paused,
            0 < amount <= spec_amount_of(old(self).balances@, from),
            amount <= spec_allowance_of(old(self).allowances@, from, spender),
            from != to ==> spec_amount_of(old(self).balances@, to) + amount <= i128::MAX,
        ensures
            final(self).wf(),
            final(self).total_supply == old(self).total_supply,
            spec_amount_of(final(self).balances@, from) == if from == to {
                spec_amount_of(old(self).balances@, from)
            } else {
                spec_amount_of(old(self).balances@, from) - amount
            },
            from != to ==> spec_amount_of(final(self).balances@, to) == spec_amount_of(
                old(self).balances@,
                to,
            ) + amount,
            forall|u: u32|
                u != from && u != to ==> #[trigger] spec_amount_of(final(self).balances@, u)
                    == spec_amount_of(old(self).balances@, u),
            spec_allowance_of(final(self).allowances@, from, spender) == spec_allowance_of(
                old(self).allowances@,
                from,
                spender,
            ) - amount,
            final(self).paused == old(self).paused,
            final(self).owner == old(self).owner,
    {
        let current = self.allowance(from, spender);
        self.approve(from, spender, current - amount, 0);
        if from != to {
            self.debit(from, amount);
            self.credit(to, amount);
        }
    }

    /// Mint `amount` to `account`. Only the owner may, and only while the
    /// token is not paused; both are the caller's error otherwise.
    pub fn mint(&mut self, caller: u32, account: u32, amount: i128)
        requires
            old(self).wf(),
            !old(self).paused,
            caller == old(self).owner,
            amount > 0,
            spec_amount_of(old(self).balances@, account) + amount <= i128::MAX,
            old(self).total_supply + amount <= i128::MAX,
        ensures
            final(self).wf(),
            final(self).total_supply == old(self).total_supply + amount,
            spec_amount_of(final(self).balances@, account) == spec_amount_of(
                old(self).balances@,
                account,
            ) + amount,
            forall|u: u32|
                u != account ==> #[trigger] spec_amount_of(final(self).balances@, u)
                    == spec_amount_of(old(self).balances@, u),
            final(self).paused == old(self).paused,
            final(self).owner == old(self).owner,
    {
        self.credit(account, amount);
    }

    /// Burn `amount` out of `from`'s balance, shrinking the supply.
    pub fn burn(&mut self, from: u32, amount: i128)
        requires
            old(self).wf(),
            !old(self).paused,
            0 < amount <= spec_amount_of(old(self).balances@, from),
        ensures
            final(self).wf(),
            final(self).total_supply == old(self).total_supply - amount,
            spec_amount_of(final(self).balances@, from) == spec_amount_of(
                old(self).balances@,
                from,
            ) - amount,
            forall|u: u32|
                u != from ==> #[trigger] spec_amount_of(final(self).balances@, u)
                    == spec_amount_of(old(self).balances@, u),
            final(self).paused == old(self).paused,
            final(self).owner == old(self).owner,
    {
        self.debit(from, amount);
    }

    /// Burn `amount` out of `from`'s balance on `spender`'s authority.
    pub fn burn_from(&mut self, spender: u32, from: u32, amount: i128)
        requires
            old(self).wf(),
            !old(self).paused,
            0 < amount <= spec_amount_of(old(self).balances@, from),
            amount <= spec_allowance_of(old(self).allowances@, from, spender),
        ensures
            final(self).wf(),
            final(self).total_supply == old(self).total_supply - amount,
            spec_amount_of(final(self).balances@, from) == spec_amount_of(
                old(self).balances@,
                from,
            ) - amount,
            forall|u: u32|
                u != from ==> #[trigger] spec_amount_of(final(self).balances@, u)
                    == spec_amount_of(old(self).balances@, u),
            spec_allowance_of(final(self).allowances@, from, spender) == spec_allowance_of(
                old(self).allowances@,
                from,
                spender,
            ) - amount,
    {
        let current = self.allowance(from, spender);
        self.approve(from, spender, current - amount, 0);
        self.debit(from, amount);
    }

    /// Number of decimal places in the token's display convention.
    pub fn decimals(&self) -> (r: u32)
        ensures
            r == self.decimals,
    {
        self.decimals
    }

    /// Display name.
    pub fn name(&self) -> (r: &String)
        ensures
            r@ == self.name@,
    {
        &self.name
    }

    /// Ticker symbol.
    pub fn symbol(&self) -> (r: &String)
        ensures
            r@ == self.symbol@,
    {
        &self.symbol
    }
}

/// The stable-coin deployment of the token: the same ledger under USDC
/// metadata, with the owner address also queryable.
#[derive(Debug)]
pub struct USDCToken {
    pub token: ExampleContract,
}

impl USDCToken {
    /// Construct the stable coin: six decimal places, the USDC name and
    /// symbol, and the initial supply minted to the owner.
    pub fn new(owner: u32, initial_supply: i128) -> (r: USDCToken)
        requires
            initial_supply >= 0,
        ensures
            r.token.wf(),
            r.token.owner == owner,
            r.token.total_supply == initial_supply,
            spec_amount_of(r.token.balances@, owner) == initial_supply,
            r.token.decimals == 6,
    {
        USDCToken {
            token: ExampleContract::new(
                owner,
                initial_supply,
                6,
                String::from_str("USD Coin"),
                String::from_str("USDC"),
            ),
        }
    }

    /// The total supply.
    pub fn total_supply(&self) -> (r: i128)
        ensures
            r == self.token.total_supply,
    {
        self.token.total_supply()
    }

    /// Mint `amount` to `account`; owner-only, as on the inner ledger.
    pub fn mint(&mut self, caller: u32, account: u32, amount: i128)
        requires
            old(self).token.wf(),
            !old(self).token.paused,
            caller == old(self).token.owner,
            amount > 0,
            spec_amount_of(old(self).token.balances@, account) + amount <= i128::MAX,
            old(self).token.total_supply + amount <= i128::MAX,
        ensures
            final(self).token.wf(),
            final(self).token.total_supply == old(self).token.total_supply + amount,
            spec_amount_of(final(self).token.balances@, account) == spec_amount_of(
                old(self).token.balances@,
                account,
            ) + amount,
    {
        self.token.mint(caller, account, amount);
    }

    /// The owner address.
    pub fn owner(&self) -> (r: u32)
        ensures
            r == self.token.owner,
    {
        self.token.owner
    }
}

} // verus!
