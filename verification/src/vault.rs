//! The vault ledger: configuration, aggregate state, and per-depositor
//! positions, with share accounting for deposits and withdrawals.
//!
//! Central invariants, kept by every operation:
//! - `total_shares` and `total_value` are nonnegative and are zero together;
//! - depositors are unique, every stored position holds a positive share
//!   count, and the share counts sum to exactly `total_shares`;
//! - both share conversions truncate toward zero, so rounding remainders
//!   always stay with the vault, never with the depositor.
//!
//! Authorization and asset custody live with the host: callers hand in the
//! authenticated caller identifier and the current timestamp, and move the
//! tokens themselves only after the ledger call has succeeded.

use vstd::arithmetic::div_mod::{
    lemma_div_by_multiple, lemma_div_is_ordered, lemma_div_pos_is_pos, lemma_fundamental_div_mod,
};
use vstd::prelude::*;

use crate::amm::swap_output_spec;
use crate::engine;
use crate::errors::VaultError;
use crate::pool::{
    first_pool_for_pair, get_pool_for_pair, lemma_first_pool_unique, pool_after_swap,
    spec_swap_result, swap_via_router, Pool,
};
use crate::rebalance::{
    execute_liquidity_only, execute_rebalance, execute_rebalance_only, execute_stake_only,
};
use crate::staking::StakingPool;
use crate::types::{
    lemma_sum_element_bound, lemma_sum_nonneg, lemma_sum_push, lemma_sum_remove, lemma_sum_update,
    sum_i128, LiquidityPosition, RuleAction, StakingPosition, UserPosition, VaultConfig,
    VaultState,
};

verus! {

/// One stored depositor record.
#[derive(Clone, Copy, Debug, PartialEq, Eq, Structural)]
pub struct PositionEntry {
    pub user: u32,
    pub position: UserPosition,
}

/// The position of `user`: the first record carrying that identifier, or the
/// empty position when none is stored.
pub open spec fn spec_position(s: Seq<PositionEntry>, user: u32) -> UserPosition
    decreases s.len(),
{
    if s.len() == 0 {
        UserPosition { shares: 0, last_deposit: 0 }
    } else if s[0].user == user {
        s[0].position
    } else {
        spec_position(s.drop_first(), user)
    }
}

/// No two records belong to the same depositor.
pub open spec fn users_distinct(s: Seq<PositionEntry>) -> bool {
    forall|i: int, j: int|
        0 <= i < j < s.len() ==> (#[trigger] s[i]).user != (#[trigger] s[j]).user
}

/// The stored share counts, in record order.
pub open spec fn shares_seq(s: Seq<PositionEntry>) -> Seq<i128> {
    s.map_values(|e: PositionEntry| e.position.shares)
}

/// A user with no record has the empty position.
proof fn lemma_position_absent(s: Seq<PositionEntry>, user: u32)
    requires
        forall|j: int| 0 <= j < s.len() ==> (#[trigger] s[j]).user != user,
    ensures
        spec_position(s, user) == (UserPosition { shares: 0, last_deposit: 0 }),
    decreases s.len(),
{
    if s.len() > 0 {
        lemma_position_absent(s.drop_first(), user);
    }
}

/// Replacing the first record of `e.user` moves that user's position to
/// `e.position` and leaves every other user's position alone.
proof fn lemma_position_update(s: Seq<PositionEntry>, i: int, e: PositionEntry, u: u32)
    requires
        0 <= i < s.len(),
        s[i].user == e.user,
        forall|j: int| 0 <= j < i ==> (#[trigger] s[j]).user != e.user,
    ensures
        spec_position(s.update(i, e), u) == if u == e.user {
            e.position
        } else {
            spec_position(s, u)
        },
    decreases s.len(),
{
    if i == 0 {
        assert(s.update(0, e).drop_first() =~= s.drop_first());
    } else {
        assert(s.update(i, e).drop_first() =~= s.drop_first().update(i - 1, e));
        lemma_position_update(s.drop_first(), i - 1, e, u);
    }
}

/// Appending a record for a new user gives that user its position and leaves
/// every other user's position alone.
proof fn lemma_position_push(s: Seq<PositionEntry>, e: PositionEntry, u: u32)
    requires
        forall|j: int| 0 <= j < s.len() ==> (#[trigger] s[j]).user != e.user,
    ensures
        spec_position(s.push(e), u) == if u == e.user {
            e.position
        } else {
            spec_position(s, u)
        },
    decreases s.len(),
{
    if s.len() == 0 {
        assert(s.push(e)[0] == e);
        assert(s.push(e).drop_first() =~= Seq::<PositionEntry>::empty());
        if u != e.user {
            assert(spec_position(s.push(e).drop_first(), u) == (UserPosition {
                shares: 0,
                last_deposit: 0,
            }));
        }
    } else {
        assert(s.push(e)[0] == s[0]);
        assert(s.push(e).drop_first() =~= s.drop_first().push(e));
        assert forall|j: int|
            0 <= j < s.drop_first().len() implies (#[trigger] s.drop_first()[j]).user
            != e.user by {
            assert(s.drop_first()[j] == s[j + 1]);
        }
        lemma_position_push(s.drop_first(), e, u);
    }
}

/// Removing the only record of a user empties that user's position and
/// leaves every other user's position alone.
proof fn lemma_position_remove(s: Seq<PositionEntry>, i: int, u: u32)
    requires
        0 <= i < s.len(),
        forall|j: int| 0 <= j < s.len() && j != i ==> (#[trigger] s[j]).user != s[i].user,
    ensures
        spec_position(s.remove(i), u) == if u == s[i].user {
            UserPosition { shares: 0, last_deposit: 0 }
        } else {
            spec_position(s, u)
        },
    decreases s.len(),
{
    if i == 0 {
        assert(s.remove(0) =~= s.drop_first());
        if u == s[0].user {
            lemma_position_absent(s.drop_first(), u);
        }
    } else {
        assert(s.remove(i).drop_first() =~= s.drop_first().remove(i - 1));
        lemma_position_remove(s.drop_first(), i - 1, u);
    }
}

/// Shares minted for depositing `amount` into a vault holding `ts` shares
/// over `tv` value: one-to-one on the very first deposit, proportional
/// (truncating toward zero) afterwards.
pub open spec fn spec_mint_shares(ts: int, tv: int, amount: int) -> int {
    if ts == 0 {
        amount
    } else {
        (amount * ts) / tv
    }
}

/// Whether the deposit arithmetic stays within `i128`.
pub open spec fn spec_deposit_fits(ts: int, tv: int, amount: int) -> bool {
    &&& (ts > 0 ==> amount * ts <= i128::MAX)
    &&& ts + spec_mint_shares(ts, tv, amount) <= i128::MAX
    &&& tv + amount <= i128::MAX
}

/// Base-asset value released for burning `shares` against a vault holding
/// `ts` shares over `tv` value: proportional, truncating toward zero.
pub open spec fn spec_withdraw_amount(ts: int, tv: int, shares: int) -> int {
    (shares * tv) / ts
}

/// Whether the withdrawal arithmetic stays within `i128`.
pub open spec fn spec_withdraw_fits(tv: int, shares: int) -> bool {
    shares * tv <= i128::MAX
}

/// Everything a successful deposit of `amount` (already converted to the
/// base asset) changes, and everything it leaves alone: `minted` new shares
/// at the stored rate, both aggregates grown, the depositor's position
/// stamped with `now`, and no other user's position touched. A depositor
/// whose mint rounds to zero and who had no record keeps none.
pub open spec fn spec_deposit_applied(
    pre: VaultContract,
    post: VaultContract,
    user: u32,
    amount: int,
    minted: int,
    now: u64,
) -> bool {
    let ts = pre.state.total_shares as int;
    let tv = pre.state.total_value as int;
    let oldp = spec_position(pre.positions@, user);
    &&& spec_deposit_fits(ts, tv, amount)
    &&& minted == spec_mint_shares(ts, tv, amount)
    &&& post.state.total_shares == ts + minted
    &&& post.state.total_value == tv + amount
    &&& post.state.last_rebalance == pre.state.last_rebalance
    &&& post.config == pre.config
    &&& post.staking_position == pre.staking_position
    &&& post.liquidity_position == pre.liquidity_position
    &&& spec_position(post.positions@, user) == (if minted > 0 || oldp.shares > 0 {
        UserPosition { shares: (oldp.shares + minted) as i128, last_deposit: now }
    } else {
        oldp
    })
    &&& forall|u: u32|
        u != user ==> #[trigger] spec_position(post.positions@, u) == spec_position(
            pre.positions@,
            u,
        )
}

/// Everything a successful withdrawal of `shares` changes: `amount` of the
/// base asset released at the stored rate, both aggregates shrunk, the
/// depositor's record shrunk — or deleted outright when its share count
/// reaches zero — and no other user's position touched.
pub open spec fn spec_withdraw_applied(
    pre: VaultContract,
    post: VaultContract,
    user: u32,
    shares: int,
    amount: int,
) -> bool {
    let ts = pre.state.total_shares as int;
    let tv = pre.state.total_value as int;
    let oldp = spec_position(pre.positions@, user);
    &&& spec_withdraw_fits(tv, shares)
    &&& 0 < shares <= oldp.shares
    &&& amount == spec_withdraw_amount(ts, tv, shares)
    &&& post.state.total_shares == ts - shares
    &&& post.state.total_value == tv - amount
    &&& post.state.last_rebalance == pre.state.last_rebalance
    &&& post.config == pre.config
    &&& post.staking_position == pre.staking_position
    &&& post.liquidity_position == pre.liquidity_position
    &&& spec_position(post.positions@, user) == (if oldp.shares == shares {
        UserPosition { shares: 0, last_deposit: 0 }
    } else {
        UserPosition { shares: (oldp.shares - shares) as i128, last_deposit: oldp.last_deposit }
    })
    &&& forall|u: u32|
        u != user ==> #[trigger] spec_position(post.positions@, u) == spec_position(
            pre.positions@,
            u,
        )
}

/// The pooled-asset vault: one instance per deployed vault.
#[derive(Debug)]
pub struct VaultContract {
    /// Configuration; absent until `initialize` has run.
    pub config: Option<VaultConfig>,
    /// Aggregate share and value accounting.
    pub state: VaultState,
    /// Stored depositor records.
    pub positions: Vec<PositionEntry>,
    /// Open staking venue snapshot, if any.
    pub staking_position: Option<StakingPosition>,
    /// Open liquidity venue snapshot, if any.
    pub liquidity_position: Option<LiquidityPosition>,
}

impl VaultContract {
    /// Well-formedness of the ledger; established by construction and kept
    /// by every operation. The summation clause is the conservation law:
    /// stored share counts always add up to exactly `total_shares`.
    pub open spec fn wf(self) -> bool {
        &&& self.state.total_shares >= 0
        &&& self.state.total_value >= 0
        &&& (self.state.total_shares == 0 <==> self.state.total_value == 0)
        &&& users_distinct(self.positions@)
        &&& forall|k: int|
            0 <= k < self.positions@.len() ==> (#[trigger] self.positions@[k]).position.shares > 0
        &&& sum_i128(shares_seq(self.positions@)) == self.state.total_shares
        &&& match self.config {
            Some(cfg) => cfg.assets@.len() > 0,
            None => self.state.total_shares == 0 && self.state.total_value == 0
                && self.positions@.len() == 0,
        }
    }

    /// A fresh, uninitialized vault.
    pub fn new() -> (r: VaultContract)
        ensures
            r.wf(),
            r.config is None,
            r.state == (VaultState { total_shares: 0, total_value: 0, last_rebalance: 0 }),
            r.positions@.len() == 0,
            r.staking_position is None,
            r.liquidity_position is None,
    {
        VaultContract {
            config: None,
            state: VaultState { total_shares: 0, total_value: 0, last_rebalance: 0 },
            positions: Vec::new(),
            staking_position: None,
            liquidity_position: None,
        }
    }

    /// Initialize the vault once. Rejects a second initialization and a
    /// configuration with no assets; on success the accounting starts empty
    /// and the rebalance clock starts at `now`.
    pub fn initialize(&mut self, config: VaultConfig, now: u64) -> (r: Result<(), VaultError>)
        requires
            old(self).wf(),
        ensures
            final(self).wf(),
            match r {
                Ok(()) => {
                    &&& old(self).config is None
                    &&& config.assets@.len() > 0
                    &&& final(self).config == Some(config)
                    &&& final(self).state == (VaultState {
                        total_shares: 0,
                        total_value: 0,
                        last_rebalance: now,
                    })
                    &&& final(self).positions@ == old(self).positions@
                    &&& final(self).staking_position == old(self).staking_position
                    &&& final(self).liquidity_position == old(self).liquidity_position
                },
                Err(e) => {
                    &&& *final(self) == *old(self)
                    &&& (if old(self).config is Some {
                        e == VaultError::AlreadyInitialized
                    } else {
                        e == VaultError::InvalidConfiguration && config.assets@.len() == 0
                    })
                },
            },
    {
        if self.config.is_some() {
            return Err(VaultError::AlreadyInitialized);
        }
        if config.assets.len() == 0 {
            return Err(VaultError::InvalidConfiguration);
        }
        proof {
            lemma_sum_nonneg(shares_seq(self.positions@));
        }
        self.state = VaultState { total_shares: 0, total_value: 0, last_rebalance: now };
        self.config = Some(config);
        Ok(())
    }

    /// Current aggregate state.
    pub fn get_state(&self) -> (r: VaultState)
        ensures
            r == self.state,
    {
        self.state
    }

    /// Index of the record belonging to `user`, if one is stored.
    fn find_position(&self, user: u32) -> (r: Option<usize>)
        ensures
            match r {
                Some(i) => {
                    &&& i < self.positions@.len()
                    &&& self.positions@[i as int].user == user
                    &&& forall|j: int|
                        0 <= j < i ==> (#[trigger] self.positions@[j]).user != user
                },
                None => forall|j: int|
                    0 <= j < self.positions@.len() ==> (#[trigger] self.positions@[j]).user
                        != user,
            },
    {
        let mut i: usize = 0;
        while i < self.positions.len()
            invariant
                0 <= i <= self.positions@.len(),
                forall|j: int| 0 <= j < i ==> (#[trigger] self.positions@[j]).user != user,
            decreases self.positions@.len() - i,
        {
            if self.positions[i].user == user {
                return Some(i);
            }
            i = i + 1;
        }
        None
    }

    /// The position of `user`; the empty position when none is stored.
    pub fn get_position(&self, user: u32) -> (r: UserPosition)
        ensures
            r == spec_position(self.positions@, user),
    {
        match self.find_position(user) {
            Some(i) => {
                let p = self.positions[i].position;
                proof {
                    lemma_position_prefix(self.positions@, i as int, user);
                }
                p
            },
            None => {
                proof {
                    lemma_position_absent(self.positions@, user);
                }
                UserPosition { shares: 0, last_deposit: 0 }
            },
        }
    }

    /// The configuration, or `NotInitialized`.
    pub fn get_config(&self) -> (r: Result<&VaultConfig, VaultError>)
        ensures
            match r {
                Ok(cfg) => self.config == Some(*cfg),
                Err(e) => e == VaultError::NotInitialized && self.config is None,
            },
    {
        match &self.config {
            Some(cfg) => Ok(cfg),
            None => Err(VaultError::NotInitialized),
        }
    }

    /// Owner-only update of the swap router address.
    pub fn set_router(&mut self, caller: u32, router: u32) -> (r: Result<(), VaultError>)
        requires
            old(self).wf(),
        ensures
            final(self).wf(),
            match r {
                Ok(()) => {
                    &&& old(self).config is Some
                    &&& caller == old(self).config->0.owner
                    &&& final(self).config == Some(
                        VaultConfig { router_address: Some(router), ..old(self).config->0 },
                    )
                    &&& final(self).state == old(self).state
                    &&& final(self).positions@ == old(self).positions@
                    &&& final(self).staking_position == old(self).staking_position
                    &&& final(self).liquidity_position == old(self).liquidity_position
                },
                Err(e) => {
                    &&& *final(self) == *old(self)
                    &&& (if old(self).config is None {
                        e == VaultError::NotInitialized
                    } else {
                        e == VaultError::Unauthorized && caller != old(self).config->0.owner
                    })
                },
            },
    {
        let cfg = match self.config.take() {
            Some(cfg) => cfg,
            None => {
                return Err(VaultError::NotInitialized);
            },
        };
        if caller != cfg.owner {
            self.config = Some(cfg);
            return Err(VaultError::Unauthorized);
        }
        self.config = Some(VaultConfig { router_address: Some(router), ..cfg });
        Ok(())
    }

    /// Owner-only update of the staking venue address.
    pub fn set_staking_pool(&mut self, caller: u32, staking_pool: u32) -> (r: Result<
        (),
        VaultError,
    >)
        requires
            old(self).wf(),
        ensures
            final(self).wf(),
            match r {
                Ok(()) => {
                    &&& old(self).config is Some
                    &&& caller == old(self).config->0.owner
                    &&& final(self).config == Some(
                        VaultConfig {
                            staking_pool_address: Some(staking_pool),
                            ..old(self).config->0
                        },
                    )
                    &&& final(self).state == old(self).state
                    &&& final(self).positions@ == old(self).positions@
                    &&& final(self).staking_position == old(self).staking_position
                    &&& final(self).liquidity_position == old(self).liquidity_position
                },
                Err(e) => {
                    &&& *final(self) == *old(self)
                    &&& (if old(self).config is None {
                        e == VaultError::NotInitialized
                    } else {
                        e == VaultError::Unauthorized && caller != old(self).config->0.owner
                    })
                },
            },
    {
        let cfg = match self.config.take() {
            Some(cfg) => cfg,
            None => {
                return Err(VaultError::NotInitialized);
            },
        };
        if caller != cfg.owner {
            self.config = Some(cfg);
            return Err(VaultError::Unauthorized);
        }
        self.config = Some(VaultConfig { staking_pool_address: Some(staking_pool), ..cfg });
        Ok(())
    }

    /// Owner-only update of the pool factory address.
    pub fn set_factory(&mut self, caller: u32, factory: u32) -> (r: Result<(), VaultError>)
        requires
            old(self).wf(),
        ensures
            final(self).wf(),
            match r {
                Ok(()) => {
                    &&& old(self).config is Some
                    &&& caller == old(self).config->0.owner
                    &&& final(self).config == Some(
                        VaultConfig { factory_address: Some(factory), ..old(self).config->0 },
                    )
                    &&& final(self).state == old(self).state
                    &&& final(self).positions@ == old(self).positions@
                    &&& final(self).staking_position == old(self).staking_position
                    &&& final(self).liquidity_position == old(self).liquidity_position
                },
                Err(e) => {
                    &&& *final(self) == *old(self)
                    &&& (if old(self).config is None {
                        e == VaultError::NotInitialized
                    } else {
                        e == VaultError::Unauthorized && caller != old(self).config->0.owner
                    })
                },
            },
    {
        let cfg = match self.config.take() {
            Some(cfg) => cfg,
            None => {
                return Err(VaultError::NotInitialized);
            },
        };
        if caller != cfg.owner {
            self.config = Some(cfg);
            return Err(VaultError::Unauthorized);
        }
        self.config = Some(VaultConfig { factory_address: Some(factory), ..cfg });
        Ok(())
    }

    /// The open staking snapshot, or `NotInitialized` when none was stored.
    pub fn get_staking_position(&self) -> (r: Result<StakingPosition, VaultError>)
        ensures
            match r {
                Ok(p) => self.staking_position == Some(p),
                Err(e) => e == VaultError::NotInitialized && self.staking_position is None,
            },
    {
        match self.staking_position {
            Some(p) => Ok(p),
            None => Err(VaultError::NotInitialized),
        }
    }

    /// The open liquidity snapshot, or `NotInitialized` when none was stored.
    pub fn get_liquidity_position(&self) -> (r: Result<LiquidityPosition, VaultError>)
        ensures
            match r {
                Ok(p) => self.liquidity_position == Some(p),
                Err(e) => e == VaultError::NotInitialized && self.liquidity_position is None,
            },
    {
        match self.liquidity_position {
            Some(p) => Ok(p),
            None => Err(VaultError::NotInitialized),
        }
    }

    /// Whether a staking snapshot is stored.
    pub fn has_staking_position(&self) -> (r: bool)
        ensures
            r == (self.staking_position is Some),
    {
        self.staking_position.is_some()
    }

    /// Whether a liquidity snapshot is stored.
    pub fn has_liquidity_position(&self) -> (r: bool)
        ensures
            r == (self.liquidity_position is Some),
    {
        self.liquidity_position.is_some()
    }

    /// Deposit `amount` of the base asset for `user`. Authorization of
    /// `user` and the actual transfer into custody are the host's; it calls
    /// this only for an authorized depositor and moves the tokens only on
    /// success. Shares minted: `amount` on the very first deposit, otherwise
    /// `floor(amount * total_shares / total_value)`.
    pub fn deposit(&mut self, user: u32, amount: i128, now: u64) -> (r: Result<i128, VaultError>)
        requires
            old(self).wf(),
        ensures
            final(self).wf(),
            match r {
                Ok(minted) => {
                    &&& old(self).config is Some
                    &&& amount > 0
                    &&& spec_deposit_applied(
                        *old(self),
                        *final(self),
                        user,
                        amount as int,
                        minted as int,
                        now,
                    )
                },
                Err(e) => {
                    &&& *final(self) == *old(self)
                    &&& (if old(self).config is None {
                        e == VaultError::NotInitialized
                    } else {
                        e == VaultError::InvalidAmount && (amount <= 0 || !spec_deposit_fits(
                            old(self).state.total_shares as int,
                            old(self).state.total_value as int,
                            amount as int,
                        ))
                    })
                },
            },
    {
        if self.config.is_none() {
            return Err(VaultError::NotInitialized);
        }
        if amount <= 0 {
            return Err(VaultError::InvalidAmount);
        }
        self.credit_deposit(user, amount, now)
    }

    /// Withdraw `shares` for `user`: release the proportional base-asset
    /// amount, shrink the aggregates, and shrink or delete the stored
    /// position. Authorization and the transfer out of custody are the
    /// host's; it moves the tokens only on success.
    pub fn withdraw(&mut self, user: u32, shares: i128) -> (r: Result<i128, VaultError>)
        requires
            old(self).wf(),
        ensures
            final(self).wf(),
            match r {
                Ok(amount) => {
                    &&& old(self).config is Some
                    &&& spec_withdraw_applied(
                        *old(self),
                        *final(self),
                        user,
                        shares as int,
                        amount as int,
                    )
                },
                Err(e) => {
                    &&& *final(self) == *old(self)
                    &&& (if old(self).config is None {
                        e == VaultError::NotInitialized
                    } else if shares <= 0 {
                        e == VaultError::InvalidAmount
                    } else if spec_position(old(self).positions@, user).shares < shares {
                        e == VaultError::InsufficientShares
                    } else {
                        e == VaultError::InvalidAmount && !spec_withdraw_fits(
                            old(self).state.total_value as int,
                            shares as int,
                        )
                    })
                },
            },
    {
        if self.config.is_none() {
            return Err(VaultError::NotInitialized);
        }
        if shares <= 0 {
            return Err(VaultError::InvalidAmount);
        }
        let ghost positions0 = self.positions@;
        let i = match self.find_position(user) {
            Some(i) => i,
            None => {
                proof {
                    lemma_position_absent(positions0, user);
                }
                return Err(VaultError::InsufficientShares);
            },
        };
        let entry = self.positions[i];
        proof {
            lemma_position_prefix(positions0, i as int, user);
        }
        if entry.position.shares < shares {
            return Err(VaultError::InsufficientShares);
        }
        let ts = self.state.total_shares;
        let tv = self.state.total_value;
        proof {
            assert(shares_seq(positions0)[i as int] == entry.position.shares);
            lemma_sum_element_bound(shares_seq(positions0), i as int);
        }
        let prod = match shares.checked_mul(tv) {
            Some(v) => v,
            None => {
                return Err(VaultError::InvalidAmount);
            },
        };
        proof {
            vstd::arithmetic::mul::lemma_mul_nonnegative(shares as int, tv as int);
            lemma_div_pos_is_pos(prod as int, ts as int);
            lemma_div_by_multiple(tv as int, ts as int);
            // shares * tv <= ts * tv, so the quotient is at most tv.
            assert(shares * tv <= ts * tv) by (nonlinear_arith)
                requires
                    shares <= ts,
                    tv >= 0,
            ;
            lemma_div_is_ordered(prod as int, (ts * tv) as int, ts as int);
            if shares < ts {
                assert((shares as int) * (tv as int) < (ts as int) * (tv as int))
                    by (nonlinear_arith)
                    requires
                        shares < ts,
                        tv > 0,
                ;
                vstd::arithmetic::div_mod::lemma_multiply_divide_lt(
                    prod as int,
                    ts as int,
                    tv as int,
                );
            }
        }
        let amount = prod / ts;
        let new_ts = ts - shares;
        let new_tv = tv - amount;
        if entry.position.shares == shares {
            self.positions.remove(i);
            proof {
                assert forall|j: int| 0 <= j < positions0.len() && j != i implies (#[trigger] positions0[j]).user
                    != positions0[i as int].user by {
                    if j < i {
                        assert(positions0[j].user != positions0[i as int].user);
                    }
                }
                lemma_distinct_remove(positions0, i as int);
                lemma_position_remove(positions0, i as int, user);
                assert forall|u: u32| u != user implies spec_position(self.positions@, u)
                    == spec_position(positions0, u) by {
                    lemma_position_remove(positions0, i as int, u);
                }
                assert(shares_seq(self.positions@) =~= shares_seq(positions0).remove(i as int));
                lemma_sum_remove(shares_seq(positions0), i as int);
            }
        } else {
            let updated = PositionEntry {
                user,
                position: UserPosition {
                    shares: entry.position.shares - shares,
                    last_deposit: entry.position.last_deposit,
                },
            };
            self.positions.set(i, updated);
            proof {
                lemma_distinct_update(positions0, i as int, updated);
                lemma_position_update(positions0, i as int, updated, user);
                assert forall|u: u32| u != user implies spec_position(self.positions@, u)
                    == spec_position(positions0, u) by {
                    lemma_position_update(positions0, i as int, updated, u);
                }
                assert(shares_seq(self.positions@) =~= shares_seq(positions0).update(
                    i as int,
                    updated.position.shares,
                ));
                lemma_sum_update(shares_seq(positions0), i as int, updated.position.shares);
            }
        }
        self.state = VaultState { total_shares: new_ts, total_value: new_tv, ..self.state };
        Ok(amount)
    }

    /// Deposit `amount` of `deposit_token` for `user`. When the token is the
    /// base asset this is a plain deposit; otherwise the amount is first
    /// swapped to the base asset through the routed pool network, which
    /// fails with `RouterNotSet` — with nothing moved and nothing changed —
    /// when no router is configured. Shares are minted from the
    /// post-conversion amount.
    pub fn deposit_with_token(
        &mut self,
        user: u32,
        amount: i128,
        deposit_token: u32,
        pools: &mut Vec<Pool>,
        now: u64,
    ) -> (r: Result<i128, VaultError>)
        requires
            old(self).wf(),
            forall|j: int| 0 <= j < old(pools)@.len() ==> (#[trigger] old(pools)@[j]).wf(),
        ensures
            final(self).wf(),
            final(pools)@.len() == old(pools)@.len(),
            forall|j: int| 0 <= j < final(pools)@.len() ==> (#[trigger] final(pools)@[j]).wf(),
            ({
                let base = old(self).config->0.assets@[0];
                match r {
                    Ok(minted) => {
                        &&& old(self).config is Some
                        &&& amount > 0
                        &&& (if deposit_token == base {
                            &&& spec_deposit_applied(
                                *old(self),
                                *final(self),
                                user,
                                amount as int,
                                minted as int,
                                now,
                            )
                            &&& final(pools)@ == old(pools)@
                        } else {
                            &&& old(self).config->0.router_address is Some
                            &&& exists|i: int|
                                {
                                    &&& #[trigger] first_pool_for_pair(
                                        old(pools)@,
                                        deposit_token,
                                        base,
                                        i,
                                    )
                                    &&& ({
                                        let out = swap_output_spec(
                                            old(pools)@[i].reserve_in(deposit_token),
                                            old(pools)@[i].reserve_out(deposit_token),
                                            amount as int,
                                        );
                                        &&& spec_swap_result(
                                            old(pools)@[i],
                                            deposit_token,
                                            amount as int,
                                            0,
                                        ) == Ok::<int, VaultError>(out)
                                        &&& spec_deposit_applied(
                                            *old(self),
                                            *final(self),
                                            user,
                                            out,
                                            minted as int,
                                            now,
                                        )
                                        &&& final(pools)@ == old(pools)@.update(
                                            i,
                                            pool_after_swap(
                                                old(pools)@[i],
                                                deposit_token,
                                                amount as int,
                                            ),
                                        )
                                    })
                                }
                        })
                    },
                    Err(e) => {
                        &&& *final(self) == *old(self)
                        &&& final(pools)@ == old(pools)@
                        &&& (if old(self).config is None {
                            e == VaultError::NotInitialized
                        } else if amount <= 0 {
                            e == VaultError::InvalidAmount
                        } else if deposit_token == base {
                            e == VaultError::InvalidAmount && !spec_deposit_fits(
                                old(self).state.total_shares as int,
                                old(self).state.total_value as int,
                                amount as int,
                            )
                        } else if old(self).config->0.router_address is None {
                            e == VaultError::RouterNotSet
                        } else {
                            e == VaultError::PoolNotFound || e == VaultError::InvalidAmount || e
                                == VaultError::InvalidConfiguration || e
                                == VaultError::SlippageTooHigh
                        })
                    },
                }
            }),
    {
        let base_token = match &self.config {
            Some(cfg) => cfg.assets[0],
            None => {
                return Err(VaultError::NotInitialized);
            },
        };
        if amount <= 0 {
            return Err(VaultError::InvalidAmount);
        }
        if deposit_token == base_token {
            return self.credit_deposit(user, amount, now);
        }
        let router = match &self.config {
            Some(cfg) => cfg.router_address,
            None => None,
        };
        if router.is_none() {
            return Err(VaultError::RouterNotSet);
        }
        let idx = match get_pool_for_pair(pools, deposit_token, base_token) {
            Ok(i) => i,
            Err(e) => {
                return Err(e);
            },
        };
        let ghost pools0 = pools@;
        let saved = pools[idx];
        let swapped = match swap_via_router(pools, deposit_token, base_token, amount, 0) {
            Ok(v) => v,
            Err(e) => {
                return Err(e);
            },
        };
        proof {
            let w = choose|w: int|
                {
                    &&& #[trigger] first_pool_for_pair(pools0, deposit_token, base_token, w)
                    &&& spec_swap_result(pools0[w], deposit_token, amount as int, 0) == Ok::<
                        int,
                        VaultError,
                    >(swapped as int)
                    &&& pools@ == pools0.update(
                        w,
                        pool_after_swap(pools0[w], deposit_token, amount as int),
                    )
                    &&& swapped >= 0
                };
            lemma_first_pool_unique(pools0, deposit_token, base_token, w, idx as int);
        }
        match self.credit_deposit(user, swapped, now) {
            Ok(minted) => Ok(minted),
            Err(e) => {
                pools.set(idx, saved);
                proof {
                    assert(pools@ =~= pools0);
                }
                Err(e)
            },
        }
    }

    /// Trigger a rules-gated rebalance: evaluate the stored rules against
    /// `now` and, only when one is satisfied, execute the rebalance-action
    /// rules and stamp the rebalance clock. Anyone may call this: when no
    /// rule is satisfied the call is a harmless no-op, so permissionless
    /// polling cannot grief the vault.
    pub fn trigger_rebalance(
        &mut self,
        vault_address: u32,
        balances: &mut Vec<i128>,
        pools: &mut Vec<Pool>,
        staking: &mut StakingPool,
        now: u64,
    ) -> (r: Result<(), VaultError>)
        requires
            old(self).wf(),
            (match old(self).config {
                Some(cfg) => old(balances)@.len() == cfg.assets@.len(),
                None => true,
            }),
            forall|j: int| 0 <= j < old(pools)@.len() ==> (#[trigger] old(pools)@[j]).wf(),
            old(staking).wf(),
        ensures
            final(self).wf(),
            final(self).config == old(self).config,
            final(self).positions@ == old(self).positions@,
            final(self).state.total_shares == old(self).state.total_shares,
            final(self).state.total_value == old(self).state.total_value,
            final(balances)@.len() == old(balances)@.len(),
            final(pools)@.len() == old(pools)@.len(),
            forall|j: int| 0 <= j < final(pools)@.len() ==> (#[trigger] final(pools)@[j]).wf(),
            final(staking).wf(),
            final(staking).rate_base == old(staking).rate_base,
            final(staking).rate_st == old(staking).rate_st,
            old(self).config is None ==> r == Err::<(), VaultError>(VaultError::NotInitialized),
            (old(self).config is Some && !engine::spec_any_rule_satisfied(
                old(self).config->0.rules@,
                old(self).state,
                now,
            )) ==> {
                &&& r == Ok::<(), VaultError>(())
                &&& *final(self) == *old(self)
                &&& final(balances)@ == old(balances)@
                &&& final(pools)@ == old(pools)@
                &&& final(staking).balances@ == old(staking).balances@
            },
            (r is Ok && old(self).config is Some && engine::spec_any_rule_satisfied(
                old(self).config->0.rules@,
                old(self).state,
                now,
            )) ==> final(self).state.last_rebalance == now,
            r is Err ==> {
                &&& *final(self) == *old(self)
                &&& final(balances)@ == old(balances)@
                &&& final(pools)@ == old(pools)@
                &&& final(staking).balances@ == old(staking).balances@
            },
            (old(self).config is Some && r is Err) ==> !(r == Err::<(), VaultError>(
                VaultError::NotInitialized,
            )),
            (old(self).config is Some && engine::spec_any_rule_satisfied(
                old(self).config->0.rules@,
                old(self).state,
                now,
            ) && old(self).state.total_value == 0) ==> r == Err::<(), VaultError>(
                VaultError::InsufficientBalance,
            ),
            (old(self).config is Some && engine::spec_any_rule_satisfied(
                old(self).config->0.rules@,
                old(self).state,
                now,
            ) && old(self).state.total_value != 0) ==> (match
                crate::rebalance::spec_rebalance_rules_outcome(
                old(self).config->0.rules@,
                old(self).config->0.assets@,
                old(self).state.total_value as int,
                old(self).config->0.router_address,
                0,
                old(balances)@,
                old(pools)@,
            ) {
                Ok(bp) => r is Ok && final(balances)@ == bp.0 && final(pools)@ == bp.1
                    && final(self).state.last_rebalance == now,
                Err(e) => r == Err::<(), VaultError>(e) && final(balances)@ == old(balances)@
                    && final(pools)@ == old(pools)@,
            }),
            final(staking).balances@ == old(staking).balances@,
            final(self).staking_position == old(self).staking_position,
            final(self).liquidity_position == old(self).liquidity_position,
    {
        if self.config.is_none() {
            return Err(VaultError::NotInitialized);
        }
        if !engine::should_rebalance(&self.config, &self.state, now) {
            return Ok(());
        }
        match execute_rebalance_only(self, vault_address, balances, pools, staking, now) {
            Ok(()) => (),
            Err(e) => {
                return Err(e);
            },
        }
        self.state = VaultState { last_rebalance: now, ..self.state };
        Ok(())
    }

    /// Trigger rules-gated staking: as [`Self::trigger_rebalance`], but
    /// gated on a satisfied rule carrying the stake action, and executing
    /// only stake-action rules.
    pub fn trigger_stake(
        &mut self,
        vault_address: u32,
        balances: &mut Vec<i128>,
        pools: &mut Vec<Pool>,
        staking: &mut StakingPool,
        now: u64,
    ) -> (r: Result<(), VaultError>)
        requires
            old(self).wf(),
            (match old(self).config {
                Some(cfg) => old(balances)@.len() == cfg.assets@.len(),
                None => true,
            }),
            forall|j: int| 0 <= j < old(pools)@.len() ==> (#[trigger] old(pools)@[j]).wf(),
            old(staking).wf(),
        ensures
            final(self).wf(),
            final(self).config == old(self).config,
            final(self).positions@ == old(self).positions@,
            final(self).state.total_shares == old(self).state.total_shares,
            final(self).state.total_value == old(self).state.total_value,
            final(balances)@.len() == old(balances)@.len(),
            final(pools)@.len() == old(pools)@.len(),
            forall|j: int| 0 <= j < final(pools)@.len() ==> (#[trigger] final(pools)@[j]).wf(),
            final(staking).wf(),
            final(staking).rate_base == old(staking).rate_base,
            final(staking).rate_st == old(staking).rate_st,
            old(self).config is None ==> r == Err::<(), VaultError>(VaultError::NotInitialized),
            (old(self).config is Some && !engine::spec_any_action_satisfied(
                old(self).config->0.rules@,
                RuleAction::Stake,
                old(self).state,
                now,
            )) ==> {
                &&& r == Ok::<(), VaultError>(())
                &&& *final(self) == *old(self)
                &&& final(balances)@ == old(balances)@
                &&& final(pools)@ == old(pools)@
                &&& final(staking).balances@ == old(staking).balances@
            },
            (r is Ok && old(self).config is Some && engine::spec_any_action_satisfied(
                old(self).config->0.rules@,
                RuleAction::Stake,
                old(self).state,
                now,
            )) ==> final(self).state.last_rebalance == now,
            r is Err ==> {
                &&& *final(self) == *old(self)
                &&& final(balances)@ == old(balances)@
                &&& final(pools)@ == old(pools)@
                &&& final(staking).balances@ == old(staking).balances@
            },
            (old(self).config is Some && r is Err) ==> !(r == Err::<(), VaultError>(
                VaultError::NotInitialized,
            )),
            (old(self).config is Some && engine::spec_any_action_satisfied(
                old(self).config->0.rules@,
                RuleAction::Stake,
                old(self).state,
                now,
            ) && old(self).state.total_value == 0) ==> r == Err::<(), VaultError>(
                VaultError::InsufficientBalance,
            ),
            (old(self).config is Some && engine::spec_any_action_satisfied(
                old(self).config->0.rules@,
                RuleAction::Stake,
                old(self).state,
                now,
            ) && old(self).state.total_value != 0) ==> (match
                crate::rebalance::spec_stake_rules_outcome(
                old(self).config->0.rules@,
                old(self).config->0.assets@,
                old(self).state.total_value as int,
                old(self).config->0.staking_pool_address,
                old(staking).rate_base as int,
                old(staking).rate_st as int,
                0,
                old(balances)@,
                crate::types::spec_amount_of(old(staking).balances@, vault_address),
                old(self).staking_position,
                now,
            ) {
                Ok(bvp) => {
                    &&& r is Ok
                    &&& final(balances)@ == bvp.0
                    &&& crate::types::spec_amount_of(final(staking).balances@, vault_address)
                        == bvp.1
                    &&& final(self).staking_position == bvp.2
                    &&& final(self).state.last_rebalance == now
                },
                Err(e) => {
                    &&& r == Err::<(), VaultError>(e)
                    &&& final(balances)@ == old(balances)@
                    &&& final(staking).balances@ == old(staking).balances@
                    &&& final(self).staking_position == old(self).staking_position
                },
            }),
            final(pools)@ == old(pools)@,
            final(self).liquidity_position == old(self).liquidity_position,
    {
        if self.config.is_none() {
            return Err(VaultError::NotInitialized);
        }
        if !engine::should_act(&self.config, RuleAction::Stake, &self.state, now) {
            return Ok(());
        }
        match execute_stake_only(self, vault_address, balances, pools, staking, now) {
            Ok(()) => (),
            Err(e) => {
                return Err(e);
            },
        }
        self.state = VaultState { last_rebalance: now, ..self.state };
        Ok(())
    }

    /// Trigger rules-gated liquidity provision: as
    /// [`Self::trigger_rebalance`], but gated on a satisfied rule carrying
    /// the liquidity action, and executing only liquidity-action rules.
    pub fn trigger_liquidity(
        &mut self,
        vault_address: u32,
        balances: &mut Vec<i128>,
        pools: &mut Vec<Pool>,
        staking: &mut StakingPool,
        now: u64,
    ) -> (r: Result<(), VaultError>)
        requires
            old(self).wf(),
            (match old(self).config {
                Some(cfg) => old(balances)@.len() == cfg.assets@.len(),
                None => true,
            }),
            forall|j: int| 0 <= j < old(pools)@.len() ==> (#[trigger] old(pools)@[j]).wf(),
            old(staking).wf(),
        ensures
            final(self).wf(),
            final(self).config == old(self).config,
            final(self).positions@ == old(self).positions@,
            final(self).state.total_shares == old(self).state.total_shares,
            final(self).state.total_value == old(self).state.total_value,
            final(balances)@.len() == old(balances)@.len(),
            final(pools)@.len() == old(pools)@.len(),
            forall|j: int| 0 <= j < final(pools)@.len() ==> (#[trigger] final(pools)@[j]).wf(),
            final(staking).wf(),
            final(staking).rate_base == old(staking).rate_base,
            final(staking).rate_st == old(staking).rate_st,
            old(self).config is None ==> r == Err::<(), VaultError>(VaultError::NotInitialized),
            (old(self).config is Some && !engine::spec_any_action_satisfied(
                old(self).config->0.rules@,
                RuleAction::Liquidity,
                old(self).state,
                now,
            )) ==> {
                &&& r == Ok::<(), VaultError>(())
                &&& *final(self) == *old(self)
                &&& final(balances)@ == old(balances)@
                &&& final(pools)@ == old(pools)@
                &&& final(staking).balances@ == old(staking).balances@
            },
            (r is Ok && old(self).config is Some && engine::spec_any_action_satisfied(
                old(self).config->0.rules@,
                RuleAction::Liquidity,
                old(self).state,
                now,
            )) ==> final(self).state.last_rebalance == now,
            r is Err ==> {
                &&& *final(self) == *old(self)
                &&& final(balances)@ == old(balances)@
                &&& final(pools)@ == old(pools)@
                &&& final(staking).balances@ == old(staking).balances@
            },
            (old(self).config is Some && r is Err) ==> !(r == Err::<(), VaultError>(
                VaultError::NotInitialized,
            )),
            (old(self).config is Some && engine::spec_any_action_satisfied(
                old(self).config->0.rules@,
                RuleAction::Liquidity,
                old(self).state,
                now,
            ) && old(self).state.total_value == 0) ==> r == Err::<(), VaultError>(
                VaultError::InsufficientBalance,
            ),
            (old(self).config is Some && engine::spec_any_action_satisfied(
                old(self).config->0.rules@,
                RuleAction::Liquidity,
                old(self).state,
                now,
            ) && old(self).state.total_value != 0 && r is Ok) ==> ({
                let applied = crate::rebalance::spec_liquidity_rules_apply(
                    old(self).config->0.rules@,
                    old(self).config->0.assets@,
                    old(self).state.total_value as int,
                    0,
                    old(balances)@,
                    old(pools)@,
                    old(self).liquidity_position,
                    now,
                );
                &&& final(balances)@ == applied.0
                &&& final(pools)@ == applied.1
                &&& final(self).liquidity_position == applied.2
                &&& final(self).state.last_rebalance == now
            }),
            final(staking).balances@ == old(staking).balances@,
            final(self).staking_position == old(self).staking_position,
    {
        if self.config.is_none() {
            return Err(VaultError::NotInitialized);
        }
        if !engine::should_act(&self.config, RuleAction::Liquidity, &self.state, now) {
            return Ok(());
        }
        match execute_liquidity_only(self, vault_address, balances, pools, staking, now) {
            Ok(()) => (),
            Err(e) => {
                return Err(e);
            },
        }
        self.state = VaultState { last_rebalance: now, ..self.state };
        Ok(())
    }

    /// Force a full rebalance, bypassing the rule engine: every stored rule
    /// is executed whatever its condition, and the rebalance clock is
    /// stamped on success. For operator-triggered correction, for instance
    /// after a large deposit.
    pub fn force_rebalance(
        &mut self,
        vault_address: u32,
        balances: &mut Vec<i128>,
        pools: &mut Vec<Pool>,
        staking: &mut StakingPool,
        now: u64,
    ) -> (r: Result<(), VaultError>)
        requires
            old(self).wf(),
            (match old(self).config {
                Some(cfg) => old(balances)@.len() == cfg.assets@.len(),
                None => true,
            }),
            forall|j: int| 0 <= j < old(pools)@.len() ==> (#[trigger] old(pools)@[j]).wf(),
            old(staking).wf(),
        ensures
            final(self).wf(),
            final(self).config == old(self).config,
            final(self).positions@ == old(self).positions@,
            final(self).state.total_shares == old(self).state.total_shares,
            final(self).state.total_value == old(self).state.total_value,
            final(balances)@.len() == old(balances)@.len(),
            final(pools)@.len() == old(pools)@.len(),
            forall|j: int| 0 <= j < final(pools)@.len() ==> (#[trigger] final(pools)@[j]).wf(),
            final(staking).wf(),
            final(staking).rate_base == old(staking).rate_base,
            final(staking).rate_st == old(staking).rate_st,
            old(self).config is None ==> r == Err::<(), VaultError>(VaultError::NotInitialized),
            (old(self).config is Some && old(self).state.total_value == 0) ==> r == Err::<
                (),
                VaultError,
            >(VaultError::InsufficientBalance),
            r is Ok ==> final(self).state.last_rebalance == now,
            r is Err ==> {
                &&& *final(self) == *old(self)
                &&& final(balances)@ == old(balances)@
                &&& final(pools)@ == old(pools)@
                &&& final(staking).balances@ == old(staking).balances@
            },
            (old(self).config is Some && r is Err) ==> !(r == Err::<(), VaultError>(
                VaultError::NotInitialized,
            )),
            (old(self).config is Some && old(self).state.total_value != 0 && r is Ok) ==> ({
                let applied = crate::rebalance::spec_all_rules_apply(
                    old(self).config->0.rules@,
                    old(self).config->0.assets@,
                    old(self).state.total_value as int,
                    old(self).config->0.router_address,
                    old(self).config->0.staking_pool_address,
                    old(staking).rate_base as int,
                    old(staking).rate_st as int,
                    0,
                    old(balances)@,
                    old(pools)@,
                    crate::types::spec_amount_of(old(staking).balances@, vault_address),
                    old(self).staking_position,
                    old(self).liquidity_position,
                    now,
                );
                &&& final(balances)@ == applied.0
                &&& final(pools)@ == applied.1
                &&& crate::types::spec_amount_of(final(staking).balances@, vault_address)
                    == applied.2
                &&& final(self).staking_position == applied.3
                &&& final(self).liquidity_position == applied.4
                &&& final(self).state.last_rebalance == now
            }),
    {
        if self.config.is_none() {
            return Err(VaultError::NotInitialized);
        }
        match execute_rebalance(self, vault_address, balances, pools, staking, now) {
            Ok(()) => (),
            Err(e) => {
                return Err(e);
            },
        }
        self.state = VaultState { last_rebalance: now, ..self.state };
        Ok(())
    }

    /// Credit an already-custodied base-asset amount to `user`: mint shares,
    /// grow the aggregate state, and update the stored position. The one
    /// error is `InvalidAmount`, exactly when the arithmetic leaves `i128`.
    fn credit_deposit(&mut self, user: u32, final_amount: i128, now: u64) -> (r: Result<
        i128,
        VaultError,
    >)
        requires
            old(self).wf(),
            old(self).config is Some,
            final_amount >= 0,
        ensures
            final(self).wf(),
            match r {
                Ok(minted) => spec_deposit_applied(
                    *old(self),
                    *final(self),
                    user,
                    final_amount as int,
                    minted as int,
                    now,
                ),
                Err(e) => {
                    &&& *final(self) == *old(self)
                    &&& e == VaultError::InvalidAmount
                    &&& !spec_deposit_fits(
                        old(self).state.total_shares as int,
                        old(self).state.total_value as int,
                        final_amount as int,
                    )
                },
            },
    {
        let ts = self.state.total_shares;
        let tv = self.state.total_value;
        let minted: i128 = if ts == 0 {
            final_amount
        } else {
            let prod = match final_amount.checked_mul(ts) {
                Some(v) => v,
                None => {
                    return Err(VaultError::InvalidAmount);
                },
            };
            proof {
                vstd::arithmetic::mul::lemma_mul_nonnegative(final_amount as int, ts as int);
                lemma_div_pos_is_pos(prod as int, tv as int);
            }
            prod / tv
        };
        let new_ts = match ts.checked_add(minted) {
            Some(v) => v,
            None => {
                return Err(VaultError::InvalidAmount);
            },
        };
        let new_tv = match tv.checked_add(final_amount) {
            Some(v) => v,
            None => {
                return Err(VaultError::InvalidAmount);
            },
        };
        let ghost positions0 = self.positions@;
        match self.find_position(user) {
            Some(i) => {
                let entry = self.positions[i];
                proof {
                    assert(shares_seq(positions0)[i as int] == entry.position.shares);
                    lemma_sum_element_bound(shares_seq(positions0), i as int);
                    lemma_position_prefix(positions0, i as int, user);
                }
                let updated = PositionEntry {
                    user,
                    position: UserPosition {
                        shares: entry.position.shares + minted,
                        last_deposit: now,
                    },
                };
                self.positions.set(i, updated);
                self.state = VaultState { total_shares: new_ts, total_value: new_tv, ..self.state };
                proof {
                    lemma_distinct_update(positions0, i as int, updated);
                    lemma_position_update(positions0, i as int, updated, user);
                    assert forall|u: u32| u != user implies spec_position(self.positions@, u)
                        == spec_position(positions0, u) by {
                        lemma_position_update(positions0, i as int, updated, u);
                    }
                    assert(shares_seq(self.positions@) =~= shares_seq(positions0).update(
                        i as int,
                        updated.position.shares,
                    ));
                    lemma_sum_update(shares_seq(positions0), i as int, updated.position.shares);
                }
                Ok(minted)
            },
            None => {
                proof {
                    lemma_position_absent(positions0, user);
                }
                if minted > 0 {
                    let entry = PositionEntry {
                        user,
                        position: UserPosition { shares: minted, last_deposit: now },
                    };
                    self.positions.push(entry);
                    proof {
                        lemma_distinct_push(positions0, entry);
                        lemma_position_push(positions0, entry, user);
                        assert forall|u: u32| u != user implies spec_position(self.positions@, u)
                            == spec_position(positions0, u) by {
                            lemma_position_push(positions0, entry, u);
                        }
                        assert(shares_seq(self.positions@) =~= shares_seq(positions0).push(
                            entry.position.shares,
                        ));
                        lemma_sum_push(shares_seq(positions0), entry.position.shares);
                    }
                }
                self.state = VaultState { total_shares: new_ts, total_value: new_tv, ..self.state };
                Ok(minted)
            },
        }
    }
}

/// Share-price monotonicity under no external price change: a depositor who
/// deposits `amount` into a well-formed vault and immediately withdraws
/// every share that deposit minted gets back at most `amount`. Truncation in
/// both conversions rounds in the vault's favor, so round trips never profit
/// the depositor.
pub proof fn lemma_deposit_withdraw_no_gain(ts: int, tv: int, amount: int)
    requires
        ts >= 0,
        tv >= 0,
        (ts == 0 <==> tv == 0),
        amount > 0,
    ensures
        ({
            let minted = spec_mint_shares(ts, tv, amount);
            minted > 0 ==> spec_withdraw_amount(ts + minted, tv + amount, minted) <= amount
        }),
{
    let minted = spec_mint_shares(ts, tv, amount);
    if minted > 0 {
        if ts == 0 {
            // Bootstrap: one-to-one mint, and the withdrawal divides exactly.
            assert(minted == amount);
            lemma_div_by_multiple(amount, amount);
            assert((amount * amount) / amount == amount);
            assert(spec_withdraw_amount(amount, amount, amount) == amount);
        } else {
            // minted = floor(amount * ts / tv), so minted * tv <= amount * ts.
            lemma_fundamental_div_mod(amount * ts, tv);
            vstd::arithmetic::div_mod::lemma_mod_bound(amount * ts, tv);
            assert(minted * tv <= amount * ts) by (nonlinear_arith)
                requires
                    minted == (amount * ts) / tv,
                    amount * ts == tv * ((amount * ts) / tv) + (amount * ts) % tv,
                    0 <= (amount * ts) % tv,
            ;
            // Hence minted * (tv + amount) <= amount * (ts + minted).
            assert(minted * (tv + amount) <= amount * (ts + minted)) by (nonlinear_arith)
                requires
                    minted * tv <= amount * ts,
            ;
            lemma_div_is_ordered(minted * (tv + amount), amount * (ts + minted), ts + minted);
            lemma_div_by_multiple(amount, ts + minted);
            assert((amount * (ts + minted)) / (ts + minted) == amount);
        }
    }
}

/// Replacing a record without changing its user keeps depositors unique.
proof fn lemma_distinct_update(s: Seq<PositionEntry>, i: int, e: PositionEntry)
    requires
        users_distinct(s),
        0 <= i < s.len(),
        e.user == s[i].user,
    ensures
        users_distinct(s.update(i, e)),
{
    let t = s.update(i, e);
    assert forall|p: int, q: int| 0 <= p < q < t.len() implies (#[trigger] t[p]).user
        != (#[trigger] t[q]).user by {
        assert(s[p].user != s[q].user);
    }
}

/// Removing a record keeps depositors unique.
proof fn lemma_distinct_remove(s: Seq<PositionEntry>, i: int)
    requires
        users_distinct(s),
        0 <= i < s.len(),
    ensures
        users_distinct(s.remove(i)),
{
    let t = s.remove(i);
    assert forall|p: int, q: int| 0 <= p < q < t.len() implies (#[trigger] t[p]).user
        != (#[trigger] t[q]).user by {
        let p0 = if p < i {
            p
        } else {
            p + 1
        };
        let q0 = if q < i {
            q
        } else {
            q + 1
        };
        assert(t[p] == s[p0] && t[q] == s[q0]);
        assert(s[p0].user != s[q0].user);
    }
}

/// Appending a record for a new user keeps depositors unique.
proof fn lemma_distinct_push(s: Seq<PositionEntry>, e: PositionEntry)
    requires
        users_distinct(s),
        forall|j: int| 0 <= j < s.len() ==> (#[trigger] s[j]).user != e.user,
    ensures
        users_distinct(s.push(e)),
{
    let t = s.push(e);
    assert forall|p: int, q: int| 0 <= p < q < t.len() implies (#[trigger] t[p]).user
        != (#[trigger] t[q]).user by {
        if q < s.len() {
            assert(s[p].user != s[q].user);
        } else {
            assert(t[q] == e && t[p] == s[p]);
        }
    }
}

/// The position scan returns the record at the first matching index.
proof fn lemma_position_prefix(s: Seq<PositionEntry>, i: int, user: u32)
    requires
        0 <= i < s.len(),
        s[i].user == user,
        forall|j: int| 0 <= j < i ==> (#[trigger] s[j]).user != user,
    ensures
        spec_position(s, user) == s[i].position,
    decreases i,
{
    if i > 0 {
        lemma_position_prefix(s.drop_first(), i - 1, user);
    }
}

} // verus!
