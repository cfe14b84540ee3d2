//! Constant-product liquidity pool model and the pool-direct swap path.
//!
//! A pool is identified by an address and holds reserves of two distinct
//! tokens. Swapping transfers the input to the pool and draws the
//! fee-adjusted constant-product output from the counter reserve; the whole
//! call fails, leaving the pool untouched, when the output would fall short
//! of the caller's minimum.

use vstd::prelude::*;

use crate::amm;
use crate::amm::{swap_output_fits, swap_output_spec};
use crate::errors::VaultError;

verus! {

/// One liquidity pool of a two-token pair.
#[derive(Clone, Copy, Debug, PartialEq, Eq, Structural)]
pub struct Pool {
    pub address: u32,
    pub token_a: u32,
    pub token_b: u32,
    pub reserve_a: i128,
    pub reserve_b: i128,
    /// Outstanding liquidity-provider tokens of this pool.
    pub lp_supply: i128,
}

impl Pool {
    /// Well-formedness: distinct tokens, nonnegative reserves and supply.
    pub open spec fn wf(self) -> bool {
        &&& self.token_a != self.token_b
        &&& self.reserve_a >= 0
        &&& self.reserve_b >= 0
        &&& self.lp_supply >= 0
    }

    /// Whether this pool trades the given token on either side.
    pub open spec fn has_token(self, token: u32) -> bool {
        token == self.token_a || token == self.token_b
    }

    /// Reserve of the side that `from` enters.
    pub open spec fn reserve_in(self, from: u32) -> int {
        if from == self.token_a {
            self.reserve_a as int
        } else {
            self.reserve_b as int
        }
    }

    /// Reserve of the side that a swap from `from` draws on.
    pub open spec fn reserve_out(self, from: u32) -> int {
        if from == self.token_a {
            self.reserve_b as int
        } else {
            self.reserve_a as int
        }
    }

    /// Current reserves, in token order.
    pub fn get_reserves(&self) -> (r: (i128, i128))
        ensures
            r.0 == self.reserve_a,
            r.1 == self.reserve_b,
    {
        (self.reserve_a, self.reserve_b)
    }
}

/// The pool after absorbing `amount_in` of `from` and paying the
/// constant-product output out of the other side.
pub open spec fn pool_after_swap(p: Pool, from: u32, amount_in: int) -> Pool {
    let out = swap_output_spec(p.reserve_in(from), p.reserve_out(from), amount_in);
    if from == p.token_a {
        Pool {
            reserve_a: (p.reserve_a + amount_in) as i128,
            reserve_b: (p.reserve_b - out) as i128,
            ..p
        }
    } else {
        Pool {
            reserve_a: (p.reserve_a - out) as i128,
            reserve_b: (p.reserve_b + amount_in) as i128,
            ..p
        }
    }
}

/// Exact outcome of a pool-direct swap: which validation fails, or the
/// amount delivered.
pub open spec fn spec_swap_result(p: Pool, from: u32, amount_in: int, min_out: int) -> Result<
    int,
    VaultError,
> {
    if amount_in <= 0 {
        Err(VaultError::InvalidAmount)
    } else if !p.has_token(from) {
        Err(VaultError::InvalidConfiguration)
    } else if !swap_output_fits(p.reserve_in(from), p.reserve_out(from), amount_in) {
        Err(VaultError::InvalidAmount)
    } else if swap_output_spec(p.reserve_in(from), p.reserve_out(from), amount_in) < min_out {
        Err(VaultError::SlippageTooHigh)
    } else {
        Ok(swap_output_spec(p.reserve_in(from), p.reserve_out(from), amount_in))
    }
}

/// Swap `amount_in` of `from_token` directly against the pool. On success
/// the pool's reserves move by exactly the amounts exchanged; on any failure
/// the pool is untouched.
pub fn swap_via_pool(
    pool: &mut Pool,
    from_token: u32,
    to_token: u32,
    amount_in: i128,
    min_amount_out: i128,
) -> (r: Result<i128, VaultError>)
    requires
        old(pool).wf(),
    ensures
        final(pool).wf(),
        match r {
            Ok(out) => {
                &&& spec_swap_result(
                    *old(pool),
                    from_token,
                    amount_in as int,
                    min_amount_out as int,
                ) == Ok::<int, VaultError>(out as int)
                &&& *final(pool) == pool_after_swap(*old(pool), from_token, amount_in as int)
                &&& out >= min_amount_out
                &&& 0 <= out <= old(pool).reserve_out(from_token)
            },
            Err(e) => {
                &&& spec_swap_result(
                    *old(pool),
                    from_token,
                    amount_in as int,
                    min_amount_out as int,
                ) == Err::<int, VaultError>(e)
                &&& *final(pool) == *old(pool)
            },
        },
{
    let _ = to_token;
    if amount_in <= 0 {
        return Err(VaultError::InvalidAmount);
    }
    let (reserve_in, reserve_out) = if from_token == pool.token_a {
        (pool.reserve_a, pool.reserve_b)
    } else if from_token == pool.token_b {
        (pool.reserve_b, pool.reserve_a)
    } else {
        return Err(VaultError::InvalidConfiguration);
    };
    let amount_out = match amm::calculate_swap_output(reserve_in, reserve_out, amount_in) {
        Ok(v) => v,
        Err(e) => {
            return Err(e);
        },
    };
    if amount_out < min_amount_out {
        return Err(VaultError::SlippageTooHigh);
    }
    if from_token == pool.token_a {
        pool.reserve_a = reserve_in + amount_in;
        pool.reserve_b = reserve_out - amount_out;
    } else {
        pool.reserve_b = reserve_in + amount_in;
        pool.reserve_a = reserve_out - amount_out;
    }
    Ok(amount_out)
}

/// Whether a pool trades exactly the given unordered token pair.
pub open spec fn pool_matches_pair(p: Pool, token_a: u32, token_b: u32) -> bool {
    (p.token_a == token_a && p.token_b == token_b) || (p.token_a == token_b && p.token_b
        == token_a)
}

/// `i` is the first index in `pools` whose pool trades the pair.
pub open spec fn first_pool_for_pair(pools: Seq<Pool>, token_a: u32, token_b: u32, i: int) -> bool {
    &&& 0 <= i < pools.len()
    &&& pool_matches_pair(pools[i], token_a, token_b)
    &&& forall|j: int| 0 <= j < i ==> !pool_matches_pair(#[trigger] pools[j], token_a, token_b)
}

/// The first index at or after `k` whose pool trades the pair; the length
/// when none does.
pub open spec fn spec_pool_index(pools: Seq<Pool>, token_a: u32, token_b: u32, k: int) -> int
    decreases pools.len() - k,
{
    if k < 0 || k >= pools.len() {
        pools.len() as int
    } else if pool_matches_pair(pools[k], token_a, token_b) {
        k
    } else {
        spec_pool_index(pools, token_a, token_b, k + 1)
    }
}

/// The scan index agrees with the first-match predicate.
pub proof fn lemma_pool_index_first(pools: Seq<Pool>, token_a: u32, token_b: u32, k: int, i: int)
    requires
        0 <= k <= i,
        first_pool_for_pair(pools, token_a, token_b, i),
    ensures
        spec_pool_index(pools, token_a, token_b, k) == i,
    decreases i - k,
{
    if k < i {
        lemma_pool_index_first(pools, token_a, token_b, k + 1, i);
    }
}

/// With no matching pool the scan runs off the end.
pub proof fn lemma_pool_index_none(pools: Seq<Pool>, token_a: u32, token_b: u32, k: int)
    requires
        0 <= k <= pools.len(),
        forall|j: int|
            0 <= j < pools.len() ==> !pool_matches_pair(#[trigger] pools[j], token_a, token_b),
    ensures
        spec_pool_index(pools, token_a, token_b, k) == pools.len(),
    decreases pools.len() - k,
{
    if k < pools.len() {
        lemma_pool_index_none(pools, token_a, token_b, k + 1);
    }
}

/// There is only one first matching index for a pair.
pub proof fn lemma_first_pool_unique(pools: Seq<Pool>, token_a: u32, token_b: u32, i: int, j: int)
    requires
        first_pool_for_pair(pools, token_a, token_b, i),
        first_pool_for_pair(pools, token_a, token_b, j),
    ensures
        i == j,
{
    if i < j {
        assert(!pool_matches_pair(pools[i], token_a, token_b));
    } else if j < i {
        assert(!pool_matches_pair(pools[j], token_a, token_b));
    }
}

/// Look the pool up for a token pair, in either orientation. Returns the
/// index of the first matching pool.
pub fn get_pool_for_pair(pools: &Vec<Pool>, token_a: u32, token_b: u32) -> (r: Result<
    usize,
    VaultError,
>)
    ensures
        match r {
            Ok(i) => first_pool_for_pair(pools@, token_a, token_b, i as int),
            Err(e) => {
                &&& e == VaultError::PoolNotFound
                &&& forall|j: int|
                    0 <= j < pools@.len() ==> !pool_matches_pair(
                        #[trigger] pools@[j],
                        token_a,
                        token_b,
                    )
            },
        },
{
    let mut i: usize = 0;
    while i < pools.len()
        invariant
            0 <= i <= pools.len(),
            forall|j: int| 0 <= j < i ==> !pool_matches_pair(#[trigger] pools@[j], token_a, token_b),
        decreases pools.len() - i,
    {
        let p = &pools[i];
        if (p.token_a == token_a && p.token_b == token_b) || (p.token_a == token_b && p.token_b
            == token_a) {
            return Ok(i);
        }
        i = i + 1;
    }
    Err(VaultError::PoolNotFound)
}

/// Swap through the routed venue: the router resolves the pair to its pool
/// and performs a pool-direct swap. Fails with `PoolNotFound`, leaving every
/// pool untouched, when no pool trades the pair.
pub fn swap_via_router(
    pools: &mut Vec<Pool>,
    from_token: u32,
    to_token: u32,
    amount_in: i128,
    min_amount_out: i128,
) -> (r: Result<i128, VaultError>)
    requires
        forall|j: int| 0 <= j < old(pools)@.len() ==> (#[trigger] old(pools)@[j]).wf(),
    ensures
        forall|j: int| 0 <= j < final(pools)@.len() ==> (#[trigger] final(pools)@[j]).wf(),
        final(pools)@.len() == old(pools)@.len(),
        match r {
            Ok(out) => exists|i: int|
                {
                    &&& #[trigger] first_pool_for_pair(old(pools)@, from_token, to_token, i)
                    &&& spec_swap_result(
                        old(pools)@[i],
                        from_token,
                        amount_in as int,
                        min_amount_out as int,
                    ) == Ok::<int, VaultError>(out as int)
                    &&& final(pools)@ == old(pools)@.update(
                        i,
                        pool_after_swap(old(pools)@[i], from_token, amount_in as int),
                    )
                    &&& out >= min_amount_out
                },
            Err(e) => {
                &&& final(pools)@ == old(pools)@
                &&& (if amount_in <= 0 {
                    e == VaultError::InvalidAmount
                } else if e == VaultError::PoolNotFound {
                    forall|j: int|
                        0 <= j < old(pools)@.len() ==> !pool_matches_pair(
                            #[trigger] old(pools)@[j],
                            from_token,
                            to_token,
                        )
                } else {
                    exists|i: int|
                        {
                            &&& #[trigger] first_pool_for_pair(old(pools)@, from_token, to_token, i)
                            &&& spec_swap_result(
                                old(pools)@[i],
                                from_token,
                                amount_in as int,
                                min_amount_out as int,
                            ) == Err::<int, VaultError>(e)
                        }
                })
            },
        },
{
    // Reject a non-positive amount before any venue is consulted.
    if amount_in <= 0 {
        return Err(VaultError::InvalidAmount);
    }
    let idx = match get_pool_for_pair(pools, from_token, to_token) {
        Ok(i) => i,
        Err(e) => {
            return Err(e);
        },
    };
    let ghost pools0 = pools@;
    let mut p = pools[idx];
    let r = swap_via_pool(&mut p, from_token, to_token, amount_in, min_amount_out);
    pools.set(idx, p);
    proof {
        let w = idx as int;
        assert(first_pool_for_pair(pools0, from_token, to_token, w));
        match r {
            Ok(out) => {
                assert(pools@ =~= pools0.update(
                    w,
                    pool_after_swap(pools0[w], from_token, amount_in as int),
                ));
            },
            Err(e) => {
                assert(pools@ =~= pools0);
            },
        }
        assert forall|j: int| 0 <= j < pools@.len() implies (#[trigger] pools@[j]).wf() by {
            if j != w {
                assert(pools@[j] == pools0[j]);
            }
        }
    }
    r
}

/// Quote for a routed swap without executing it: the constant-product output
/// against the pair's pool.
pub fn get_swap_quote(pools: &Vec<Pool>, from_token: u32, to_token: u32, amount_in: i128) -> (r:
    Result<i128, VaultError>)
    requires
        forall|j: int| 0 <= j < pools@.len() ==> (#[trigger] pools@[j]).wf(),
    ensures
        match r {
            Ok(out) => exists|i: int|
                {
                    &&& #[trigger] first_pool_for_pair(pools@, from_token, to_token, i)
                    &&& out == swap_output_spec(
                        pools@[i].reserve_in(from_token),
                        pools@[i].reserve_out(from_token),
                        amount_in as int,
                    )
                },
            Err(e) => e == VaultError::InvalidAmount || e == VaultError::PoolNotFound,
        },
{
    if amount_in <= 0 {
        return Err(VaultError::InvalidAmount);
    }
    let idx = match get_pool_for_pair(pools, from_token, to_token) {
        Ok(i) => i,
        Err(e) => {
            return Err(e);
        },
    };
    let p = &pools[idx];
    let (reserve_in, reserve_out) = if from_token == p.token_a {
        (p.reserve_a, p.reserve_b)
    } else {
        (p.reserve_b, p.reserve_a)
    };
    match amm::calculate_swap_output(reserve_in, reserve_out, amount_in) {
        Ok(out) => {
            proof {
                let w = idx as int;
                assert(first_pool_for_pair(pools@, from_token, to_token, w)
                    && out == swap_output_spec(
                    pools@[w].reserve_in(from_token),
                    pools@[w].reserve_out(from_token),
                    amount_in as int,
                ));
            }
            Ok(out)
        },
        Err(e) => Err(e),
    }
}

} // verus!
