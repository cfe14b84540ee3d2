//! Liquidity provision against a constant-product pool: quoting the
//! counterpart amount, adding liquidity within a slippage budget, and
//! removing it again.
//!
//! The venue follows pair-pool conventions: the deposit is balanced against
//! the live reserve ratio, amounts below the caller's slippage-derived
//! minimums abort the call, and the provider's share is tracked in
//! liquidity-provider tokens — the smaller of the two proportional shares,
//! or the smaller deposited amount when the pool starts empty.

use vstd::prelude::*;

use crate::errors::VaultError;
use crate::pool::{pool_matches_pair, Pool};

verus! {

/// Counterpart amount keeping the reserve ratio:
/// `floor(amount_a * reserve_b / reserve_a)`.
pub open spec fn spec_quote(amount_a: int, reserve_a: int, reserve_b: int) -> int {
    (amount_a * reserve_b) / reserve_a
}

/// The slippage-derived minimum for a desired amount:
/// `floor(amount * (100 - slippage_percent) / 100)`.
pub open spec fn spec_min_after_slippage(amount: int, slippage_percent: int) -> int {
    (amount * (100 - slippage_percent)) / 100
}

/// Counterpart amount for adding `amount_a` against reserves
/// `(reserve_a, reserve_b)`. Rejects non-positive inputs and overflow as
/// `InvalidAmount`.
pub fn get_optimal_liquidity_amounts(amount_a: i128, reserve_a: i128, reserve_b: i128) -> (r:
    Result<i128, VaultError>)
    ensures
        match r {
            Ok(amount_b) => {
                &&& amount_a > 0 && reserve_a > 0 && reserve_b > 0
                &&& amount_a * reserve_b <= i128::MAX
                &&& amount_b == spec_quote(amount_a as int, reserve_a as int, reserve_b as int)
                &&& amount_b >= 0
            },
            Err(e) => {
                &&& e == VaultError::InvalidAmount
                &&& (amount_a <= 0 || reserve_a <= 0 || reserve_b <= 0 || amount_a * reserve_b
                    > i128::MAX)
            },
        },
{
    if amount_a <= 0 || reserve_a <= 0 || reserve_b <= 0 {
        return Err(VaultError::InvalidAmount);
    }
    let prod = match amount_a.checked_mul(reserve_b) {
        Some(v) => v,
        None => {
            return Err(VaultError::InvalidAmount);
        },
    };
    proof {
        vstd::arithmetic::mul::lemma_mul_nonnegative(amount_a as int, reserve_b as int);
        vstd::arithmetic::div_mod::lemma_div_pos_is_pos(prod as int, reserve_a as int);
    }
    Ok(prod / reserve_a)
}

/// Liquidity-provider tokens minted for a deposit of
/// `(actual_a, actual_b)` against oriented reserves `(ra, rb)` with
/// `supply` tokens outstanding: the smaller of the two proportional shares,
/// or the smaller deposited amount when the pool starts empty.
pub open spec fn spec_lp_minted(
    ra: int,
    rb: int,
    supply: int,
    actual_a: int,
    actual_b: int,
) -> int {
    if supply == 0 {
        if actual_a < actual_b {
            actual_a
        } else {
            actual_b
        }
    } else {
        let share_a = (actual_a * supply) / ra;
        let share_b = (actual_b * supply) / rb;
        if share_a < share_b {
            share_a
        } else {
            share_b
        }
    }
}

/// What the venue accepts of a desired `(amount_a, amount_b)` against
/// oriented reserves `(ra, rb)`: the desired amounts for an empty pool,
/// otherwise the pair balanced to the reserve ratio.
pub open spec fn spec_accepted_amounts(ra: int, rb: int, amount_a: int, amount_b: int) -> (
    int,
    int,
) {
    if ra <= 0 || rb <= 0 {
        (amount_a, amount_b)
    } else if spec_quote(amount_a, ra, rb) <= amount_b {
        (amount_a, spec_quote(amount_a, ra, rb))
    } else {
        (spec_quote(amount_b, rb, ra), amount_b)
    }
}

/// The complete outcome of adding liquidity: which check fails — in the
/// order the venue applies them — or the provider tokens minted and the
/// amounts taken.
pub open spec fn spec_add_liquidity_outcome(
    p: Pool,
    token_a: u32,
    amount_a: int,
    amount_b: int,
    slippage_percent: int,
) -> Result<(int, int, int), VaultError> {
    let ra = p.reserve_in(token_a);
    let rb = p.reserve_out(token_a);
    if amount_a <= 0 || amount_b <= 0 {
        Err(VaultError::InvalidAmount)
    } else if !(0 <= slippage_percent <= 100) {
        Err(VaultError::InvalidConfiguration)
    } else if amount_a * (100 - slippage_percent) > i128::MAX {
        Err(VaultError::InvalidAmount)
    } else if amount_b * (100 - slippage_percent) > i128::MAX {
        Err(VaultError::InvalidAmount)
    } else if ra > 0 && rb > 0 && amount_a * rb > i128::MAX {
        Err(VaultError::InvalidAmount)
    } else if ra > 0 && rb > 0 && spec_quote(amount_a, ra, rb) > amount_b && amount_b * ra
        > i128::MAX {
        Err(VaultError::InvalidAmount)
    } else {
        let accepted = spec_accepted_amounts(ra, rb, amount_a, amount_b);
        let a_min = spec_min_after_slippage(amount_a, slippage_percent);
        let b_min = spec_min_after_slippage(amount_b, slippage_percent);
        if accepted.0 < a_min || accepted.1 < b_min {
            Err(VaultError::SlippageTooHigh)
        } else if p.lp_supply != 0 && (ra <= 0 || rb <= 0) {
            Err(VaultError::InsufficientLiquidity)
        } else if p.lp_supply != 0 && accepted.0 * p.lp_supply > i128::MAX {
            Err(VaultError::InvalidAmount)
        } else if p.lp_supply != 0 && accepted.1 * p.lp_supply > i128::MAX {
            Err(VaultError::InvalidAmount)
        } else {
            let lp = spec_lp_minted(ra, rb, p.lp_supply as int, accepted.0, accepted.1);
            if lp <= 0 {
                Err(VaultError::InvalidAmount)
            } else if ra + accepted.0 > i128::MAX {
                Err(VaultError::InvalidAmount)
            } else if rb + accepted.1 > i128::MAX {
                Err(VaultError::InvalidAmount)
            } else if p.lp_supply + lp > i128::MAX {
                Err(VaultError::InvalidAmount)
            } else {
                Ok((lp, accepted.0, accepted.1))
            }
        }
    }
}

/// The pool after absorbing a liquidity deposit of `(actual_a, actual_b)`
/// oriented to `token_a`, minting `lp` provider tokens.
pub open spec fn pool_after_liquidity(
    p: Pool,
    token_a: u32,
    actual_a: int,
    actual_b: int,
    lp: int,
) -> Pool {
    if token_a == p.token_a {
        Pool {
            reserve_a: (p.reserve_a + actual_a) as i128,
            reserve_b: (p.reserve_b + actual_b) as i128,
            lp_supply: (p.lp_supply + lp) as i128,
            ..p
        }
    } else {
        Pool {
            reserve_a: (p.reserve_a + actual_b) as i128,
            reserve_b: (p.reserve_b + actual_a) as i128,
            lp_supply: (p.lp_supply + lp) as i128,
            ..p
        }
    }
}

/// Add liquidity to the pool for the unordered pair
/// `(token_a, token_b)`. The venue balances the deposit to its reserve
/// ratio; amounts below the slippage-derived minimums fail with
/// `SlippageTooHigh`, and a share that would round to nothing fails with
/// `InvalidAmount`. On any failure the pool is untouched. Returns the
/// liquidity-provider tokens minted and the two amounts actually taken.
#[verifier::rlimit(100)]
pub fn add_liquidity_to_pool(
    pool: &mut Pool,
    token_a: u32,
    token_b: u32,
    amount_a: i128,
    amount_b: i128,
    slippage_percent: i128,
) -> (r: Result<(i128, i128, i128), VaultError>)
    requires
        old(pool).wf(),
        pool_matches_pair(*old(pool), token_a, token_b),
    ensures
        final(pool).wf(),
        final(pool).address == old(pool).address,
        final(pool).token_a == old(pool).token_a,
        final(pool).token_b == old(pool).token_b,
        match r {
            Ok((lp, actual_a, actual_b)) => {
                &&& amount_a > 0 && amount_b > 0
                &&& 0 <= slippage_percent <= 100
                &&& ({
                    let ra = old(pool).reserve_in(token_a);
                    let rb = old(pool).reserve_out(token_a);
                    let accepted = spec_accepted_amounts(
                        ra,
                        rb,
                        amount_a as int,
                        amount_b as int,
                    );
                    &&& actual_a == accepted.0
                    &&& actual_b == accepted.1
                    &&& actual_a >= spec_min_after_slippage(
                        amount_a as int,
                        slippage_percent as int,
                    )
                    &&& actual_b >= spec_min_after_slippage(
                        amount_b as int,
                        slippage_percent as int,
                    )
                    &&& lp > 0
                    &&& lp == spec_lp_minted(
                        ra,
                        rb,
                        old(pool).lp_supply as int,
                        actual_a as int,
                        actual_b as int,
                    )
                    &&& final(pool).reserve_in(token_a) == ra + actual_a
                    &&& final(pool).reserve_out(token_a) == rb + actual_b
                    &&& final(pool).lp_supply == old(pool).lp_supply + lp
                    &&& *final(pool) == pool_after_liquidity(
                        *old(pool),
                        token_a,
                        actual_a as int,
                        actual_b as int,
                        lp as int,
                    )
                    &&& spec_add_liquidity_outcome(
                        *old(pool),
                        token_a,
                        amount_a as int,
                        amount_b as int,
                        slippage_percent as int,
                    ) == Ok::<(int, int, int), VaultError>(
                        (lp as int, actual_a as int, actual_b as int),
                    )
                })
            },
            Err(e) => {
                &&& *final(pool) == *old(pool)
                &&& spec_add_liquidity_outcome(
                    *old(pool),
                    token_a,
                    amount_a as int,
                    amount_b as int,
                    slippage_percent as int,
                ) == Err::<(int, int, int), VaultError>(e)
            },
        },
{
    if amount_a <= 0 || amount_b <= 0 {
        return Err(VaultError::InvalidAmount);
    }
    if slippage_percent < 0 || slippage_percent > 100 {
        return Err(VaultError::InvalidConfiguration);
    }
    let amount_a_min = match amount_a.checked_mul(100 - slippage_percent) {
        Some(v) => {
            proof {
                vstd::arithmetic::mul::lemma_mul_nonnegative(
                    amount_a as int,
                    (100 - slippage_percent) as int,
                );
            }
            v / 100
        },
        None => {
            return Err(VaultError::InvalidAmount);
        },
    };
    let amount_b_min = match amount_b.checked_mul(100 - slippage_percent) {
        Some(v) => {
            proof {
                vstd::arithmetic::mul::lemma_mul_nonnegative(
                    amount_b as int,
                    (100 - slippage_percent) as int,
                );
            }
            v / 100
        },
        None => {
            return Err(VaultError::InvalidAmount);
        },
    };
    // Orient the reserves so that `ra` is the side `token_a` enters.
    let (ra, rb) = if token_a == pool.token_a {
        (pool.reserve_a, pool.reserve_b)
    } else {
        (pool.reserve_b, pool.reserve_a)
    };
    let (actual_a, actual_b) = if ra <= 0 || rb <= 0 {
        (amount_a, amount_b)
    } else {
        let b_optimal = match get_optimal_liquidity_amounts(amount_a, ra, rb) {
            Ok(v) => v,
            Err(e) => {
                return Err(e);
            },
        };
        if b_optimal <= amount_b {
            (amount_a, b_optimal)
        } else {
            let a_optimal = match get_optimal_liquidity_amounts(amount_b, rb, ra) {
                Ok(v) => v,
                Err(e) => {
                    return Err(e);
                },
            };
            (a_optimal, amount_b)
        }
    };
    if actual_a < amount_a_min || actual_b < amount_b_min {
        return Err(VaultError::SlippageTooHigh);
    }
    let lp = if pool.lp_supply == 0 {
        if actual_a < actual_b {
            actual_a
        } else {
            actual_b
        }
    } else {
        if ra <= 0 || rb <= 0 {
            return Err(VaultError::InsufficientLiquidity);
        }
        let share_a = match actual_a.checked_mul(pool.lp_supply) {
            Some(v) => {
                proof {
                    vstd::arithmetic::mul::lemma_mul_nonnegative(
                        actual_a as int,
                        pool.lp_supply as int,
                    );
                    vstd::arithmetic::div_mod::lemma_div_pos_is_pos(v as int, ra as int);
                }
                v / ra
            },
            None => {
                return Err(VaultError::InvalidAmount);
            },
        };
        let share_b = match actual_b.checked_mul(pool.lp_supply) {
            Some(v) => {
                proof {
                    vstd::arithmetic::mul::lemma_mul_nonnegative(
                        actual_b as int,
                        pool.lp_supply as int,
                    );
                    vstd::arithmetic::div_mod::lemma_div_pos_is_pos(v as int, rb as int);
                }
                v / rb
            },
            None => {
                return Err(VaultError::InvalidAmount);
            },
        };
        if share_a < share_b {
            share_a
        } else {
            share_b
        }
    };
    if lp <= 0 {
        return Err(VaultError::InvalidAmount);
    }
    let new_ra = match ra.checked_add(actual_a) {
        Some(v) => v,
        None => {
            return Err(VaultError::InvalidAmount);
        },
    };
    let new_rb = match rb.checked_add(actual_b) {
        Some(v) => v,
        None => {
            return Err(VaultError::InvalidAmount);
        },
    };
    let new_supply = match pool.lp_supply.checked_add(lp) {
        Some(v) => v,
        None => {
            return Err(VaultError::InvalidAmount);
        },
    };
    proof {
        if !(token_a == pool.token_a) {
            assert(token_a == pool.token_b && token_b == pool.token_a);
        }
    }
    if token_a == pool.token_a {
        pool.reserve_a = new_ra;
        pool.reserve_b = new_rb;
    } else {
        pool.reserve_b = new_ra;
        pool.reserve_a = new_rb;
    }
    pool.lp_supply = new_supply;
    Ok((lp, actual_a, actual_b))
}

/// Remove `lp_tokens` worth of liquidity from the pool: the venue pays out
/// the proportional share of both reserves and burns the tokens. Fails with
/// `InsufficientLiquidity` when the pool has fewer tokens outstanding, and
/// with `InvalidAmount` for a non-positive request, overflow, or a payout
/// that rounds to nothing; the pool is untouched on failure. Returns the
/// two amounts paid out, oriented as `(token_a, token_b)`.
pub fn remove_liquidity_from_pool(
    pool: &mut Pool,
    token_a: u32,
    token_b: u32,
    lp_tokens: i128,
    slippage_percent: i128,
) -> (r: Result<(i128, i128), VaultError>)
    requires
        old(pool).wf(),
        pool_matches_pair(*old(pool), token_a, token_b),
    ensures
        final(pool).wf(),
        final(pool).address == old(pool).address,
        final(pool).token_a == old(pool).token_a,
        final(pool).token_b == old(pool).token_b,
        match r {
            Ok((amount_a, amount_b)) => {
                &&& 0 < lp_tokens <= old(pool).lp_supply
                &&& 0 <= slippage_percent <= 100
                &&& ({
                    let ra = old(pool).reserve_in(token_a);
                    let rb = old(pool).reserve_out(token_a);
                    let supply = old(pool).lp_supply as int;
                    &&& amount_a == (lp_tokens * ra) / supply
                    &&& amount_b == (lp_tokens * rb) / supply
                    &&& amount_a > 0 && amount_b > 0
                    &&& final(pool).reserve_in(token_a) == ra - amount_a
                    &&& final(pool).reserve_out(token_a) == rb - amount_b
                    &&& final(pool).lp_supply == supply - lp_tokens
                })
            },
            Err(e) => {
                &&& *final(pool) == *old(pool)
                &&& (if lp_tokens <= 0 {
                    e == VaultError::InvalidAmount
                } else if !(0 <= slippage_percent <= 100) {
                    e == VaultError::InvalidConfiguration
                } else if old(pool).lp_supply < lp_tokens {
                    e == VaultError::InsufficientLiquidity
                } else {
                    e == VaultError::InvalidAmount
                })
            },
        },
{
    if lp_tokens <= 0 {
        return Err(VaultError::InvalidAmount);
    }
    if slippage_percent < 0 || slippage_percent > 100 {
        return Err(VaultError::InvalidConfiguration);
    }
    if pool.lp_supply < lp_tokens {
        return Err(VaultError::InsufficientLiquidity);
    }
    let (ra, rb) = if token_a == pool.token_a {
        (pool.reserve_a, pool.reserve_b)
    } else {
        (pool.reserve_b, pool.reserve_a)
    };
    let supply = pool.lp_supply;
    let amount_a = match lp_tokens.checked_mul(ra) {
        Some(v) => {
            proof {
                vstd::arithmetic::mul::lemma_mul_nonnegative(lp_tokens as int, ra as int);
                vstd::arithmetic::div_mod::lemma_div_pos_is_pos(v as int, supply as int);
            }
            v / supply
        },
        None => {
            return Err(VaultError::InvalidAmount);
        },
    };
    let amount_b = match lp_tokens.checked_mul(rb) {
        Some(v) => {
            proof {
                vstd::arithmetic::mul::lemma_mul_nonnegative(lp_tokens as int, rb as int);
                vstd::arithmetic::div_mod::lemma_div_pos_is_pos(v as int, supply as int);
            }
            v / supply
        },
        None => {
            return Err(VaultError::InvalidAmount);
        },
    };
    if amount_a <= 0 || amount_b <= 0 {
        return Err(VaultError::InvalidAmount);
    }
    proof {
        // The payout is a proportional share, so it never exceeds the
        // reserve it is drawn from.
        assert(lp_tokens * ra <= supply * ra) by (nonlinear_arith)
            requires
                lp_tokens <= supply,
                ra >= 0,
        ;
        vstd::arithmetic::div_mod::lemma_div_is_ordered(
            (lp_tokens * ra) as int,
            (supply * ra) as int,
            supply as int,
        );
        vstd::arithmetic::div_mod::lemma_div_by_multiple(ra as int, supply as int);
        assert(lp_tokens * rb <= supply * rb) by (nonlinear_arith)
            requires
                lp_tokens <= supply,
                rb >= 0,
        ;
        vstd::arithmetic::div_mod::lemma_div_is_ordered(
            (lp_tokens * rb) as int,
            (supply * rb) as int,
            supply as int,
        );
        vstd::arithmetic::div_mod::lemma_div_by_multiple(rb as int, supply as int);
    }
    if token_a == pool.token_a {
        pool.reserve_a = ra - amount_a;
        pool.reserve_b = rb - amount_b;
    } else {
        pool.reserve_b = ra - amount_a;
        pool.reserve_a = rb - amount_b;
    }
    pool.lp_supply = supply - lp_tokens;
    Ok((amount_a, amount_b))
}

} // verus!
