//! Constant-product swap math with a 0.3% fee, in fixed-point integer
//! arithmetic.
//!
//! An input of `x` trades as if it were `x * 997 / 1000`; the pool keeps the
//! difference as its fee. Both conversions truncate toward zero, and the
//! required-input formula adds one so that feeding its result back through the
//! output formula never under-delivers.

use vstd::prelude::*;

use crate::errors::VaultError;

verus! {

/// Mathematical output of the constant-product formula with the 0.3% fee:
/// `floor(amount_in * 997 * reserve_out / (reserve_in * 1000 + amount_in * 997))`.
pub open spec fn swap_output_spec(reserve_in: int, reserve_out: int, amount_in: int) -> int {
    (amount_in * 997 * reserve_out) / (reserve_in * 1000 + amount_in * 997)
}

/// Mathematical input required to draw `amount_out` from the pool:
/// `floor(reserve_in * amount_out * 1000 / ((reserve_out - amount_out) * 997)) + 1`.
/// The `+ 1` guarantees the inverse never under-delivers against
/// [`swap_output_spec`].
pub open spec fn swap_input_spec(reserve_in: int, reserve_out: int, amount_out: int) -> int {
    (reserve_in * amount_out * 1000) / ((reserve_out - amount_out) * 997) + 1
}

/// Whether every intermediate product of the output formula fits in `i128`
/// (all operands nonnegative, so only the upper bound matters).
pub open spec fn swap_output_fits(reserve_in: int, reserve_out: int, amount_in: int) -> bool {
    &&& amount_in * 997 <= i128::MAX
    &&& amount_in * 997 * reserve_out <= i128::MAX
    &&& reserve_in * 1000 + amount_in * 997 <= i128::MAX
}

/// Whether every intermediate value of the input formula fits in `i128`.
pub open spec fn swap_input_fits(reserve_in: int, reserve_out: int, amount_out: int) -> bool {
    &&& reserve_in * amount_out <= i128::MAX
    &&& reserve_in * amount_out * 1000 <= i128::MAX
    &&& (reserve_out - amount_out) * 997 <= i128::MAX
    &&& swap_input_spec(reserve_in, reserve_out, amount_out) <= i128::MAX
}

/// Expected output for a swap against the given reserves, without executing
/// it. Rejects non-positive inputs and arithmetic overflow as
/// `InvalidAmount`, exactly as the live swap path does.
pub fn calculate_swap_output(reserve_in: i128, reserve_out: i128, amount_in: i128) -> (r: Result<
    i128,
    VaultError,
>)
    requires
        reserve_in >= 0,
        reserve_out >= 0,
    ensures
        match r {
            Ok(out) => {
                &&& amount_in > 0
                &&& swap_output_fits(reserve_in as int, reserve_out as int, amount_in as int)
                &&& out == swap_output_spec(
                    reserve_in as int,
                    reserve_out as int,
                    amount_in as int,
                )
                &&& 0 <= out <= reserve_out
            },
            Err(e) => {
                &&& e == VaultError::InvalidAmount
                &&& (amount_in <= 0 || !swap_output_fits(
                    reserve_in as int,
                    reserve_out as int,
                    amount_in as int,
                ))
            },
        },
{
    if amount_in <= 0 {
        return Err(VaultError::InvalidAmount);
    }
    let amount_in_with_fee = match amount_in.checked_mul(997) {
        Some(v) => v,
        None => {
            return Err(VaultError::InvalidAmount);
        },
    };
    let numerator = match amount_in_with_fee.checked_mul(reserve_out) {
        Some(v) => v,
        None => {
            return Err(VaultError::InvalidAmount);
        },
    };
    let denominator = match reserve_in.checked_mul(1000) {
        Some(v) => match v.checked_add(amount_in_with_fee) {
            Some(w) => w,
            None => {
                return Err(VaultError::InvalidAmount);
            },
        },
        None => {
            return Err(VaultError::InvalidAmount);
        },
    };
    let amount_out = numerator / denominator;
    proof {
        lemma_swap_output_bounded(reserve_in as int, reserve_out as int, amount_in as int);
    }
    Ok(amount_out)
}

/// The output formula never exceeds the outgoing reserve: the denominator is
/// at least the fee-adjusted input, so the quotient is at most `reserve_out`.
proof fn lemma_swap_output_bounded(reserve_in: int, reserve_out: int, amount_in: int)
    requires
        reserve_in >= 0,
        reserve_out >= 0,
        amount_in > 0,
    ensures
        0 <= swap_output_spec(reserve_in, reserve_out, amount_in) <= reserve_out,
{
    let fee = amount_in * 997;
    let num = fee * reserve_out;
    let den = reserve_in * 1000 + fee;
    assert(fee >= 997 && num >= 0 && den >= fee) by (nonlinear_arith)
        requires
            reserve_in >= 0,
            reserve_out >= 0,
            amount_in > 0,
            fee == amount_in * 997,
            num == fee * reserve_out,
            den == reserve_in * 1000 + fee,
    ;
    assert(num <= den * reserve_out) by (nonlinear_arith)
        requires
            fee >= 997,
            reserve_out >= 0,
            den >= fee,
            num == fee * reserve_out,
    ;
    vstd::arithmetic::div_mod::lemma_div_is_ordered(num, den * reserve_out, den);
    vstd::arithmetic::div_mod::lemma_div_by_multiple(reserve_out, den);
    vstd::arithmetic::div_mod::lemma_div_pos_is_pos(num, den);
}

/// Required input for a desired output from a swap against the given
/// reserves. Rejects a non-positive target, a target that would drain the
/// pool, and arithmetic overflow as `InvalidAmount`.
pub fn calculate_swap_input(reserve_in: i128, reserve_out: i128, amount_out_desired: i128) -> (r:
    Result<i128, VaultError>)
    requires
        reserve_in >= 0,
        reserve_out >= 0,
    ensures
        match r {
            Ok(amount_in) => {
                &&& 0 < amount_out_desired < reserve_out
                &&& swap_input_fits(
                    reserve_in as int,
                    reserve_out as int,
                    amount_out_desired as int,
                )
                &&& amount_in == swap_input_spec(
                    reserve_in as int,
                    reserve_out as int,
                    amount_out_desired as int,
                )
                &&& amount_in >= 1
            },
            Err(e) => {
                &&& e == VaultError::InvalidAmount
                &&& (amount_out_desired <= 0 || amount_out_desired >= reserve_out
                    || !swap_input_fits(
                    reserve_in as int,
                    reserve_out as int,
                    amount_out_desired as int,
                ))
            },
        },
{
    if amount_out_desired <= 0 {
        return Err(VaultError::InvalidAmount);
    }
    if amount_out_desired >= reserve_out {
        return Err(VaultError::InvalidAmount);
    }
    let numerator = match reserve_in.checked_mul(amount_out_desired) {
        Some(v) => match v.checked_mul(1000) {
            Some(w) => w,
            None => {
                return Err(VaultError::InvalidAmount);
            },
        },
        None => {
            return Err(VaultError::InvalidAmount);
        },
    };
    let gap = reserve_out - amount_out_desired;
    let denominator = match gap.checked_mul(997) {
        Some(v) => v,
        None => {
            return Err(VaultError::InvalidAmount);
        },
    };
    proof {
        assert(numerator >= 0) by (nonlinear_arith)
            requires
                reserve_in >= 0,
                amount_out_desired > 0,
                numerator == reserve_in * amount_out_desired * 1000,
        ;
        assert(denominator >= 997) by (nonlinear_arith)
            requires
                gap >= 1,
                denominator == gap * 997,
        ;
        vstd::arithmetic::div_mod::lemma_div_pos_is_pos(numerator as int, denominator as int);
    }
    let quotient = numerator / denominator;
    let amount_in = match quotient.checked_add(1) {
        Some(v) => v,
        None => {
            return Err(VaultError::InvalidAmount);
        },
    };
    Ok(amount_in)
}

/// Inverse consistency of the two formulas: for positive reserves and any
/// target `0 < amount_out < reserve_out`, buying the amount that
/// [`swap_input_spec`] quotes yields at least `amount_out` through
/// [`swap_output_spec`]. The `+ 1` in the input formula is what closes the
/// truncation gap.
pub proof fn lemma_swap_inverse_consistent(reserve_in: int, reserve_out: int, amount_out: int)
    requires
        reserve_in > 0,
        0 < amount_out < reserve_out,
    ensures
        swap_output_spec(
            reserve_in,
            reserve_out,
            swap_input_spec(reserve_in, reserve_out, amount_out),
        ) >= amount_out,
{
    let n = reserve_in * amount_out * 1000;
    let d = (reserve_out - amount_out) * 997;
    assert(n >= 1000 && d >= 997) by (nonlinear_arith)
        requires
            reserve_in > 0,
            0 < amount_out < reserve_out,
            n == reserve_in * amount_out * 1000,
            d == (reserve_out - amount_out) * 997,
    ;
    let amount_in = n / d + 1;
    vstd::arithmetic::div_mod::lemma_fundamental_div_mod(n, d);
    vstd::arithmetic::div_mod::lemma_mod_bound(n, d);
    // amount_in * d == (n / d) * d + d == n - n % d + d >= n + 1
    assert(amount_in * d >= n + 1) by (nonlinear_arith)
        requires
            amount_in == n / d + 1,
            n == d * (n / d) + n % d,
            0 <= n % d < d,
    ;
    let x = amount_in * 997 * reserve_out;
    let y = reserve_in * 1000 + amount_in * 997;
    // The ring identity behind the inverse: the numerator exceeds
    // amount_out times the denominator exactly when amount_in * d exceeds n.
    assert(x - amount_out * y == amount_in * d - n) by (nonlinear_arith)
        requires
            x == amount_in * 997 * reserve_out,
            y == reserve_in * 1000 + amount_in * 997,
            n == reserve_in * amount_out * 1000,
            d == (reserve_out - amount_out) * 997,
    ;
    assert(y >= 997) by (nonlinear_arith)
        requires
            reserve_in > 0,
            amount_in >= 1,
            y == reserve_in * 1000 + amount_in * 997,
    ;
    assert(amount_out * y <= x - 1);
    vstd::arithmetic::div_mod::lemma_div_is_ordered(amount_out * y, x, y);
    vstd::arithmetic::div_mod::lemma_div_by_multiple(amount_out, y);
}

} // verus!
