//! Constant-product math: the exact fee-adjusted formulas and the inverse
//! round trip.

use vault_core::amm::{calculate_swap_input, calculate_swap_output};
use vault_core::errors::VaultError;

#[test]
fn swap_output_matches_the_exact_formula() {
    // floor(100 * 997 * 1000 / (1000 * 1000 + 100 * 997)) == 90
    assert_eq!(calculate_swap_output(1000, 1000, 100), Ok(90));
    // floor(500 * 997 * 1000 / (1000 * 1000 + 500 * 997)) == 332
    assert_eq!(calculate_swap_output(1000, 1000, 500), Ok(332));
    assert_eq!(calculate_swap_output(5000, 20000, 1), Ok(3));
}

#[test]
fn swap_output_rejects_non_positive_input() {
    assert_eq!(calculate_swap_output(1000, 1000, 0), Err(VaultError::InvalidAmount));
    assert_eq!(calculate_swap_output(1000, 1000, -7), Err(VaultError::InvalidAmount));
}

#[test]
fn swap_output_rejects_overflowing_input() {
    assert_eq!(
        calculate_swap_output(1000, 1000, i128::MAX / 996),
        Err(VaultError::InvalidAmount)
    );
}

#[test]
fn swap_input_matches_the_exact_formula() {
    // floor(1000 * 90 * 1000 / ((1000 - 90) * 997)) + 1 == 100
    assert_eq!(calculate_swap_input(1000, 1000, 90), Ok(100));
}

#[test]
fn swap_input_rejects_draining_the_pool() {
    assert_eq!(calculate_swap_input(1000, 1000, 1000), Err(VaultError::InvalidAmount));
    assert_eq!(calculate_swap_input(1000, 1000, 1500), Err(VaultError::InvalidAmount));
    assert_eq!(calculate_swap_input(1000, 1000, 0), Err(VaultError::InvalidAmount));
    assert_eq!(calculate_swap_input(1000, 1000, -1), Err(VaultError::InvalidAmount));
}

#[test]
fn inverse_never_under_delivers() {
    for &(reserve_in, reserve_out, want) in
        &[(1000i128, 1000i128, 90i128), (1000, 1000, 1), (12345, 777, 300), (5, 1000, 999)]
    {
        let amount_in = calculate_swap_input(reserve_in, reserve_out, want).unwrap();
        let got = calculate_swap_output(reserve_in, reserve_out, amount_in).unwrap();
        assert!(
            got >= want,
            "reserves ({reserve_in}, {reserve_out}): wanted {want}, got {got}"
        );
    }
}
