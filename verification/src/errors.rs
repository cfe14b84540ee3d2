//! Error taxonomy of the vault and its companion contracts.

use vstd::prelude::*;

verus! {

/// Errors raised by vault operations. Every error aborts the current call;
/// the caller sees no partial state change.
#[derive(Clone, Copy, Debug, PartialEq, Eq, PartialOrd, Ord, Structural)]
pub enum VaultError {
    AlreadyInitialized,
    NotInitialized,
    Unauthorized,
    InsufficientBalance,
    InsufficientShares,
    InvalidAmount,
    InvalidConfiguration,
    RebalanceFailed,
    TransferFailed,
    NFTNotFound,
    InvalidOwnership,
    OwnershipExceeded,
    SlippageTooHigh,
    SwapFailed,
    PoolNotFound,
    InsufficientLiquidity,
    RouterNotSet,
}

/// Errors raised by the vault factory.
#[derive(Clone, Copy, Debug, PartialEq, Eq, PartialOrd, Ord, Structural)]
pub enum VaultFactoryError {
    AlreadyInitialized,
    NotInitialized,
    InvalidConfiguration,
    Unauthorized,
}

/// Errors raised by the ownership-certificate contract.
#[derive(Clone, Copy, Debug, PartialEq, Eq, PartialOrd, Ord, Structural)]
pub enum VaultNFTError {
    Unauthorized,
    InvalidAmount,
    NFTNotFound,
    InvalidOwnership,
    OwnershipExceeded,
}

} // verus!
