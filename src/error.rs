use vstd::prelude::*;

verus! {

/// Why an operation on a pool was refused. Every error aborts the whole
/// operation; nothing is applied in part.
#[derive(Debug, Clone, Copy, PartialEq, Eq, Structural)]
pub enum AmmErrorCode {
    /// The fee is not below 10000 basis points.
    InvalidFee,
    /// The two assets of a pair are the same asset.
    InvalidMint,
    /// The caller holds less than the amount requested.
    InsufficientBalance,
    /// A step of the computation does not fit its integer width, or divides by zero.
    Overflow,
    /// The output of a swap is below the caller's minimum.
    InvalidParams,
    /// A withdrawal would pay out nothing on one side.
    ZeroAmount,
    /// A deposit would put nothing in on one side.
    DepositTooSmall,
    /// No bump seed yields a program address for the pool's sub-accounts.
    AddressUnavailable,
}

} // verus!
