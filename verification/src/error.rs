//! The ways in which an operation of the exchange fails.

use vstd::prelude::*;

verus! {

/// Why an operation was refused. A refused operation changes nothing.
#[derive(Clone, Copy, Debug, PartialEq, Eq, Structural)]
pub enum Error {
    /// The pair handed in is not the pair of the pool.
    PairMismatch,
    /// No pool has the given id.
    PoolNotFound,
    /// The pool id counter cannot be advanced any further.
    MaximumPoolCountReached,
    /// A computed amount is zero, or a proportion could not be computed.
    InvalidAmount,
    /// The asset is not one of the two assets of the pool.
    InvalidAsset,
    /// The caller holds less than a deposit takes.
    InsufficientBalance,
    /// A swap was priced for an input of zero.
    InsufficientInputAmount,
    /// A swap was priced for an output of zero.
    InsufficientOutputAmount,
    /// A swap was priced against an empty reserve.
    InsufficientLiquidity,
    /// The caller holds fewer liquidity tokens than are to be burned.
    InsufficientLiquidityBalance,
    /// Liquidity was to be withdrawn while no liquidity token is in issue.
    WithdrawWithoutSupply,
}

/// Why a computation on balances has no result.
#[derive(Clone, Copy, Debug, PartialEq, Eq, Structural)]
pub enum ArithmeticError {
    /// The divisor is zero.
    DivisionByZero,
    /// The result exceeds the largest balance.
    Overflow,
}

} // verus!
