//! Error kinds shared by every pool, reward and registry operation.
//! Each operation is all-or-nothing: on an error the operation leaves
//! the state exactly as it found it.

use vstd::prelude::*;

verus! {

/// The terminal error kinds of the exchange core.
#[derive(Clone, Copy, Debug, PartialEq, Eq, Structural)]
pub enum PoolError {
    /// Bad indices, zero or negative amounts, malformed token sets.
    InvalidArgument,
    /// Output below the caller's minimum or input above the caller's cap.
    SlippageExceeded,
    /// The operation would drain a reserve to zero or reads an empty pool.
    InsufficientLiquidity,
    /// The caller is not the account the operation demands.
    Unauthorized,
    /// A deterministic deployment address is already occupied.
    AlreadyExists,
    /// An intermediate product or sum exceeds the integer range.
    ArithmeticOverflow,
    /// An iterative invariant solve did not converge.
    ConvergenceFailure,
}

} // verus!
