use vstd::prelude::*;

verus! {

/// Why a pool operation was refused. A refused operation leaves every
/// record it was handed exactly as it found it.
#[derive(Clone, Copy, Debug, PartialEq, Eq, Structural)]
pub enum Error {
    /// The pool was set up before.
    AlreadyInitialized,
    /// The pool has not been set up yet.
    NotInitialized,
    /// The amount is zero or negative.
    InvalidAmount,
    /// The account holds less than the amount asked for.
    InsufficientBalance,
    /// The asset gateway rejected the transfer.
    TransferFailed,
    /// A quantity left the 128-bit signed range.
    Overflow,
}

} // verus!
