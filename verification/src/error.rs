//! The failures that an operation on the store can report.

use vstd::prelude::*;

verus! {

/// Why an operation was refused. No operation recovers or retries on its own.
#[derive(Clone, Copy, Debug, PartialEq, Eq, Structural)]
pub enum Error {
    /// The medium could not be opened, read, written or synced.
    IOFailure,
    /// The header is missing or short, or a block chain leaves the medium.
    CorruptLayout,
    /// A default-proof entry at or above the tree height was asked for.
    OutOfRangeProof,
    /// A leaf id at or above `2^height` was given.
    InvalidLeafId,
    /// The populated frontier is inconsistent with the tree height.
    InvariantViolated,
    /// No anchor was given to open the arena with.
    MissingAnchor,
    /// A transaction is of a kind that cannot stand where it stands.
    InvalidTxType,
    /// An operation code or a field that no transaction has.
    InvalidOp,
    /// A block was committed or executed out of order.
    BlockOrder,
    /// The state after a block is not the one that the block claims.
    StateRootMismatch,
}

} // verus!
