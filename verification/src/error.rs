//! Why an operation on a universe was refused.
use vstd::prelude::*;

verus! {

/// The reason for which an operation was refused.  A refused operation
/// leaves the universe as it was.
#[derive(Debug, Clone, Copy, PartialEq, Eq)]
pub enum GridError {
    /// A universe was asked for with no rows or no columns.
    ZeroDimension,
    /// A universe was asked for with more cells than a `u32` can count.
    TooLarge,
    /// A row or a column lies outside the universe.
    OutOfBounds,
    /// The universe has too few rows or columns for the pattern.
    GridTooSmall,
    /// The number of values handed over is not the number of cells.
    LengthMismatch,
}

} // verus!
