use vstd::prelude::*;

verus! {

/// Recoverable failures of construction and proof generation.
///
/// Construction-time failures (a sub-tree collection of the wrong shape, an
/// index out of range) surface as values of this type so that callers can
/// reject bad input gracefully; each variant carries the data a caller needs
/// to diagnose the cause.
#[derive(Debug, Clone, PartialEq, Eq, Structural)]
pub enum Error {
    /// The number of sub-trees handed to construction differs from the
    /// requested top-layer arity.
    WrongSubTreeCount { given: usize, expected: usize },
    /// A sub-tree's height differs from the first sub-tree's.
    MismatchedHeight,
    /// A sub-tree's length differs from the first sub-tree's.
    MismatchedLength,
    /// A sub-tree's leaf count differs from the first sub-tree's.
    MismatchedLeafCount,
    /// A leaf index at or beyond the number of leaves; carries the offending
    /// index and the exclusive bound it had to stay under.
    IndexOutOfBounds { index: usize, bound: usize },
    /// A branching factor below two at tree construction.
    InvalidBranchingFactor { branches: usize },
    /// A leaf count that is not a positive power of the branching factor.
    InvalidLeafCount { leafs: usize },
}

} // verus!
