use vstd::prelude::*;

verus! {

/// Why a line of matrix text was refused.
#[derive(Clone, Copy, Debug, PartialEq, Eq, Structural)]
pub enum ParseFault {
    /// The line does not hold as many values as the first line.
    RaggedRow,
    /// A value on the line is not a number.
    NotANumber,
}

/// The failures a matrix operation can report.
#[derive(Clone, Copy, Debug, PartialEq, Eq, Structural)]
pub enum MatrixError {
    /// A buffer does not hold `rows * cols` elements, or the inner dimensions
    /// of a product disagree.
    DimensionMismatch,
    /// Matrix text is malformed. `line` and `token` count from zero; for a
    /// ragged row `token` is the first position that is missing or surplus.
    ParseError { line: usize, token: usize, fault: ParseFault },
    /// The worker threads of a pool could not be started.
    PoolUnavailable,
}

} // verus!
