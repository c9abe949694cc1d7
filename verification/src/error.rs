//! The closed set of failure kinds that shape-checked operations report.

use vstd::prelude::*;

verus! {

/// Why a matrix operation refused its inputs.
///
/// Every precondition is checked before any data is touched, so an error
/// never leaves an operand partially modified.
#[derive(Clone, Copy, Debug, PartialEq, Eq, Structural)]
pub enum MatrixError {
    /// The operands' dimensions do not fit the operation. For a boolean
    /// mask the mask's length stands in `actual_lines`, the column counts
    /// both repeat the receiver's.
    ShapeMismatch {
        expected_lines: usize,
        expected_columns: usize,
        actual_lines: usize,
        actual_columns: usize,
    },
    /// A row index reached past the last row.
    OutOfRange { index: usize, bound: usize },
    /// A split into more parts than there are rows.
    InvalidPartition { parts: usize, lines: usize },
    /// A fold over matrices was handed none at all.
    EmptyInput,
}

} // verus!
