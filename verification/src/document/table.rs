//! Tables, rows and cells.

use vstd::prelude::*;
use crate::error::Error;

verus! {

/// The part that a cell plays in a vertical merge.
#[derive(Debug, Clone, Copy, PartialEq, Eq)]
pub enum VMergeState {
    /// The cell begins a vertical merge.
    Restart,
    /// The cell extends the merge begun by the nearest restart above it.
    Continue,
}

/// A table cell.
#[derive(Debug, Clone, PartialEq, Eq)]
pub struct Cell {
    pub text: Result<String, Error>,
    /// The number of grid columns that the cell occupies.
    pub grid_span: Result<usize, Error>,
    pub v_merge: Result<Option<VMergeState>, Error>,
}

/// A table row.
#[derive(Debug, Clone, PartialEq, Eq)]
pub struct Row {
    pub cells: Result<Vec<Cell>, Error>,
}

/// A table.
#[derive(Debug, Clone, PartialEq, Eq)]
pub struct Table {
    pub rows: Result<Vec<Row>, Error>,
}

} // verus!
