//! How a batch crosses from one Arrow version to another.

use vstd::prelude::*;

verus! {

/// The way a batch takes.
#[derive(Debug, Clone, Copy, PartialEq, Eq)]
pub enum BatchRoute {
    /// The batch has no columns, which is what a bare row count asks for. Only
    /// its number of rows crosses: a struct array has none without a column.
    RowsOnly { rows: usize },
    /// The columns cross together, as one struct array.
    Columns,
}

/// The way that a batch with so many columns and rows takes.
pub fn batch_route(columns: usize, rows: usize) -> (route: BatchRoute)
    ensures
        route == if columns == 0 {
            BatchRoute::RowsOnly { rows }
        } else {
            BatchRoute::Columns
        },
{
    if columns == 0 {
        BatchRoute::RowsOnly { rows }
    } else {
        BatchRoute::Columns
    }
}

} // verus!
