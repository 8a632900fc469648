//! Errors of the storage engine.

use vstd::prelude::*;

use crate::types::InputError;

verus! {

/// Why a table operation failed.
#[derive(Debug, Clone, Copy, PartialEq, Eq, Structural)]
pub enum DbError {
    /// A field could not be read as a value of its column's type.
    Input(InputError),
    /// A value does not belong to its column's type.
    TypeMismatch,
    /// A row has the wrong number of values.
    ColumnCountMismatch { expected: usize, got: usize },
    /// The column index is out of bounds.
    ColumnOutOfBounds,
    /// The key does not match the table's primary key columns.
    InvalidKey,
    /// No row has the key.
    KeyNotFound,
    /// The table does not exist.
    TableNotFound,
    /// The delimiter is empty.
    EmptyDelimiter,
    /// A field would overflow its number type or its text slot.
    UnreadableField,
    /// The CSV data is malformed.
    Csv,
    /// The table holds as many rows as its row count can number.
    TableFull,
}

} // verus!
