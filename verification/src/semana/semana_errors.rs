//! Errors of semantic analysis.

use vstd::prelude::*;

verus! {

/// Why a statement was refused by semantic analysis.
#[derive(Debug, PartialEq, Eq)]
pub enum SemanticError {
    /// The table already exists
    TableExists,
    /// Some column name occurs more than once
    RepeatedColumnNames,
    /// The primary key names a column that the table does not have
    KeyNotInColumns(String),
    /// The column is not declared NOT NULL
    ColumnNotNull(String),
    /// The file does not exist
    FileNotFound(String),
    /// The table is not in the database
    TableNotExists(String),
    /// No table or alias of that name is in scope
    UnknownTable(String),
    /// No column of that name is in scope
    UnknownColumn(String),
    /// The table or alias (first) has no column of that name (second)
    UnknownColumnInTable(String, String),
    /// More than one column of that name is in scope
    AmbiguousColumn(String),
    /// The table alias is already in scope
    DuplicateAlias(String),
    /// The two operands' types do not match
    TypeMismatch(String, String),
    /// Every IU identity has been handed out
    IUsExhausted,
}

} // verus!
