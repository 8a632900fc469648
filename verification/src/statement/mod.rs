//! Executable statements: the result of semantic analysis.
//!
//! A statement is prepared (for a SELECT: optimized and turned into code)
//! and then executed against the database.

pub mod copy;
pub mod create;
pub mod select;

use vstd::prelude::*;

use crate::statement::copy::CopyStatement;
use crate::statement::create::CreateStatement;
use crate::statement::select::SelectStatement;

verus! {

/// A statement that semantic analysis accepted.
#[derive(Debug)]
pub enum Statement {
    /// CREATE TABLE
    Create(CreateStatement),
    /// COPY
    Copy(CopyStatement),
    /// SELECT
    Select(SelectStatement),
}

} // verus!
