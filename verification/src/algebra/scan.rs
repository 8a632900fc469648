//! The TableScan operator: reads the rows of a base table.

use vstd::prelude::*;

use crate::algebra::iu::IURef;

verus! {

/// Table scan operator: reads the rows of a base table.
#[derive(Debug)]
pub struct TableScan {
    /// The IUs of the table's columns
    pub iu_refs_set: Vec<IURef>,
    /// Table name
    pub table_name: String,
}

impl TableScan {
    /// An empty table scan: no table and no IUs.
    pub fn new() -> (t: Self)
        ensures
            t.iu_refs_set@.len() == 0,
            t.table_name@.len() == 0,
    {
        TableScan { iu_refs_set: Vec::new(), table_name: String::new() }
    }
}

} // verus!
