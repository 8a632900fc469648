//! The COPY statement.

use vstd::prelude::*;

use crate::db::database::Database;
use crate::db::error::DbError;
use crate::parser::ast::CopyTable;

verus! {

/// An executable COPY statement: loads a delimited file into a table.
#[derive(Debug)]
pub struct CopyStatement {
    /// The table, the file and the delimiter
    pub copy_table: CopyTable,
}

impl CopyStatement {
    /// A statement that copies the file into the table.
    pub fn new(copy_table: CopyTable) -> (s: Self)
        ensures
            s.copy_table == copy_table,
    {
        Self { copy_table }
    }

    /// Loads the data of the file (the bytes of the file named by the
    /// statement) into the table, and gives the line that reports it.
    pub fn execute(&self, db: &mut Database, data: &[u8]) -> (r: Result<String, DbError>)
        requires
            old(db).wf(),
        ensures
            final(db).wf(),
            exists|c: Result<(), DbError>|
                #[trigger] final(db).copied(old(db), self.copy_table, data@, c) && (c is Ok <==> r is Ok) && (
                c matches Err(e) ==> r == Err::<String, DbError>(e)),
            r matches Ok(msg) ==> msg@ == "Copied '"@ + self.copy_table.file@ + "' to '"@
                + self.copy_table.table@ + "'."@,
    {
        let r = db.copy_table(&self.copy_table, data);
        match r {
            Ok(()) => {
                let mut msg = String::from_str("Copied '");
                msg.append(self.copy_table.file.as_str());
                msg.append("' to '");
                msg.append(self.copy_table.table.as_str());
                msg.append("'.");
                Ok(msg)
            },
            Err(e) => Err(e),
        }
    }
}

} // verus!
