//! The CREATE TABLE statement.

use vstd::prelude::*;

use crate::db::database::Database;
use crate::db::table::ast_table_ok;
use crate::parser::ast::Table as AstTable;

verus! {

/// An executable CREATE TABLE statement.
#[derive(Debug)]
pub struct CreateStatement {
    /// The definition of the table to create
    pub table: AstTable,
}

impl CreateStatement {
    /// A statement that creates the table.
    pub fn new(table: AstTable) -> (s: Self)
        ensures
            s.table == table,
    {
        Self { table }
    }

    /// Creates the table, in place of any table of the same name, and gives
    /// the line that reports it.
    pub fn execute(&self, db: &mut Database) -> (msg: String)
        requires
            ast_table_ok(self.table),
        ensures
            final(db).table_index(self.table.id@) is Some,
            final(db).tables@[final(db).table_index(self.table.id@)->Some_0].1.fresh_for(self.table),
            msg@ == "Table '"@ + self.table.id@ + "' created."@,
            old(db).wf() ==> final(db).wf(),
            forall|n: Seq<char>|
                n != self.table.id@ ==> #[trigger] final(db).table_index(n) == old(db).table_index(n),
            forall|k: int|
                0 <= k < old(db).tables@.len() && old(db).tables@[k].0@ != self.table.id@
                    ==> #[trigger] final(db).tables@[k] == old(db).tables@[k],
    {
        let _ = db.create_table(&self.table);
        proof {
            crate::db::database::lemma_first_named(db.tables@, self.table.id@);
            crate::db::database::lemma_first_named(old(db).tables@, self.table.id@);
        }
        let mut msg = String::from_str("Table '");
        msg.append(self.table.id.as_str());
        msg.append("' created.");
        msg
    }
}

} // verus!
