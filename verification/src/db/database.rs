//! A database: named tables.

use vstd::prelude::*;

use crate::db::table::{Table, ast_table_ok};
use crate::db::error::DbError;
use crate::parser::ast::{CopyTable, Table as AstTable};
use crate::util::strings::str_eq;

verus! {

/// The position of the first table with the given name.
pub open spec fn first_named(tables: Seq<(String, Table)>, name: Seq<char>) -> Option<int>
    decreases tables.len(),
{
    if tables.len() == 0 {
        None
    } else if tables[0].0@ == name {
        Some(0)
    } else {
        match first_named(tables.drop_first(), name) {
            Some(i) => Some(i + 1),
            None => None,
        }
    }
}

/// No two tables go by the same name (what a map from names to tables
/// keeps by construction).
pub open spec fn names_distinct(tables: Seq<(String, Table)>) -> bool {
    forall|a: int, b: int| 0 <= a < b < tables.len() ==> (#[trigger] tables[a]).0@ != (#[trigger] tables[b]).0@
}

/// A database: its tables, each under its name.
pub struct Database {
    /// The tables, each with its name
    pub tables: Vec<(String, Table)>,
}

impl Default for Database {
    fn default() -> (db: Self)
        ensures
            db.tables@.len() == 0,
    {
        Database { tables: Vec::new() }
    }
}

/// What the first-named position is.
pub proof fn lemma_first_named(tables: Seq<(String, Table)>, name: Seq<char>)
    ensures
        match first_named(tables, name) {
            Some(i) => {
                &&& 0 <= i < tables.len()
                &&& tables[i].0@ == name
                &&& forall|k: int| 0 <= k < i ==> (#[trigger] tables[k]).0@ != name
            },
            None => forall|k: int| 0 <= k < tables.len() ==> (#[trigger] tables[k]).0@ != name,
        },
    decreases tables.len(),
{
    if tables.len() > 0 {
        lemma_first_named(tables.drop_first(), name);
        assert forall|k: int| 0 < k < tables.len() implies tables[k] == tables.drop_first()[k - 1] by {}
    }
}

proof fn lemma_first_named_at(tables: Seq<(String, Table)>, name: Seq<char>, i: int)
    requires
        0 <= i < tables.len(),
        tables[i].0@ == name,
        forall|k: int| 0 <= k < i ==> (#[trigger] tables[k]).0@ != name,
    ensures
        first_named(tables, name) == Some(i),
    decreases i,
{
    if i > 0 {
        lemma_first_named_at(tables.drop_first(), name, i - 1);
    }
}

proof fn lemma_first_named_none(tables: Seq<(String, Table)>, name: Seq<char>)
    requires
        forall|k: int| 0 <= k < tables.len() ==> (#[trigger] tables[k]).0@ != name,
    ensures
        first_named(tables, name) is None,
    decreases tables.len(),
{
    if tables.len() > 0 {
        lemma_first_named_none(tables.drop_first(), name);
    }
}

/// Where the tables of other names keep their places, and every table added
/// or changed has the name `id`, a name other than `id` is first found where
/// it was.
proof fn lemma_other_names_kept(
    old_tables: Seq<(String, Table)>,
    new_tables: Seq<(String, Table)>,
    id: Seq<char>,
    name: Seq<char>,
)
    requires
        name != id,
        new_tables.len() >= old_tables.len(),
        forall|k: int|
            0 <= k < old_tables.len() && (#[trigger] old_tables[k]).0@ != id ==> new_tables[k] == old_tables[k],
        forall|k: int|
            0 <= k < new_tables.len() && (k >= old_tables.len() || old_tables[k].0@ == id) ==> (
            #[trigger] new_tables[k]).0@ == id,
    ensures
        first_named(new_tables, name) == first_named(old_tables, name),
{
    lemma_first_named(old_tables, name);
    lemma_first_named(new_tables, name);
    match first_named(old_tables, name) {
        Some(i) => {
            assert(new_tables[i] == old_tables[i]);
            assert forall|k: int| 0 <= k < i implies (#[trigger] new_tables[k]).0@ != name by {
                if old_tables[k].0@ != id {
                    assert(new_tables[k] == old_tables[k]);
                }
            }
            lemma_first_named_at(new_tables, name, i);
        },
        None => {
            assert forall|k: int| 0 <= k < new_tables.len() implies (#[trigger] new_tables[k]).0@ != name by {
                if k < old_tables.len() && old_tables[k].0@ != id {
                    assert(new_tables[k] == old_tables[k]);
                }
            }
            lemma_first_named_none(new_tables, name);
        },
    }
}

impl Database {
    /// A database without tables.
    pub fn new() -> (db: Self)
        ensures
            db.tables@.len() == 0,
    {
        Database { tables: Vec::new() }
    }

    /// Every table is well formed.
    pub open spec fn wf(&self) -> bool {
        forall|i: int| 0 <= i < self.tables@.len() ==> (#[trigger] self.tables@[i]).1.wf()
    }

    /// The position of the table with the given name.
    pub open spec fn table_index(&self, name: Seq<char>) -> Option<int> {
        first_named(self.tables@, name)
    }

    /// The position of the table with the given name.
    fn find(&self, name: &str) -> (r: Option<usize>)
        ensures
            match r {
                Some(i) => self.table_index(name@) == Some(i as int),
                None => self.table_index(name@) is None,
            },
    {
        let n = self.tables.len();
        let mut i: usize = 0;
        while i < n
            invariant
                i <= n,
                n == self.tables@.len(),
                forall|k: int| 0 <= k < i ==> (#[trigger] self.tables@[k]).0@ != name@,
            decreases n - i,
        {
            if str_eq(self.tables[i].0.as_str(), name) {
                proof {
                    lemma_first_named_at(self.tables@, name@, i as int);
                }
                return Some(i);
            }
            i = i + 1;
        }
        proof {
            lemma_first_named_none(self.tables@, name@);
        }
        None
    }

    /// Creates an empty table from its definition, in place of any table of
    /// the same name.
    pub fn create_table(&mut self, table: &AstTable) -> (r: Result<(), DbError>)
        requires
            ast_table_ok(*table),
        ensures
            r is Ok,
            match old(self).table_index(table.id@) {
                Some(i) => {
                    &&& final(self).tables@.len() == old(self).tables@.len()
                    &&& final(self).tables@[i].0@ == table.id@
                    &&& final(self).tables@[i].1.fresh_for(*table)
                    &&& forall|k: int|
                        0 <= k < old(self).tables@.len() && k != i ==> #[trigger] final(self).tables@[k]
                            == old(self).tables@[k]
                },
                None => {
                    &&& final(self).tables@.len() == old(self).tables@.len() + 1
                    &&& final(self).tables@.last().0@ == table.id@
                    &&& final(self).tables@.last().1.fresh_for(*table)
                    &&& forall|k: int|
                        0 <= k < old(self).tables@.len() ==> #[trigger] final(self).tables@[k]
                            == old(self).tables@[k]
                },
            },
            final(self).table_index(table.id@) is Some,
            forall|n: Seq<char>| n != table.id@ ==> #[trigger] final(self).table_index(n) == old(self).table_index(
                n,
            ),
            old(self).wf() ==> final(self).wf(),
            names_distinct(old(self).tables@) ==> names_distinct(final(self).tables@),
    {
        let t = Table::new(table);
        match self.find(table.id.as_str()) {
            Some(i) => {
                proof {
                    lemma_first_named(self.tables@, table.id@);
                }
                self.tables.set(i, (table.id.clone(), t));
                proof {
                    assert forall|k: int| 0 <= k < i implies (#[trigger] self.tables@[k]).0@ != table.id@ by {
                        assert(self.tables@[k] == old(self).tables@[k]);
                    }
                    lemma_first_named_at(self.tables@, table.id@, i as int);
                    assert forall|a: int, b: int|
                        0 <= a < b < self.tables@.len() && names_distinct(old(self).tables@) implies (#[trigger] self.tables@[a]).0@
                            != (#[trigger] self.tables@[b]).0@ by {
                        assert(self.tables@[a].0@ == old(self).tables@[a].0@);
                        assert(self.tables@[b].0@ == old(self).tables@[b].0@);
                    }
                    assert forall|n: Seq<char>| n != table.id@ implies #[trigger] first_named(self.tables@, n)
                        == first_named(old(self).tables@, n) by {
                        lemma_other_names_kept(old(self).tables@, self.tables@, table.id@, n);
                    }
                }
            },
            None => {
                proof {
                    lemma_first_named(self.tables@, table.id@);
                }
                self.tables.push((table.id.clone(), t));
                proof {
                    let n = old(self).tables@.len() as int;
                    assert forall|k: int| 0 <= k < n implies (#[trigger] self.tables@[k]).0@ != table.id@ by {
                        assert(self.tables@[k] == old(self).tables@[k]);
                    }
                    lemma_first_named_at(self.tables@, table.id@, n);
                    assert forall|a: int, b: int|
                        0 <= a < b < self.tables@.len() && names_distinct(old(self).tables@) implies (#[trigger] self.tables@[a]).0@
                            != (#[trigger] self.tables@[b]).0@ by {
                        if b < n {
                            assert(self.tables@[a] == old(self).tables@[a]);
                            assert(self.tables@[b] == old(self).tables@[b]);
                        }
                    }
                    assert forall|m: Seq<char>| m != table.id@ implies #[trigger] first_named(self.tables@, m)
                        == first_named(old(self).tables@, m) by {
                        lemma_other_names_kept(old(self).tables@, self.tables@, table.id@, m);
                    }
                }
            },
        }
        Ok(())
    }

    /// The table with the given name, if any.
    pub fn get_table(&self, table: &str) -> (r: Option<&Table>)
        ensures
            match self.table_index(table@) {
                Some(i) => r == Some(&self.tables@[i].1),
                None => r is None,
            },
    {
        proof {
            lemma_first_named(self.tables@, table@);
        }
        match self.find(table) {
            Some(i) => Some(&self.tables[i].1),
            None => None,
        }
    }

    /// The table with the given name, to be changed in place, if any.
    pub fn get_table_mut(&mut self, table: &str) -> (r: Option<&mut Table>)
        ensures
            match old(self).table_index(table@) {
                Some(i) => r matches Some(t) && *t == old(self).tables@[i].1 && final(self).tables@
                    == old(self).tables@.update(i, (old(self).tables@[i].0, *final(t))),
                None => r is None && final(self).tables@ == old(self).tables@,
            },
    {
        proof {
            lemma_first_named(self.tables@, table@);
        }
        match self.find(table) {
            Some(i) => Some(&mut self.tables[i].1),
            None => None,
        }
    }

    /// This database is `old` after copying the data into the table that the
    /// statement names, with the result `r`: see `copy_table`.
    pub open spec fn copied(
        &self,
        old: &Database,
        copy_table: CopyTable,
        data: Seq<u8>,
        r: Result<(), DbError>,
    ) -> bool {
        match old.table_index(copy_table.table@) {
            Some(i) => {
                &&& self.tables@.len() == old.tables@.len()
                &&& self.tables@[i].0 == old.tables@[i].0
                &&& self.tables@[i].1.csv_loaded(
                    &old.tables@[i].1,
                    data,
                    copy_table.delimiter@,
                    r,
                )
                &&& forall|k: int|
                    0 <= k < old.tables@.len() && k != i ==> #[trigger] self.tables@[k]
                        == old.tables@[k]
            },
            None => r == Err::<(), DbError>(DbError::TableNotFound) && self.tables@ == old.tables@,
        }
    }

    /// Loads the data of the file that the statement names into the table it
    /// names, with its delimiter, as `Table::load_csv` loads it; no table of
    /// that name is an error, and then nothing changes.
    pub fn copy_table(&mut self, copy_table: &CopyTable, data: &[u8]) -> (r: Result<(), DbError>)
        requires
            old(self).wf(),
        ensures
            final(self).wf(),
            final(self).copied(old(self), *copy_table, data@, r),
    {
        proof {
            lemma_first_named(self.tables@, copy_table.table@);
        }
        let ghost db0 = *self;
        let t = match self.get_table_mut(copy_table.table.as_str()) {
            Some(t) => t,
            None => {
                return Err(DbError::TableNotFound);
            },
        };
        let r = t.load_csv(data, copy_table.delimiter.as_str());
        proof {
            assert forall|k: int| 0 <= k < self.tables@.len() implies (#[trigger] self.tables@[k]).1.wf() by {
                assert(db0.tables@[k].1.wf());
            }
        }
        r
    }
}

} // verus!
