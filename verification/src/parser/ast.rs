//! The syntax tree of parsed statements, before semantic analysis.

use vstd::prelude::*;

use crate::parser::expr::{BinaryExpression, Expression};
use crate::types::Type;

verus! {

/// The statements of a parsed input.
#[derive(Debug)]
pub struct AST {
    /// The statements, in the order they were written
    pub statements: Vec<Statement>,
}

/// One parsed statement.
#[derive(Debug)]
pub enum Statement {
    /// CREATE TABLE
    CreateTable(CreateTable),
    /// COPY
    CopyTable(CopyTable),
    /// SELECT
    Select(Query),
}

/// CREATE TABLE statement.
#[derive(Debug, Clone)]
pub struct CreateTable {
    /// The table to create
    pub table: Table,
}

/// A table definition.
#[derive(Debug, Clone)]
pub struct Table {
    /// Name of the table
    pub id: String,
    /// Columns in the table
    pub columns: Vec<Column>,
    /// Primary key columns
    pub primary_key: Vec<String>,
}

/// A column definition.
#[derive(Debug, Clone)]
pub struct Column {
    /// Name of the column
    pub id: String,
    /// Type of the column
    pub ty: Type,
    /// Declared NOT NULL
    pub not_null: bool,
}

/// COPY statement.
#[derive(Debug, Clone)]
pub struct CopyTable {
    /// Table to copy data into
    pub table: String,
    /// File to copy data from
    pub file: String,
    /// Delimiter used in the file
    pub delimiter: String,
}

/// SELECT query.
#[derive(Debug)]
pub struct Query {
    /// Target columns (SELECT clause); an empty list stands for `*`
    pub targets: Option<Vec<ColId>>,
    /// Tables to select from (FROM clause)
    pub from: Vec<TableFactor>,
    /// Conjuncts of the WHERE clause
    pub where_clause: Vec<BinaryExpression>,
}

/// A column identifier (`table.column` or `column`).
#[derive(Debug, Clone)]
pub struct ColId {
    /// Table name (empty if not qualified)
    pub table: String,
    /// Column name
    pub column: String,
}

/// A table reference (`table` or `table alias`).
#[derive(Debug, Clone)]
pub struct TableRef {
    /// Table name
    pub table: String,
    /// Table alias (empty if no alias)
    pub alias: String,
}

/// A named table or a derived table (a subquery with an alias).
#[derive(Debug)]
pub enum TableFactor {
    /// Simple named table
    Table(TableRef),
    /// Derived table from a subquery: (SELECT ...) alias
    Derived { query: Box<Query>, alias: String },
}

impl Column {
    /// A copy of the column definition.
    pub fn duplicate(&self) -> (c: Column)
        ensures
            c == *self,
    {
        Column { id: self.id.clone(), ty: self.ty, not_null: self.not_null }
    }
}

/// Copies of the texts, in order.
pub fn duplicate_strings(v: &Vec<String>) -> (r: Vec<String>)
    ensures
        r@ == v@,
{
    let mut r: Vec<String> = Vec::new();
    let mut i: usize = 0;
    while i < v.len()
        invariant
            i <= v@.len(),
            r@ == v@.take(i as int),
        decreases v@.len() - i,
    {
        r.push(v[i].clone());
        i = i + 1;
        assert(r@ =~= v@.take(i as int));
    }
    assert(v@.take(v@.len() as int) =~= v@);
    r
}

impl Table {
    /// A copy of the table definition.
    pub fn duplicate(&self) -> (t: Table)
        ensures
            t.id == self.id,
            t.columns@ == self.columns@,
            t.primary_key@ == self.primary_key@,
    {
        let mut cols: Vec<Column> = Vec::new();
        let mut i: usize = 0;
        while i < self.columns.len()
            invariant
                i <= self.columns@.len(),
                cols@ == self.columns@.take(i as int),
            decreases self.columns@.len() - i,
        {
            cols.push(self.columns[i].duplicate());
            i = i + 1;
            assert(cols@ =~= self.columns@.take(i as int));
        }
        assert(self.columns@.take(self.columns@.len() as int) =~= self.columns@);
        Table { id: self.id.clone(), columns: cols, primary_key: duplicate_strings(&self.primary_key) }
    }
}

impl CopyTable {
    /// A copy of the statement.
    pub fn duplicate(&self) -> (c: CopyTable)
        ensures
            c == *self,
    {
        CopyTable { table: self.table.clone(), file: self.file.clone(), delimiter: self.delimiter.clone() }
    }
}

impl ColId {
    /// A copy of the column identifier.
    pub fn duplicate(&self) -> (c: ColId)
        ensures
            c == *self,
    {
        ColId { table: self.table.clone(), column: self.column.clone() }
    }
}

impl TableRef {
    /// A copy of the table reference.
    pub fn duplicate(&self) -> (t: TableRef)
        ensures
            t == *self,
    {
        TableRef { table: self.table.clone(), alias: self.alias.clone() }
    }
}

/// The expression holds no resolved column: it is as the parser writes it.
pub open spec fn expr_unresolved(e: Expression) -> bool
    decreases e,
{
    match e {
        Expression::IURef(_) => false,
        Expression::BinaryExpr(b) => expr_unresolved(b.l) && expr_unresolved(b.r),
        Expression::Subquery(q) => query_ok(*q),
        _ => true,
    }
}

/// The query, and every query nested in it, reads from at least one table
/// and holds no resolved column.
pub open spec fn query_ok(q: Query) -> bool
    decreases q,
{
    &&& q.from@.len() >= 1
    &&& forall|i: int|
        0 <= i < q.from@.len() ==> match #[trigger] q.from@[i] {
            TableFactor::Derived { query, .. } => query_ok(*query),
            _ => true,
        }
    &&& forall|i: int|
        0 <= i < q.where_clause@.len() ==> expr_unresolved(#[trigger] q.where_clause@[i].l)
            && expr_unresolved(q.where_clause@[i].r)
}

} // verus!
