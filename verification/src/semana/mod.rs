//! Semantic analysis: checks statements against the database and turns
//! queries into relational-algebra plans.

pub mod scope;
pub mod resolution;
pub mod semana_errors;

use vstd::prelude::*;

use crate::semana::resolution::{
    col_resolves, column_names, flat_ius, from_entries, from_ius, from_width, iu_model, lemma_models_flat,
    lemma_models_pred, lemma_models_push, lemma_models_resolve, lemma_resolve_position, models, models_ius,
    named_names, names_position, pred_resolves, table_columns,
};

use crate::algebra::iu::{IU, IURef, iu_ids};
use crate::algebra::join::Join;
use crate::algebra::print::Print;
use crate::algebra::scan::TableScan;
use crate::algebra::select::Select;
use crate::algebra::{Op, expr_ius, op_ius, op_preds, op_scans, op_scoped, pred_ius, print_free};
use crate::db::database::Database;
use crate::parser::ast::{
    ColId, CopyTable as AstCopyStmt, CreateTable as AstCreateStmt, Query, Statement as AstStatement,
    TableFactor, expr_unresolved, query_ok,
};
use crate::parser::expr::{BinaryExpression, Expression};
use crate::semana::scope::{
    IUMap, Scope, alias_entries, all_maps, entry_lookup, find_alias, lemma_entry_lookup, matching, scope_keys,
};
use crate::semana::semana_errors::SemanticError;
use crate::statement::Statement;
use crate::statement::select::SelectStatement;
use crate::statement::copy::CopyStatement;
use crate::statement::create::CreateStatement;
use crate::util::strings::str_eq;

verus! {

/// What checking the CREATE TABLE statement against the database gives:
/// see `analyze_create_stmt`.
pub open spec fn create_outcome(
    db: Database,
    stmt: AstCreateStmt,
    r: Result<CreateStatement, SemanticError>,
) -> bool {
    if db.table_index(stmt.table.id@) is Some {
        r matches Err(SemanticError::TableExists)
    } else if !column_ids_distinct(stmt.table) {
        r matches Err(SemanticError::RepeatedColumnNames)
    } else {
        match r {
            Err(SemanticError::ColumnNotNull(c)) => exists|i: int|
                0 <= i < stmt.table.columns@.len() && !(#[trigger] stmt.table.columns@[i]).not_null
                    && stmt.table.columns@[i].id@ == c@ && forall|j: int|
                    0 <= j < i ==> (#[trigger] stmt.table.columns@[j]).not_null,
            Err(SemanticError::KeyNotInColumns(k)) => {
                &&& forall|i: int|
                    0 <= i < stmt.table.columns@.len() ==> (#[trigger] stmt.table.columns@[i]).not_null
                &&& exists|i: int|
                    0 <= i < stmt.table.primary_key@.len() && !has_column(
                        stmt.table,
                        (#[trigger] stmt.table.primary_key@[i])@,
                    ) && stmt.table.primary_key@[i]@ == k@ && forall|j: int|
                        0 <= j < i ==> has_column(stmt.table, (#[trigger] stmt.table.primary_key@[j])@)
            },
            Ok(s) => {
                &&& forall|i: int|
                    0 <= i < stmt.table.columns@.len() ==> (#[trigger] stmt.table.columns@[i]).not_null
                &&& forall|i: int|
                    0 <= i < stmt.table.primary_key@.len() ==> has_column(
                        stmt.table,
                        (#[trigger] stmt.table.primary_key@[i])@,
                    )
                &&& s.table.id == stmt.table.id
                &&& s.table.columns@ == stmt.table.columns@
                &&& s.table.primary_key@ == stmt.table.primary_key@
            },
            _ => false,
        }
    }
}

/// What checking the COPY statement against the database gives, the file
/// existing or not: see `analyze_copy_stmt`.
pub open spec fn copy_outcome(
    db: Database,
    stmt: AstCopyStmt,
    file_exists: bool,
    r: Result<CopyStatement, SemanticError>,
) -> bool {
    &&& db.table_index(stmt.table@) is None ==> (r matches Err(SemanticError::TableNotExists(t)) && t@
        == stmt.table@)
    &&& db.table_index(stmt.table@) is Some && !file_exists ==> (r matches Err(SemanticError::FileNotFound(f))
        && f@ == stmt.file@)
    &&& db.table_index(stmt.table@) is Some && file_exists ==> (r matches Ok(s) && s.copy_table == stmt)
}

/// The IU reference is a fresh IU, with the given identity, of the column's
/// name and type.
pub open spec fn scan_column(iu: IURef, col: crate::db::column::Column, id: int) -> bool {
    iu.iu.name@ == col.id@ && iu.iu.ty == col.ty && iu.id == id
}

/// The key that a named table goes by in the scope: its alias, or its name
/// where it has none.
pub open spec fn tref_key(t: crate::parser::ast::TableRef) -> Seq<char> {
    if t.alias@.len() == 0 {
        t.table@
    } else {
        t.alias@
    }
}

/// The named tables of a FROM clause can all be added, in order, to a scope in
/// which the keys `taken` are in use, with fresh IUs numbered from `next`:
/// each table exists, its IUs are numbered within range, and its key is not in
/// use yet.
pub open spec fn from_ok(db: Database, from: Seq<TableFactor>, next: int, taken: Set<Seq<char>>) -> bool
    decreases from.len(),
{
    if from.len() == 0 {
        true
    } else {
        match from[0] {
            TableFactor::Table(t) => match db.table_index(t.table@) {
                Some(i) => {
                    let n = db.tables@[i].1.columns@.len();
                    &&& next + n <= u64::MAX
                    &&& !taken.contains(tref_key(t))
                    &&& from_ok(db, from.drop_first(), next + n, taken.insert(tref_key(t)))
                },
                None => false,
            },
            _ => false,
        }
    }
}

/// A query over named tables is accepted: its tables exist, go by keys that
/// differ, and have IUs numbered from `next` within range, and every column
/// that its WHERE conjuncts and its targets refer to resolves among them.
pub open spec fn select_accepted(db: Database, q: Query, next: int) -> bool {
    let entries = from_entries(db, q.from@);
    &&& from_ok(db, q.from@, next, Set::empty())
    &&& forall|i: int| 0 <= i < q.where_clause@.len() ==> pred_resolves(entries, #[trigger] q.where_clause@[i])
    &&& match q.targets {
        Some(v) => forall|i: int| 0 <= i < v@.len() ==> col_resolves(entries, #[trigger] v@[i]),
        None => true,
    }
}

/// The table factor is a named table, or a derived table whose query is
/// over named tables and has no subquery in its WHERE conjuncts.
pub open spec fn simple_factor(f: TableFactor) -> bool {
    match f {
        TableFactor::Table(_) => true,
        TableFactor::Derived { query, .. } => all_named(query.from@) && plain_preds(query.where_clause@),
    }
}

/// Every table factor of the FROM clause is simple.
pub open spec fn simple_from(from: Seq<TableFactor>) -> bool {
    forall|k: int| 0 <= k < from.len() ==> simple_factor(#[trigger] from[k])
}

/// The tables of a FROM clause, named or derived, can all be added, in
/// order, to a scope in which the keys `taken` are in use, with fresh IUs
/// numbered from `next`: a named table as `from_ok` says; a derived table
/// over named tables when its query is accepted with the IUs from `next`,
/// and, where it has a target list, its alias is not in use yet; its query
/// takes as many IUs as its tables have columns.
pub open spec fn from_accepted(db: Database, from: Seq<TableFactor>, next: int, taken: Set<Seq<char>>) -> bool
    decreases from.len(),
{
    if from.len() == 0 {
        true
    } else {
        match from[0] {
            TableFactor::Table(t) => match db.table_index(t.table@) {
                Some(i) => {
                    let n = db.tables@[i].1.columns@.len();
                    &&& next + n <= u64::MAX
                    &&& !taken.contains(tref_key(t))
                    &&& from_accepted(db, from.drop_first(), next + n, taken.insert(tref_key(t)))
                },
                None => false,
            },
            TableFactor::Derived { query, alias } => {
                &&& all_named(query.from@) && plain_preds(query.where_clause@)
                &&& select_accepted(db, *query, next)
                &&& query.targets is Some ==> !taken.contains(alias@)
                &&& from_accepted(
                    db,
                    from.drop_first(),
                    next + from_width(db, query.from@),
                    if query.targets is Some {
                        taken.insert(alias@)
                    } else {
                        taken
                    },
                )
            },
        }
    }
}

/// A query whose FROM clause holds named tables and derived tables over
/// named tables is accepted: its tables can be added (`from_accepted`), and
/// every column that its WHERE conjuncts and its targets refer to resolves
/// among them.
pub open spec fn query_accepted(db: Database, q: Query, next: int) -> bool {
    let entries = from_entries(db, q.from@);
    &&& from_accepted(db, q.from@, next, Set::empty())
    &&& forall|i: int| 0 <= i < q.where_clause@.len() ==> pred_resolves(entries, #[trigger] q.where_clause@[i])
    &&& match q.targets {
        Some(v) => forall|i: int| 0 <= i < v@.len() ==> col_resolves(entries, #[trigger] v@[i]),
        None => true,
    }
}

/// Every target column resolves in the scope.
pub open spec fn targets_resolve(targets: Option<Vec<ColId>>, sc: Scope) -> bool {
    match targets {
        Some(v) => forall|i: int| 0 <= i < v@.len() ==> (#[trigger] sc.resolve(v@[i])) is Ok,
        None => true,
    }
}

/// What analyzing a reference to a named table gives: the table must exist;
/// each of its columns, in order, gets a fresh IU; the scan of the table
/// gives them, and they are added to the scope under the alias (the table's
/// name where there is none), which must not be in scope yet.
pub open spec fn named_table_analyzed(
    pre: SemanticAnalysis,
    post: SemanticAnalysis,
    tref: crate::parser::ast::TableRef,
    scope_pre: Scope,
    scope_post: Scope,
    res: Result<Op, SemanticError>,
) -> bool {
    let key = if tref.alias@.len() == 0 {
        tref.table@
    } else {
        tref.alias@
    };
    match pre.db.table_index(tref.table@) {
        None => res matches Err(SemanticError::TableNotExists(t)) && t@ == tref.table@,
        Some(i) => {
            let table = pre.db.tables@[i].1;
            let n = table.columns@.len();
            if pre.next_iu + n > u64::MAX {
                res == Err::<Op, SemanticError>(SemanticError::IUsExhausted)
            } else if scope_pre.columns_of(key) is Some {
                res matches Err(SemanticError::DuplicateAlias(a)) && a@ == key
            } else {
                &&& res matches Ok(Op::TableScan(scan)) && {
                    &&& scan.table_name@ == tref.table@
                    &&& scan.iu_refs_set@.len() == n
                    &&& forall|k: int|
                        0 <= k < n ==> scan_column(
                            #[trigger] scan.iu_refs_set@[k],
                            table.columns@[k],
                            pre.next_iu + k,
                        )
                    &&& scope_post.columns_of(key) matches Some(maps) && maps.len() == n && forall|k: int|
                        0 <= k < n ==> (#[trigger] maps[k]).alias@ == table.columns@[k].id@ && maps[k].iu
                            == scan.iu_refs_set@[k]
                    &&& scope_keys(scope_post) == scope_keys(scope_pre).insert(key)
                    &&& scope_post.columns@.len() == scope_pre.columns@.len() + 1
                    &&& forall|t: int|
                        0 <= t < scope_pre.columns@.len() ==> #[trigger] scope_post.columns@[t]
                            == scope_pre.columns@[t]
                    &&& scope_post.columns@.last()@.map_values(|m: IUMap| m.alias@) == column_names(
                        *pre.db,
                        tref.table@,
                    )
                    &&& scope_post.columns@.last()@.map_values(|m: IUMap| iu_model(m.iu)) == Seq::new(
                        n,
                        |k: int| (pre.next_iu + k, table.columns@[k].id@, table.columns@[k].ty),
                    )
                    &&& alias_entries(scope_post.ius) == alias_entries(scope_pre.ius).push(
                        (key, scope_pre.columns@.len() as usize),
                    )
                }
                &&& post.next_iu == pre.next_iu + n
            }
        },
    }
}

/// What analyzing a derived table does to the scope: where its query has a
/// target list, the target columns (those of every table in its scope for
/// `*`) are added under the alias, which comes last; the entries in scope
/// before stay as they were. Without a target list the scope is unchanged.
pub open spec fn derived_table_added(
    db: Database,
    query: Query,
    alias: Seq<char>,
    scope_pre: Scope,
    scope_post: Scope,
    res: Result<Op, SemanticError>,
) -> bool {
    res is Ok ==> match query.targets {
        None => scope_post == scope_pre,
        Some(ts) => {
            &&& scope_keys(scope_post) == scope_keys(scope_pre).insert(alias)
            &&& scope_post.columns@.len() == scope_pre.columns@.len() + 1
            &&& forall|t: int|
                0 <= t < scope_pre.columns@.len() ==> #[trigger] scope_post.columns@[t]
                    == scope_pre.columns@[t]
            &&& alias_entries(scope_post.ius) == alias_entries(scope_pre.ius).push(
                (alias, scope_pre.columns@.len() as usize),
            )
            &&& ts@.len() > 0 ==> scope_post.columns@.last()@.map_values(|m: IUMap| m.alias@)
                == ts@.map_values(|c: ColId| c.column@)
            &&& ts@.len() == 0 && all_named(query.from@) ==> scope_post.columns@.last()@.map_values(
                |m: IUMap| m.alias@,
            ) == named_names(db, query.from@)
        },
    }
}

/// The expression with each column reference resolved in the scope, if each
/// one resolves; a subquery is left to the analysis.
pub open spec fn resolve_expr(e: Expression, s: Scope) -> Option<Expression>
    decreases e,
{
    match e {
        Expression::String(x) => Some(Expression::String(x)),
        Expression::ColumnRef(c) => match s.resolve(c) {
            Ok(iu) => Some(Expression::IURef(iu)),
            Err(_) => None,
        },
        Expression::IURef(iu) => Some(Expression::IURef(iu)),
        Expression::BinaryExpr(b) => match (resolve_expr(b.l, s), resolve_expr(b.r, s)) {
            (Some(l), Some(r)) => Some(Expression::BinaryExpr(Box::new(BinaryExpression { l, r, op: b.op }))),
            _ => None,
        },
        Expression::Subquery(_) => None,
    }
}

/// The expression holds no subquery.
pub open spec fn no_subquery(e: Expression) -> bool
    decreases e,
{
    match e {
        Expression::BinaryExpr(b) => no_subquery(b.l) && no_subquery(b.r),
        Expression::Subquery(_) => false,
        _ => true,
    }
}

/// The predicate with its column references resolved in the scope, if they
/// all resolve.
pub open spec fn resolve_pred(b: BinaryExpression, s: Scope) -> Option<BinaryExpression> {
    match (resolve_expr(b.l, s), resolve_expr(b.r, s)) {
        (Some(l), Some(r)) => Some(BinaryExpression { l, r, op: b.op }),
        _ => None,
    }
}

/// The predicates with their column references resolved in the scope.
pub open spec fn resolved_preds(ws: Seq<BinaryExpression>, s: Scope) -> Seq<BinaryExpression> {
    ws.map_values(|b: BinaryExpression| resolve_pred(b, s)->Some_0)
}

/// Every table of the FROM clause is a named table.
pub open spec fn all_named(from: Seq<TableFactor>) -> bool {
    forall|k: int| 0 <= k < from.len() ==> #[trigger] from[k] is Table
}

/// The scans read the named tables of the FROM clause, in order.
pub open spec fn scans_named(scans: Seq<TableScan>, from: Seq<TableFactor>) -> bool {
    scans.len() == from.len() && forall|k: int|
        0 <= k < from.len() ==> (#[trigger] scans[k]).table_name@ == from[k]->Table_0.table@
}

/// No predicate holds a subquery.
pub open spec fn plain_preds(ws: Seq<BinaryExpression>) -> bool {
    forall|i: int| 0 <= i < ws.len() ==> no_subquery(#[trigger] ws[i].l) && no_subquery(ws[i].r)
}

/// Checks statements against a database and turns them into executable
/// statements.
pub struct SemanticAnalysis<'a> {
    /// The database that statements are checked against
    pub db: &'a Database,
    /// The identity that the next IU gets
    pub next_iu: u64,
}

/// The names of the columns of a table definition are pairwise different.
pub open spec fn column_ids_distinct(t: crate::parser::ast::Table) -> bool {
    forall|i: int, j: int|
        0 <= i < j < t.columns@.len() ==> (#[trigger] t.columns@[i]).id@ != (#[trigger] t.columns@[j]).id@
}

/// The table definition has a column of that name.
pub open spec fn has_column(t: crate::parser::ast::Table, name: Seq<char>) -> bool {
    exists|i: int| 0 <= i < t.columns@.len() && (#[trigger] t.columns@[i]).id@ == name
}

/// Are the names of the columns pairwise different?
fn columns_distinct(t: &crate::parser::ast::Table) -> (b: bool)
    ensures
        b == column_ids_distinct(*t),
{
    let n = t.columns.len();
    let mut i: usize = 0;
    while i < n
        invariant
            i <= n,
            n == t.columns@.len(),
            forall|a: int, b: int|
                0 <= a < i && a < b < n ==> (#[trigger] t.columns@[a]).id@ != (#[trigger] t.columns@[b]).id@,
        decreases n - i,
    {
        let mut j: usize = i + 1;
        while j < n
            invariant
                i < j <= n,
                n == t.columns@.len(),
                forall|a: int, b: int|
                    0 <= a < i && a < b < n ==> (#[trigger] t.columns@[a]).id@ != (#[trigger] t.columns@[b]).id@,
                forall|b: int| i < b < j ==> t.columns@[i as int].id@ != (#[trigger] t.columns@[b]).id@,
            decreases n - j,
        {
            if str_eq(t.columns[i].id.as_str(), t.columns[j].id.as_str()) {
                return false;
            }
            j = j + 1;
        }
        i = i + 1;
    }
    true
}

/// Does the table definition have a column of that name?
fn find_column(t: &crate::parser::ast::Table, name: &str) -> (b: bool)
    ensures
        b == has_column(*t, name@),
{
    let n = t.columns.len();
    let mut i: usize = 0;
    while i < n
        invariant
            i <= n,
            n == t.columns@.len(),
            forall|k: int| 0 <= k < i ==> (#[trigger] t.columns@[k]).id@ != name@,
        decreases n - i,
    {
        if str_eq(t.columns[i].id.as_str(), name) {
            assert(t.columns@[i as int].id@ == name@);
            return true;
        }
        i = i + 1;
    }
    false
}

impl<'a> SemanticAnalysis<'a> {
    /// An analysis against the database.
    pub fn new(db: &'a Database) -> (s: Self)
        ensures
            s.db == db,
            s.next_iu == 0,
    {
        SemanticAnalysis { db, next_iu: 0 }
    }

    /// Checks a COPY statement: the table must exist, and so must the file
    /// (`file_exists` tells whether it does).
    pub fn analyze_copy_stmt(&self, stmt: &AstCopyStmt, file_exists: bool) -> (r: Result<CopyStatement, SemanticError>)
        ensures
            copy_outcome(*self.db, *stmt, file_exists, r),
    {
        if self.db.get_table(stmt.table.as_str()).is_none() {
            return Err(SemanticError::TableNotExists(stmt.table.clone()));
        }
        if !file_exists {
            return Err(SemanticError::FileNotFound(stmt.file.clone()));
        }
        Ok(CopyStatement::new(stmt.duplicate()))
    }

    /// Checks a CREATE TABLE statement: the table must not exist yet, its
    /// column names must be pairwise different, every column must be declared
    /// NOT NULL, and every primary-key name must be a column's.
    pub fn analyze_create_stmt(&self, stmt: &AstCreateStmt) -> (r: Result<CreateStatement, SemanticError>)
        ensures
            create_outcome(*self.db, *stmt, r),
    {
        let t = &stmt.table;
        if self.db.get_table(t.id.as_str()).is_some() {
            return Err(SemanticError::TableExists);
        }
        if !columns_distinct(t) {
            return Err(SemanticError::RepeatedColumnNames);
        }
        let n = t.columns.len();
        let mut i: usize = 0;
        while i < n
            invariant
                i <= n,
                n == t.columns@.len(),
                forall|j: int| 0 <= j < i ==> (#[trigger] t.columns@[j]).not_null,
                *t == stmt.table,
                self.db.table_index(t.id@) is None,
                column_ids_distinct(*t),
            decreases n - i,
        {
            if !t.columns[i].not_null {
                return Err(SemanticError::ColumnNotNull(t.columns[i].id.clone()));
            }
            i = i + 1;
        }
        let m = t.primary_key.len();
        let mut k: usize = 0;
        while k < m
            invariant
                k <= m,
                m == t.primary_key@.len(),
                forall|j: int| 0 <= j < k ==> has_column(*t, (#[trigger] t.primary_key@[j])@),
                *t == stmt.table,
                self.db.table_index(t.id@) is None,
                column_ids_distinct(*t),
                forall|j: int| 0 <= j < t.columns@.len() ==> (#[trigger] t.columns@[j]).not_null,
            decreases m - k,
        {
            if !find_column(t, t.primary_key[k].as_str()) {
                return Err(SemanticError::KeyNotInColumns(t.primary_key[k].clone()));
            }
            k = k + 1;
        }
        Ok(CreateStatement::new(t.duplicate()))
    }
}

/// The IUs a query prints, in order, in the scope of its FROM clause: the
/// target columns as they resolve there; every visible column for `*`; none
/// without targets.
pub open spec fn printed_ius(printed: Seq<IURef>, targets: Option<Vec<ColId>>, sc: Scope) -> bool {
    match targets {
        None => printed.len() == 0,
        Some(ts) => if ts@.len() == 0 {
            printed == all_maps(sc.columns@).map_values(|m: IUMap| m.iu)
        } else {
            &&& printed.len() == ts@.len()
            &&& forall|k: int|
                0 <= k < ts@.len() ==> sc.resolve(#[trigger] ts@[k]) == Ok::<IURef, SemanticError>(printed[k])
        },
    }
}

/// The IUs a query over named tables prints, in order: for each target, the
/// IU of the column that it names among the tables; the IUs of all their
/// columns, table by table, for `*`; none without targets. The tables' IUs
/// are numbered from `next` in the order of the tables and of their columns.
pub open spec fn printed_named(
    printed: Seq<IURef>,
    targets: Option<Vec<ColId>>,
    db: Database,
    from: Seq<TableFactor>,
    next: int,
) -> bool {
    let entries = from_entries(db, from);
    let ius = from_ius(db, from, next);
    match targets {
        None => printed.len() == 0,
        Some(ts) => if ts@.len() == 0 {
            &&& printed.len() == flat_ius(ius).len()
            &&& forall|i: int| 0 <= i < printed.len() ==> iu_model(#[trigger] printed[i]) == flat_ius(ius)[i]
        } else {
            &&& printed.len() == ts@.len()
            &&& forall|j: int| 0 <= j < ts@.len() ==> target_printed(entries, ius, #[trigger] ts@[j], printed[j])
        },
    }
}

/// The IU is that of a column that the target names among the tables.
pub open spec fn target_printed(
    entries: Seq<(Seq<char>, Seq<Seq<char>>)>,
    ius: Seq<Seq<(int, Seq<char>, crate::types::Type)>>,
    c: ColId,
    iu: IURef,
) -> bool {
    exists|t: int, k: int| names_position(entries, c, t, k) && iu_model(iu) == ius[t][k]
}

/// The expression with each column reference replaced by the IU of a column
/// that it names among the tables.
pub open spec fn expr_named(
    entries: Seq<(Seq<char>, Seq<Seq<char>>)>,
    ius: Seq<Seq<(int, Seq<char>, crate::types::Type)>>,
    e: Expression,
    r: Expression,
) -> bool
    decreases e,
{
    match e {
        Expression::ColumnRef(c) => r matches Expression::IURef(iu) && target_printed(entries, ius, c, iu),
        Expression::BinaryExpr(b) => r matches Expression::BinaryExpr(rb) && rb.op == b.op && expr_named(
            entries,
            ius,
            b.l,
            rb.l,
        ) && expr_named(entries, ius, b.r, rb.r),
        _ => r == e,
    }
}

/// The predicate with each column reference replaced by the IU of a column
/// that it names among the tables.
pub open spec fn pred_named(
    entries: Seq<(Seq<char>, Seq<Seq<char>>)>,
    ius: Seq<Seq<(int, Seq<char>, crate::types::Type)>>,
    b: BinaryExpression,
    r: BinaryExpression,
) -> bool {
    r.op == b.op && expr_named(entries, ius, b.l, r.l) && expr_named(entries, ius, b.r, r.r)
}

/// In a scope that holds the tables and their IUs, resolving an expression
/// replaces each column reference by the IU of a column that it names.
proof fn lemma_resolve_expr_named(
    sc: Scope,
    entries: Seq<(Seq<char>, Seq<Seq<char>>)>,
    ius: Seq<Seq<(int, Seq<char>, crate::types::Type)>>,
    e: Expression,
)
    requires
        sc.wf(),
        models(sc, entries),
        models_ius(sc, ius),
        resolve_expr(e, sc) is Some,
    ensures
        expr_named(entries, ius, e, resolve_expr(e, sc)->Some_0),
    decreases e,
{
    match e {
        Expression::ColumnRef(c) => {
            lemma_resolve_position(sc, entries, ius, c);
        },
        Expression::BinaryExpr(b) => {
            lemma_resolve_expr_named(sc, entries, ius, b.l);
            lemma_resolve_expr_named(sc, entries, ius, b.r);
        },
        _ => {},
    }
}

/// The identities of the IUs visible in a scope.
pub open spec fn scope_ids(s: Scope) -> Set<u64> {
    iu_ids(all_maps(s.columns@).map_values(|m: IUMap| m.iu))
}

/// The identities of the IUs of a list of column mappings.
pub open spec fn maps_ids(maps: Seq<IUMap>) -> Set<u64> {
    iu_ids(maps.map_values(|m: IUMap| m.iu))
}

/// The column mappings of the first `n` tables of a scope, and of the next
/// one, make up those of the first `n + 1`.
proof fn lemma_maps_ids_concat(a: Seq<IUMap>, b: Seq<IUMap>)
    ensures
        maps_ids(a + b) == maps_ids(a).union(maps_ids(b)),
{
    let f = |m: IUMap| m.iu;
    assert((a + b).map_values(f) =~= a.map_values(f) + b.map_values(f));
    let x = a.map_values(f);
    let y = b.map_values(f);
    assert forall|id: u64| iu_ids(x + y).contains(id) <==> iu_ids(x).union(iu_ids(y)).contains(id) by {
        if iu_ids(x + y).contains(id) {
            let i = choose|i: int| 0 <= i < (x + y).len() && (#[trigger] (x + y)[i]).id == id;
            if i < x.len() {
                assert(x[i] == (x + y)[i]);
            } else {
                assert(y[i - x.len()] == (x + y)[i]);
            }
        }
        if iu_ids(x).contains(id) {
            let i = choose|i: int| 0 <= i < x.len() && (#[trigger] x[i]).id == id;
            assert((x + y)[i] == x[i]);
        }
        if iu_ids(y).contains(id) {
            let i = choose|i: int| 0 <= i < y.len() && (#[trigger] y[i]).id == id;
            assert((x + y)[x.len() + i] == y[i]);
        }
    }
    assert(iu_ids(x + y) =~= iu_ids(x).union(iu_ids(y)));
}

/// A column that `find_alias` finds is one of the list's.
proof fn lemma_find_alias_in(maps: Seq<IUMap>, column: Seq<char>)
    ensures
        find_alias(maps, column) matches Some(iu) ==> maps_ids(maps).contains(iu.id),
    decreases maps.len(),
{
    if maps.len() > 0 {
        lemma_find_alias_in(maps.drop_first(), column);
        let f = |m: IUMap| m.iu;
        if maps[0].alias@ == column {
            assert(maps.map_values(f)[0].id == maps[0].iu.id);
        } else if let Some(iu) = find_alias(maps.drop_first(), column) {
            let i = choose|i: int|
                0 <= i < maps.drop_first().map_values(f).len() && (#[trigger] maps.drop_first().map_values(
                    f,
                )[i]).id == iu.id;
            assert(maps.map_values(f)[i + 1] == maps.drop_first().map_values(f)[i]);
        }
    }
}

/// A column among the matching ones is one of the list's.
proof fn lemma_matching_in(maps: Seq<IUMap>, column: Seq<char>, k: int)
    requires
        0 <= k < matching(maps, column).len(),
    ensures
        maps_ids(maps).contains(matching(maps, column)[k].iu.id),
    decreases maps.len(),
{
    let f = |m: IUMap| m.iu;
    if maps.len() > 0 {
        let pre = matching(maps.drop_last(), column);
        if k < pre.len() {
            lemma_matching_in(maps.drop_last(), column, k);
            let i = choose|i: int|
                0 <= i < maps.drop_last().map_values(f).len() && (#[trigger] maps.drop_last().map_values(
                    f,
                )[i]).id == pre[k].iu.id;
            assert(maps.map_values(f)[i] == maps.drop_last().map_values(f)[i]);
        } else {
            assert(maps.map_values(f)[maps.len() - 1].id == maps.last().iu.id);
        }
    }
}

/// The scope's columns are those of its tables, in order.
proof fn lemma_scope_columns_in(s: Scope, i: int)
    requires
        0 <= i < s.columns@.len(),
    ensures
        maps_ids(s.columns@[i]@).subset_of(scope_ids(s)),
{
    let cs = s.columns@;
    crate::semana::scope::lemma_all_maps_concat(cs.take(i), cs.skip(i));
    assert(cs =~= cs.take(i) + cs.skip(i));
    let rest = cs.skip(i);
    crate::semana::scope::lemma_all_maps_concat(seq![rest[0]], rest.drop_first());
    assert(rest =~= seq![rest[0]] + rest.drop_first());
    let one = seq![rest[0]];
    assert(one.drop_last() =~= Seq::<Vec<IUMap>>::empty());
    assert(all_maps(one) == all_maps(one.drop_last()) + one.last()@);
    assert(all_maps(one) =~= rest[0]@);
    lemma_maps_ids_concat(all_maps(cs.take(i)), all_maps(rest));
    lemma_maps_ids_concat(rest[0]@, all_maps(rest.drop_first()));
}

/// What a column reference resolves to is a visible column.
/// Analyzing the first table of a FROM clause fails where the clause cannot be
/// added, and otherwise leaves the rest of the clause to be added.
proof fn lemma_from_step(
    pre: SemanticAnalysis,
    post: SemanticAnalysis,
    from: Seq<TableFactor>,
    t: crate::parser::ast::TableRef,
    sp: Scope,
    sq: Scope,
    res: Result<Op, SemanticError>,
)
    requires
        from.len() > 0,
        from[0] == TableFactor::Table(t),
        named_table_analyzed(pre, post, t, sp, sq, res),
        post.db == pre.db,
    ensures
        res is Err ==> !from_ok(*pre.db, from, pre.next_iu as int, scope_keys(sp)),
        res is Ok ==> from_ok(*pre.db, from, pre.next_iu as int, scope_keys(sp)) == from_ok(
            *pre.db,
            from.drop_first(),
            post.next_iu as int,
            scope_keys(sq),
        ),
{
    assert(scope_keys(sp).contains(tref_key(t)) == (sp.columns_of(tref_key(t)) is Some));
}

/// What analyzing a table factor does, as `analyze_table_reference` states it.
pub open spec fn factor_analyzed(
    pre: SemanticAnalysis,
    post: SemanticAnalysis,
    f: TableFactor,
    sp: Scope,
    sq: Scope,
    res: Result<Op, SemanticError>,
) -> bool {
    match f {
        TableFactor::Table(tref) => named_table_analyzed(pre, post, tref, sp, sq, res),
        TableFactor::Derived { query, alias } => {
            &&& all_named(query.from@) && plain_preds(query.where_clause@) ==> (res is Ok <==> {
                &&& select_accepted(*pre.db, *query, pre.next_iu as int)
                &&& query.targets is Some ==> !scope_keys(sp).contains(alias@)
            })
            &&& derived_table_added(*pre.db, *query, alias@, sp, sq, res)
            &&& all_named(query.from@) && plain_preds(query.where_clause@) ==> (res is Ok ==> post.next_iu
                == pre.next_iu + from_width(*pre.db, query.from@))
        },
    }
}

/// Analyzing the first factor of a FROM clause of simple factors fails
/// where the clause cannot be added, and otherwise leaves the rest of the
/// clause to be added.
proof fn lemma_accept_step(
    pre: SemanticAnalysis,
    post: SemanticAnalysis,
    from: Seq<TableFactor>,
    sp: Scope,
    sq: Scope,
    res: Result<Op, SemanticError>,
)
    requires
        from.len() > 0,
        simple_factor(from[0]),
        factor_analyzed(pre, post, from[0], sp, sq, res),
        post.db == pre.db,
    ensures
        res is Err ==> !from_accepted(*pre.db, from, pre.next_iu as int, scope_keys(sp)),
        res is Ok ==> from_accepted(*pre.db, from, pre.next_iu as int, scope_keys(sp)) == from_accepted(
            *pre.db,
            from.drop_first(),
            post.next_iu as int,
            scope_keys(sq),
        ),
{
    match from[0] {
        TableFactor::Table(t) => {
            assert(scope_keys(sp).contains(tref_key(t)) == (sp.columns_of(tref_key(t)) is Some));
        },
        TableFactor::Derived { query, alias } => {
            if res is Ok && query.targets is None {
                assert(scope_keys(sq) =~= scope_keys(sp));
            }
        },
    }
}

/// Analyzing the `i`-th factor of a FROM clause of simple factors, added to
/// a scope that holds those before it, gives a scope that holds the first
/// `i + 1`.
proof fn lemma_models_factor(
    pre: SemanticAnalysis,
    post: SemanticAnalysis,
    from: Seq<TableFactor>,
    i: int,
    sp: Scope,
    sq: Scope,
    res: Result<Op, SemanticError>,
)
    requires
        0 <= i < from.len(),
        simple_factor(from[i]),
        factor_analyzed(pre, post, from[i], sp, sq, res),
        res is Ok,
        sp.wf(),
        models(sp, from_entries(*pre.db, from.take(i))),
    ensures
        models(sq, from_entries(*pre.db, from.take(i + 1))),
{
    let db = *pre.db;
    let e0 = from_entries(db, from.take(i));
    assert(from.take(i + 1).drop_last() =~= from.take(i));
    assert(from.take(i + 1).last() == from[i]);
    match from[i] {
        TableFactor::Table(t) => {
            lemma_models_push(sp, sq, e0, tref_key(t), column_names(db, t.table@));
        },
        TableFactor::Derived { query, alias } => {
            match query.targets {
                Some(ts) => {
                    let names = if ts@.len() == 0 {
                        named_names(db, query.from@)
                    } else {
                        ts@.map_values(|c: ColId| c.column@)
                    };
                    lemma_models_push(sp, sq, e0, alias@, names);
                },
                None => {},
            }
        },
    }
}

/// Adding the `i`-th named table of a FROM clause to a scope that holds the
/// IUs of the tables before it gives a scope that holds those of the first
/// `i + 1`, and the next identity follows them.
proof fn lemma_from_ius_step(
    pre: SemanticAnalysis,
    post: SemanticAnalysis,
    from: Seq<TableFactor>,
    i: int,
    t: crate::parser::ast::TableRef,
    sp: Scope,
    sq: Scope,
    res: Result<Op, SemanticError>,
    next: int,
)
    requires
        0 <= i < from.len(),
        from[i] == TableFactor::Table(t),
        named_table_analyzed(pre, post, t, sp, sq, res),
        res is Ok,
        post.db == pre.db,
        models_ius(sp, from_ius(*pre.db, from.take(i), next)),
        pre.next_iu == next + from_width(*pre.db, from.take(i)),
    ensures
        models_ius(sq, from_ius(*pre.db, from.take(i + 1), next)),
        post.next_iu == next + from_width(*pre.db, from.take(i + 1)),
{
    let db = *pre.db;
    let ti = db.table_index(t.table@)->Some_0;
    let cols = db.tables@[ti].1.columns@;
    assert(from.take(i + 1).drop_last() =~= from.take(i));
    assert(from.take(i + 1).last() == from[i]);
    assert(table_columns(db, from[i]) == cols);
    let base = next + from_width(db, from.take(i));
    let last = Seq::new(cols.len(), |k: int| (base + k, cols[k].id@, cols[k].ty));
    assert(from_ius(db, from.take(i + 1), next) == from_ius(db, from.take(i), next).push(last));
    assert(sq.columns@.last()@.map_values(|m: IUMap| iu_model(m.iu)) =~= last);
    let ius = from_ius(db, from.take(i), next);
    assert forall|u: int| 0 <= u < ius.len() + 1 implies (#[trigger] sq.columns@[u])@.map_values(
        |m: IUMap| iu_model(m.iu),
    ) == ius.push(last)[u] by {
        if u < ius.len() {
            assert(sq.columns@[u] == sp.columns@[u]);
        } else {
            assert(sq.columns@[u] == sq.columns@.last());
        }
    }
}

proof fn lemma_resolve_in_scope(s: Scope, c: ColId)
    requires
        s.wf(),
    ensures
        s.resolve(c) matches Ok(iu) ==> scope_ids(s).contains(iu.id),
{
    let table = crate::util::strings::spec_trim(c.table@);
    let column = crate::util::strings::spec_trim(c.column@);
    if table.len() > 0 {
        lemma_entry_lookup(crate::semana::scope::alias_entries(s.ius), table);
        match entry_lookup(crate::semana::scope::alias_entries(s.ius), table) {
            Some(i) => {
                let w = choose|w: int|
                    0 <= w < crate::semana::scope::alias_entries(s.ius).len()
                        && #[trigger] crate::semana::scope::alias_entries(s.ius)[w] == (table, i)
                        && forall|j: int|
                        0 <= j < w ==> (#[trigger] crate::semana::scope::alias_entries(s.ius)[j]).0
                            != table;
                assert(crate::semana::scope::alias_entries(s.ius)[w].1 == w);
                lemma_find_alias_in(s.columns@[i as int]@, column);
                lemma_scope_columns_in(s, i as int);
            },
            None => {},
        }
    } else {
        let ms = matching(all_maps(s.columns@), column);
        if ms.len() == 1 {
            lemma_matching_in(all_maps(s.columns@), column, 0);
        }
    }
}

impl<'a> SemanticAnalysis<'a> {
    /// A fresh IU identity.
    fn fresh_iu(&mut self) -> (r: Result<u64, SemanticError>)
        ensures
            final(self).db == old(self).db,
            match r {
                Ok(id) => id == old(self).next_iu && final(self).next_iu == old(self).next_iu + 1,
                Err(e) => e == SemanticError::IUsExhausted && old(self).next_iu == u64::MAX,
            },
    {
        if self.next_iu == u64::MAX {
            return Err(SemanticError::IUsExhausted);
        }
        let id = self.next_iu;
        self.next_iu = self.next_iu + 1;
        Ok(id)
    }

    /// Analyzes a statement into an executable statement; `file_exists` tells
    /// whether the file of a COPY statement exists.
    pub fn analyze(&mut self, ast_stmt: AstStatement, file_exists: bool) -> (r: Result<Statement, SemanticError>)
        requires
            ast_stmt matches AstStatement::Select(q) ==> query_ok(q),
        ensures
            ast_stmt matches AstStatement::CreateTable(ct) ==> match r {
                Ok(Statement::Create(s)) => create_outcome(*old(self).db, ct, Ok(s)),
                Ok(_) => false,
                Err(e) => create_outcome(*old(self).db, ct, Err(e)),
            },
            ast_stmt matches AstStatement::CopyTable(ct) ==> match r {
                Ok(Statement::Copy(s)) => copy_outcome(*old(self).db, ct, file_exists, Ok(s)),
                Ok(_) => false,
                Err(e) => copy_outcome(*old(self).db, ct, file_exists, Err(e)),
            },
            ast_stmt is Select ==> (r matches Ok(s) ==> s is Select),
            r matches Ok(Statement::Select(s)) ==> (s.op is Print && print_free(*s.op->Print_0.child)
                && op_scoped(s.op)),
            ast_stmt matches AstStatement::Select(q) ==> (r matches Ok(Statement::Select(s)) ==> {
                &&& iu_ids(s.op->Print_0.iu_refs_vec@).subset_of(op_ius(*s.op->Print_0.child))
                &&& all_named(q.from@) ==> scans_named(op_scans(*s.op->Print_0.child), q.from@)
                &&& all_named(q.from@) && plain_preds(q.where_clause@) ==> op_preds(*s.op->Print_0.child).len()
                    == q.where_clause@.len()
                &&& exists|sc: Scope|
                    {
                        &&& #[trigger] sc.wf()
                        &&& scope_ids(sc).subset_of(op_ius(*s.op->Print_0.child))
                        &&& printed_ius(s.op->Print_0.iu_refs_vec@, q.targets, sc)
                    }
                &&& all_named(q.from@) ==> printed_named(
                    s.op->Print_0.iu_refs_vec@,
                    q.targets,
                    *old(self).db,
                    q.from@,
                    old(self).next_iu as int,
                )
                &&& all_named(q.from@) && plain_preds(q.where_clause@) ==> exists|rp: Seq<BinaryExpression>|
                    {
                        &&& rp.len() == q.where_clause@.len()
                        &&& forall|i: int|
                            0 <= i < rp.len() ==> pred_named(
                                from_entries(*old(self).db, q.from@),
                                from_ius(*old(self).db, q.from@, old(self).next_iu as int),
                                q.where_clause@[i],
                                #[trigger] rp[i],
                            )
                        &&& op_preds(*s.op->Print_0.child) == rp.to_multiset()
                    }
            }),
            ast_stmt matches AstStatement::Select(q) ==> (all_named(q.from@) && plain_preds(q.where_clause@) ==> (
            r is Ok <==> select_accepted(*old(self).db, q, old(self).next_iu as int))),
            ast_stmt matches AstStatement::Select(q) ==> (simple_from(q.from@) && plain_preds(q.where_clause@)
                ==> (r is Ok <==> query_accepted(*old(self).db, q, old(self).next_iu as int))),
    {
        match ast_stmt {
            AstStatement::CreateTable(ct) => match self.analyze_create_stmt(&ct) {
                Ok(s) => Ok(Statement::Create(s)),
                Err(e) => Err(e),
            },
            AstStatement::CopyTable(ct) => match self.analyze_copy_stmt(&ct, file_exists) {
                Ok(s) => Ok(Statement::Copy(s)),
                Err(e) => Err(e),
            },
            AstStatement::Select(q) => match self.analyze_select_stmt(q) {
                Ok(s) => Ok(Statement::Select(s)),
                Err(e) => Err(e),
            },
        }
    }

    /// Analyzes a SELECT statement into a plan under a print root that prints
    /// the target columns (all visible columns for `*`).
    pub fn analyze_select_stmt(&mut self, stmt: Query) -> (r: Result<SelectStatement, SemanticError>)
        requires
            query_ok(stmt),
        ensures
            r matches Ok(s) ==> {
                &&& s.op is Print
                &&& print_free(*s.op->Print_0.child)
                &&& op_scoped(s.op)
                &&& iu_ids(s.op->Print_0.iu_refs_vec@).subset_of(op_ius(*s.op->Print_0.child))
                &&& all_named(stmt.from@) ==> scans_named(op_scans(*s.op->Print_0.child), stmt.from@)
                &&& all_named(stmt.from@) && plain_preds(stmt.where_clause@) ==> op_preds(
                    *s.op->Print_0.child,
                ).len() == stmt.where_clause@.len()
                &&& s.op->Print_0.iu_refs_set@ == s.op->Print_0.iu_refs_vec@
                &&& exists|sc: Scope|
                    {
                        &&& #[trigger] sc.wf()
                        &&& scope_ids(sc).subset_of(op_ius(*s.op->Print_0.child))
                        &&& printed_ius(s.op->Print_0.iu_refs_vec@, stmt.targets, sc)
                    }
                &&& all_named(stmt.from@) ==> printed_named(
                    s.op->Print_0.iu_refs_vec@,
                    stmt.targets,
                    *old(self).db,
                    stmt.from@,
                    old(self).next_iu as int,
                )
                &&& all_named(stmt.from@) && plain_preds(stmt.where_clause@) ==> exists|rp: Seq<BinaryExpression>|
                    {
                        &&& rp.len() == stmt.where_clause@.len()
                        &&& forall|i: int|
                            0 <= i < rp.len() ==> pred_named(
                                from_entries(*old(self).db, stmt.from@),
                                from_ius(*old(self).db, stmt.from@, old(self).next_iu as int),
                                stmt.where_clause@[i],
                                #[trigger] rp[i],
                            )
                        &&& op_preds(*s.op->Print_0.child) == rp.to_multiset()
                    }
            },
            all_named(stmt.from@) && plain_preds(stmt.where_clause@) ==> (r is Ok <==> select_accepted(
                *old(self).db,
                stmt,
                old(self).next_iu as int,
            )),
            simple_from(stmt.from@) && plain_preds(stmt.where_clause@) ==> (r is Ok <==> query_accepted(
                *old(self).db,
                stmt,
                old(self).next_iu as int,
            )),
    {
        let mut scope = Scope::new();
        let ghost stmt0 = stmt;
        let (op, targets) = self.analyze_select(stmt, &mut scope)?;
        proof {
            let rp = resolved_preds(stmt0.where_clause@, scope);
            vstd::seq_lib::to_multiset_len(rp);
        }
        let mut print_op = Print::new(op);
        if let Some(targets) = &targets {
            if targets.len() == 0 {
                let all = scope.all_ius();
                proof {
                    assert(iu_ids(all@) == scope_ids(scope));
                }
                print_op.iu_refs_set = crate::algebra::iu::dup_all(&all);
                print_op.iu_refs_vec = all;
            } else {
                let mut k: usize = 0;
                let mut set: Vec<IURef> = Vec::new();
                let mut vec: Vec<IURef> = Vec::new();
                assert(iu_ids(vec@) =~= Set::<u64>::empty());
                while k < targets.len()
                    invariant
                        k <= targets@.len(),
                        scope.wf(),
                        scope_ids(scope).subset_of(op_ius(*print_op.child)),
                        iu_ids(vec@).subset_of(scope_ids(scope)),
                        vec@.len() == k,
                        set@ == vec@,
                        forall|j: int| 0 <= j < targets@.len() ==> (#[trigger] scope.resolve(targets@[j])) is Ok,
                        forall|j: int| 0 <= j < k ==> scope.resolve(#[trigger] targets@[j]) == Ok::<IURef, SemanticError>(vec@[j]),
                    decreases targets@.len() - k,
                {
                    let iu = scope.iu(&targets[k])?;
                    proof {
                        lemma_resolve_in_scope(scope, targets@[k as int]);
                    }
                    let ghost before = vec@;
                    vec.push(iu.dup());
                    set.push(iu);
                    proof {
                        assert forall|id: u64| iu_ids(vec@).contains(id) implies scope_ids(scope).contains(id) by {
                            let i = choose|i: int| 0 <= i < vec@.len() && (#[trigger] vec@[i]).id == id;
                            if i < before.len() {
                                assert(before[i] == vec@[i]);
                                assert(iu_ids(before).contains(id));
                            }
                        }
                    }
                    k = k + 1;
                }
                print_op.iu_refs_set = set;
                print_op.iu_refs_vec = vec;
            }
        } else {
            assert(iu_ids(print_op.iu_refs_vec@) =~= Set::<u64>::empty());
        }
        assert(printed_ius(print_op.iu_refs_vec@, stmt0.targets, scope));
        proof {
            if all_named(stmt0.from@) {
                let entries = from_entries(*old(self).db, stmt0.from@);
                let ius = from_ius(*old(self).db, stmt0.from@, old(self).next_iu as int);
                let printed = print_op.iu_refs_vec@;
                if let Some(ts) = stmt0.targets {
                    if ts@.len() == 0 {
                        lemma_models_flat(scope, ius);
                        let fm = all_maps(scope.columns@).map_values(|m: IUMap| iu_model(m.iu));
                        assert forall|i: int| 0 <= i < printed.len() implies iu_model(#[trigger] printed[i])
                            == flat_ius(ius)[i] by {
                            assert(fm[i] == iu_model(all_maps(scope.columns@)[i].iu));
                        }
                        assert(printed.len() == fm.len());
                    } else {
                        assert forall|j: int| 0 <= j < ts@.len() implies target_printed(
                            entries,
                            ius,
                            #[trigger] ts@[j],
                            printed[j],
                        ) by {
                            lemma_resolve_position(scope, entries, ius, ts@[j]);
                        }
                        assert(printed.len() == ts@.len());
                    }
                } else {
                    assert(printed.len() == 0);
                }
                assert(printed_named(printed, stmt0.targets, *old(self).db, stmt0.from@, old(self).next_iu as int));
                if plain_preds(stmt0.where_clause@) {
                    let rp = resolved_preds(stmt0.where_clause@, scope);
                    assert forall|i: int| 0 <= i < rp.len() implies pred_named(
                        entries,
                        ius,
                        stmt0.where_clause@[i],
                        #[trigger] rp[i],
                    ) by {
                        let b = stmt0.where_clause@[i];
                        assert(resolve_pred(b, scope) is Some);
                        lemma_resolve_expr_named(scope, entries, ius, b.l);
                        lemma_resolve_expr_named(scope, entries, ius, b.r);
                    }
                }
            }
        }
        Ok(SelectStatement::new(Op::Print(print_op)))
    }

    /// Builds the plan of a query: its tables, joined, under a selection per
    /// WHERE conjunct. Gives the plan and the query's targets.
    pub fn analyze_select(&mut self, stmt: Query, scope: &mut Scope) -> (r: Result<
        (Op, Option<Vec<ColId>>),
        SemanticError,
    >)
        requires
            query_ok(stmt),
            old(scope).wf(),
            old(scope).columns@.len() == 0,
        ensures
            final(scope).wf(),
            final(self).db == old(self).db,
            r matches Ok((op, t)) ==> {
                &&& print_free(op)
                &&& op_scoped(op)
                &&& scope_ids(*final(scope)).subset_of(op_ius(op))
                &&& t == stmt.targets
            },
            all_named(stmt.from@) ==> (r matches Ok((op, _)) ==> scans_named(op_scans(op), stmt.from@)),
            all_named(stmt.from@) && plain_preds(stmt.where_clause@) ==> (r matches Ok((op, _)) ==> op_preds(op)
                == resolved_preds(stmt.where_clause@, *final(scope)).to_multiset()),
            plain_preds(stmt.where_clause@) ==> (r is Ok ==> forall|i: int|
                0 <= i < stmt.where_clause@.len() ==> resolve_pred(#[trigger] stmt.where_clause@[i], *final(scope))
                    is Some),
            all_named(stmt.from@) && plain_preds(stmt.where_clause@) ==> (r is Ok <==> {
                &&& from_ok(*old(self).db, stmt.from@, old(self).next_iu as int, Set::empty())
                &&& forall|i: int|
                    0 <= i < stmt.where_clause@.len() ==> resolve_pred(
                        #[trigger] stmt.where_clause@[i],
                        *final(scope),
                    ) is Some
                &&& targets_resolve(stmt.targets, *final(scope))
            }),
            r is Ok ==> targets_resolve(stmt.targets, *final(scope)),
            all_named(stmt.from@) ==> (r is Ok ==> models(*final(scope), from_entries(*old(self).db, stmt.from@))
                && models_ius(*final(scope), from_ius(*old(self).db, stmt.from@, old(self).next_iu as int))),
            all_named(stmt.from@) && plain_preds(stmt.where_clause@) ==> (r is Ok <==> select_accepted(
                *old(self).db,
                stmt,
                old(self).next_iu as int,
            )),
            all_named(stmt.from@) && plain_preds(stmt.where_clause@) ==> (r is Ok ==> final(self).next_iu
                == old(self).next_iu + from_width(*old(self).db, stmt.from@)),
            simple_from(stmt.from@) && plain_preds(stmt.where_clause@) ==> (r is Ok <==> query_accepted(
                *old(self).db,
                stmt,
                old(self).next_iu as int,
            )),
        decreases stmt, 3nat,
    {
        let Query { targets, from, where_clause } = stmt;
        proof {
            assert(all_maps(scope.columns@) =~= Seq::<IUMap>::empty());
            assert(scope_ids(*scope) =~= Set::<u64>::empty());
            assert(scope_keys(*scope) =~= Set::<Seq<char>>::empty());
        }
        let ghost stmt0 = Query { targets, from, where_clause };
        let from_op = self.analyze_from(from, scope)?;
        proof {
            if simple_from(stmt0.from@) {
                let entries = from_entries(*old(self).db, stmt0.from@);
                assert forall|i: int| 0 <= i < stmt0.where_clause@.len() implies (resolve_pred(
                    #[trigger] stmt0.where_clause@[i],
                    *scope,
                ) is Some <==> pred_resolves(entries, stmt0.where_clause@[i])) by {
                    lemma_models_pred(*scope, entries, stmt0.where_clause@[i]);
                }
                if let Some(v) = stmt0.targets {
                    assert forall|i: int| 0 <= i < v@.len() implies (scope.resolve(#[trigger] v@[i]) is Ok
                        <==> col_resolves(entries, v@[i])) by {
                        lemma_models_resolve(*scope, entries, v@[i]);
                    }
                }
            }
        }
        let where_op = self.analyze_where(where_clause, scope, from_op)?;
        let res = self.analyze_target(&targets, scope, where_op)?;
        Ok((res, targets))
    }

    /// Builds the join of the FROM clause's tables, from left to right.
    fn analyze_from(&mut self, from: Vec<TableFactor>, scope: &mut Scope) -> (r: Result<Op, SemanticError>)
        requires
            from@.len() >= 1,
            forall|i: int|
                0 <= i < from@.len() ==> match #[trigger] from@[i] {
                    TableFactor::Derived { query, .. } => query_ok(*query),
                    _ => true,
                },
            old(scope).wf(),
        ensures
            final(scope).wf(),
            final(self).db == old(self).db,
            r matches Ok(op) ==> {
                &&& print_free(op)
                &&& op_scoped(op)
                &&& scope_ids(*final(scope)).subset_of(scope_ids(*old(scope)).union(op_ius(op)))
            },
            all_named(from@) ==> (r matches Ok(op) ==> scans_named(op_scans(op), from@) && op_preds(op)
                =~= vstd::multiset::Multiset::<BinaryExpression>::empty()),
            all_named(from@) ==> (r is Ok <==> from_ok(
                *old(self).db,
                from@,
                old(self).next_iu as int,
                scope_keys(*old(scope)),
            )),
            all_named(from@) && old(scope).columns@.len() == 0 ==> (r is Ok ==> models(
                *final(scope),
                from_entries(*old(self).db, from@),
            ) && models_ius(*final(scope), from_ius(*old(self).db, from@, old(self).next_iu as int))),
            all_named(from@) && old(scope).columns@.len() == 0 ==> (r is Ok ==> final(self).next_iu
                == old(self).next_iu + from_width(*old(self).db, from@)),
            simple_from(from@) ==> (r is Ok <==> from_accepted(
                *old(self).db,
                from@,
                old(self).next_iu as int,
                scope_keys(*old(scope)),
            )),
            simple_from(from@) && old(scope).columns@.len() == 0 ==> (r is Ok ==> models(
                *final(scope),
                from_entries(*old(self).db, from@),
            )),
        decreases from, 2nat,
    {
        let ghost from0 = from@;
        let total = from.len();
        let mut rest = from;
        let first = rest.remove(0);
        proof {
            assert(decreases_to!(from => from@));
            assert(decreases_to!(from@ => from@[0]));
        }
        let ghost pre0 = *self;
        let ghost sc0 = *scope;
        let r0 = self.analyze_table_reference(first, scope);
        let ghost named = all_named(from0);
        proof {
            if named {
                assert(from0[0] is Table);
                lemma_from_step(pre0, *self, from0, from0[0]->Table_0, sc0, *scope, r0);
                if r0 is Ok && sc0.columns@.len() == 0 {
                    let t = from0[0]->Table_0;
                    assert(from0.take(0) =~= Seq::<TableFactor>::empty());
                    assert(from0.take(1).drop_last() =~= from0.take(0));
                    assert(from0.take(1).last() == from0[0]);
                    lemma_models_push(sc0, *scope, from_entries(*self.db, from0.take(0)), tref_key(t), column_names(*self.db, t.table@));
                    assert(from_entries(*self.db, from0.take(0)).push((tref_key(t), column_names(*self.db, t.table@)))
                        =~= from_entries(*self.db, from0.take(1)));
                    assert(from_ius(*self.db, from0.take(0), pre0.next_iu as int) =~= Seq::empty());
                    lemma_from_ius_step(pre0, *self, from0, 0, t, sc0, *scope, r0, pre0.next_iu as int);
                }
            }
        }
        let ghost simple = simple_from(from0);
        proof {
            if simple {
                assert(simple_factor(from0[0]));
                lemma_accept_step(pre0, *self, from0, sc0, *scope, r0);
                if r0 is Ok && sc0.columns@.len() == 0 {
                    assert(from0.take(0) =~= Seq::<TableFactor>::empty());
                    assert(from_entries(*self.db, from0.take(0)) =~= Seq::empty());
                    lemma_models_factor(pre0, *self, from0, 0, sc0, *scope, r0);
                }
            }
        }
        let mut acc = r0?;
        assert(from0.drop_first() =~= from0.skip(1));
        let mut i: usize = 1;
        while rest.len() > 0
            invariant
                1 <= i <= from0.len(),
                total == from0.len(),
                rest@ == from0.skip(i as int),
                from0 == from@,
                forall|k: int|
                    0 <= k < from0.len() ==> match #[trigger] from0[k] {
                        TableFactor::Derived { query, .. } => query_ok(*query),
                        _ => true,
                    },
                scope.wf(),
                self.db == old(self).db,
                print_free(acc),
                op_scoped(acc),
                scope_ids(*scope).subset_of(scope_ids(*old(scope)).union(op_ius(acc))),
                named == all_named(from0),
                named ==> scans_named(op_scans(acc), from0.take(i as int)),
                named ==> op_preds(acc) =~= vstd::multiset::Multiset::<BinaryExpression>::empty(),
                named ==> (from_ok(*old(self).db, from0, old(self).next_iu as int, scope_keys(*old(scope)))
                    == from_ok(*self.db, from0.skip(i as int), self.next_iu as int, scope_keys(*scope))),
                named && old(scope).columns@.len() == 0 ==> models(*scope, from_entries(*self.db, from0.take(i as int))),
                named && old(scope).columns@.len() == 0 ==> models_ius(
                    *scope,
                    from_ius(*self.db, from0.take(i as int), old(self).next_iu as int),
                ),
                named && old(scope).columns@.len() == 0 ==> self.next_iu == old(self).next_iu + from_width(
                    *self.db,
                    from0.take(i as int),
                ),
                simple == simple_from(from0),
                simple ==> (from_accepted(*old(self).db, from0, old(self).next_iu as int, scope_keys(*old(scope)))
                    == from_accepted(*self.db, from0.skip(i as int), self.next_iu as int, scope_keys(*scope))),
                simple && old(scope).columns@.len() == 0 ==> models(*scope, from_entries(*self.db, from0.take(i as int))),
            decreases rest@.len(),
        {
            let tref = rest.remove(0);
            proof {
                assert(tref == from0[i as int]);
                assert(decreases_to!(from => from@));
                assert(decreases_to!(from@ => from@[i as int]));
            }
            let ghost s0 = *scope;
            let ghost pre = *self;
            let rr = self.analyze_table_reference(tref, scope);
            proof {
                if named {
                    assert(from0.skip(i as int)[0] == from0[i as int]);
                    lemma_from_step(pre, *self, from0.skip(i as int), tref->Table_0, s0, *scope, rr);
                    assert(from0.skip(i as int).drop_first() =~= from0.skip(i + 1));
                    if rr is Ok && old(scope).columns@.len() == 0 {
                        let t = tref->Table_0;
                        assert(from0.take(i + 1).drop_last() =~= from0.take(i as int));
                        assert(from0.take(i + 1).last() == from0[i as int]);
                        lemma_models_push(s0, *scope, from_entries(*self.db, from0.take(i as int)), tref_key(t), column_names(*self.db, t.table@));
                        assert(from_entries(*self.db, from0.take(i as int)).push((tref_key(t), column_names(*self.db, t.table@)))
                            =~= from_entries(*self.db, from0.take(i + 1)));
                        lemma_from_ius_step(pre, *self, from0, i as int, t, s0, *scope, rr, old(self).next_iu as int);
                    }
                }
                if simple {
                    assert(from0.skip(i as int)[0] == from0[i as int]);
                    assert(simple_factor(from0[i as int]));
                    lemma_accept_step(pre, *self, from0.skip(i as int), s0, *scope, rr);
                    assert(from0.skip(i as int).drop_first() =~= from0.skip(i + 1));
                    if rr is Ok && old(scope).columns@.len() == 0 {
                        lemma_models_factor(pre, *self, from0, i as int, s0, *scope, rr);
                    }
                }
            }
            let right = rr?;
            let ghost acc0 = acc;
            let joined = Op::Join(Join::new(acc, right));
            proof {
                assert(op_ius(joined) == op_ius(acc0).union(op_ius(right)));
                if named {
                    assert(from0[i as int] is Table);
                    assert(op_scans(joined) == op_scans(acc0) + op_scans(right));
                    assert(from0.take(i + 1) =~= from0.take(i as int).push(from0[i as int]));
                    assert(right is TableScan);
                    assert(op_preds(right) =~= vstd::multiset::Multiset::<BinaryExpression>::empty());
                    let j = joined->Join_0;
                    assert(j.join_predicates@.to_multiset() =~= vstd::multiset::Multiset::<BinaryExpression>::empty())
                        by {
                        vstd::seq_lib::to_multiset_len(j.join_predicates@);
                        vstd::multiset::lemma_multiset_empty_len(j.join_predicates@.to_multiset());
                    }
                    assert(op_preds(joined) =~= vstd::multiset::Multiset::<BinaryExpression>::empty());
                }
            }
            acc = joined;
            i = i + 1;
            assert(rest@ =~= from0.skip(i as int));
        }
        assert(from0.take(i as int) =~= from0);
        assert(from0.skip(i as int) =~= Seq::<TableFactor>::empty());
        Ok(acc)
    }

    /// Puts a selection per WHERE conjunct above the plan, each predicate with
    /// its columns resolved.
    fn analyze_where(&mut self, where_clause: Vec<BinaryExpression>, scope: &Scope, op: Op) -> (r: Result<
        Op,
        SemanticError,
    >)
        requires
            scope.wf(),
            forall|i: int|
                0 <= i < where_clause@.len() ==> expr_unresolved(#[trigger] where_clause@[i].l)
                    && expr_unresolved(where_clause@[i].r),
            print_free(op),
            op_scoped(op),
            scope_ids(*scope).subset_of(op_ius(op)),
        ensures
            final(self).db == old(self).db,
            plain_preds(where_clause@) ==> final(self).next_iu == old(self).next_iu,
            r matches Ok(res) ==> print_free(res) && op_scoped(res) && op_ius(res) == op_ius(op) && op_scans(res)
                == op_scans(op),
            plain_preds(where_clause@) ==> if forall|i: int|
                0 <= i < where_clause@.len() ==> resolve_pred(#[trigger] where_clause@[i], *scope) is Some {
                r matches Ok(res) && op_scans(res) == op_scans(op) && op_preds(res) == op_preds(op).add(
                    resolved_preds(where_clause@, *scope).to_multiset(),
                )
            } else {
                r is Err
            },
        decreases where_clause, 2nat,
    {
        let ghost w0 = where_clause@;
        let ghost plain = forall|k: int|
            0 <= k < w0.len() ==> no_subquery(#[trigger] w0[k].l) && no_subquery(w0[k].r);
        let total = where_clause.len();
        let mut rest = where_clause;
        let mut prev = op;
        let mut i: usize = 0;
        proof {
            let e = resolved_preds(w0.take(0), *scope);
            assert(e.len() == 0);
            vstd::seq_lib::to_multiset_len(e);
            vstd::multiset::lemma_multiset_empty_len(e.to_multiset());
            assert(op_preds(op).add(vstd::multiset::Multiset::<BinaryExpression>::empty()) =~= op_preds(op));
        }
        while rest.len() > 0
            invariant
                i <= w0.len(),
                total == w0.len(),
                rest@ == w0.skip(i as int),
                w0 == where_clause@,
                forall|k: int|
                    0 <= k < w0.len() ==> expr_unresolved(#[trigger] w0[k].l) && expr_unresolved(w0[k].r),
                self.db == old(self).db,
                print_free(prev),
                op_scoped(prev),
                op_ius(prev) == op_ius(op),
                scope.wf(),
                scope_ids(*scope).subset_of(op_ius(op)),
                op_scans(prev) == op_scans(op),
                plain == forall|k: int|
                    0 <= k < w0.len() ==> no_subquery(#[trigger] w0[k].l) && no_subquery(w0[k].r),
                plain ==> forall|k: int| 0 <= k < i ==> resolve_pred(#[trigger] w0[k], *scope) is Some,
                plain ==> self.next_iu == old(self).next_iu,
                plain ==> op_preds(prev) == op_preds(op).add(
                    resolved_preds(w0.take(i as int), *scope).to_multiset(),
                ),
            decreases rest@.len(),
        {
            let b = rest.remove(0);
            proof {
                assert(b == w0[i as int]);
                assert(decreases_to!(where_clause => where_clause@));
                assert(decreases_to!(where_clause@ => where_clause@[i as int]));
            }
            let BinaryExpression { l, r, op: bop } = b;
            let l2 = match self.analyze_expression(l, scope) {
                Ok(e) => e,
                Err(e) => {
                    return Err(e);
                },
            };
            let r2 = match self.analyze_expression(r, scope) {
                Ok(e) => e,
                Err(e) => {
                    return Err(e);
                },
            };
            let analyzed = BinaryExpression { l: l2, r: r2, op: bop };
            let ghost prev_preds = op_preds(prev);
            prev = Op::Select(Select::new(prev, analyzed));
            proof {
                let f = |x: BinaryExpression| resolve_pred(x, *scope)->Some_0;
                if plain {
                    assert(no_subquery(w0[i as int].l) && no_subquery(w0[i as int].r));
                    assert(resolve_pred(w0[i as int], *scope) == Some(analyzed));
                    let done = resolved_preds(w0.take(i as int), *scope);
                    assert(resolved_preds(w0.take(i + 1), *scope) =~= done.push(analyzed));
                    vstd::seq_lib::to_multiset_build(done, analyzed);
                    assert(op_preds(prev) == prev_preds.insert(analyzed));
                    assert(op_preds(op).add(done.to_multiset()).insert(analyzed) =~= op_preds(op).add(
                        done.push(analyzed).to_multiset(),
                    ));
                }
            }
            i = i + 1;
            assert(rest@ =~= w0.skip(i as int));
        }
        assert(w0.take(i as int) =~= w0);
        Ok(prev)
    }

    /// Checks that the targets resolve in the scope; the plan stays as it is.
    fn analyze_target(&self, target: &Option<Vec<ColId>>, scope: &Scope, op: Op) -> (r: Result<
        Op,
        SemanticError,
    >)
        requires
            scope.wf(),
        ensures
            r matches Ok(res) ==> res == op,
            r is Ok <==> targets_resolve(*target, *scope),
    {
        if let Some(v) = target {
            let mut k: usize = 0;
            while k < v.len()
                invariant
                    k <= v@.len(),
                    scope.wf(),
                    *target == Some(*v),
                    forall|j: int| 0 <= j < k ==> (#[trigger] scope.resolve(v@[j])) is Ok,
                decreases v@.len() - k,
            {
                match scope.iu(&v[k]) {
                    Ok(_) => {},
                    Err(e) => {
                        proof {
                            let w = target->Some_0;
                            assert(w == *v);
                            assert(scope.resolve(w@[k as int]) is Err);
                        }
                        return Err(e);
                    },
                }
                k = k + 1;
            }
        }
        Ok(op)
    }

    /// Resolves the columns of an expression; a subquery is analyzed on its own.
    fn analyze_expression(&mut self, expr: Expression, scope: &Scope) -> (r: Result<Expression, SemanticError>)
        requires
            scope.wf(),
            expr_unresolved(expr),
        ensures
            final(self).db == old(self).db,
            r matches Ok(e) ==> expr_ius(e).subset_of(scope_ids(*scope)),
            no_subquery(expr) ==> final(self).next_iu == old(self).next_iu,
            no_subquery(expr) ==> match resolve_expr(expr, *scope) {
                Some(e) => r == Ok::<Expression, SemanticError>(e),
                None => r is Err,
            },
        decreases expr, 1nat,
    {
        match expr {
            Expression::String(s) => Ok(Expression::String(s)),
            Expression::ColumnRef(c) => {
                let iu = scope.iu(&c)?;
                proof {
                    lemma_resolve_in_scope(*scope, c);
                }
                Ok(Expression::IURef(iu))
            },
            Expression::IURef(iu) => Ok(Expression::IURef(iu)),
            Expression::BinaryExpr(b) => {
                let BinaryExpression { l, r, op } = *b;
                let l2 = self.analyze_expression(l, scope)?;
                let r2 = self.analyze_expression(r, scope)?;
                Ok(Expression::BinaryExpr(Box::new(BinaryExpression { l: l2, r: r2, op })))
            },
            Expression::Subquery(q) => {
                let mut sub_scope = Scope::new();
                let (_sub_op, targets) = self.analyze_select(*q, &mut sub_scope)?;
                Ok(
                    Expression::Subquery(
                        Box::new(Query { targets, from: Vec::new(), where_clause: Vec::new() }),
                    ),
                )
            },
        }
    }

    /// Builds the scan of a named table, with a fresh IU per column, or the
    /// plan of a derived table; adds their columns to the scope under the
    /// alias (the table's name where it has none).
    fn analyze_table_reference(&mut self, r: TableFactor, scope: &mut Scope) -> (res: Result<Op, SemanticError>)
        requires
            old(scope).wf(),
            r matches TableFactor::Derived { query, .. } ==> query_ok(*query),
        ensures
            final(scope).wf(),
            final(self).db == old(self).db,
            res matches Ok(op) ==> {
                &&& print_free(op)
                &&& op_scoped(op)
                &&& scope_ids(*final(scope)).subset_of(scope_ids(*old(scope)).union(op_ius(op)))
            },
            match r {
                TableFactor::Table(tref) => named_table_analyzed(
                    *old(self),
                    *final(self),
                    tref,
                    *old(scope),
                    *final(scope),
                    res,
                ),
                TableFactor::Derived { query, alias } => {
                    &&& all_named(query.from@) && plain_preds(query.where_clause@) ==> (res is Ok <==> {
                        &&& select_accepted(*old(self).db, *query, old(self).next_iu as int)
                        &&& query.targets is Some ==> !scope_keys(*old(scope)).contains(alias@)
                    })
                    &&& derived_table_added(*old(self).db, *query, alias@, *old(scope), *final(scope), res)
                    &&& all_named(query.from@) && plain_preds(query.where_clause@) ==> (res is Ok
                        ==> final(self).next_iu == old(self).next_iu + from_width(*old(self).db, query.from@))
                },
            },
        decreases r, 1nat,
    {
        match r {
            TableFactor::Table(tref) => self.analyze_named_table(tref, scope),
            TableFactor::Derived { query, alias } => self.analyze_derived_table(query, alias, scope),
        }
    }

    /// Builds the scan of a named table, with a fresh IU per column, and adds
    /// the columns to the scope under the alias (the table's name where it
    /// has none).
    fn analyze_named_table(&mut self, tref: crate::parser::ast::TableRef, scope: &mut Scope) -> (res: Result<
        Op,
        SemanticError,
    >)
        requires
            old(scope).wf(),
        ensures
            final(scope).wf(),
            final(self).db == old(self).db,
            res matches Ok(op) ==> {
                &&& print_free(op)
                &&& op_scoped(op)
                &&& scope_ids(*final(scope)).subset_of(scope_ids(*old(scope)).union(op_ius(op)))
            },
            named_table_analyzed(*old(self), *final(self), tref, *old(scope), *final(scope), res),
    {
        proof {
            crate::db::database::lemma_first_named(self.db.tables@, tref.table@);
        }
        let table = match self.db.get_table(tref.table.as_str()) {
            Some(t) => t,
            None => {
                return Err(SemanticError::TableNotExists(tref.table.clone()));
            },
        };
        let mut scan = TableScan::new();
        scan.table_name = tref.table.clone();
        let mut maps: Vec<IUMap> = Vec::new();
        let n = table.columns.len();
        let mut k: usize = 0;
        while k < n
            invariant
                k <= n,
                n == table.columns@.len(),
                self.db == old(self).db,
                self.db.table_index(tref.table@) is Some,
                *table == self.db.tables@[self.db.table_index(tref.table@)->Some_0].1,
                self.next_iu == old(self).next_iu + k,
                maps@.map_values(|m: IUMap| m.iu) == scan.iu_refs_set@,
                scope.wf(),
                *scope == *old(scope),
                scan.table_name@ == tref.table@,
                scan.iu_refs_set@.len() == k,
                maps@.len() == k,
                forall|j: int|
                    0 <= j < k ==> scan_column(#[trigger] scan.iu_refs_set@[j], table.columns@[j], old(self).next_iu + j)
                        && maps@[j].alias@ == table.columns@[j].id@ && maps@[j].iu == scan.iu_refs_set@[j],
            decreases n - k,
        {
            let id = match self.fresh_iu() {
                Ok(id) => id,
                Err(e) => {
                    return Err(e);
                },
            };
            let col = &table.columns[k];
            let iu = IURef { id, iu: IU { name: col.id.clone(), ty: col.ty } };
            let ghost before = maps@;
            scan.iu_refs_set.push(iu.dup());
            maps.push(IUMap { alias: col.id.clone(), iu });
            assert(maps@.map_values(|m: IUMap| m.iu) =~= scan.iu_refs_set@);
            k = k + 1;
        }
        let key: &str = if tref.alias.unicode_len() == 0 {
            tref.table.as_str()
        } else {
            tref.alias.as_str()
        };
        let ghost s0 = *scope;
        let ghost mvec = maps;
        let ghost mv = maps@;
        let added = scope.add_ius(key, maps);
        if let Err(e) = added {
            return Err(e);
        }
        proof {
            assert(scope.columns@ == s0.columns@.push(mvec));
            assert(scope.columns@.drop_last() =~= s0.columns@);
            lemma_maps_ids_concat(all_maps(s0.columns@), mv);
            assert(maps_ids(mv) == op_ius(Op::TableScan(scan)));
            let e0 = alias_entries(s0.ius);
            let e1 = alias_entries(scope.ius);
            lemma_entry_lookup(e0, key@);
            lemma_entry_lookup(e1, key@);
            assert(e1[e0.len() as int] == (key@, s0.columns@.len() as usize));
            if let Some(v) = entry_lookup(e1, key@) {
                let i = choose|i: int|
                    0 <= i < e1.len() && #[trigger] e1[i] == (key@, v) && forall|j: int|
                        0 <= j < i ==> (#[trigger] e1[j]).0 != key@;
                if i < e0.len() {
                    assert(e1[i] == e0[i]);
                }
                assert(i == e0.len());
            }
            assert(scope.columns_of(key@) == Some(mv));
            assert forall|j: int| 0 <= j < n implies (#[trigger] mv[j]).alias@ == table.columns@[j].id@ && mv[j].iu
                == scan.iu_refs_set@[j] by {
                assert(scan_column(scan.iu_refs_set@[j], table.columns@[j], old(self).next_iu + j));
            }
            assert(scope.columns@.last() == mvec);
            assert(mv.map_values(|m: IUMap| m.alias@) =~= column_names(*old(self).db, tref.table@));
            assert(mv.map_values(|m: IUMap| iu_model(m.iu)) =~= Seq::new(
                n as nat,
                |k: int| (old(self).next_iu + k, table.columns@[k].id@, table.columns@[k].ty),
            ));
            assert forall|t: int| 0 <= t < s0.columns@.len() implies #[trigger] scope.columns@[t] == s0.columns@[t] by {
                assert(scope.columns@[t] == s0.columns@.push(mvec)[t]);
            }
        }
        Ok(Op::TableScan(scan))
    }

    /// Builds the plan of a derived table and adds its target columns (all
    /// its visible columns for `*`) to the scope under the alias.
    fn analyze_derived_table(&mut self, query: Box<Query>, alias: String, scope: &mut Scope) -> (res: Result<
        Op,
        SemanticError,
    >)
        requires
            old(scope).wf(),
            query_ok(*query),
        ensures
            final(scope).wf(),
            final(self).db == old(self).db,
            res matches Ok(op) ==> {
                &&& print_free(op)
                &&& op_scoped(op)
                &&& scope_ids(*final(scope)).subset_of(scope_ids(*old(scope)).union(op_ius(op)))
            },
            all_named(query.from@) && plain_preds(query.where_clause@) ==> (res is Ok <==> {
                &&& select_accepted(*old(self).db, *query, old(self).next_iu as int)
                &&& query.targets is Some ==> !scope_keys(*old(scope)).contains(alias@)
            }),
            derived_table_added(*old(self).db, *query, alias@, *old(scope), *final(scope), res),
            all_named(query.from@) && plain_preds(query.where_clause@) ==> (res is Ok ==> final(self).next_iu
                == old(self).next_iu + from_width(*old(self).db, query.from@)),
        decreases *query, 4nat,
    {
        let mut sub_scope = Scope::new();
        let ghost query0 = *query;
        let (sub_op, targets) = self.analyze_select(*query, &mut sub_scope)?;
        let ghost next_after = self.next_iu;
        if let Some(targets) = &targets {
            let mut maps: Vec<IUMap> = Vec::new();
            if targets.len() == 0 {
                let nt = sub_scope.columns.len();
                let mut t: usize = 0;
                while t < nt
                    invariant
                        t <= nt,
                        nt == sub_scope.columns@.len(),
                        maps_ids(maps@).subset_of(scope_ids(sub_scope)),
                        scope.wf(),
                        self.db == old(self).db,
                        *scope == *old(scope),
                        maps@ == all_maps(sub_scope.columns@.take(t as int)),
                        self.next_iu == next_after,
                    decreases nt - t,
                {
                    let cols = &sub_scope.columns[t];
                    proof {
                        lemma_scope_columns_in(sub_scope, t as int);
                    }
                    let mut k: usize = 0;
                    while k < cols.len()
                        invariant
                            k <= cols@.len(),
                            t < nt,
                            nt == sub_scope.columns@.len(),
                            *cols == sub_scope.columns@[t as int],
                            maps_ids(cols@).subset_of(scope_ids(sub_scope)),
                            maps_ids(maps@).subset_of(scope_ids(sub_scope)),
                            scope.wf(),
                            self.db == old(self).db,
                            *scope == *old(scope),
                            maps@ == all_maps(sub_scope.columns@.take(t as int)) + cols@.take(k as int),
                            self.next_iu == next_after,
                        decreases cols@.len() - k,
                    {
                        let ghost before = maps@;
                        maps.push(cols[k].dup());
                        proof {
                            lemma_maps_ids_concat(before, seq![cols@[k as int]]);
                            assert(maps@ =~= before + seq![cols@[k as int]]);
                            let f = |m: IUMap| m.iu;
                            assert(cols@.map_values(f)[k as int].id == cols@[k as int].iu.id);
                            assert(seq![cols@[k as int]].map_values(f)[0].id == cols@[k as int].iu.id);
                            assert forall|id: u64| maps_ids(seq![cols@[k as int]]).contains(id)
                                implies scope_ids(sub_scope).contains(id) by {
                                assert(maps_ids(cols@).contains(id));
                            }
                            assert(cols@.take(k + 1) =~= cols@.take(k as int).push(cols@[k as int]));
                            assert(maps@ =~= all_maps(sub_scope.columns@.take(t as int)) + cols@.take(k + 1));
                        }
                        k = k + 1;
                    }
                    proof {
                        let c2 = sub_scope.columns@.take(t + 1);
                        assert(c2.drop_last() =~= sub_scope.columns@.take(t as int));
                        assert(c2.last() == *cols);
                        assert(cols@.take(k as int) =~= cols@);
                    }
                    t = t + 1;
                }
                proof {
                    assert(sub_scope.columns@.take(nt as int) =~= sub_scope.columns@);
                    if all_named(query0.from@) {
                        crate::semana::resolution::lemma_models_names(sub_scope, from_entries(*old(self).db, query0.from@));
                        crate::semana::resolution::lemma_named_names(*old(self).db, query0.from@);
                    }
                }
            } else {
                let mut k: usize = 0;
                while k < targets.len()
                    invariant
                        k <= targets@.len(),
                        sub_scope.wf(),
                        maps_ids(maps@).subset_of(scope_ids(sub_scope)),
                        scope.wf(),
                        self.db == old(self).db,
                        *scope == *old(scope),
                        forall|j: int| 0 <= j < targets@.len() ==> (#[trigger] sub_scope.resolve(targets@[j])) is Ok,
                        maps@.len() == k,
                        forall|j: int| 0 <= j < k ==> (#[trigger] maps@[j]).alias@ == targets@[j].column@,
                    decreases targets@.len() - k,
                {
                    let col = &targets[k];
                    let iu = sub_scope.iu(col)?;
                    proof {
                        lemma_resolve_in_scope(sub_scope, *col);
                    }
                    let ghost before = maps@;
                    let m = IUMap { alias: col.column.clone(), iu };
                    maps.push(m);
                    proof {
                        lemma_maps_ids_concat(before, seq![m]);
                        assert(maps@ =~= before + seq![m]);
                        let f = |x: IUMap| x.iu;
                        assert(seq![m].map_values(f)[0].id == m.iu.id);
                        assert(maps_ids(seq![m]) =~= set![m.iu.id]) by {
                            assert forall|id: u64| maps_ids(seq![m]).contains(id) implies id == m.iu.id by {
                                let i = choose|i: int| 0 <= i < seq![m].map_values(f).len() && (#[trigger] seq![m].map_values(f)[i]).id == id;
                            }
                        }
                    }
                    k = k + 1;
                }
                assert(maps@.map_values(|m: IUMap| m.alias@) =~= targets@.map_values(
                    |c: ColId| c.column@,
                ));
            }
            let ghost s0 = *scope;
            let ghost mvec = maps;
            let ghost mv = maps@;
            proof {
                assert(scope_keys(s0).contains(alias@) == (s0.columns_of(alias@) is Some));
            }
            scope.add_ius(alias.as_str(), maps)?;
            proof {
                assert(scope.columns@ == s0.columns@.push(mvec));
                assert(scope.columns@.drop_last() =~= s0.columns@);
                lemma_maps_ids_concat(all_maps(s0.columns@), mv);
                assert forall|t: int| 0 <= t < s0.columns@.len() implies #[trigger] scope.columns@[t]
                    == s0.columns@[t] by {
                    assert(scope.columns@[t] == s0.columns@.push(mvec)[t]);
                }
            }
        }
        Ok(sub_op)
    }
}

} // verus!
