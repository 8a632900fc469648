//! Name resolution stated over the tables of a FROM clause: which column
//! references a query over named tables can resolve, independently of how the
//! analysis builds its scope.

use vstd::prelude::*;

use crate::db::database::Database;
use crate::algebra::iu::IURef;
use crate::parser::ast::{ColId, TableFactor};
use crate::types::Type;
use crate::parser::expr::{BinaryExpression, Expression};
use crate::semana::scope::{IUMap, Scope, alias_entries, all_maps, entry_lookup, find_alias, lemma_entry_lookup, matching};
use crate::semana::{resolve_expr, resolve_pred, tref_key};
use crate::util::strings::spec_trim;

verus! {

/// The names of the columns of the named table, if it exists.
pub open spec fn column_names(db: Database, name: Seq<char>) -> Seq<Seq<char>> {
    match db.table_index(name) {
        Some(i) => db.tables@[i].1.columns@.map_values(|c: crate::db::column::Column| c.id@),
        None => Seq::empty(),
    }
}

/// The key and the column names of each named table of a FROM clause, in
/// order.
pub open spec fn from_entries(db: Database, from: Seq<TableFactor>) -> Seq<(Seq<char>, Seq<Seq<char>>)>
    decreases from.len(),
{
    if from.len() == 0 {
        Seq::empty()
    } else {
        let prev = from_entries(db, from.drop_last());
        match from.last() {
            TableFactor::Table(t) => prev.push((tref_key(t), column_names(db, t.table@))),
            TableFactor::Derived { query, alias } => match query.targets {
                Some(ts) => prev.push(
                    (
                        alias@,
                        if ts@.len() == 0 {
                            named_names(db, query.from@)
                        } else {
                            ts@.map_values(|c: ColId| c.column@)
                        },
                    ),
                ),
                None => prev,
            },
        }
    }
}

/// The names of all the columns of the named tables of a FROM clause, table
/// by table.
pub open spec fn named_names(db: Database, from: Seq<TableFactor>) -> Seq<Seq<char>>
    decreases from.len(),
{
    if from.len() == 0 {
        Seq::empty()
    } else {
        named_names(db, from.drop_last()) + match from.last() {
            TableFactor::Table(t) => column_names(db, t.table@),
            _ => Seq::empty(),
        }
    }
}

/// The names of the tables' columns, table by table.
pub open spec fn flat_names(entries: Seq<(Seq<char>, Seq<Seq<char>>)>) -> Seq<Seq<char>>
    decreases entries.len(),
{
    if entries.len() == 0 {
        Seq::empty()
    } else {
        flat_names(entries.drop_last()) + entries.last().1
    }
}

/// Over named tables, the names of all their columns are those of the
/// entries, table by table.
pub proof fn lemma_named_names(db: Database, from: Seq<TableFactor>)
    requires
        forall|k: int| 0 <= k < from.len() ==> #[trigger] from[k] is Table,
    ensures
        named_names(db, from) == flat_names(from_entries(db, from)),
        from_entries(db, from).len() == from.len(),
    decreases from.len(),
{
    if from.len() > 0 {
        let f = from.drop_last();
        assert forall|k: int| 0 <= k < f.len() implies #[trigger] f[k] is Table by {
            assert(f[k] == from[k]);
        }
        lemma_named_names(db, f);
        assert(from.last() == from[from.len() - 1]);
        let e = from_entries(db, from);
        assert(e.drop_last() =~= from_entries(db, f));
    }
}

/// In a scope that holds the tables, the names of all its columns are those
/// of the tables, table by table.
pub proof fn lemma_models_names(sc: Scope, entries: Seq<(Seq<char>, Seq<Seq<char>>)>)
    requires
        models(sc, entries),
    ensures
        all_maps(sc.columns@).map_values(|m: IUMap| m.alias@) == flat_names(entries),
{
    lemma_flat_aliases(sc.columns@, entries);
}

proof fn lemma_flat_aliases(columns: Seq<Vec<IUMap>>, entries: Seq<(Seq<char>, Seq<Seq<char>>)>)
    requires
        columns.len() == entries.len(),
        forall|t: int| 0 <= t < entries.len() ==> (#[trigger] columns[t])@.map_values(|m: IUMap| m.alias@) == entries[t].1,
    ensures
        all_maps(columns).map_values(|m: IUMap| m.alias@) == flat_names(entries),
    decreases entries.len(),
{
    let f = |m: IUMap| m.alias@;
    if entries.len() > 0 {
        let cd = columns.drop_last();
        let ed = entries.drop_last();
        assert forall|t: int| 0 <= t < ed.len() implies (#[trigger] cd[t])@.map_values(f) == ed[t].1 by {
            assert(cd[t] == columns[t]);
        }
        lemma_flat_aliases(cd, ed);
        assert(columns.last() == columns[columns.len() - 1]);
        assert(entries.last() == entries[entries.len() - 1]);
        assert(all_maps(columns).map_values(f) =~= all_maps(cd).map_values(f) + columns.last()@.map_values(f));
    } else {
        assert(all_maps(columns).map_values(f) =~= Seq::empty());
    }
}

/// The columns of a named table of a FROM clause, if the table exists.
pub open spec fn table_columns(db: Database, f: TableFactor) -> Seq<crate::db::column::Column> {
    match f {
        TableFactor::Table(t) => match db.table_index(t.table@) {
            Some(i) => db.tables@[i].1.columns@,
            None => Seq::empty(),
        },
        _ => Seq::empty(),
    }
}

/// How many columns the named tables of a FROM clause have together.
pub open spec fn from_width(db: Database, from: Seq<TableFactor>) -> nat
    decreases from.len(),
{
    if from.len() == 0 {
        0
    } else {
        from_width(db, from.drop_last()) + table_columns(db, from.last()).len()
    }
}

/// An IU as plain values: its identity, its name and its type.
pub open spec fn iu_model(iu: IURef) -> (int, Seq<char>, Type) {
    (iu.id as int, iu.iu.name@, iu.iu.ty)
}

/// The IUs that the named tables of a FROM clause get, table by table: each
/// column in turn gets the next identity, counting from `next`, with the
/// column's name and type.
pub open spec fn from_ius(db: Database, from: Seq<TableFactor>, next: int) -> Seq<Seq<(int, Seq<char>, Type)>>
    decreases from.len(),
{
    if from.len() == 0 {
        Seq::empty()
    } else {
        let cols = table_columns(db, from.last());
        let base = next + from_width(db, from.drop_last());
        from_ius(db, from.drop_last(), next).push(
            Seq::new(cols.len(), |k: int| (base + k, cols[k].id@, cols[k].ty)),
        )
    }
}

/// The scope holds the IUs of the tables: the `t`-th list of columns holds
/// the IUs of the `t`-th table.
pub open spec fn models_ius(sc: Scope, ius: Seq<Seq<(int, Seq<char>, Type)>>) -> bool {
    &&& sc.columns@.len() == ius.len()
    &&& forall|t: int|
        0 <= t < ius.len() ==> (#[trigger] sc.columns@[t])@.map_values(|m: IUMap| iu_model(m.iu)) == ius[t]
}

/// The column at position `k` of the `t`-th table is the one that the column
/// reference names: a qualified reference names the first column of that
/// name in the table that goes by its key; an unqualified one any column of
/// that name (there is exactly one where the reference resolves).
pub open spec fn names_position(entries: Seq<(Seq<char>, Seq<Seq<char>>)>, c: ColId, t: int, k: int) -> bool {
    let table = spec_trim(c.table@);
    let column = spec_trim(c.column@);
    &&& 0 <= t < entries.len()
    &&& 0 <= k < entries[t].1.len()
    &&& entries[t].1[k] == column
    &&& table.len() > 0 ==> {
        &&& entries[t].0 == table
        &&& forall|j: int| 0 <= j < k ==> entries[t].1[j] != column
    }
}

/// All the IUs of the tables, table by table, in order.
pub open spec fn flat_ius(ius: Seq<Seq<(int, Seq<char>, Type)>>) -> Seq<(int, Seq<char>, Type)>
    decreases ius.len(),
{
    if ius.len() == 0 {
        Seq::empty()
    } else {
        flat_ius(ius.drop_last()) + ius.last()
    }
}

/// How often the name occurs among the names.
pub open spec fn count_in(names: Seq<Seq<char>>, c: Seq<char>) -> nat
    decreases names.len(),
{
    if names.len() == 0 {
        0
    } else {
        count_in(names.drop_last(), c) + if names.last() == c {
            1nat
        } else {
            0nat
        }
    }
}

/// How often the name occurs among the columns of the tables.
pub open spec fn name_count(entries: Seq<(Seq<char>, Seq<Seq<char>>)>, c: Seq<char>) -> nat
    decreases entries.len(),
{
    if entries.len() == 0 {
        0
    } else {
        name_count(entries.drop_last(), c) + count_in(entries.last().1, c)
    }
}

/// A column reference resolves among the tables: a qualified one to a column
/// of the table that goes by its key, an unqualified one to the one column of
/// all the tables that has its name.
pub open spec fn col_resolves(entries: Seq<(Seq<char>, Seq<Seq<char>>)>, c: ColId) -> bool {
    let table = spec_trim(c.table@);
    let column = spec_trim(c.column@);
    if table.len() > 0 {
        exists|t: int| 0 <= t < entries.len() && entries[t].0 == table && #[trigger] entries[t].1.contains(column)
    } else {
        name_count(entries, column) == 1
    }
}

/// Every column reference of the expression resolves among the tables; a
/// subquery does not.
pub open spec fn expr_resolves(entries: Seq<(Seq<char>, Seq<Seq<char>>)>, e: Expression) -> bool
    decreases e,
{
    match e {
        Expression::String(_) => true,
        Expression::ColumnRef(c) => col_resolves(entries, c),
        Expression::IURef(_) => true,
        Expression::BinaryExpr(b) => expr_resolves(entries, b.l) && expr_resolves(entries, b.r),
        Expression::Subquery(_) => false,
    }
}

/// Every column reference of the predicate resolves among the tables.
pub open spec fn pred_resolves(entries: Seq<(Seq<char>, Seq<Seq<char>>)>, b: BinaryExpression) -> bool {
    expr_resolves(entries, b.l) && expr_resolves(entries, b.r)
}

/// The scope holds the tables: each under its key, in order, with its
/// columns under their names.
pub open spec fn models(sc: Scope, entries: Seq<(Seq<char>, Seq<Seq<char>>)>) -> bool {
    &&& sc.columns@.len() == entries.len()
    &&& forall|t: int| 0 <= t < entries.len() ==> (#[trigger] alias_entries(sc.ius)[t]).0 == entries[t].0
    &&& forall|t: int|
        0 <= t < entries.len() ==> (#[trigger] sc.columns@[t])@.map_values(|m: IUMap| m.alias@)
            == entries[t].1
}

proof fn lemma_find_alias(maps: Seq<IUMap>, column: Seq<char>)
    ensures
        find_alias(maps, column) is Some <==> maps.map_values(|m: IUMap| m.alias@).contains(column),
    decreases maps.len(),
{
    let f = |m: IUMap| m.alias@;
    if maps.len() == 0 {
        assert(maps.map_values(f).len() == 0);
    } else {
        assert(maps.map_values(f)[0] == maps[0].alias@);
        lemma_find_alias(maps.drop_first(), column);
        assert(maps.drop_first().map_values(f) =~= maps.map_values(f).drop_first());
        if maps.map_values(f).contains(column) {
            let k = choose|k: int| 0 <= k < maps.len() && maps.map_values(f)[k] == column;
            if k > 0 {
                assert(maps.drop_first().map_values(f)[k - 1] == column);
            }
        }
        if maps.drop_first().map_values(f).contains(column) {
            let k = choose|k: int| 0 <= k < maps.len() - 1 && maps.drop_first().map_values(f)[k] == column;
            assert(maps.map_values(f)[k + 1] == column);
        }
    }
}

proof fn lemma_count_concat(a: Seq<Seq<char>>, b: Seq<Seq<char>>, c: Seq<char>)
    ensures
        count_in(a + b, c) == count_in(a, c) + count_in(b, c),
    decreases b.len(),
{
    if b.len() > 0 {
        assert((a + b).drop_last() =~= a + b.drop_last());
        lemma_count_concat(a, b.drop_last(), c);
    } else {
        assert(a + b =~= a);
    }
}

proof fn lemma_matching_count(maps: Seq<IUMap>, c: Seq<char>)
    ensures
        matching(maps, c).len() == count_in(maps.map_values(|m: IUMap| m.alias@), c),
    decreases maps.len(),
{
    let f = |m: IUMap| m.alias@;
    if maps.len() > 0 {
        lemma_matching_count(maps.drop_last(), c);
        assert(maps.drop_last().map_values(f) =~= maps.map_values(f).drop_last());
    }
}

proof fn lemma_all_maps_count(columns: Seq<Vec<IUMap>>, entries: Seq<(Seq<char>, Seq<Seq<char>>)>, c: Seq<char>)
    requires
        columns.len() == entries.len(),
        forall|t: int|
            0 <= t < entries.len() ==> (#[trigger] columns[t])@.map_values(|m: IUMap| m.alias@) == entries[t].1,
    ensures
        count_in(all_maps(columns).map_values(|m: IUMap| m.alias@), c) == name_count(entries, c),
    decreases columns.len(),
{
    let f = |m: IUMap| m.alias@;
    if columns.len() > 0 {
        let cd = columns.drop_last();
        let ed = entries.drop_last();
        assert forall|t: int| 0 <= t < ed.len() implies (#[trigger] cd[t])@.map_values(f) == ed[t].1 by {
            assert(cd[t] == columns[t]);
        }
        lemma_all_maps_count(cd, ed, c);
        assert(all_maps(columns).map_values(f) =~= all_maps(cd).map_values(f) + columns.last()@.map_values(f));
        lemma_count_concat(all_maps(cd).map_values(f), columns.last()@.map_values(f), c);
        assert(columns.last() == columns[columns.len() - 1]);
    }
}

/// In a scope that holds the tables, a column reference resolves exactly
/// where it resolves among the tables.
pub proof fn lemma_models_resolve(sc: Scope, entries: Seq<(Seq<char>, Seq<Seq<char>>)>, c: ColId)
    requires
        sc.wf(),
        models(sc, entries),
    ensures
        sc.resolve(c) is Ok <==> col_resolves(entries, c),
{
    let table = spec_trim(c.table@);
    let column = spec_trim(c.column@);
    let e = alias_entries(sc.ius);
    if table.len() > 0 {
        lemma_entry_lookup(e, table);
        match entry_lookup(e, table) {
            Some(v) => {
                let w = choose|w: int|
                    0 <= w < e.len() && #[trigger] e[w] == (table, v) && forall|j: int|
                        0 <= j < w ==> (#[trigger] e[j]).0 != table;
                assert(e[w].1 == w);
                lemma_find_alias(sc.columns@[w]@, column);
                assert(entries[w].0 == table);
                if col_resolves(entries, c) {
                    let t = choose|t: int|
                        0 <= t < entries.len() && entries[t].0 == table && #[trigger] entries[t].1.contains(
                            column,
                        );
                    if t != w {
                        if t < w {
                            assert(e[t].0 == table);
                        } else {
                            assert(e[w].0 == e[t].0);
                        }
                    }
                }
            },
            None => {
                if col_resolves(entries, c) {
                    let t = choose|t: int|
                        0 <= t < entries.len() && entries[t].0 == table && #[trigger] entries[t].1.contains(
                            column,
                        );
                    assert(e[t].0 == table);
                }
            },
        }
    } else {
        lemma_matching_count(all_maps(sc.columns@), column);
        lemma_all_maps_count(sc.columns@, entries, column);
    }
}

/// In a scope that holds the tables, an expression resolves exactly where
/// its column references resolve among the tables.
pub proof fn lemma_models_expr(sc: Scope, entries: Seq<(Seq<char>, Seq<Seq<char>>)>, e: Expression)
    requires
        sc.wf(),
        models(sc, entries),
    ensures
        resolve_expr(e, sc) is Some <==> expr_resolves(entries, e),
    decreases e,
{
    match e {
        Expression::ColumnRef(c) => {
            lemma_models_resolve(sc, entries, c);
        },
        Expression::BinaryExpr(b) => {
            lemma_models_expr(sc, entries, b.l);
            lemma_models_expr(sc, entries, b.r);
        },
        _ => {},
    }
}

/// In a scope that holds the tables, a predicate resolves exactly where its
/// column references resolve among the tables.
pub proof fn lemma_models_pred(sc: Scope, entries: Seq<(Seq<char>, Seq<Seq<char>>)>, b: BinaryExpression)
    requires
        sc.wf(),
        models(sc, entries),
    ensures
        resolve_pred(b, sc) is Some <==> pred_resolves(entries, b),
{
    lemma_models_expr(sc, entries, b.l);
    lemma_models_expr(sc, entries, b.r);
}

/// The first column of the list with the given alias is at some position,
/// before which no column has that alias.
proof fn lemma_find_alias_at(maps: Seq<IUMap>, column: Seq<char>)
    requires
        find_alias(maps, column) is Some,
    ensures
        exists|k: int|
            0 <= k < maps.len() && (#[trigger] maps[k]).alias@ == column && maps[k].iu == find_alias(
                maps,
                column,
            )->Some_0 && forall|j: int| 0 <= j < k ==> (#[trigger] maps[j]).alias@ != column,
    decreases maps.len(),
{
    if maps[0].alias@ != column {
        let rest = maps.drop_first();
        lemma_find_alias_at(rest, column);
        let k = choose|k: int|
            0 <= k < rest.len() && (#[trigger] rest[k]).alias@ == column && rest[k].iu == find_alias(
                rest,
                column,
            )->Some_0 && forall|j: int| 0 <= j < k ==> (#[trigger] rest[j]).alias@ != column;
        assert(maps[k + 1] == rest[k]);
        assert forall|j: int| 0 <= j < k + 1 implies (#[trigger] maps[j]).alias@ != column by {
            if j > 0 {
                assert(maps[j] == rest[j - 1]);
            }
        }
    }
}

/// Each column that matches an alias is one of the list's, with that alias.
proof fn lemma_matching_in(maps: Seq<IUMap>, column: Seq<char>, i: int)
    requires
        0 <= i < matching(maps, column).len(),
    ensures
        exists|k: int| 0 <= k < maps.len() && #[trigger] maps[k] == matching(maps, column)[i] && maps[k].alias@ == column,
    decreases maps.len(),
{
    let front = matching(maps.drop_last(), column);
    if i < front.len() {
        lemma_matching_in(maps.drop_last(), column, i);
        let k = choose|k: int|
            0 <= k < maps.drop_last().len() && #[trigger] maps.drop_last()[k] == front[i] && maps.drop_last()[k].alias@
                == column;
        assert(maps[k] == maps.drop_last()[k]);
    } else {
        assert(maps[maps.len() - 1] == maps.last());
    }
}

/// Each of all the visible columns is a column of one of the tables.
proof fn lemma_all_maps_at(columns: Seq<Vec<IUMap>>, i: int)
    requires
        0 <= i < all_maps(columns).len(),
    ensures
        exists|t: int, k: int|
            0 <= t < columns.len() && 0 <= k < columns[t]@.len() && all_maps(columns)[i] == (#[trigger] columns[t]@[k]),
    decreases columns.len(),
{
    let front = all_maps(columns.drop_last());
    if i < front.len() {
        lemma_all_maps_at(columns.drop_last(), i);
        let (t, k) = choose|t: int, k: int|
            0 <= t < columns.drop_last().len() && 0 <= k < columns.drop_last()[t]@.len() && front[i]
                == (#[trigger] columns.drop_last()[t]@[k]);
        assert(columns[t] == columns.drop_last()[t]);
    } else {
        let t = columns.len() - 1;
        assert(columns[t] == columns.last());
        assert(all_maps(columns)[i] == columns[t]@[i - front.len()]);
    }
}

/// In a scope that holds the IUs of the tables, all its IUs are those of the
/// tables, table by table.
pub proof fn lemma_models_flat(sc: Scope, ius: Seq<Seq<(int, Seq<char>, Type)>>)
    requires
        models_ius(sc, ius),
    ensures
        all_maps(sc.columns@).map_values(|m: IUMap| iu_model(m.iu)) == flat_ius(ius),
{
    lemma_flat_columns(sc.columns@, ius);
}

proof fn lemma_flat_columns(columns: Seq<Vec<IUMap>>, ius: Seq<Seq<(int, Seq<char>, Type)>>)
    requires
        columns.len() == ius.len(),
        forall|t: int| 0 <= t < ius.len() ==> (#[trigger] columns[t])@.map_values(|m: IUMap| iu_model(m.iu)) == ius[t],
    ensures
        all_maps(columns).map_values(|m: IUMap| iu_model(m.iu)) == flat_ius(ius),
    decreases ius.len(),
{
    let f = |m: IUMap| iu_model(m.iu);
    if ius.len() > 0 {
        let cd = columns.drop_last();
        let id = ius.drop_last();
        assert forall|t: int| 0 <= t < id.len() implies (#[trigger] cd[t])@.map_values(f) == id[t] by {
            assert(cd[t] == columns[t]);
        }
        lemma_flat_columns(cd, id);
        assert(columns.last() == columns[columns.len() - 1]);
        assert(all_maps(columns).map_values(f) =~= all_maps(cd).map_values(f) + columns.last()@.map_values(f));
    } else {
        assert(all_maps(columns).map_values(f) =~= Seq::empty());
    }
}

/// In a scope that holds the tables and their IUs, a column reference that
/// resolves resolves to the IU of a column that it names.
pub proof fn lemma_resolve_position(
    sc: Scope,
    entries: Seq<(Seq<char>, Seq<Seq<char>>)>,
    ius: Seq<Seq<(int, Seq<char>, Type)>>,
    c: ColId,
)
    requires
        sc.wf(),
        models(sc, entries),
        models_ius(sc, ius),
        sc.resolve(c) is Ok,
    ensures
        exists|t: int, k: int| names_position(entries, c, t, k) && iu_model(sc.resolve(c)->Ok_0) == ius[t][k],
{
    let table = spec_trim(c.table@);
    let column = spec_trim(c.column@);
    let e = alias_entries(sc.ius);
    let fa = |m: IUMap| m.alias@;
    let fi = |m: IUMap| iu_model(m.iu);
    if table.len() > 0 {
        lemma_entry_lookup(e, table);
        let v = entry_lookup(e, table)->Some_0;
        let w = choose|w: int|
            0 <= w < e.len() && #[trigger] e[w] == (table, v) && forall|j: int| 0 <= j < w ==> (#[trigger] e[j]).0 != table;
        assert(e[w].1 == w);
        let maps = sc.columns@[w]@;
        lemma_find_alias_at(maps, column);
        let k = choose|k: int|
            0 <= k < maps.len() && (#[trigger] maps[k]).alias@ == column && maps[k].iu == find_alias(
                maps,
                column,
            )->Some_0 && forall|j: int| 0 <= j < k ==> (#[trigger] maps[j]).alias@ != column;
        assert(entries[w].1 == maps.map_values(fa));
        assert(entries[w].1[k] == column);
        assert forall|j: int| 0 <= j < k implies entries[w].1[j] != column by {
            assert(entries[w].1[j] == maps[j].alias@);
        }
        assert(ius[w] == maps.map_values(fi));
        assert(ius[w][k] == iu_model(maps[k].iu));
        assert(names_position(entries, c, w, k));
    } else {
        let all = all_maps(sc.columns@);
        let ms = matching(all, column);
        lemma_matching_in(all, column, 0);
        let p = choose|p: int| 0 <= p < all.len() && #[trigger] all[p] == ms[0] && all[p].alias@ == column;
        lemma_all_maps_at(sc.columns@, p);
        let (t, k) = choose|t: int, k: int|
            0 <= t < sc.columns@.len() && 0 <= k < sc.columns@[t]@.len() && all[p] == (#[trigger] sc.columns@[t]@[k]);
        assert(entries[t].1 == sc.columns@[t]@.map_values(fa));
        assert(entries[t].1[k] == column);
        assert(ius[t] == sc.columns@[t]@.map_values(fi));
        assert(ius[t][k] == iu_model(sc.columns@[t]@[k].iu));
        assert(names_position(entries, c, t, k));
    }
}

/// Adding a table's columns under its key to a scope that holds some tables
/// gives a scope that holds them and that table.
pub proof fn lemma_models_push(
    sp: Scope,
    sq: Scope,
    entries: Seq<(Seq<char>, Seq<Seq<char>>)>,
    key: Seq<char>,
    names: Seq<Seq<char>>,
)
    requires
        sp.wf(),
        models(sp, entries),
        sq.columns@.len() == sp.columns@.len() + 1,
        forall|t: int| 0 <= t < sp.columns@.len() ==> #[trigger] sq.columns@[t] == sp.columns@[t],
        sq.columns@.last()@.map_values(|m: IUMap| m.alias@) == names,
        alias_entries(sq.ius) == alias_entries(sp.ius).push((key, sp.columns@.len() as usize)),
    ensures
        models(sq, entries.push((key, names))),
{
    let n = entries.len() as int;
    let e2 = entries.push((key, names));
    assert forall|t: int| 0 <= t < e2.len() implies (#[trigger] alias_entries(sq.ius)[t]).0 == e2[t].0 by {
        if t < n {
            assert(alias_entries(sq.ius)[t] == alias_entries(sp.ius)[t]);
        }
    }
    assert forall|t: int| 0 <= t < e2.len() implies (#[trigger] sq.columns@[t])@.map_values(|m: IUMap| m.alias@)
        == e2[t].1 by {
        if t < n {
            assert(sq.columns@[t] == sp.columns@[t]);
        } else {
            assert(sq.columns@[t] == sq.columns@.last());
        }
    }
}

} // verus!
