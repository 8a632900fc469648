//! The tables of the TPC-C benchmark.
//!
//! Every column is NOT NULL; texts of the benchmark's CHAR and VARCHAR
//! columns are held as TEXT.

use vstd::prelude::*;

use crate::db::database::Database;
use crate::db::table::ast_table_ok;
use crate::parser::ast::{Column, Table};
use crate::types::{Tag, Type, lemma_type_roundtrip};

verus! {

/// A table definition: the table's name, its columns by name and type, and
/// its key columns.
pub struct TableSpec {
    pub id: Seq<char>,
    pub columns: Seq<(Seq<char>, Type)>,
    pub key: Seq<Seq<char>>,
}

/// The definition is the one that the spec describes, every column NOT NULL.
pub open spec fn defines(t: Table, d: TableSpec) -> bool {
    &&& t.id@ == d.id
    &&& t.columns@.len() == d.columns.len()
    &&& forall|i: int|
        0 <= i < d.columns.len() ==> (#[trigger] t.columns@[i]).id@ == d.columns[i].0 && t.columns@[i].ty
            == d.columns[i].1 && t.columns@[i].not_null
    &&& t.primary_key@.len() == d.key.len()
    &&& forall|i: int| 0 <= i < d.key.len() ==> (#[trigger] t.primary_key@[i])@ == d.key[i]
}

pub open spec fn int_t() -> Type {
    Type::spec_new(Tag::Integer, 0, 0, false)
}

pub open spec fn text_t() -> Type {
    Type::spec_new(Tag::Text, 0, 0, false)
}

pub open spec fn timestamp_t() -> Type {
    Type::spec_new(Tag::Timestamp, 0, 0, false)
}

pub open spec fn numeric_t(p: u32, s: u16) -> Type {
    Type::spec_new(Tag::Numeric, p, s, false)
}

fn integer() -> (t: Type)
    ensures
        t == int_t(),
        t.has_valid_tag(),
{
    proof {
        lemma_type_roundtrip(Tag::Integer, 0, 0, false);
    }
    Type::new_integer()
}

fn numeric(p: u32, s: u16) -> (t: Type)
    requires
        0 < p <= 18,
        s <= 18,
    ensures
        t == numeric_t(p, s),
        t.has_valid_tag(),
{
    proof {
        lemma_type_roundtrip(Tag::Numeric, p, s, false);
    }
    Type::new_numeric(p, s)
}

fn text() -> (t: Type)
    ensures
        t == text_t(),
        t.has_valid_tag(),
{
    proof {
        lemma_type_roundtrip(Tag::Text, 0, 0, false);
    }
    Type::new_text()
}

fn timestamp() -> (t: Type)
    ensures
        t == timestamp_t(),
        t.has_valid_tag(),
{
    proof {
        lemma_type_roundtrip(Tag::Timestamp, 0, 0, false);
    }
    Type::new_timestamp()
}

/// A NOT NULL column.
fn col(id: &str, ty: Type) -> (c: Column)
    ensures
        c.id@ == id@,
        c.ty == ty,
        c.not_null,
{
    Column { id: String::from_str(id), ty, not_null: true }
}


/// The `warehouse` table.
pub open spec fn warehouse_spec() -> TableSpec {
    TableSpec {
        id: "warehouse"@,
        columns: seq![
            ("w_id"@, int_t()),
            ("w_name"@, text_t()),
            ("w_street_1"@, text_t()),
            ("w_street_2"@, text_t()),
            ("w_city"@, text_t()),
            ("w_state"@, text_t()),
            ("w_zip"@, text_t()),
            ("w_tax"@, numeric_t(4, 4)),
            ("w_ytd"@, numeric_t(12, 2)),
        ],
        key: seq!["w_id"@],
    }
}

fn warehouse() -> (t: Table)
    ensures
        defines(t, warehouse_spec()),
        ast_table_ok(t),
{
    let mut columns: Vec<Column> = Vec::new();
    columns.push(col("w_id", integer()));
    columns.push(col("w_name", text()));
    columns.push(col("w_street_1", text()));
    columns.push(col("w_street_2", text()));
    columns.push(col("w_city", text()));
    columns.push(col("w_state", text()));
    columns.push(col("w_zip", text()));
    columns.push(col("w_tax", numeric(4, 4)));
    columns.push(col("w_ytd", numeric(12, 2)));
    let mut primary_key: Vec<String> = Vec::new();
    primary_key.push(String::from_str("w_id"));
    Table { id: String::from_str("warehouse"), columns, primary_key }
}

/// The `district` table.
pub open spec fn district_spec() -> TableSpec {
    TableSpec {
        id: "district"@,
        columns: seq![
            ("d_id"@, int_t()),
            ("d_w_id"@, int_t()),
            ("d_name"@, text_t()),
            ("d_street_1"@, text_t()),
            ("d_street_2"@, text_t()),
            ("d_city"@, text_t()),
            ("d_state"@, text_t()),
            ("d_zip"@, text_t()),
            ("d_tax"@, numeric_t(4, 4)),
            ("d_ytd"@, numeric_t(12, 2)),
            ("d_next_o_id"@, int_t()),
        ],
        key: seq!["d_w_id"@, "d_id"@],
    }
}

fn district() -> (t: Table)
    ensures
        defines(t, district_spec()),
        ast_table_ok(t),
{
    let mut columns: Vec<Column> = Vec::new();
    columns.push(col("d_id", integer()));
    columns.push(col("d_w_id", integer()));
    columns.push(col("d_name", text()));
    columns.push(col("d_street_1", text()));
    columns.push(col("d_street_2", text()));
    columns.push(col("d_city", text()));
    columns.push(col("d_state", text()));
    columns.push(col("d_zip", text()));
    columns.push(col("d_tax", numeric(4, 4)));
    columns.push(col("d_ytd", numeric(12, 2)));
    columns.push(col("d_next_o_id", integer()));
    let mut primary_key: Vec<String> = Vec::new();
    primary_key.push(String::from_str("d_w_id"));
    primary_key.push(String::from_str("d_id"));
    Table { id: String::from_str("district"), columns, primary_key }
}

/// The `customer` table.
pub open spec fn customer_spec() -> TableSpec {
    TableSpec {
        id: "customer"@,
        columns: seq![
            ("c_id"@, int_t()),
            ("c_d_id"@, int_t()),
            ("c_w_id"@, int_t()),
            ("c_first"@, text_t()),
            ("c_middle"@, text_t()),
            ("c_last"@, text_t()),
            ("c_street_1"@, text_t()),
            ("c_street_2"@, text_t()),
            ("c_city"@, text_t()),
            ("c_state"@, text_t()),
            ("c_zip"@, text_t()),
            ("c_phone"@, text_t()),
            ("c_since"@, timestamp_t()),
            ("c_credit"@, text_t()),
            ("c_credit_lim"@, numeric_t(12, 2)),
            ("c_discount"@, numeric_t(4, 4)),
            ("c_balance"@, numeric_t(12, 2)),
            ("c_ytd_paymenr"@, numeric_t(12, 2)),
            ("c_payment_cnt"@, numeric_t(4, 0)),
            ("c_delivery_cnt"@, numeric_t(4, 0)),
            ("c_data"@, text_t()),
        ],
        key: seq!["c_w_id"@, "c_d_id"@, "c_id"@],
    }
}

fn customer() -> (t: Table)
    ensures
        defines(t, customer_spec()),
        ast_table_ok(t),
{
    let mut columns: Vec<Column> = Vec::new();
    columns.push(col("c_id", integer()));
    columns.push(col("c_d_id", integer()));
    columns.push(col("c_w_id", integer()));
    columns.push(col("c_first", text()));
    columns.push(col("c_middle", text()));
    columns.push(col("c_last", text()));
    columns.push(col("c_street_1", text()));
    columns.push(col("c_street_2", text()));
    columns.push(col("c_city", text()));
    columns.push(col("c_state", text()));
    columns.push(col("c_zip", text()));
    columns.push(col("c_phone", text()));
    columns.push(col("c_since", timestamp()));
    columns.push(col("c_credit", text()));
    columns.push(col("c_credit_lim", numeric(12, 2)));
    columns.push(col("c_discount", numeric(4, 4)));
    columns.push(col("c_balance", numeric(12, 2)));
    columns.push(col("c_ytd_paymenr", numeric(12, 2)));
    columns.push(col("c_payment_cnt", numeric(4, 0)));
    columns.push(col("c_delivery_cnt", numeric(4, 0)));
    columns.push(col("c_data", text()));
    let mut primary_key: Vec<String> = Vec::new();
    primary_key.push(String::from_str("c_w_id"));
    primary_key.push(String::from_str("c_d_id"));
    primary_key.push(String::from_str("c_id"));
    Table { id: String::from_str("customer"), columns, primary_key }
}

/// The `history` table.
pub open spec fn history_spec() -> TableSpec {
    TableSpec {
        id: "history"@,
        columns: seq![
            ("h_c_id"@, int_t()),
            ("h_c_d_id"@, int_t()),
            ("h_c_w_id"@, int_t()),
            ("h_d_id"@, int_t()),
            ("h_w_id"@, int_t()),
            ("h_date"@, timestamp_t()),
            ("h_amount"@, numeric_t(6, 2)),
            ("h_data"@, text_t()),
        ],
        key: seq![],
    }
}

fn history() -> (t: Table)
    ensures
        defines(t, history_spec()),
        ast_table_ok(t),
{
    let mut columns: Vec<Column> = Vec::new();
    columns.push(col("h_c_id", integer()));
    columns.push(col("h_c_d_id", integer()));
    columns.push(col("h_c_w_id", integer()));
    columns.push(col("h_d_id", integer()));
    columns.push(col("h_w_id", integer()));
    columns.push(col("h_date", timestamp()));
    columns.push(col("h_amount", numeric(6, 2)));
    columns.push(col("h_data", text()));
    let mut primary_key: Vec<String> = Vec::new();
    Table { id: String::from_str("history"), columns, primary_key }
}

/// The `neworder` table.
pub open spec fn neworder_spec() -> TableSpec {
    TableSpec {
        id: "neworder"@,
        columns: seq![
            ("no_o_id"@, int_t()),
            ("no_d_id"@, int_t()),
            ("no_w_id"@, int_t()),
        ],
        key: seq!["no_w_id"@, "no_d_id"@, "no_o_id"@],
    }
}

fn neworder() -> (t: Table)
    ensures
        defines(t, neworder_spec()),
        ast_table_ok(t),
{
    let mut columns: Vec<Column> = Vec::new();
    columns.push(col("no_o_id", integer()));
    columns.push(col("no_d_id", integer()));
    columns.push(col("no_w_id", integer()));
    let mut primary_key: Vec<String> = Vec::new();
    primary_key.push(String::from_str("no_w_id"));
    primary_key.push(String::from_str("no_d_id"));
    primary_key.push(String::from_str("no_o_id"));
    Table { id: String::from_str("neworder"), columns, primary_key }
}

/// The `order` table.
pub open spec fn order_tbl_spec() -> TableSpec {
    TableSpec {
        id: "order"@,
        columns: seq![
            ("o_id"@, int_t()),
            ("o_d_id"@, int_t()),
            ("o_w_id"@, int_t()),
            ("o_c_id"@, int_t()),
            ("o_entry_d"@, timestamp_t()),
            ("o_carrier_id"@, int_t()),
            ("o_ol_cnt"@, numeric_t(2, 0)),
            ("o_all_local"@, numeric_t(1, 0)),
        ],
        key: seq!["o_w_id"@, "o_d_id"@, "o_id"@],
    }
}

fn order_tbl() -> (t: Table)
    ensures
        defines(t, order_tbl_spec()),
        ast_table_ok(t),
{
    let mut columns: Vec<Column> = Vec::new();
    columns.push(col("o_id", integer()));
    columns.push(col("o_d_id", integer()));
    columns.push(col("o_w_id", integer()));
    columns.push(col("o_c_id", integer()));
    columns.push(col("o_entry_d", timestamp()));
    columns.push(col("o_carrier_id", integer()));
    columns.push(col("o_ol_cnt", numeric(2, 0)));
    columns.push(col("o_all_local", numeric(1, 0)));
    let mut primary_key: Vec<String> = Vec::new();
    primary_key.push(String::from_str("o_w_id"));
    primary_key.push(String::from_str("o_d_id"));
    primary_key.push(String::from_str("o_id"));
    Table { id: String::from_str("order"), columns, primary_key }
}

/// The `orderline` table.
pub open spec fn orderline_spec() -> TableSpec {
    TableSpec {
        id: "orderline"@,
        columns: seq![
            ("ol_o_id"@, int_t()),
            ("ol_d_id"@, int_t()),
            ("ol_w_id"@, int_t()),
            ("ol_number"@, int_t()),
            ("ol_i_id"@, int_t()),
            ("ol_supply_w_id"@, int_t()),
            ("ol_delivery_d"@, timestamp_t()),
            ("ol_quantity"@, numeric_t(2, 0)),
            ("ol_amount"@, numeric_t(6, 2)),
            ("ol_dist_info"@, text_t()),
        ],
        key: seq!["ol_w_id"@, "ol_d_id"@, "ol_o_id"@, "ol_number"@],
    }
}

fn orderline() -> (t: Table)
    ensures
        defines(t, orderline_spec()),
        ast_table_ok(t),
{
    let mut columns: Vec<Column> = Vec::new();
    columns.push(col("ol_o_id", integer()));
    columns.push(col("ol_d_id", integer()));
    columns.push(col("ol_w_id", integer()));
    columns.push(col("ol_number", integer()));
    columns.push(col("ol_i_id", integer()));
    columns.push(col("ol_supply_w_id", integer()));
    columns.push(col("ol_delivery_d", timestamp()));
    columns.push(col("ol_quantity", numeric(2, 0)));
    columns.push(col("ol_amount", numeric(6, 2)));
    columns.push(col("ol_dist_info", text()));
    let mut primary_key: Vec<String> = Vec::new();
    primary_key.push(String::from_str("ol_w_id"));
    primary_key.push(String::from_str("ol_d_id"));
    primary_key.push(String::from_str("ol_o_id"));
    primary_key.push(String::from_str("ol_number"));
    Table { id: String::from_str("orderline"), columns, primary_key }
}

/// The `item` table.
pub open spec fn item_spec() -> TableSpec {
    TableSpec {
        id: "item"@,
        columns: seq![
            ("i_id"@, int_t()),
            ("i_im_id"@, int_t()),
            ("i_name"@, text_t()),
            ("i_price"@, numeric_t(5, 2)),
            ("i_data"@, text_t()),
        ],
        key: seq!["i_id"@],
    }
}

fn item() -> (t: Table)
    ensures
        defines(t, item_spec()),
        ast_table_ok(t),
{
    let mut columns: Vec<Column> = Vec::new();
    columns.push(col("i_id", integer()));
    columns.push(col("i_im_id", integer()));
    columns.push(col("i_name", text()));
    columns.push(col("i_price", numeric(5, 2)));
    columns.push(col("i_data", text()));
    let mut primary_key: Vec<String> = Vec::new();
    primary_key.push(String::from_str("i_id"));
    Table { id: String::from_str("item"), columns, primary_key }
}

/// The `stock` table.
pub open spec fn stock_spec() -> TableSpec {
    TableSpec {
        id: "stock"@,
        columns: seq![
            ("s_i_id"@, int_t()),
            ("s_w_id"@, int_t()),
            ("s_quantity"@, numeric_t(4, 0)),
            ("s_dist_01"@, text_t()),
            ("s_dist_02"@, text_t()),
            ("s_dist_03"@, text_t()),
            ("s_dist_04"@, text_t()),
            ("s_dist_05"@, text_t()),
            ("s_dist_06"@, text_t()),
            ("s_dist_07"@, text_t()),
            ("s_dist_08"@, text_t()),
            ("s_dist_09"@, text_t()),
            ("s_dist_10"@, text_t()),
            ("s_ytd"@, numeric_t(8, 0)),
            ("s_order_cnt"@, numeric_t(4, 0)),
            ("s_remote_cnt"@, numeric_t(4, 0)),
            ("s_data"@, text_t()),
        ],
        key: seq!["s_w_id"@, "s_i_id"@],
    }
}

fn stock() -> (t: Table)
    ensures
        defines(t, stock_spec()),
        ast_table_ok(t),
{
    let mut columns: Vec<Column> = Vec::new();
    columns.push(col("s_i_id", integer()));
    columns.push(col("s_w_id", integer()));
    columns.push(col("s_quantity", numeric(4, 0)));
    columns.push(col("s_dist_01", text()));
    columns.push(col("s_dist_02", text()));
    columns.push(col("s_dist_03", text()));
    columns.push(col("s_dist_04", text()));
    columns.push(col("s_dist_05", text()));
    columns.push(col("s_dist_06", text()));
    columns.push(col("s_dist_07", text()));
    columns.push(col("s_dist_08", text()));
    columns.push(col("s_dist_09", text()));
    columns.push(col("s_dist_10", text()));
    columns.push(col("s_ytd", numeric(8, 0)));
    columns.push(col("s_order_cnt", numeric(4, 0)));
    columns.push(col("s_remote_cnt", numeric(4, 0)));
    columns.push(col("s_data", text()));
    let mut primary_key: Vec<String> = Vec::new();
    primary_key.push(String::from_str("s_w_id"));
    primary_key.push(String::from_str("s_i_id"));
    Table { id: String::from_str("stock"), columns, primary_key }
}

/// The definitions of the TPC-C tables.
pub open spec fn tpcc_specs() -> Seq<TableSpec> {
    seq![warehouse_spec(), district_spec(), customer_spec(), history_spec(), neworder_spec(), order_tbl_spec(), orderline_spec(), item_spec(), stock_spec()]
}

/// The TPC-C tables, in the order of `tpcc_specs`.
pub fn tpcc_tables() -> (r: Vec<Table>)
    ensures
        r@.len() == tpcc_specs().len(),
        forall|i: int| 0 <= i < r@.len() ==> defines(#[trigger] r@[i], tpcc_specs()[i]),
        forall|i: int| 0 <= i < r@.len() ==> ast_table_ok(#[trigger] r@[i]),
{
    let mut r: Vec<Table> = Vec::new();
    r.push(warehouse());
    r.push(district());
    r.push(customer());
    r.push(history());
    r.push(neworder());
    r.push(order_tbl());
    r.push(orderline());
    r.push(item());
    r.push(stock());
    r
}

/// The names of the TPC-C tables differ.
pub proof fn lemma_tpcc_ids_distinct()
    ensures
        forall|i: int, j: int|
            0 <= i < j < tpcc_specs().len() ==> (#[trigger] tpcc_specs()[i]).id != (#[trigger] tpcc_specs()[j]).id,
{
    reveal_strlit("warehouse");
    reveal_strlit("district");
    reveal_strlit("customer");
    reveal_strlit("history");
    reveal_strlit("neworder");
    reveal_strlit("order");
    reveal_strlit("orderline");
    reveal_strlit("item");
    reveal_strlit("stock");
    let s = tpcc_specs();
    assert forall|i: int, j: int| 0 <= i < j < s.len() implies (#[trigger] s[i]).id != (#[trigger] s[j]).id by {
        let a = s[i].id;
        let b = s[j].id;
        if a == b {
            assert(a.len() == b.len());
            assert(a[0] == b[0]);
            assert(a[a.len() - 1] == b[b.len() - 1]);
            assert(a[1] == b[1]);
        }
    }
}

/// The table of the database that goes by the name is an empty table of the
/// definition that the spec describes.
pub open spec fn created_from(db: Database, d: TableSpec) -> bool {
    &&& db.table_index(d.id) is Some
    &&& exists|ast: Table| defines(ast, d) && #[trigger] db.tables@[db.table_index(d.id)->Some_0].1.fresh_for(ast)
}

/// Creates the TPC-C tables in the database, each in place of any table of
/// its name: each is then an empty table of its definition.
pub fn create_tpcc_tables(db: &mut Database)
    requires
        old(db).wf(),
    ensures
        final(db).wf(),
        forall|i: int| 0 <= i < tpcc_specs().len() ==> created_from(*final(db), #[trigger] tpcc_specs()[i]),
        forall|n: Seq<char>|
            (forall|i: int| 0 <= i < tpcc_specs().len() ==> n != #[trigger] tpcc_specs()[i].id)
                ==> #[trigger] final(db).table_index(n) == old(db).table_index(n),
{
    let tables = tpcc_tables();
    let n = tables.len();
    let ghost tabs = tables@;
    proof {
        lemma_tpcc_ids_distinct();
    }
    let mut i: usize = 0;
    while i < n
        invariant
            i <= n,
            n == tables@.len(),
            tabs == tables@,
            n == tpcc_specs().len(),
            db.wf(),
            forall|k: int| 0 <= k < n ==> defines(#[trigger] tables@[k], tpcc_specs()[k]),
            forall|k: int| 0 <= k < n ==> ast_table_ok(#[trigger] tables@[k]),
            forall|a: int, b: int|
                0 <= a < b < tpcc_specs().len() ==> (#[trigger] tpcc_specs()[a]).id != (#[trigger] tpcc_specs()[b]).id,
            forall|k: int|
                0 <= k < i ==> db.table_index(#[trigger] tpcc_specs()[k].id) is Some
                    && db.tables@[db.table_index(tpcc_specs()[k].id)->Some_0].1.fresh_for(tabs[k]),
            forall|m: Seq<char>|
                (forall|k: int| 0 <= k < tpcc_specs().len() ==> m != #[trigger] tpcc_specs()[k].id) ==> #[trigger] db.table_index(
                    m,
                ) == old(db).table_index(m),
        decreases n - i,
    {
        let ghost before = *db;
        let ghost id = tables@[i as int].id@;
        assert(id == tpcc_specs()[i as int].id);
        let _ = db.create_table(&tables[i]);
        proof {
            crate::db::database::lemma_first_named(db.tables@, id);
            crate::db::database::lemma_first_named(before.tables@, id);
            assert forall|k: int| 0 <= k < i + 1 implies db.table_index(#[trigger] tpcc_specs()[k].id) is Some
                && db.tables@[db.table_index(tpcc_specs()[k].id)->Some_0].1.fresh_for(tabs[k]) by {
                if k < i {
                    let nk = tpcc_specs()[k].id;
                    assert(nk != id);
                    assert(db.table_index(nk) == before.table_index(nk));
                    crate::db::database::lemma_first_named(before.tables@, nk);
                    let x = before.table_index(nk)->Some_0;
                    match before.table_index(id) {
                        Some(j) => {
                            assert(before.tables@[j].0@ == id);
                            assert(x != j);
                            assert(db.tables@[x] == before.tables@[x]);
                        },
                        None => {
                            assert(db.tables@[x] == before.tables@[x]);
                        },
                    }
                }
            }
            assert forall|m: Seq<char>|
                (forall|k: int| 0 <= k < tpcc_specs().len() ==> m != #[trigger] tpcc_specs()[k].id) implies #[trigger] db.table_index(
                    m,
                ) == old(db).table_index(m) by {
                assert(m != tpcc_specs()[i as int].id);
                assert(db.table_index(m) == before.table_index(m));
            }
        }
        i = i + 1;
    }
    proof {
        assert forall|k: int| 0 <= k < tpcc_specs().len() implies created_from(*db, #[trigger] tpcc_specs()[k]) by {
            assert(defines(tabs[k], tpcc_specs()[k]));
            assert(db.tables@[db.table_index(tpcc_specs()[k].id)->Some_0].1.fresh_for(tabs[k]));
        }
    }
}

} // verus!
