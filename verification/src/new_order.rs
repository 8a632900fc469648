//! The new-order transaction of the TPC-C benchmark, in three steps: the
//! order itself, the stock of each ordered item, and each order line. The
//! amount of an order line, which the benchmark computes in floating point
//! from the prices, taxes and discount that the first two steps read, is
//! handed to the last step by the caller.

use vstd::prelude::*;

use rand::Rng;
use rand::rngs::ThreadRng;

use crate::db::database::{Database, first_named, lemma_first_named};
use crate::db::error::DbError;
use crate::db::row::{ValueRef, utf8_len, value_storable};
use crate::db::table::{Table, values_model};
use crate::db::value::{Value, ValueModel, model_has_tag};
use crate::types::integer::Integer;
use crate::types::numeric::Numeric;
use crate::types::text::Text;
use crate::types::Type;
use crate::db::key_index::key_index_contents;

verus! {

/// The warehouse's tax (NUMERIC(4,4)).
pub const W_TAX: usize = 7;

/// The customer's discount (NUMERIC(4,4)).
pub const C_DISCOUNT: usize = 15;

/// The district's tax (NUMERIC(4,4)).
pub const D_TAX: usize = 8;

/// The district's next order number.
pub const D_NEXT_O_ID: usize = 10;

/// The item's price (NUMERIC(5,2)).
pub const I_PRICE: usize = 3;

/// The stock's quantity.
pub const S_QUANTITY: usize = 2;

/// The stock's text for district 1; those of districts 2 to 10 follow it.
pub const S_DIST_01: usize = 3;

/// The stock's number of orders.
pub const S_ORDER_CNT: usize = 14;

/// The stock's number of orders from other warehouses.
pub const S_REMOTE_CNT: usize = 15;

/// Why a step of the new-order transaction stopped.
#[derive(Debug)]
pub enum TpccError {
    /// No table has the name
    TableNotFound(String),
    /// No row of the named table has the key
    RowNotFound(String),
    /// The row has no field of that name
    MissingField(String),
    /// The field holds no INTEGER
    NotInteger,
    /// The field holds no NUMERIC
    NotNumeric,
    /// The district's stock text holds no text
    NotText,
    /// A negative number for a NUMERIC column without decimals
    NegativeNumeric,
    /// The district number is not between 1 and 10
    DistrictOutOfRange,
    /// A count does not fit in an INTEGER
    Overflow,
    /// The table refused the change
    Db(DbError),
}

/// The table with the name, if any.
pub open spec fn named(db: Database, name: Seq<char>) -> Option<Table> {
    match db.table_index(name) {
        Some(i) => Some(db.tables@[i].1),
        None => None,
    }
}

/// The value in column `c` of the row that the key values find in the named
/// table.
pub open spec fn keyed_cell(db: Database, name: Seq<char>, key: Seq<ValueModel>, c: int) -> Option<
    ValueModel,
> {
    match named(db, name) {
        Some(t) => match t.lookup_key(key) {
            Some(r) => if 0 <= c < t.columns@.len() {
                Some(t.cell(r as int, c))
            } else {
                None
            },
            None => None,
        },
        None => None,
    }
}

/// `db` is `old` with at most the tables of the name changed.
pub open spec fn only_changed(db: Database, old: Database, name: Seq<char>) -> bool {
    &&& db.tables@.len() == old.tables@.len()
    &&& forall|k: int| 0 <= k < old.tables@.len() ==> (#[trigger] db.tables@[k]).0 == old.tables@[k].0
    &&& forall|k: int|
        0 <= k < old.tables@.len() && old.tables@[k].0@ != name ==> #[trigger] db.tables@[k]
            == old.tables@[k]
}

/// `db` is `old` with one field of the row that the key values find in the
/// named table set to `m`.
pub open spec fn field_put(
    db: Database,
    old: Database,
    name: Seq<char>,
    key: Seq<ValueModel>,
    c: int,
    m: ValueModel,
) -> bool {
    &&& only_changed(db, old, name)
    &&& match (named(old, name), named(db, name)) {
        (Some(t0), Some(t1)) => match t0.lookup_key(key) {
            Some(r) => t1.field_updated(&t0, r as int, c, m),
            None => false,
        },
        _ => false,
    }
}

/// Setting the field succeeds: the table and the row exist, and the value
/// belongs to the column's type.
pub open spec fn field_puttable(old: Database, name: Seq<char>, key: Seq<ValueModel>, c: int, m: ValueModel) -> bool {
    match named(old, name) {
        Some(t) => {
            &&& 0 <= c < t.columns@.len()
            &&& model_has_tag(m, t.col_tag(c))
            &&& t.lookup_key(key) is Some
        },
        None => false,
    }
}

/// `db` is `old` with the row appended to the named table.
pub open spec fn row_added(db: Database, old: Database, name: Seq<char>, row: Seq<ValueModel>) -> bool {
    &&& only_changed(db, old, name)
    &&& match (named(old, name), named(db, name)) {
        (Some(t0), Some(t1)) => t1.row_appended(&t0, row),
        _ => false,
    }
}

/// Appending the row succeeds: the table exists, has room for a row, and the
/// values belong to its columns' types.
pub open spec fn row_addable(old: Database, name: Seq<char>, row: Seq<ValueModel>) -> bool {
    match named(old, name) {
        Some(t) => t.num_rows < usize::MAX && t.row_matches(row),
        None => false,
    }
}

proof fn lemma_same_names(old_t: Seq<(String, Table)>, new_t: Seq<(String, Table)>, name: Seq<char>)
    requires
        new_t.len() == old_t.len(),
        forall|k: int| 0 <= k < old_t.len() ==> (#[trigger] new_t[k]).0 == old_t[k].0,
    ensures
        first_named(new_t, name) == first_named(old_t, name),
    decreases old_t.len(),
{
    if old_t.len() > 0 {
        assert forall|k: int| 0 <= k < old_t.drop_first().len() implies (
        #[trigger] new_t.drop_first()[k]).0 == old_t.drop_first()[k].0 by {
            assert(new_t[k + 1].0 == old_t[k + 1].0);
        }
        lemma_same_names(old_t.drop_first(), new_t.drop_first(), name);
    }
}

/// Where only the tables of one name changed, every name is found where it
/// was, and a table of another name is as it was.
proof fn lemma_only_changed(db: Database, old: Database, name: Seq<char>, other: Seq<char>)
    requires
        only_changed(db, old, name),
    ensures
        db.table_index(other) == old.table_index(other),
        other != name ==> named(db, other) == named(old, other),
{
    lemma_same_names(old.tables@, db.tables@, other);
    lemma_first_named(old.tables@, other);
}

/// An INTEGER value.
fn int_value(x: i32) -> (v: Value)
    ensures
        v.model() == ValueModel::Integer(x),
{
    Value::Integer(Integer::new(x))
}

/// A NUMERIC value with the raw number.
fn num_value(x: u64) -> (v: Value)
    ensures
        v.model() == ValueModel::Numeric(x),
{
    Value::Numeric(Numeric::new(x))
}

/// Reads the field in column `c` of the row that the key finds in the named
/// table.
fn read_value<'a>(db: &'a Database, name: &str, key: &Vec<Value>, c: usize, field: &str) -> (r: Result<
    ValueRef<'a>,
    TpccError,
>)
    requires
        db.wf(),
    ensures
        match keyed_cell(*db, name@, values_model(key@), c as int) {
            Some(m) => r matches Ok(v) && v.model() == m,
            None => r is Err,
        },
{
    let t = match db.get_table(name) {
        Some(t) => t,
        None => {
            return Err(TpccError::TableNotFound(String::from_str(name)));
        },
    };
    proof {
        lemma_first_named(db.tables@, name@);
        assert(db.tables@[db.table_index(name@)->Some_0].1.wf());
    }
    let rv = match t.get_view(key) {
        Some(rv) => rv,
        None => {
            return Err(TpccError::RowNotFound(String::from_str(name)));
        },
    };
    match rv.get(c) {
        Some(v) => Ok(v),
        None => Err(TpccError::MissingField(String::from_str(field))),
    }
}

/// The raw number of a NUMERIC value.
fn numeric_of(v: ValueRef) -> (r: Result<u64, TpccError>)
    ensures
        match v.model() {
            ValueModel::Numeric(n) => r == Ok::<u64, TpccError>(n),
            _ => r is Err,
        },
{
    match v {
        ValueRef::Numeric(n) => Ok(n),
        _ => Err(TpccError::NotNumeric),
    }
}

/// The number of an INTEGER value.
fn integer_of(v: ValueRef) -> (r: Result<i32, TpccError>)
    ensures
        match v.model() {
            ValueModel::Integer(n) => r == Ok::<i32, TpccError>(n),
            _ => r is Err,
        },
{
    match v {
        ValueRef::Integer(n) => Ok(n),
        _ => Err(TpccError::NotInteger),
    }
}

/// Sets the field in column `c` of the row that the key finds in the named
/// table.
fn put_value(db: &mut Database, name: &str, key: &Vec<Value>, c: usize, value: &Value) -> (r: Result<
    (),
    TpccError,
>)
    requires
        old(db).wf(),
        value_storable(value.model()),
    ensures
        final(db).wf(),
        r is Ok ==> field_put(*final(db), *old(db), name@, values_model(key@), c as int, value.model()),
        field_puttable(*old(db), name@, values_model(key@), c as int, value.model()) ==> r is Ok,
{
    proof {
        lemma_first_named(db.tables@, name@);
    }
    let ghost db0 = *db;
    let t = match db.get_table_mut(name) {
        Some(t) => t,
        None => {
            return Err(TpccError::TableNotFound(String::from_str(name)));
        },
    };
    proof {
        assert(db0.tables@[db0.table_index(name@)->Some_0].1.wf());
    }
    let r = match t.put_field(key, c, value) {
        Ok(()) => Ok(()),
        Err(e) => Err(TpccError::Db(e)),
    };
    proof {
        let i = db0.table_index(name@)->Some_0;
        assert forall|k: int| 0 <= k < db.tables@.len() implies (#[trigger] db.tables@[k]).1.wf() by {
            assert(db0.tables@[k].1.wf());
        }
        assert forall|k: int|
            0 <= k < db0.tables@.len() && db0.tables@[k].0@ != name@ implies #[trigger] db.tables@[k]
                == db0.tables@[k] by {
            assert(k != i);
        }
        lemma_only_changed(*db, db0, name@, name@);
    }
    r
}

/// Appends the row to the named table.
fn add_row(db: &mut Database, name: &str, row: Vec<Value>) -> (r: Result<(), TpccError>)
    requires
        old(db).wf(),
        forall|c: int| 0 <= c < row@.len() ==> value_storable(#[trigger] row@[c].model()),
    ensures
        final(db).wf(),
        r is Ok ==> row_added(*final(db), *old(db), name@, values_model(row@)),
        row_addable(*old(db), name@, values_model(row@)) ==> r is Ok,
{
    proof {
        lemma_first_named(db.tables@, name@);
    }
    let ghost db0 = *db;
    let ghost rv = values_model(row@);
    let t = match db.get_table_mut(name) {
        Some(t) => t,
        None => {
            return Err(TpccError::TableNotFound(String::from_str(name)));
        },
    };
    proof {
        assert(db0.tables@[db0.table_index(name@)->Some_0].1.wf());
    }
    let r = if t.num_rows == usize::MAX {
        Err(TpccError::Db(DbError::TableFull))
    } else {
        match t.insert(row) {
            Ok(()) => Ok(()),
            Err(e) => Err(TpccError::Db(e)),
        }
    };
    proof {
        let i = db0.table_index(name@)->Some_0;
        assert forall|k: int| 0 <= k < db.tables@.len() implies (#[trigger] db.tables@[k]).1.wf() by {
            assert(db0.tables@[k].1.wf());
        }
        assert forall|k: int|
            0 <= k < db0.tables@.len() && db0.tables@[k].0@ != name@ implies #[trigger] db.tables@[k]
                == db0.tables@[k] by {
            assert(k != i);
        }
        lemma_only_changed(*db, db0, name@, name@);
    }
    r
}

/// What the first step reads: the order's number, and the taxes and the
/// discount as raw NUMERIC(4,4) numbers.
#[derive(Debug)]
pub struct NewOrderStart {
    /// The order's number: the district's next order number
    pub o_id: i32,
    /// The warehouse's tax
    pub w_tax: u64,
    /// The district's tax
    pub d_tax: u64,
    /// The customer's discount
    pub c_discount: u64,
}

/// The key of a warehouse.
pub open spec fn warehouse_key(w_id: i32) -> Seq<ValueModel> {
    seq![ValueModel::Integer(w_id)]
}

/// The key of a customer.
pub open spec fn customer_key(w_id: i32, d_id: i32, c_id: i32) -> Seq<ValueModel> {
    seq![ValueModel::Integer(w_id), ValueModel::Integer(d_id), ValueModel::Integer(c_id)]
}

/// The key of a district.
pub open spec fn district_key(w_id: i32, d_id: i32) -> Seq<ValueModel> {
    seq![ValueModel::Integer(w_id), ValueModel::Integer(d_id)]
}

/// Every item of the order is supplied by the ordering warehouse.
pub open spec fn all_local(supware: Seq<i32>, items: int, w_id: i32) -> bool {
    forall|k: int| 0 <= k < items ==> supware[k] == w_id
}

/// The order's row: its number, district, warehouse and customer, its date,
/// no carrier, its number of items, and whether all of them are local.
pub open spec fn order_row(
    o_id: i32,
    d_id: i32,
    w_id: i32,
    c_id: i32,
    datetime: i64,
    items: i32,
    local: bool,
) -> Seq<ValueModel> {
    seq![
        ValueModel::Integer(o_id),
        ValueModel::Integer(d_id),
        ValueModel::Integer(w_id),
        ValueModel::Integer(c_id),
        ValueModel::Timestamp(datetime),
        ValueModel::Integer(0),
        ValueModel::Numeric(items as u64),
        ValueModel::Numeric(if local { 1 } else { 0 }),
    ]
}

/// The new-order row of an order.
pub open spec fn neworder_row(o_id: i32, d_id: i32, w_id: i32) -> Seq<ValueModel> {
    seq![ValueModel::Integer(o_id), ValueModel::Integer(d_id), ValueModel::Integer(w_id)]
}

/// The first step done on `old`, giving `s`: the values read, and `db` is
/// `old` with the district's next order number increased, then the order's
/// row and its new-order row appended.
pub open spec fn order_started(
    db: Database,
    old: Database,
    w_id: i32,
    d_id: i32,
    c_id: i32,
    items: i32,
    supware: Seq<i32>,
    datetime: i64,
    s: NewOrderStart,
) -> bool {
    let dk = district_key(w_id, d_id);
    &&& keyed_cell(old, "warehouse"@, warehouse_key(w_id), W_TAX as int) == Some(
        ValueModel::Numeric(s.w_tax),
    )
    &&& keyed_cell(old, "customer"@, customer_key(w_id, d_id, c_id), C_DISCOUNT as int) == Some(
        ValueModel::Numeric(s.c_discount),
    )
    &&& keyed_cell(old, "district"@, dk, D_NEXT_O_ID as int) == Some(ValueModel::Integer(s.o_id))
    &&& keyed_cell(old, "district"@, dk, D_TAX as int) == Some(ValueModel::Numeric(s.d_tax))
    &&& s.o_id < i32::MAX
    &&& exists|db1: Database, db2: Database|
        {
            &&& #[trigger] field_put(
                db1,
                old,
                "district"@,
                dk,
                D_NEXT_O_ID as int,
                ValueModel::Integer((s.o_id + 1) as i32),
            )
            &&& #[trigger] row_added(
                db2,
                db1,
                "order"@,
                order_row(s.o_id, d_id, w_id, c_id, datetime, items, all_local(supware, items as int, w_id)),
            )
            &&& row_added(db, db2, "neworder"@, neworder_row(s.o_id, d_id, w_id))
        }
}

/// The first step succeeds on `old`: the warehouse, the customer and the
/// district exist with values of the expected types, the next order number can
/// be increased, and the order's rows fit their tables.
pub open spec fn order_startable(
    old: Database,
    w_id: i32,
    d_id: i32,
    c_id: i32,
    items: i32,
    supware: Seq<i32>,
    datetime: i64,
) -> bool {
    let dk = district_key(w_id, d_id);
    &&& keyed_cell(old, "warehouse"@, warehouse_key(w_id), W_TAX as int) matches Some(
        ValueModel::Numeric(_),
    )
    &&& keyed_cell(old, "customer"@, customer_key(w_id, d_id, c_id), C_DISCOUNT as int) matches Some(
        ValueModel::Numeric(_),
    )
    &&& keyed_cell(old, "district"@, dk, D_TAX as int) matches Some(ValueModel::Numeric(_))
    &&& match keyed_cell(old, "district"@, dk, D_NEXT_O_ID as int) {
        Some(ValueModel::Integer(o)) => {
            &&& o < i32::MAX
            &&& field_puttable(old, "district"@, dk, D_NEXT_O_ID as int, ValueModel::Integer((o + 1) as i32))
            &&& row_addable(
                old,
                "order"@,
                order_row(o, d_id, w_id, c_id, datetime, items, all_local(supware, items as int, w_id)),
            )
            &&& row_addable(old, "neworder"@, neworder_row(o, d_id, w_id))
        },
        _ => false,
    }
}

/// The first step of a new order: reads the warehouse's tax, the customer's
/// discount, the district's tax and next order number; increases that number;
/// appends the order's row and its new-order row.
#[verifier::spinoff_prover]
#[verifier::rlimit(40)]
pub fn new_order_begin(
    db: &mut Database,
    w_id: i32,
    d_id: i32,
    c_id: i32,
    items: i32,
    supware: &[i32],
    datetime: i64,
) -> (r: Result<NewOrderStart, TpccError>)
    requires
        old(db).wf(),
        0 <= items <= supware@.len(),
    ensures
        final(db).wf(),
        r matches Ok(s) ==> order_started(*final(db), *old(db), w_id, d_id, c_id, items, supware@, datetime, s),
        order_startable(*old(db), w_id, d_id, c_id, items, supware@, datetime) ==> r is Ok,
{
    let ghost db0 = *db;
    let wk = vec![int_value(w_id)];
    assert(values_model(wk@) =~= warehouse_key(w_id));
    let w_tax = numeric_of(read_value(db, "warehouse", &wk, W_TAX, "w_tax")?)?;
    let ck = vec![int_value(w_id), int_value(d_id), int_value(c_id)];
    assert(values_model(ck@) =~= customer_key(w_id, d_id, c_id));
    let c_discount = numeric_of(read_value(db, "customer", &ck, C_DISCOUNT, "c_discount")?)?;
    let dk = vec![int_value(w_id), int_value(d_id)];
    assert(values_model(dk@) =~= district_key(w_id, d_id));
    let o_id = integer_of(read_value(db, "district", &dk, D_NEXT_O_ID, "d_next_o_id")?)?;
    let d_tax = numeric_of(read_value(db, "district", &dk, D_TAX, "d_tax")?)?;
    if o_id == i32::MAX {
        return Err(TpccError::Overflow);
    }
    put_value(db, "district", &dk, D_NEXT_O_ID, &int_value(o_id + 1))?;
    let ghost db1 = *db;
    let n = items as usize;
    let mut local = true;
    let mut idx: usize = 0;
    while idx < n
        invariant
            idx <= n,
            n == items,
            n <= supware@.len(),
            local == all_local(supware@, idx as int, w_id),
        decreases n - idx,
    {
        if supware[idx] != w_id {
            local = false;
        }
        idx = idx + 1;
    }
    let order = vec![
        int_value(o_id),
        int_value(d_id),
        int_value(w_id),
        int_value(c_id),
        Value::Timestamp(crate::types::timestamp::Timestamp::new(datetime)),
        int_value(0),
        num_value(items as u64),
        num_value(if local { 1 } else { 0 }),
    ];
    let ghost orow = order_row(o_id, d_id, w_id, c_id, datetime, items, local);
    assert(values_model(order@) =~= orow);
    proof {
        reveal_strlit("district");
        reveal_strlit("order");
        reveal_strlit("neworder");
        lemma_only_changed(db1, db0, "district"@, "order"@);
    }
    add_row(db, "order", order)?;
    let ghost db2 = *db;
    let no = vec![int_value(o_id), int_value(d_id), int_value(w_id)];
    assert(values_model(no@) =~= neworder_row(o_id, d_id, w_id));
    proof {
        lemma_only_changed(db1, db0, "district"@, "neworder"@);
        lemma_only_changed(db2, db1, "order"@, "neworder"@);
    }
    add_row(db, "neworder", no)?;
    let s = NewOrderStart { o_id, w_tax, d_tax, c_discount };
    proof {
        assert(field_put(
            db1,
            db0,
            "district"@,
            district_key(w_id, d_id),
            D_NEXT_O_ID as int,
            ValueModel::Integer((o_id + 1) as i32),
        ));
        assert(row_added(db2, db1, "order"@, orow));
    }
    Ok(s)
}

/// What the second step reads of an ordered item: its price as a raw
/// NUMERIC(5,2) number, and the stock's text for the ordering district.
#[derive(Debug)]
pub struct NewOrderItem {
    /// The item's price
    pub i_price: u64,
    /// The stock's text for the district
    pub dist: String,
}

/// The key of an item.
pub open spec fn item_key(i_id: i32) -> Seq<ValueModel> {
    seq![ValueModel::Integer(i_id)]
}

/// The key of an item's stock in a warehouse.
pub open spec fn stock_key(supply_w: i32, i_id: i32) -> Seq<ValueModel> {
    seq![ValueModel::Integer(supply_w), ValueModel::Integer(i_id)]
}

/// The stock's new quantity after `qty` are taken: restocked by 91 where
/// there are not more than `qty`.
pub open spec fn restocked(s_qty: int, qty: int) -> int {
    if s_qty > qty {
        s_qty - qty
    } else {
        s_qty + 91 - qty
    }
}

/// A count fits a NUMERIC column without decimals as the transaction writes
/// it: not negative, and an INTEGER.
pub open spec fn count_ok(n: int) -> bool {
    0 <= n <= i32::MAX
}

/// The second step done on `old` for one item, giving `it`: the values read,
/// and `db` is `old` with the stock's quantity and number of orders set, and,
/// for an item from another warehouse, its number of remote orders. The
/// stock's numbers are read as the low 32 bits of their raw NUMERIC numbers.
pub open spec fn item_stocked(
    db: Database,
    old: Database,
    w_id: i32,
    d_id: i32,
    supply_w: i32,
    i_id: i32,
    qty: i32,
    it: NewOrderItem,
) -> bool {
    let sk = stock_key(supply_w, i_id);
    &&& keyed_cell(old, "item"@, item_key(i_id), I_PRICE as int) == Some(ValueModel::Numeric(it.i_price))
    &&& 1 <= d_id <= 10
    &&& keyed_cell(old, "stock"@, sk, S_DIST_01 + d_id - 1) == Some(ValueModel::Text(it.dist@))
    &&& match (
        keyed_cell(old, "stock"@, sk, S_QUANTITY as int),
        keyed_cell(old, "stock"@, sk, S_ORDER_CNT as int),
        keyed_cell(old, "stock"@, sk, S_REMOTE_CNT as int),
    ) {
        (
            Some(ValueModel::Numeric(q)),
            Some(ValueModel::Numeric(oc)),
            Some(ValueModel::Numeric(rc)),
        ) => {
            let nq = restocked((q as i32) as int, qty as int);
            let noc = (oc as i32) + 1;
            let nrc = (rc as i32) + 1;
            &&& count_ok(nq)
            &&& count_ok(noc)
            &&& supply_w != w_id ==> count_ok(nrc)
            &&& exists|db1: Database, db2: Database|
                {
                    &&& #[trigger] field_put(
                        db1,
                        old,
                        "stock"@,
                        sk,
                        S_QUANTITY as int,
                        ValueModel::Numeric(nq as u64),
                    )
                    &&& #[trigger] field_put(
                        db2,
                        db1,
                        "stock"@,
                        sk,
                        S_ORDER_CNT as int,
                        ValueModel::Numeric(noc as u64),
                    )
                    &&& if supply_w != w_id {
                        field_put(db, db2, "stock"@, sk, S_REMOTE_CNT as int, ValueModel::Numeric(nrc as u64))
                    } else {
                        db == db2
                    }
                }
        },
        _ => false,
    }
}

/// The second step succeeds on `old` for one item: the item and its stock
/// exist with values of the expected types, the district is between 1 and 10,
/// the new counts fit, and the stock's fields can be set one after the other
/// (the quantity and the number of orders are not key columns).
pub open spec fn item_stockable(old: Database, w_id: i32, d_id: i32, supply_w: i32, i_id: i32, qty: i32) -> bool {
    let sk = stock_key(supply_w, i_id);
    &&& keyed_cell(old, "item"@, item_key(i_id), I_PRICE as int) matches Some(ValueModel::Numeric(_))
    &&& 1 <= d_id <= 10
    &&& keyed_cell(old, "stock"@, sk, S_DIST_01 + d_id - 1) matches Some(ValueModel::Text(_))
    &&& match (
        keyed_cell(old, "stock"@, sk, S_QUANTITY as int),
        keyed_cell(old, "stock"@, sk, S_ORDER_CNT as int),
        keyed_cell(old, "stock"@, sk, S_REMOTE_CNT as int),
    ) {
        (
            Some(ValueModel::Numeric(q)),
            Some(ValueModel::Numeric(oc)),
            Some(ValueModel::Numeric(rc)),
        ) => {
            let nq = restocked((q as i32) as int, qty as int);
            let noc = (oc as i32) + 1;
            let nrc = (rc as i32) + 1;
            &&& count_ok(nq)
            &&& count_ok(noc)
            &&& supply_w != w_id ==> count_ok(nrc)
            &&& named(old, "stock"@) matches Some(t) && !t.key_positions@.contains(S_QUANTITY)
                && !t.key_positions@.contains(S_ORDER_CNT)
            &&& field_puttable(old, "stock"@, sk, S_QUANTITY as int, ValueModel::Numeric(nq as u64))
            &&& field_puttable(old, "stock"@, sk, S_ORDER_CNT as int, ValueModel::Numeric(noc as u64))
            &&& supply_w != w_id ==> field_puttable(
                old,
                "stock"@,
                sk,
                S_REMOTE_CNT as int,
                ValueModel::Numeric(nrc as u64),
            )
        },
        _ => false,
    }
}

/// Setting a field that is not a key column keeps every other field of the
/// table settable.
proof fn lemma_put_keeps_puttable(
    db: Database,
    old: Database,
    name: Seq<char>,
    key: Seq<ValueModel>,
    c: int,
    m: ValueModel,
    c2: int,
    m2: ValueModel,
)
    requires
        field_put(db, old, name, key, c, m),
        named(old, name) matches Some(t) && !t.key_positions@.contains(c as usize),
        field_puttable(old, name, key, c2, m2),
    ensures
        field_puttable(db, name, key, c2, m2),
        named(db, name) matches Some(t) && t.key_positions@ == named(old, name)->Some_0.key_positions@,
{
    lemma_only_changed(db, old, name, name);
    let t0 = named(old, name)->Some_0;
    let t1 = named(db, name)->Some_0;
    assert(key_index_contents(t1.key_index) == key_index_contents(t0.key_index));
    assert(t1.key_values_bytes(key) == t0.key_values_bytes(key));
}

/// The NUMERIC raw number of a count, if it fits.
fn count_value(n: i64) -> (r: Result<u64, TpccError>)
    ensures
        count_ok(n as int) ==> r == Ok::<u64, TpccError>(n as u64),
        !count_ok(n as int) ==> r is Err,
{
    if n > 0x7fff_ffff {
        Err(TpccError::Overflow)
    } else if n < 0 {
        Err(TpccError::NegativeNumeric)
    } else {
        Ok(n as u64)
    }
}

/// The second step of a new order, for one item: reads the item's price and
/// its stock in the supplying warehouse; takes the quantity from the stock,
/// restocking by 91 where too few are left; counts the order, and, where the
/// supplying warehouse is not the ordering one, the remote order.
#[verifier::spinoff_prover]
#[verifier::rlimit(40)]
pub fn new_order_item(
    db: &mut Database,
    w_id: i32,
    d_id: i32,
    supply_w: i32,
    i_id: i32,
    qty: i32,
) -> (r: Result<NewOrderItem, TpccError>)
    requires
        old(db).wf(),
    ensures
        final(db).wf(),
        r matches Ok(it) ==> item_stocked(*final(db), *old(db), w_id, d_id, supply_w, i_id, qty, it),
        item_stockable(*old(db), w_id, d_id, supply_w, i_id, qty) ==> r is Ok,
{
    let ghost db0 = *db;
    let ik = vec![int_value(i_id)];
    assert(values_model(ik@) =~= item_key(i_id));
    let i_price = numeric_of(read_value(db, "item", &ik, I_PRICE, "i_price")?)?;
    let sk = vec![int_value(supply_w), int_value(i_id)];
    assert(values_model(sk@) =~= stock_key(supply_w, i_id));
    let q = numeric_of(read_value(db, "stock", &sk, S_QUANTITY, "s_quantity")?)?;
    let oc = numeric_of(read_value(db, "stock", &sk, S_ORDER_CNT, "s_order_cnt")?)?;
    let rc = numeric_of(read_value(db, "stock", &sk, S_REMOTE_CNT, "s_remote_cnt")?)?;
    let s_qty = q as i32;
    let s_order_cnt = oc as i32;
    let s_remote_cnt = rc as i32;
    if d_id < 1 || d_id > 10 {
        return Err(TpccError::DistrictOutOfRange);
    }
    let dist_col = S_DIST_01 + (d_id as usize - 1);
    let dist = match read_value(db, "stock", &sk, dist_col, "s_dist_XX")? {
        ValueRef::Text(tv) => String::from_str(tv.as_str()),
        _ => {
            return Err(TpccError::NotText);
        },
    };
    let new_qty: i64 = if s_qty > qty {
        s_qty as i64 - qty as i64
    } else {
        s_qty as i64 + 91 - qty as i64
    };
    let nq = count_value(new_qty)?;
    put_value(db, "stock", &sk, S_QUANTITY, &num_value(nq))?;
    let ghost db1 = *db;
    let noc = count_value(s_order_cnt as i64 + 1)?;
    proof {
        if item_stockable(db0, w_id, d_id, supply_w, i_id, qty) {
            lemma_put_keeps_puttable(
                db1,
                db0,
                "stock"@,
                stock_key(supply_w, i_id),
                S_QUANTITY as int,
                ValueModel::Numeric(nq),
                S_ORDER_CNT as int,
                ValueModel::Numeric(noc),
            );
            if supply_w != w_id {
                lemma_put_keeps_puttable(
                    db1,
                    db0,
                    "stock"@,
                    stock_key(supply_w, i_id),
                    S_QUANTITY as int,
                    ValueModel::Numeric(nq),
                    S_REMOTE_CNT as int,
                    ValueModel::Numeric((s_remote_cnt as i64 + 1) as u64),
                );
            }
        }
    }
    put_value(db, "stock", &sk, S_ORDER_CNT, &num_value(noc))?;
    let ghost db2 = *db;
    if supply_w != w_id {
        let nrc = count_value(s_remote_cnt as i64 + 1)?;
        proof {
            if item_stockable(db0, w_id, d_id, supply_w, i_id, qty) {
                lemma_put_keeps_puttable(
                    db2,
                    db1,
                    "stock"@,
                    stock_key(supply_w, i_id),
                    S_ORDER_CNT as int,
                    ValueModel::Numeric(noc),
                    S_REMOTE_CNT as int,
                    ValueModel::Numeric(nrc),
                );
            }
        }
        put_value(db, "stock", &sk, S_REMOTE_CNT, &num_value(nrc))?;
    }
    let it = NewOrderItem { i_price, dist };
    proof {
        assert(field_put(
            db1,
            db0,
            "stock"@,
            stock_key(supply_w, i_id),
            S_QUANTITY as int,
            ValueModel::Numeric(nq),
        ));
        assert(field_put(
            db2,
            db1,
            "stock"@,
            stock_key(supply_w, i_id),
            S_ORDER_CNT as int,
            ValueModel::Numeric(noc),
        ));
    }
    Ok(it)
}

/// An order line: the order's number, district and warehouse, the line's
/// number, the item and its supplying warehouse, no delivery date, the
/// quantity, the amount, and the stock's text for the district.
pub open spec fn orderline_row(
    o_id: i32,
    d_id: i32,
    w_id: i32,
    number: i32,
    i_id: i32,
    supply_w: i32,
    qty: i32,
    amount: u64,
    dist: Seq<char>,
) -> Seq<ValueModel> {
    seq![
        ValueModel::Integer(o_id),
        ValueModel::Integer(d_id),
        ValueModel::Integer(w_id),
        ValueModel::Integer(number),
        ValueModel::Integer(i_id),
        ValueModel::Integer(supply_w),
        ValueModel::Timestamp(0),
        ValueModel::Numeric(qty as u64),
        ValueModel::Numeric(amount),
        ValueModel::Text(dist),
    ]
}

/// The last step of a new order, for one item: appends the order line with
/// the amount that the caller computed (a raw NUMERIC(6,2) number).
pub fn new_order_line(
    db: &mut Database,
    o_id: i32,
    d_id: i32,
    w_id: i32,
    number: i32,
    i_id: i32,
    supply_w: i32,
    qty: i32,
    amount: u64,
    dist: &str,
) -> (r: Result<(), TpccError>)
    requires
        old(db).wf(),
        utf8_len(dist@) <= u32::MAX,
    ensures
        final(db).wf(),
        r is Ok ==> 0 <= qty && row_added(
            *final(db),
            *old(db),
            "orderline"@,
            orderline_row(o_id, d_id, w_id, number, i_id, supply_w, qty, amount, dist@),
        ),
        0 <= qty && row_addable(
            *old(db),
            "orderline"@,
            orderline_row(o_id, d_id, w_id, number, i_id, supply_w, qty, amount, dist@),
        ) ==> r is Ok,
{
    if db.get_table("orderline").is_none() {
        return Err(TpccError::TableNotFound(String::from_str("orderline")));
    }
    proof {
        crate::types::lemma_type_roundtrip(crate::types::Tag::Char, 24, 0, false);
    }
    let text = match Text::input(dist, Type::new_char(24)) {
        Ok(t) => t,
        Err(e) => {
            return Err(TpccError::Db(DbError::Input(e)));
        },
    };
    if qty < 0 {
        return Err(TpccError::NegativeNumeric);
    }
    let row = vec![
        int_value(o_id),
        int_value(d_id),
        int_value(w_id),
        int_value(number),
        int_value(i_id),
        int_value(supply_w),
        Value::Timestamp(crate::types::timestamp::Timestamp::new(0)),
        num_value(qty as u64),
        num_value(amount),
        Value::Text(text),
    ];
    assert(values_model(row@) =~= orderline_row(o_id, d_id, w_id, number, i_id, supply_w, qty, amount, dist@));
    add_row(db, "orderline", row)
}

/// The first `k` lines of an order done on `old`, giving `db`: for each
/// item in turn, its stock taken (`new_order_item`), then its order line
/// appended with the line number counting from 1 and the given amount.
pub open spec fn lines_added(
    db: Database,
    old: Database,
    o_id: i32,
    w_id: i32,
    d_id: i32,
    supware: Seq<i32>,
    itemid: Seq<i32>,
    qty: Seq<i32>,
    amounts: Seq<u64>,
    start: NewOrderStart,
    ok: spec_fn(NewOrderStart, NewOrderItem, i32, u64) -> bool,
    k: int,
) -> bool
    decreases k,
{
    if k <= 0 {
        db == old
    } else {
        exists|mid: Database, stocked: Database, it: NewOrderItem|
            {
                &&& lines_added(mid, old, o_id, w_id, d_id, supware, itemid, qty, amounts, start, ok, k - 1)
                &&& #[trigger] item_stocked(stocked, mid, w_id, d_id, supware[k - 1], itemid[k - 1], qty[k - 1], it)
                &&& ok(start, it, qty[k - 1], amounts[k - 1])
                &&& row_added(
                    db,
                    stocked,
                    "orderline"@,
                    orderline_row(
                        o_id,
                        d_id,
                        w_id,
                        k as i32,
                        itemid[k - 1],
                        supware[k - 1],
                        qty[k - 1],
                        amounts[k - 1],
                        it.dist@,
                    ),
                )
            }
    }
}

/// A new-order transaction done on `old`, giving `db`: the order begun
/// (`new_order_begin`), then its `items` lines, numbered from 1, with the
/// given amounts.
pub open spec fn new_order_done(
    db: Database,
    old: Database,
    w_id: i32,
    d_id: i32,
    c_id: i32,
    items: i32,
    supware: Seq<i32>,
    itemid: Seq<i32>,
    qty: Seq<i32>,
    datetime: i64,
    amounts: Seq<u64>,
    ok: spec_fn(NewOrderStart, NewOrderItem, i32, u64) -> bool,
) -> bool {
    &&& amounts.len() == items
    &&& exists|db1: Database, s: NewOrderStart|
        {
            &&& #[trigger] order_started(db1, old, w_id, d_id, c_id, items, supware, datetime, s)
            &&& lines_added(db, db1, s.o_id, w_id, d_id, supware, itemid, qty, amounts, s, ok, items as int)
        }
}

/// The amounts that `amount` may give for an order, an item and a quantity.
pub open spec fn amount_given<F: Fn(&NewOrderStart, &NewOrderItem, i32) -> u64>(amount: F) -> spec_fn(
    NewOrderStart,
    NewOrderItem,
    i32,
    u64,
) -> bool {
    |s: NewOrderStart, it: NewOrderItem, q: i32, a: u64| call_ensures(amount, (&s, &it, q), a)
}

/// The lines from the `k`-th on can all be done on `db`, whatever amounts
/// they get: each item's stock step succeeds, and the order line that
/// follows it can be appended.
pub open spec fn lines_possible(
    db: Database,
    o_id: i32,
    w_id: i32,
    d_id: i32,
    supware: Seq<i32>,
    itemid: Seq<i32>,
    qty: Seq<i32>,
    items: int,
    k: int,
) -> bool
    decreases items - k,
{
    if k >= items || k < 0 {
        true
    } else {
        &&& item_stockable(db, w_id, d_id, supware[k], itemid[k], qty[k])
        &&& forall|db2: Database, it: NewOrderItem, amt: u64|
            #![trigger item_stocked(db2, db, w_id, d_id, supware[k], itemid[k], qty[k], it), orderline_row(o_id, d_id, w_id, (k + 1) as i32, itemid[k], supware[k], qty[k], amt, it.dist@)]
            item_stocked(db2, db, w_id, d_id, supware[k], itemid[k], qty[k], it) ==> {
                let row = orderline_row(o_id, d_id, w_id, (k + 1) as i32, itemid[k], supware[k], qty[k], amt, it.dist@);
                &&& utf8_len(it.dist@) <= u32::MAX
                &&& 0 <= qty[k]
                &&& row_addable(db2, "orderline"@, row)
                &&& forall|db3: Database|
                    #[trigger] row_added(db3, db2, "orderline"@, row) ==> lines_possible(
                        db3,
                        o_id,
                        w_id,
                        d_id,
                        supware,
                        itemid,
                        qty,
                        items,
                        k + 1,
                    )
            }
    }
}

/// The whole transaction can be done on `old`: the order can be begun, and
/// then all its lines, whatever amounts they get.
pub open spec fn new_order_possible(
    old: Database,
    w_id: i32,
    d_id: i32,
    c_id: i32,
    items: i32,
    supware: Seq<i32>,
    itemid: Seq<i32>,
    qty: Seq<i32>,
    datetime: i64,
) -> bool {
    &&& order_startable(old, w_id, d_id, c_id, items, supware, datetime)
    &&& forall|db1: Database, s: NewOrderStart|
        #[trigger] order_started(db1, old, w_id, d_id, c_id, items, supware, datetime, s) ==> lines_possible(
            db1,
            s.o_id,
            w_id,
            d_id,
            supware,
            itemid,
            qty,
            items as int,
            0,
        )
}

/// The lines done depend only on the amounts of those lines.
proof fn lemma_lines_added_amounts(
    db: Database,
    old: Database,
    o_id: i32,
    w_id: i32,
    d_id: i32,
    supware: Seq<i32>,
    itemid: Seq<i32>,
    qty: Seq<i32>,
    a1: Seq<u64>,
    a2: Seq<u64>,
    start: NewOrderStart,
    ok: spec_fn(NewOrderStart, NewOrderItem, i32, u64) -> bool,
    k: int,
)
    requires
        lines_added(db, old, o_id, w_id, d_id, supware, itemid, qty, a1, start, ok, k),
        forall|j: int| 0 <= j < k ==> a1[j] == a2[j],
    ensures
        lines_added(db, old, o_id, w_id, d_id, supware, itemid, qty, a2, start, ok, k),
    decreases k,
{
    if k > 0 {
        let (mid, stocked, it) = choose|mid: Database, stocked: Database, it: NewOrderItem|
            {
                &&& lines_added(mid, old, o_id, w_id, d_id, supware, itemid, qty, a1, start, ok, k - 1)
                &&& #[trigger] item_stocked(stocked, mid, w_id, d_id, supware[k - 1], itemid[k - 1], qty[k - 1], it)
                &&& ok(start, it, qty[k - 1], a1[k - 1])
                &&& row_added(
                    db,
                    stocked,
                    "orderline"@,
                    orderline_row(
                        o_id,
                        d_id,
                        w_id,
                        k as i32,
                        itemid[k - 1],
                        supware[k - 1],
                        qty[k - 1],
                        a1[k - 1],
                        it.dist@,
                    ),
                )
            };
        lemma_lines_added_amounts(mid, old, o_id, w_id, d_id, supware, itemid, qty, a1, a2, start, ok, k - 1);
        assert(a1[k - 1] == a2[k - 1]);
    }
}

/// Where the lines from the `k`-th on can be done, the `k`-th item's stock
/// step succeeds, and after it the line can be appended with any amount,
/// leaving the rest possible.
proof fn lemma_lines_possible_step(
    db: Database,
    db2: Database,
    it: NewOrderItem,
    amt: u64,
    o_id: i32,
    w_id: i32,
    d_id: i32,
    supware: Seq<i32>,
    itemid: Seq<i32>,
    qty: Seq<i32>,
    items: int,
    k: int,
)
    requires
        0 <= k < items,
        lines_possible(db, o_id, w_id, d_id, supware, itemid, qty, items, k),
    ensures
        item_stockable(db, w_id, d_id, supware[k], itemid[k], qty[k]),
        item_stocked(db2, db, w_id, d_id, supware[k], itemid[k], qty[k], it) ==> {
            let row = orderline_row(o_id, d_id, w_id, (k + 1) as i32, itemid[k], supware[k], qty[k], amt, it.dist@);
            &&& utf8_len(it.dist@) <= u32::MAX
            &&& 0 <= qty[k]
            &&& row_addable(db2, "orderline"@, row)
            &&& forall|db3: Database|
                #[trigger] row_added(db3, db2, "orderline"@, row) ==> lines_possible(
                    db3,
                    o_id,
                    w_id,
                    d_id,
                    supware,
                    itemid,
                    qty,
                    items,
                    k + 1,
                )
        },
{
    if item_stocked(db2, db, w_id, d_id, supware[k], itemid[k], qty[k], it) {
        let _ = orderline_row(o_id, d_id, w_id, (k + 1) as i32, itemid[k], supware[k], qty[k], amt, it.dist@);
    }
}

/// One more line done.
proof fn lemma_lines_added_step(
    db: Database,
    mid: Database,
    stocked: Database,
    it: NewOrderItem,
    old: Database,
    o_id: i32,
    w_id: i32,
    d_id: i32,
    supware: Seq<i32>,
    itemid: Seq<i32>,
    qty: Seq<i32>,
    amounts: Seq<u64>,
    start: NewOrderStart,
    ok: spec_fn(NewOrderStart, NewOrderItem, i32, u64) -> bool,
    k: int,
)
    requires
        k >= 0,
        ok(start, it, qty[k], amounts[k]),
        lines_added(mid, old, o_id, w_id, d_id, supware, itemid, qty, amounts, start, ok, k),
        item_stocked(stocked, mid, w_id, d_id, supware[k], itemid[k], qty[k], it),
        row_added(
            db,
            stocked,
            "orderline"@,
            orderline_row(o_id, d_id, w_id, (k + 1) as i32, itemid[k], supware[k], qty[k], amounts[k], it.dist@),
        ),
    ensures
        lines_added(db, old, o_id, w_id, d_id, supware, itemid, qty, amounts, start, ok, k + 1),
{
    let k1 = k + 1;
    assert(k1 - 1 == k);
    assert(item_stocked(stocked, mid, w_id, d_id, supware[k1 - 1], itemid[k1 - 1], qty[k1 - 1], it));
    assert(lines_added(mid, old, o_id, w_id, d_id, supware, itemid, qty, amounts, start, ok, k1 - 1));
    assert(row_added(
        db,
        stocked,
        "orderline"@,
        orderline_row(o_id, d_id, w_id, k1 as i32, itemid[k1 - 1], supware[k1 - 1], qty[k1 - 1], amounts[k1 - 1], it.dist@),
    ));
}

/// A new-order transaction: begins the order, then for each item takes its
/// stock and appends its order line, numbered from 1, with the amount that
/// `amount` computes from the order's and the item's values and the
/// quantity. Gives the amounts of the lines.
#[verifier::spinoff_prover]
#[verifier::rlimit(60)]
pub fn new_order<F: Fn(&NewOrderStart, &NewOrderItem, i32) -> u64>(
    db: &mut Database,
    w_id: i32,
    d_id: i32,
    c_id: i32,
    items: i32,
    supware: &[i32],
    itemid: &[i32],
    qty: &[i32],
    datetime: i64,
    amount: F,
) -> (r: Result<Vec<u64>, TpccError>)
    requires
        old(db).wf(),
        0 <= items <= supware@.len(),
        items <= itemid@.len(),
        items <= qty@.len(),
        forall|a: &NewOrderStart, b: &NewOrderItem, c: i32| call_requires(amount, (a, b, c)),
    ensures
        final(db).wf(),
        r matches Ok(am) ==> new_order_done(
            *final(db),
            *old(db),
            w_id,
            d_id,
            c_id,
            items,
            supware@,
            itemid@,
            qty@,
            datetime,
            am@,
            amount_given(amount),
        ),
        new_order_possible(*old(db), w_id, d_id, c_id, items, supware@, itemid@, qty@, datetime) ==> r is Ok,
{
    let ghost db0 = *db;
    let start = new_order_begin(db, w_id, d_id, c_id, items, supware, datetime)?;
    let ghost db1 = *db;
    let n = items as usize;
    let mut amounts: Vec<u64> = Vec::new();
    let mut k: usize = 0;
    while k < n
        invariant
            k <= n,
            n == items,
            n <= supware@.len(),
            n <= itemid@.len(),
            n <= qty@.len(),
            db.wf(),
            amounts@.len() == k,
            db0 == *old(db),
            forall|a: &NewOrderStart, b: &NewOrderItem, c: i32| call_requires(amount, (a, b, c)),
            order_started(db1, db0, w_id, d_id, c_id, items, supware@, datetime, start),
            lines_added(*db, db1, start.o_id, w_id, d_id, supware@, itemid@, qty@, amounts@, start, amount_given(amount), k as int),
            new_order_possible(db0, w_id, d_id, c_id, items, supware@, itemid@, qty@, datetime) ==> lines_possible(
                *db,
                start.o_id,
                w_id,
                d_id,
                supware@,
                itemid@,
                qty@,
                items as int,
                k as int,
            ),
        decreases n - k,
    {
        let ghost before = *db;
        let ghost a0 = amounts@;
        let ghost possible = new_order_possible(db0, w_id, d_id, c_id, items, supware@, itemid@, qty@, datetime);
        proof {
            if possible {
                lemma_lines_possible_step(before, before, arbitrary(), 0, start.o_id, w_id, d_id, supware@, itemid@, qty@, items as int, k as int);
            }
        }
        let item = new_order_item(db, w_id, d_id, supware[k], itemid[k], qty[k])?;
        let ghost stocked = *db;
        let amt = amount(&start, &item, qty[k]);
        let ghost row = orderline_row(
            start.o_id,
            d_id,
            w_id,
            (k + 1) as i32,
            itemid@[k as int],
            supware@[k as int],
            qty@[k as int],
            amt,
            item.dist@,
        );
        proof {
            if possible {
                lemma_lines_possible_step(before, stocked, item, amt, start.o_id, w_id, d_id, supware@, itemid@, qty@, items as int, k as int);
            }
        }
        if item.dist.as_str().as_bytes().len() > 4294967295 {
            return Err(TpccError::Overflow);
        }
        new_order_line(
            db,
            start.o_id,
            d_id,
            w_id,
            (k + 1) as i32,
            itemid[k],
            supware[k],
            qty[k],
            amt,
            item.dist.as_str(),
        )?;
        amounts.push(amt);
        proof {
            lemma_lines_added_amounts(before, db1, start.o_id, w_id, d_id, supware@, itemid@, qty@, a0, amounts@, start, amount_given(amount), k as int);
            lemma_lines_added_step(*db, before, stocked, item, db1, start.o_id, w_id, d_id, supware@, itemid@, qty@, amounts@, start, amount_given(amount), k as int);
        }
        k = k + 1;
    }
    proof {
        assert(lines_added(*db, db1, start.o_id, w_id, d_id, supware@, itemid@, qty@, amounts@, start, amount_given(amount), items as int));
        assert(order_started(db1, db0, w_id, d_id, c_id, items, supware@, datetime, start));
    }
    Ok(amounts)
}

/// The number of warehouses of the benchmark's data.
pub const WAREHOUSES: i32 = 5;

/// rand's thread-local random generator.
#[verifier::external_type_specification]
#[verifier::external_body]
pub struct ExThreadRng(rand::rngs::ThreadRng);

/// Calls `rand::rng`: a handle to the thread's random generator. Nothing is
/// promised of it.
#[verifier::external_body]
fn thread_rng() -> ThreadRng {
    rand::rng()
}

/// Calls `Rng::random_range` on `lo..hi`: a number drawn from `lo` up to but
/// not including `hi`. The range is not empty, on which the call panics.
#[verifier::external_body]
fn random_in(rng: &mut ThreadRng, lo: i32, hi: i32) -> (r: i32)
    requires
        lo < hi,
    ensures
        lo <= r < hi,
{
    rng.random_range(lo..hi)
}

/// The benchmark's non-uniform random number between `x` and `y` from two
/// draws: `a_draw` between 0 and A, and `xy_draw` between `x` and `y`.
pub open spec fn spec_nu_rand(a_draw: i32, xy_draw: i32, x: i32, y: i32) -> int {
    (((a_draw as u32 | xy_draw as u32) as int + 42) % (y - x + 1)) + x
}

/// The benchmark's non-uniform random number between `x` and `y` from two
/// draws.
pub fn nu_rand_of(a_draw: i32, xy_draw: i32, x: i32, y: i32) -> (r: i32)
    requires
        0 <= a_draw < 0x20000,
        0 <= xy_draw < 0x20000,
        0 <= x <= y < i32::MAX,
    ensures
        r == spec_nu_rand(a_draw, xy_draw, x, y),
        x <= r <= y,
{
    let au = a_draw as u32;
    let bu = xy_draw as u32;
    let o = au | bu;
    assert(o < 0x20000) by (bit_vector)
        requires
            au < 0x20000,
            bu < 0x20000,
            o == au | bu,
    ;
    let span = (y - x + 1) as u32;
    let m = (o + 42) % span;
    (m as i32) + x
}

/// The warehouse that supplies an ordered item: the ordering one, unless the
/// percentage draw is 1; then the drawn other warehouse, shifted past the
/// ordering one.
pub open spec fn spec_supply_warehouse(pct_draw: i32, r_draw: i32, w_id: i32) -> int {
    if pct_draw > 1 {
        w_id as int
    } else if r_draw >= w_id {
        r_draw + 1
    } else {
        r_draw as int
    }
}

/// A remote item is never supplied by the ordering warehouse: when the
/// percentage draw is 1 the supplying warehouse differs from the ordering
/// one, lies at or just above the drawn number, and is the drawn number
/// counted among the warehouses with the ordering one left out; otherwise
/// it is the ordering warehouse.
pub proof fn law_supply_warehouse(pct_draw: i32, r_draw: i32, w_id: i32)
    ensures
        pct_draw > 1 ==> spec_supply_warehouse(pct_draw, r_draw, w_id) == w_id,
        pct_draw <= 1 ==> spec_supply_warehouse(pct_draw, r_draw, w_id) != w_id,
        pct_draw <= 1 ==> r_draw <= spec_supply_warehouse(pct_draw, r_draw, w_id) <= r_draw + 1,
        pct_draw <= 1 ==> ({
            let s = spec_supply_warehouse(pct_draw, r_draw, w_id);
            s - (if w_id < s { 1int } else { 0int }) == r_draw
        }),
{
}

/// Distinct draws of the other warehouse name distinct supplying warehouses,
/// in the same order: the remote warehouses are the others counted in turn.
pub proof fn law_supply_warehouse_increasing(pct_draw: i32, r1: i32, r2: i32, w_id: i32)
    requires
        pct_draw <= 1,
        r1 < r2,
    ensures
        spec_supply_warehouse(pct_draw, r1, w_id) < spec_supply_warehouse(pct_draw, r2, w_id),
{
}

/// The warehouse that supplies an ordered item.
pub fn supply_warehouse(pct_draw: i32, r_draw: i32, w_id: i32) -> (r: i32)
    requires
        r_draw < i32::MAX,
    ensures
        r == spec_supply_warehouse(pct_draw, r_draw, w_id),
{
    if pct_draw > 1 {
        w_id
    } else if r_draw >= w_id {
        r_draw + 1
    } else {
        r_draw
    }
}

/// The parameters of a new-order transaction: the warehouse, district and
/// customer, the number of items, and for each of the fifteen item slots the
/// supplying warehouse, the item and the quantity.
#[derive(Debug)]
pub struct NewOrderParams {
    /// The ordering warehouse
    pub w_id: i32,
    /// The district
    pub d_id: i32,
    /// The customer
    pub c_id: i32,
    /// The number of items
    pub items: i32,
    /// The supplying warehouse of each item
    pub supware: Vec<i32>,
    /// Each item
    pub itemid: Vec<i32>,
    /// The quantity of each item
    pub qty: Vec<i32>,
}

/// The parameters are as the benchmark draws them: numbers in their ranges,
/// each item supplied by the ordering warehouse or by another of the first
/// four, and the unused item slots zero.
pub open spec fn params_ok(p: NewOrderParams) -> bool {
    &&& 1 <= p.w_id <= WAREHOUSES
    &&& 1 <= p.d_id <= 10
    &&& 1 <= p.c_id <= 3000
    &&& 5 <= p.items <= 15
    &&& p.supware@.len() == 15
    &&& p.itemid@.len() == 15
    &&& p.qty@.len() == 15
    &&& forall|k: int|
        0 <= k < p.items ==> {
            &&& #[trigger] p.supware@[k] == p.w_id || (1 <= p.supware@[k] <= WAREHOUSES - 1 && p.supware@[k]
                != p.w_id)
            &&& 1 <= p.itemid@[k] <= 100000
            &&& 1 <= p.qty@[k] <= 10
        }
    &&& forall|k: int|
        p.items <= k < 15 ==> #[trigger] p.supware@[k] == 0 && p.itemid@[k] == 0 && p.qty@[k] == 0
}

/// The parameters as plain values.
pub ghost struct ParamsModel {
    pub w_id: i32,
    pub d_id: i32,
    pub c_id: i32,
    pub items: i32,
    pub supware: Seq<i32>,
    pub itemid: Seq<i32>,
    pub qty: Seq<i32>,
}

impl NewOrderParams {
    /// The parameters as plain values.
    pub open spec fn model(&self) -> ParamsModel {
        ParamsModel {
            w_id: self.w_id,
            d_id: self.d_id,
            c_id: self.c_id,
            items: self.items,
            supware: self.supware@,
            itemid: self.itemid@,
            qty: self.qty@,
        }
    }
}

/// The random draws that a new-order transaction's parameters are made of:
/// the warehouse, the district, the customer's two draws, the number of
/// items, and per item slot the percentage draw, the other warehouse, the
/// item's two draws and the quantity (slots past the items are not used).
#[derive(Debug)]
pub struct NewOrderDraws {
    pub w_id: i32,
    pub d_id: i32,
    pub c_a: i32,
    pub c_b: i32,
    pub items: i32,
    pub pct: Vec<i32>,
    pub other_w: Vec<i32>,
    pub item_a: Vec<i32>,
    pub item_b: Vec<i32>,
    pub qty: Vec<i32>,
}

/// The ranges the benchmark draws from: the warehouse from 1 to 5, the
/// district from 1 to 10, the customer from below 1024 and from 1 to 3000,
/// 5 to 15 items; per used slot a percentage from 1 to 100, another warehouse
/// from 1 to 3, an item from below 8192 and from 1 to 100000, a quantity
/// from 1 to 10.
pub open spec fn draws_in_range(d: NewOrderDraws) -> bool {
    &&& 1 <= d.w_id <= WAREHOUSES
    &&& 1 <= d.d_id <= 10
    &&& 0 <= d.c_a < 1024
    &&& 1 <= d.c_b <= 3000
    &&& 5 <= d.items <= 15
    &&& d.pct@.len() == 15
    &&& d.other_w@.len() == 15
    &&& d.item_a@.len() == 15
    &&& d.item_b@.len() == 15
    &&& d.qty@.len() == 15
    &&& forall|k: int|
        0 <= k < d.items ==> {
            &&& 1 <= #[trigger] d.pct@[k] <= 100
            &&& 1 <= d.other_w@[k] <= WAREHOUSES - 2
            &&& 0 <= d.item_a@[k] < 8192
            &&& 1 <= d.item_b@[k] <= 100000
            &&& 1 <= d.qty@[k] <= 10
        }
}

/// The parameters that the draws make: the customer and each item by the
/// non-uniform rule, each supplying warehouse by `spec_supply_warehouse`,
/// and zeros in the slots past the items.
pub open spec fn spec_params_of(d: NewOrderDraws) -> ParamsModel {
    ParamsModel {
        w_id: d.w_id,
        d_id: d.d_id,
        c_id: spec_nu_rand(d.c_a, d.c_b, 1, 3000) as i32,
        items: d.items,
        supware: Seq::new(
            15,
            |k: int|
                if k < d.items {
                    spec_supply_warehouse(d.pct@[k], d.other_w@[k], d.w_id) as i32
                } else {
                    0i32
                },
        ),
        itemid: Seq::new(
            15,
            |k: int|
                if k < d.items {
                    spec_nu_rand(d.item_a@[k], d.item_b@[k], 1, 100000) as i32
                } else {
                    0i32
                },
        ),
        qty: Seq::new(15, |k: int| if k < d.items { d.qty@[k] } else { 0i32 }),
    }
}

/// Builds the parameters of a new-order transaction from its draws.
pub fn new_order_params_of(d: &NewOrderDraws) -> (p: NewOrderParams)
    requires
        draws_in_range(*d),
    ensures
        p.model() == spec_params_of(*d),
        params_ok(p),
{
    let c_id = nu_rand_of(d.c_a, d.c_b, 1, 3000);
    let mut supware: Vec<i32> = Vec::new();
    let mut itemid: Vec<i32> = Vec::new();
    let mut qty: Vec<i32> = Vec::new();
    let ghost m = spec_params_of(*d);
    let mut i: usize = 0;
    while i < 15
        invariant
            0 <= i <= 15,
            draws_in_range(*d),
            m == spec_params_of(*d),
            supware@.len() == i,
            itemid@.len() == i,
            qty@.len() == i,
            forall|k: int| 0 <= k < i ==> #[trigger] supware@[k] == m.supware[k],
            forall|k: int| 0 <= k < i ==> #[trigger] itemid@[k] == m.itemid[k],
            forall|k: int| 0 <= k < i ==> #[trigger] qty@[k] == m.qty[k],
            forall|k: int|
                0 <= k < i && k < d.items ==> {
                    &&& #[trigger] supware@[k] == d.w_id || (1 <= supware@[k] <= WAREHOUSES - 1 && supware@[k]
                        != d.w_id)
                    &&& 1 <= itemid@[k] <= 100000
                    &&& 1 <= qty@[k] <= 10
                },
        decreases 15 - i,
    {
        if (i as i32) < d.items {
            assert(1 <= d.pct@[i as int] <= 100);
            let s = supply_warehouse(d.pct[i], d.other_w[i], d.w_id);
            assert(s == d.w_id || (1 <= s <= WAREHOUSES - 1 && s != d.w_id));
            let it = nu_rand_of(d.item_a[i], d.item_b[i], 1, 100000);
            let ghost (s0, t0, q0) = (supware@, itemid@, qty@);
            supware.push(s);
            itemid.push(it);
            qty.push(d.qty[i]);
            assert forall|k: int| 0 <= k < i + 1 && k < d.items implies {
                &&& #[trigger] supware@[k] == d.w_id || (1 <= supware@[k] <= WAREHOUSES - 1 && supware@[k]
                    != d.w_id)
                &&& 1 <= itemid@[k] <= 100000
                &&& 1 <= qty@[k] <= 10
            } by {
                if k < i {
                    assert(supware@[k] == s0[k] && itemid@[k] == t0[k] && qty@[k] == q0[k]);
                }
            }
        } else {
            supware.push(0);
            itemid.push(0);
            qty.push(0);
        }
        i = i + 1;
    }
    assert(supware@ =~= m.supware);
    assert(itemid@ =~= m.itemid);
    assert(qty@ =~= m.qty);
    NewOrderParams { w_id: d.w_id, d_id: d.d_id, c_id, items: d.items, supware, itemid, qty }
}

/// Draws the parameters of a random new-order transaction: what holds of
/// every outcome is that they are made, by `new_order_params_of`, of draws
/// in the benchmark's ranges.
pub fn random_new_order_params() -> (p: NewOrderParams)
    ensures
        params_ok(p),
        exists|d: NewOrderDraws| draws_in_range(d) && p.model() == #[trigger] spec_params_of(d),
{
    let mut rng = thread_rng();
    let mut nu_rng = thread_rng();
    let w_id = random_in(&mut rng, 1, WAREHOUSES + 1);
    let d_id = random_in(&mut rng, 1, 11);
    let c_a = random_in(&mut nu_rng, 0, 1024);
    let c_b = random_in(&mut nu_rng, 1, 3001);
    let items = random_in(&mut rng, 5, 16);
    let mut pct: Vec<i32> = Vec::new();
    let mut other_w: Vec<i32> = Vec::new();
    let mut item_a: Vec<i32> = Vec::new();
    let mut item_b: Vec<i32> = Vec::new();
    let mut qty: Vec<i32> = Vec::new();
    let mut i: i32 = 0;
    while i < 15
        invariant
            0 <= i <= 15,
            5 <= items <= 15,
            pct@.len() == i,
            other_w@.len() == i,
            item_a@.len() == i,
            item_b@.len() == i,
            qty@.len() == i,
            forall|k: int|
                0 <= k < i && k < items ==> {
                    &&& 1 <= #[trigger] pct@[k] <= 100
                    &&& 1 <= other_w@[k] <= WAREHOUSES - 2
                    &&& 0 <= item_a@[k] < 8192
                    &&& 1 <= item_b@[k] <= 100000
                    &&& 1 <= qty@[k] <= 10
                },
        decreases 15 - i,
    {
        if i < items {
            let p = random_in(&mut rng, 1, 101);
            let r = if p > 1 {
                1
            } else {
                random_in(&mut rng, 1, WAREHOUSES - 1)
            };
            pct.push(p);
            other_w.push(r);
            item_a.push(random_in(&mut nu_rng, 0, 8192));
            item_b.push(random_in(&mut nu_rng, 1, 100001));
            qty.push(random_in(&mut rng, 1, 11));
        } else {
            pct.push(0);
            other_w.push(0);
            item_a.push(0);
            item_b.push(0);
            qty.push(0);
        }
        i = i + 1;
    }
    let d = NewOrderDraws { w_id, d_id, c_a, c_b, items, pct, other_w, item_a, item_b, qty };
    let p = new_order_params_of(&d);
    assert(draws_in_range(d) && p.model() == spec_params_of(d));
    p
}

} // verus!
