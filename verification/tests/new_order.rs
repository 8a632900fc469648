use imlab::db::database::Database;
use imlab::db::row::ValueRef;
use imlab::db::value::Value;
use imlab::new_order::{NewOrderDraws, TpccError, new_order_begin, new_order_item, new_order_line, new_order_params_of};
use imlab::tpcc::create_tpcc_tables;
use imlab::types::Tag;
use imlab::types::integer::Integer;

fn put_row(db: &mut Database, table: &str, values: &[(&str, &str)]) {
    let t = db.get_table_mut(table).unwrap();
    let fields: Vec<String> = t
        .columns
        .iter()
        .map(|c| match values.iter().find(|(n, _)| *n == c.id) {
            Some((_, v)) => v.to_string(),
            None => match c.ty.tag() {
                Tag::Integer | Tag::Numeric | Tag::Timestamp => "0".to_string(),
                Tag::Bool => "true".to_string(),
                _ => "x".to_string(),
            },
        })
        .collect();
    let refs: Vec<&str> = fields.iter().map(|s| s.as_str()).collect();
    t.insert_fields(&refs).unwrap();
}

fn key(values: &[i32]) -> Vec<Value> {
    values.iter().map(|v| Value::Integer(Integer::new(*v))).collect()
}

fn field<'a>(db: &'a Database, table: &str, k: &[i32], col: usize) -> ValueRef<'a> {
    db.get_table(table).unwrap().get_view(&key(k)).unwrap().get(col).unwrap()
}

fn numeric(v: ValueRef) -> u64 {
    match v {
        ValueRef::Numeric(n) => n,
        other => panic!("expected a NUMERIC, got {:?}", other),
    }
}

fn integer(v: ValueRef) -> i32 {
    match v {
        ValueRef::Integer(n) => n,
        other => panic!("expected an INTEGER, got {:?}", other),
    }
}

fn small_db() -> Database {
    let mut db = Database::default();
    create_tpcc_tables(&mut db);
    put_row(&mut db, "warehouse", &[("w_id", "1"), ("w_tax", "0.1000")]);
    put_row(&mut db, "district", &[("d_id", "3"), ("d_w_id", "1"), ("d_tax", "0.0500"), ("d_next_o_id", "3001")]);
    put_row(&mut db, "customer", &[("c_id", "7"), ("c_d_id", "3"), ("c_w_id", "1"), ("c_discount", "0.2500")]);
    put_row(&mut db, "item", &[("i_id", "42"), ("i_price", "12.34")]);
    put_row(
        &mut db,
        "stock",
        &[("s_i_id", "42"), ("s_w_id", "1"), ("s_quantity", "5"), ("s_dist_03", "dist-three"), ("s_order_cnt", "2")],
    );
    put_row(&mut db, "stock", &[("s_i_id", "42"), ("s_w_id", "2"), ("s_quantity", "50"), ("s_dist_03", "far")]);
    db
}

#[test]
fn new_order_steps_update_the_tables() {
    let mut db = small_db();
    let start = new_order_begin(&mut db, 1, 3, 7, 2, &[1, 2, 0], 99).unwrap();
    assert_eq!(start.o_id, 3001);
    assert_eq!(start.w_tax, 1000);
    assert_eq!(start.d_tax, 500);
    assert_eq!(start.c_discount, 2500);
    assert_eq!(integer(field(&db, "district", &[1, 3], 10)), 3002);
    assert_eq!(numeric(field(&db, "order", &[1, 3, 3001], 6)), 2);
    assert_eq!(numeric(field(&db, "order", &[1, 3, 3001], 7)), 0);
    assert_eq!(integer(field(&db, "neworder", &[1, 3, 3001], 0)), 3001);

    let local = new_order_item(&mut db, 1, 3, 1, 42, 8).unwrap();
    assert_eq!(local.i_price, 1234);
    assert_eq!(local.dist, "dist-three");
    assert_eq!(numeric(field(&db, "stock", &[1, 42], 2)), 88);
    assert_eq!(numeric(field(&db, "stock", &[1, 42], 14)), 3);
    assert_eq!(numeric(field(&db, "stock", &[1, 42], 15)), 0);

    let remote = new_order_item(&mut db, 1, 3, 2, 42, 10).unwrap();
    assert_eq!(remote.dist, "far");
    assert_eq!(numeric(field(&db, "stock", &[2, 42], 2)), 40);
    assert_eq!(numeric(field(&db, "stock", &[2, 42], 14)), 1);
    assert_eq!(numeric(field(&db, "stock", &[2, 42], 15)), 1);

    new_order_line(&mut db, 3001, 3, 1, 1, 42, 1, 8, 777, &local.dist).unwrap();
    assert_eq!(numeric(field(&db, "orderline", &[1, 3, 3001, 1], 8)), 777);
    match field(&db, "orderline", &[1, 3, 3001, 1], 9) {
        ValueRef::Text(t) => assert_eq!(t.as_str(), "dist-three"),
        other => panic!("expected a text, got {:?}", other),
    }
}

#[test]
fn new_order_steps_report_what_is_missing() {
    let mut db = small_db();
    match new_order_begin(&mut db, 9, 3, 7, 0, &[], 0) {
        Err(TpccError::RowNotFound(t)) => assert_eq!(t, "warehouse"),
        other => panic!("expected a missing warehouse, got {:?}", other),
    }
    assert!(matches!(new_order_item(&mut db, 1, 11, 1, 42, 1), Err(TpccError::DistrictOutOfRange)));
    assert!(matches!(new_order_item(&mut db, 1, 3, 1, 43, 1), Err(TpccError::RowNotFound(_))));
    assert!(matches!(
        new_order_line(&mut db, 1, 3, 1, 1, 42, 1, -1, 0, "x"),
        Err(TpccError::NegativeNumeric)
    ));
    // nothing was changed by the failed steps
    assert_eq!(integer(field(&db, "district", &[1, 3], 10)), 3001);
}

#[test]
fn nu_rand_and_supply_warehouse() {
    // (5 | 9) = 13; (13 + 42) % 3000 + 1 = 56
    assert_eq!(imlab::new_order::nu_rand_of(5, 9, 1, 3000), 56);
    // (1023 | 2999) = 3071; (3071 + 42) % 3000 + 1 = 114
    assert_eq!(imlab::new_order::nu_rand_of(1023, 2999, 1, 3000), 114);
    assert_eq!(imlab::new_order::supply_warehouse(50, 3, 2), 2);
    assert_eq!(imlab::new_order::supply_warehouse(1, 3, 2), 4);
    assert_eq!(imlab::new_order::supply_warehouse(1, 1, 2), 1);
}

#[test]
fn random_params_are_in_range() {
    for _ in 0..200 {
        let p = imlab::new_order::random_new_order_params();
        assert!((1..=5).contains(&p.w_id));
        assert!((1..=10).contains(&p.d_id));
        assert!((1..=3000).contains(&p.c_id));
        assert!((5..=15).contains(&p.items));
        assert_eq!(p.supware.len(), 15);
        for k in 0..15usize {
            if (k as i32) < p.items {
                assert!(p.supware[k] == p.w_id || ((1..=4).contains(&p.supware[k]) && p.supware[k] != p.w_id));
                assert!((1..=100000).contains(&p.itemid[k]));
                assert!((1..=10).contains(&p.qty[k]));
            } else {
                assert_eq!((p.supware[k], p.itemid[k], p.qty[k]), (0, 0, 0));
            }
        }
    }
}

#[test]
fn new_order_transaction_numbers_the_lines() {
    let mut db = small_db();
    let amounts = imlab::new_order::new_order(
        &mut db,
        1,
        3,
        7,
        2,
        &[1, 2, 0],
        &[42, 42, 0],
        &[8, 10, 0],
        99,
        |start: &imlab::new_order::NewOrderStart, item: &imlab::new_order::NewOrderItem, q: i32| {
            start.o_id as u64 + item.i_price + q as u64
        },
    )
    .unwrap();
    assert_eq!(amounts, vec![3001 + 1234 + 8, 3001 + 1234 + 10]);
    assert_eq!(integer(field(&db, "district", &[1, 3], 10)), 3002);
    assert_eq!(numeric(field(&db, "orderline", &[1, 3, 3001, 1], 8)), 3001 + 1234 + 8);
    assert_eq!(numeric(field(&db, "orderline", &[1, 3, 3001, 2], 8)), 3001 + 1234 + 10);
    assert_eq!(integer(field(&db, "orderline", &[1, 3, 3001, 2], 3)), 2);
    assert_eq!(numeric(field(&db, "stock", &[1, 42], 2)), 88);
    assert_eq!(numeric(field(&db, "stock", &[2, 42], 2)), 40);
}

#[test]
fn new_order_params_from_draws() {
    let mut pct = vec![1; 15];
    pct[1] = 50;
    let d = NewOrderDraws {
        w_id: 2,
        d_id: 4,
        c_a: 5,
        c_b: 9,
        items: 5,
        pct,
        other_w: vec![3; 15],
        item_a: vec![5; 15],
        item_b: vec![9; 15],
        qty: vec![7; 15],
    };
    let p = new_order_params_of(&d);
    assert_eq!((p.w_id, p.d_id, p.c_id, p.items), (2, 4, 56, 5));
    assert_eq!(&p.supware[..6], &[4, 2, 4, 4, 4, 0]);
    assert_eq!(&p.itemid[..6], &[56, 56, 56, 56, 56, 0]);
    assert_eq!(&p.qty[..6], &[7, 7, 7, 7, 7, 0]);
}
