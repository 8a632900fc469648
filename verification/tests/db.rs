use csv::ReaderBuilder;
use imlab::db::database::Database;
use imlab::db::error::DbError;
use imlab::db::row::ValueRef;
use imlab::db::table::{Table, delimiter_byte};
use imlab::db::value::Value;
use imlab::parser::ast::{Column as ASTColumn, CopyTable, Table as ASTTable};
use imlab::types::{InputError, Type};

#[test]
fn test_creation() {
    let table_id = String::from("1");

    let col1 = ASTColumn { id: String::from("col1"), ty: Type::new_integer(), not_null: true };
    let col2 = ASTColumn { id: String::from("col2"), ty: Type::new_bool(), not_null: true };
    let col3 = ASTColumn { id: String::from("col3"), ty: Type::new_numeric(10, 10), not_null: true };

    let ast_table = ASTTable {
        id: table_id.clone(),
        columns: vec![col1, col2, col3],
        primary_key: vec![String::from("col1"), String::from("col2")],
    };

    let row1: Vec<Value> = vec![101.into(), true.into(), (1.123 as u64).into()];
    let row2: Vec<Value> = vec![23.into(), false.into(), (1.123 as u64).into()];
    let row3: Vec<Value> = vec![200.into(), false.into(), (1.123 as u64).into()];
    let row4: Vec<Value> = vec![213.into(), false.into(), (1.123 as u64).into()];
    let row5: Vec<Value> = vec![98.into(), false.into(), (1.123 as u64).into()];

    println!("{:?}", row4);

    let rows: Vec<Vec<Value>> = vec![row1, row2, row3, row4, row5];

    let mut db = Database::default();
    db.create_table(&ast_table).unwrap();

    let table = db.get_table_mut(&table_id).unwrap();
    for row in rows {
        table.insert(row).unwrap();
    }

    let table = db.get_table(&table_id).unwrap();

    let key1: Vec<Value> = vec![101.into(), true.into()];
    let key2: Vec<Value> = vec![23.into(), false.into()];
    let key3: Vec<Value> = vec![98.into(), true.into()];

    assert!(table.get_view(&key1).is_some(), "missing row for key1");
    assert!(table.get_view(&key2).is_some(), "missing row for key2");
    assert!(table.get_view(&key3).is_none(), "key3 should not exist (98,true) in inserted data");
}

#[test]
fn parse_sample_quoted_field_with_escaped_quote() {
    let line = r#"8153,29082,868,1,"(2010) (USA) (DVD) (Included in \"A Touch of Frost: Seasom 15\" for ITV Global Entertainment)""#;
    let mut rdr = ReaderBuilder::new()
        .has_headers(false)
        .delimiter(b',')
        .double_quote(true)
        .escape(Some(b'\\'))
        .from_reader(line.as_bytes());

    let rec = rdr.records().next().expect("record").expect("ok record");
    assert_eq!(rec.len(), 5);
    assert_eq!(rec.get(0).unwrap(), "8153");
    assert_eq!(rec.get(1).unwrap(), "29082");
    assert_eq!(rec.get(2).unwrap(), "868");
    assert_eq!(rec.get(3).unwrap(), "1");
    assert_eq!(
        rec.get(4).unwrap(),
        "(2010) (USA) (DVD) (Included in \"A Touch of Frost: Seasom 15\" for ITV Global Entertainment)"
    );
}

#[test]
fn parse_field_with_internal_comma() {
    // quoted field contains a comma, it should be read as a single field
    let line = r#"1,"Smith, John",3"#;
    let mut rdr = ReaderBuilder::new()
        .has_headers(false)
        .delimiter(b',')
        .double_quote(true)
        .escape(Some(b'\\'))
        .from_reader(line.as_bytes());

    let rec = rdr.records().next().expect("record").expect("ok record");
    assert_eq!(rec.len(), 3);
    assert_eq!(rec.get(0).unwrap(), "1");
    assert_eq!(rec.get(1).unwrap(), "Smith, John");
    assert_eq!(rec.get(2).unwrap(), "3");
}

fn people_table() -> ASTTable {
    ASTTable {
        id: "people".to_string(),
        columns: vec![
            ASTColumn { id: "id".to_string(), ty: Type::new_integer(), not_null: true },
            ASTColumn { id: "name".to_string(), ty: Type::new_varchar(20), not_null: true },
            ASTColumn { id: "score".to_string(), ty: Type::new_numeric(6, 2), not_null: true },
        ],
        primary_key: vec!["id".to_string()],
    }
}

fn text_of(v: ValueRef) -> String {
    match v {
        ValueRef::Text(t) => t.as_str().to_string(),
        other => panic!("expected a text, got {:?}", other),
    }
}

#[test]
fn insert_then_lookup_by_key() {
    let mut t = Table::new(&people_table());
    t.insert_fields(&["7", "Ada", "12.50"]).unwrap();
    t.insert_fields(&["9", "Grace", "3.25"]).unwrap();
    assert_eq!(t.num_rows, 2);
    let key: Vec<Value> = vec![9.into()];
    assert_eq!(t.get_row_id(&key), Some(1));
    let view = t.get_view(&key).unwrap();
    assert_eq!(text_of(view.get(1).unwrap()), "Grace");
    match view.get(2).unwrap() {
        ValueRef::Numeric(n) => assert_eq!(n, 325),
        other => panic!("expected a numeric, got {:?}", other),
    }
    assert!(view.get(3).is_none());
    let missing: Vec<Value> = vec![8.into()];
    assert_eq!(t.get_row_id(&missing), None);
}

#[test]
fn insert_errors() {
    let mut t = Table::new(&people_table());
    assert_eq!(
        t.insert_fields(&["1", "x"]),
        Err(DbError::ColumnCountMismatch { expected: 3, got: 2 })
    );
    assert!(matches!(t.insert_fields(&["one", "x", "1.0"]), Err(DbError::Input(_))));
    assert_eq!(t.insert(vec![1.into(), true.into(), 5u64.into()]), Err(DbError::TypeMismatch));
    assert_eq!(t.num_rows, 0);
}

#[test]
fn put_field_changes_one_cell() {
    let mut t = Table::new(&people_table());
    t.insert_fields(&["1", "Ada", "1.00"]).unwrap();
    t.insert_fields(&["2", "Bob", "2.00"]).unwrap();
    let key: Vec<Value> = vec![2.into()];
    let v = Value::from(777u64);
    t.put_field(&key, 2, &v).unwrap();
    match t.get_view(&key).unwrap().get(2).unwrap() {
        ValueRef::Numeric(n) => assert_eq!(n, 777),
        other => panic!("expected a numeric, got {:?}", other),
    }
    let other: Vec<Value> = vec![1.into()];
    match t.get_view(&other).unwrap().get(2).unwrap() {
        ValueRef::Numeric(n) => assert_eq!(n, 100),
        other => panic!("expected a numeric, got {:?}", other),
    }
    assert_eq!(t.put_field(&key, 5, &v), Err(DbError::ColumnOutOfBounds));
    let absent: Vec<Value> = vec![3.into()];
    assert_eq!(t.put_field(&absent, 2, &v), Err(DbError::KeyNotFound));
    let wrong: Vec<Value> = vec![true.into()];
    assert_eq!(t.put_field(&wrong, 2, &v), Err(DbError::InvalidKey));
}

#[test]
fn load_csv_appends_records() {
    let mut t = Table::new(&people_table());
    let data = b"1|Ada|1.5\n2|\"Smith, John\"|2.25\n";
    t.load_csv(data, "|").unwrap();
    assert_eq!(t.num_rows, 2);
    let key: Vec<Value> = vec![2.into()];
    assert_eq!(text_of(t.get_view(&key).unwrap().get(1).unwrap()), "Smith, John");
    assert_eq!(t.load_csv(data, ""), Err(DbError::EmptyDelimiter));
    assert!(matches!(t.load_csv(b"3|Eve|123456789.5\n", "|"), Err(DbError::Input(_))));
    assert_eq!(
        t.load_csv(b"3|Eve|123456789012345678901234.5\n", "|"),
        Err(DbError::Input(InputError::NumericOverflow { precision: 6, scale: 2 }))
    );
    assert_eq!(t.num_rows, 2);
    // records of unequal length: the records before the malformed one are loaded
    assert_eq!(t.load_csv(b"3|Eve|1.0\n4|Bob\n", "|"), Err(DbError::Csv));
    assert_eq!(t.num_rows, 3);
}

#[test]
fn delimiters() {
    assert_eq!(delimiter_byte("|"), Ok(b'|'));
    assert_eq!(delimiter_byte("\\t"), Ok(b'\t'));
    assert_eq!(delimiter_byte("\t"), Ok(b'\t'));
    assert_eq!(delimiter_byte(",;"), Ok(b','));
    assert_eq!(delimiter_byte(""), Err(DbError::EmptyDelimiter));
}

#[test]
fn copy_into_missing_and_present_table() {
    let mut db = Database::default();
    let copy = CopyTable { table: "people".to_string(), file: "p.tbl".to_string(), delimiter: "|".to_string() };
    assert_eq!(db.copy_table(&copy, b"1|Ada|1.0\n"), Err(DbError::TableNotFound));
    db.create_table(&people_table()).unwrap();
    db.copy_table(&copy, b"1|Ada|1.0\n2|Bob|2.0\n").unwrap();
    assert_eq!(db.get_table("people").unwrap().num_rows, 2);
    // re-creating a table replaces it with an empty one
    db.create_table(&people_table()).unwrap();
    assert_eq!(db.tables.len(), 1);
    assert_eq!(db.get_table("people").unwrap().num_rows, 0);
}

#[test]
fn tpcc_schema_creates_all_tables() {
    let tables = imlab::tpcc::tpcc_tables();
    assert_eq!(tables.len(), 9);
    let mut db = Database::default();
    imlab::tpcc::create_tpcc_tables(&mut db);
    assert_eq!(db.tables.len(), 9);
    let customer = db.get_table("customer").unwrap();
    assert_eq!(customer.columns.len(), 21);
    assert_eq!(customer.get_col_index("c_discount"), Some(15));
    let order = db.get_table("order").unwrap();
    assert_eq!(order.get_col_index("o_all_local"), Some(7));
    // the history table has no key
    assert!(db.get_table("history").is_some());
}

#[test]
fn debug_row_dumps_every_field() {
    let ast_table = ASTTable {
        id: String::from("t"),
        columns: vec![
            ASTColumn { id: String::from("a"), ty: Type::new_integer(), not_null: true },
            ASTColumn { id: String::from("b"), ty: Type::new_bool(), not_null: true },
            ASTColumn { id: String::from("c"), ty: Type::new_varchar(20), not_null: true },
            ASTColumn { id: String::from("d"), ty: Type::new_numeric(6, 2), not_null: true },
            ASTColumn { id: String::from("e"), ty: Type::new_timestamp(), not_null: true },
        ],
        primary_key: vec![String::from("a")],
    };
    let mut table = Table::new(&ast_table);
    table.insert_fields(&["-7", "true", "hello", "12.50", "99"]).unwrap();
    let dump = table.debug_row(0).unwrap();
    assert_eq!(
        dump,
        "Row 0:\n a : Integer(-7) b : Bool(true) c : Text(\"hello\") d : Numeric(1250) e : Timestamp(99)\n"
    );
    assert!(table.debug_row(1).is_none());
}
