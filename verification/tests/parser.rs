use imlab::parser::ast::{Statement, TableFactor};
use imlab::parser::expr::{BinaryOperator, Expression};
use imlab::parser::{ParseError, Parser};
use imlab::types::Type;

#[test]
fn parse_create_stmt() {
    let p = Parser::default();
    p.parse("CREATE TABLE foo ();").unwrap();
    p.parse("create table foo ();").unwrap();
    p.parse("create table foo (); create table bar ();")
        .unwrap();
    p.parse("create table foo ( bar integer not null );")
        .unwrap();
    p.parse("create table foo ( bar timestamp not null );")
        .unwrap();
    p.parse("create table foo ( bar numeric(4, 2) not null );")
        .unwrap();
    p.parse("create table foo ( bar char(20) not null );")
        .unwrap();
    p.parse("create table foo ( bar varchar(20) not null );")
        .unwrap();

    p.parse(
        "
    create table foo (
        c1 integer not null,
        c2 timestamp not null,
        c3 numeric(4, 2) not null,
        c4 char(20) not null,
        c5 varchar(20) not null
    );
    ",
    )
    .unwrap();

    p.parse(
        "
    create table foo (
        f1 integer not null,
        f2 timestamp not null,
        f3 numeric(4, 2) not null,
        f4 char(20) not null,
        f5 varchar(20) not null
    );

    create table bar (
        b1 integer not null,
        b2 timestamp not null,
        b3 numeric(4, 2) not null,
        b4 char(20) not null,
        b5 varchar(20) not null
    );
    ",
    )
    .unwrap();

    p.parse(
        "
    create table foo (
        c1 integer not null,
        c2 timestamp not null,
        c3 numeric(4, 2) not null,
        c4 char(20) not null,
        c5 varchar(20) not null,
        primary key (c1)
    );
    ",
    )
    .unwrap();

    p.parse(
        "
    create table foo (
        c1 integer not null,
        c2 timestamp not null,
        c3 numeric(4, 2) not null,
        c4 char(20) not null,
        c5 varchar(20) not null,
        primary key (c1, c2)
    );
    ",
    )
    .unwrap();
    let ast = p
        .parse(
            "
    create table warehouse (
        w_id integer not null,
        w_name varchar(10) not null,
        w_street_1 varchar(20) not null,
        w_street_2 varchar(20) not null,
        w_city varchar(20) not null,
        w_state char(2) not null,
        w_zip char(9) not null,
        w_tax numeric(4, 4) not null,
        w_ytd numeric(12, 2) not null,
        primary key (w_id)
    );

    create table district (
        d_id integer not null,
        d_w_id integer not null,
        d_name varchar(10) not null,
        d_street_1 varchar(20) not null,
        d_street_2 varchar(20) not null,
        d_city varchar(20) not null,
        d_state char(2) not null,
        d_zip char(9) not null,
        d_tax numeric(4, 4) not null,
        d_ytd numeric(12, 2) not null,
        d_next_o_id integer not null,
        primary key (d_w_id, d_id)
    );

    create table customer (
        c_id integer not null,
        c_d_id integer not null,
        c_w_id integer not null,
        c_first varchar(16) not null,
        c_middle char(2) not null,
        c_last varchar(16) not null,
        c_street_1 varchar(20) not null,
        c_street_2 varchar(20) not null,
        c_city varchar(20) not null,
        c_state char(2) not null,
        c_zip char(9) not null,
        c_phone char(16) not null,
        c_since timestamp not null,
        c_credit char(2) not null,
        c_credit_lim numeric(12, 2) not null,
        c_discount numeric(4, 4) not null,
        c_balance numeric(12, 2) not null,
        c_ytd_paymenr numeric(12, 2) not null,
        c_payment_cnt numeric(4, 0) not null,
        c_delivery_cnt numeric(4, 0) not null,
        c_data varchar(500) not null,
        primary key (c_w_id, c_d_id, c_id)
    );

    create table history (
        h_c_id integer not null,
        h_c_d_id integer not null,
        h_c_w_id integer not null,
        h_d_id integer not null,
        h_w_id integer not null,
        h_date timestamp not null,
        h_amount numeric(6, 2) not null,
        h_data varchar(24) not null
    );

    create table neworder (
        no_o_id integer not null,
        no_d_id integer not null,
        no_w_id integer not null,
        primary key (no_w_id, no_d_id, no_o_id)
    );

    create table \"order\" (
        o_id integer not null,
        o_d_id integer not null,
        o_w_id integer not null,
        o_c_id integer not null,
        o_entry_d timestamp not null,
        o_carrier_id integer not null,
        o_ol_cnt numeric(2, 0) not null,
        o_all_local numeric(1, 0) not null,
        primary key (o_w_id, o_d_id, o_id)
    );

    create table orderline (
        ol_o_id integer not null,
        ol_d_id integer not null,
        ol_w_id integer not null,
        ol_number integer not null,
        ol_i_id integer not null,
        ol_supply_w_id integer not null,
        ol_delivery_d timestamp not null,
        ol_quantity numeric(2, 0) not null,
        ol_amount numeric(6, 2) not null,
        ol_dist_info char(24) not null,
        primary key (ol_w_id, ol_d_id, ol_o_id, ol_number)
    );

    create table item (
        i_id integer not null,
        i_im_id integer not null,
        i_name varchar(24) not null,
        i_price numeric(5,2) not null,
        i_data varchar(50) not null,
        primary key (i_id)
    );

    create table stock (
        s_i_id integer not null,
        s_w_id integer not null,
        s_quantity numeric(4, 0) not null,
        s_dist_01 char(24) not null,
        s_dist_02 char(24) not null,
        s_dist_03 char(24) not null,
        s_dist_04 char(24) not null,
        s_dist_05 char(24) not null,
        s_dist_06 char(24) not null,
        s_dist_07 char(24) not null,
        s_dist_08 char(24) not null,
        s_dist_09 char(24) not null,
        s_dist_10 char(24) not null,
        s_ytd numeric(8,0) not null,
        s_order_cnt numeric(4, 0) not null,
        s_remote_cnt numeric(4, 0) not null,
        s_data varchar(50) not null,
        primary key (s_w_id, s_i_id)
    );

    ",
        )
        .unwrap();

    assert_eq!(ast.statements.len(), 9);
    let col_names: Vec<String> = ast
        .statements
        .into_iter()
        .map(|e| {
            if let Statement::CreateTable(x) = e {
                x.table.id
            } else {
                panic!("expected A")
            }
        })
        .collect();

    let expected = vec![
        "warehouse",
        "district",
        "customer",
        "history",
        "neworder",
        "order",
        "orderline",
        "item",
        "stock",
    ];

    for expected_name in expected {
        assert!(col_names.contains(&expected_name.to_string()));
    }
}

#[test]
fn parse_copy_stmt() {
    let p = Parser::default();
    p.parse("COPY students FROM 'students.csv';").unwrap();
    p.parse("COPY district FROM 'districts.csv' DELIMITER '|';")
        .unwrap();
}

#[test]
fn parse_select_stmt() {
    let p = Parser::default();
    let ast = p.parse("select * from students;").unwrap();
    let ast = p.parse("select matrnr from students;").unwrap();
    let ast = p.parse("select matrnr, name from students;").unwrap();
    let ast = p.parse("select * from students s;").unwrap();
    let ast = p.parse("select s.matrnr from students s;").unwrap();
    let ast = p.parse("select s.matrnr, s.name from students s;").unwrap();
    let ast = p
        .parse("select * from students, attend, lectures;")
        .unwrap();
    let ast = p
        .parse("select * from students s, attend a, lectures l;")
        .unwrap();
    let ast = p
        .parse("select * from students where name = 'foo';")
        .unwrap();
    let ast = p
        .parse("select * from students s where s.name = 'foo';")
        .unwrap();
    let ast = p
        .parse("select * from students s where s.matrnr = 1234;")
        .unwrap();
    let ast = p
        .parse("select * from students s where s.name = 'foo' and s.matrnr = 1234;")
        .unwrap();
}

#[test]
fn parse_create_table_fields() {
    let p = Parser::default();
    let ast = p
        .parse("CREATE TABLE \"order\" (o_id INTEGER NOT NULL, o_amount numeric(6, 2) not null, o_info Char(24) NOT NULL, primary key (o_id));")
        .unwrap();
    assert_eq!(ast.statements.len(), 1);
    match &ast.statements[0] {
        Statement::CreateTable(c) => {
            assert_eq!(c.table.id, "order");
            assert_eq!(c.table.columns.len(), 3);
            assert_eq!(c.table.columns[0].id, "o_id");
            assert_eq!(c.table.columns[0].ty, Type::new_integer());
            assert!(c.table.columns[0].not_null);
            assert_eq!(c.table.columns[1].ty, Type::new_numeric(6, 2));
            assert_eq!(c.table.columns[2].ty, Type::new_char(24));
            assert_eq!(c.table.primary_key, vec!["o_id".to_string()]);
        }
        _ => panic!("expected a CREATE TABLE"),
    }
}

#[test]
fn parse_copy_fields_and_default_delimiter() {
    let p = Parser::default();
    let ast = p
        .parse("COPY district FROM 'districts.csv' DELIMITER ','; copy students from 'students.tbl';")
        .unwrap();
    assert_eq!(ast.statements.len(), 2);
    match &ast.statements[0] {
        Statement::CopyTable(c) => {
            assert_eq!(c.table, "district");
            assert_eq!(c.file, "districts.csv");
            assert_eq!(c.delimiter, ",");
        }
        _ => panic!("expected a COPY"),
    }
    match &ast.statements[1] {
        Statement::CopyTable(c) => {
            assert_eq!(c.table, "students");
            assert_eq!(c.delimiter, "|");
        }
        _ => panic!("expected a COPY"),
    }
}

#[test]
fn parse_select_fields() {
    let p = Parser::default();
    let ast = p
        .parse("select s.name, matrnr from students s, attend where s.name = 'foo' and s.matrnr = 1234 and matrnr = a.m;")
        .unwrap();
    let q = match &ast.statements[0] {
        Statement::Select(q) => q,
        _ => panic!("expected a SELECT"),
    };
    let targets = q.targets.as_ref().unwrap();
    assert_eq!(targets.len(), 2);
    assert_eq!(targets[0].table, "s");
    assert_eq!(targets[0].column, "name");
    assert_eq!(targets[1].table, "");
    assert_eq!(targets[1].column, "matrnr");
    assert_eq!(q.from.len(), 2);
    match &q.from[0] {
        TableFactor::Table(r) => {
            assert_eq!(r.table, "students");
            assert_eq!(r.alias, "s");
        }
        _ => panic!("expected a named table"),
    }
    match &q.from[1] {
        TableFactor::Table(r) => {
            assert_eq!(r.table, "attend");
            assert_eq!(r.alias, "");
        }
        _ => panic!("expected a named table"),
    }
    assert_eq!(q.where_clause.len(), 3);
    assert!(q.where_clause.iter().all(|b| b.op == BinaryOperator::Eq));
    match (&q.where_clause[0].l, &q.where_clause[0].r) {
        (Expression::ColumnRef(c), Expression::String(v)) => {
            assert_eq!(c.column, "name");
            assert_eq!(v, "foo");
        }
        _ => panic!("expected column = constant"),
    }
    match &q.where_clause[1].r {
        Expression::String(v) => assert_eq!(v, "1234"),
        _ => panic!("expected a constant"),
    }
    match &q.where_clause[2].r {
        Expression::ColumnRef(c) => {
            assert_eq!(c.table, "a");
            assert_eq!(c.column, "m");
        }
        _ => panic!("expected a column"),
    }
}

#[test]
fn parse_select_star_and_subquery() {
    let p = Parser::default();
    let ast = p.parse("SELECT * FROM (select a from t) sub, u;").unwrap();
    let q = match &ast.statements[0] {
        Statement::Select(q) => q,
        _ => panic!("expected a SELECT"),
    };
    assert!(q.targets.as_ref().unwrap().is_empty());
    assert_eq!(q.from.len(), 2);
    match &q.from[0] {
        TableFactor::Derived { query, alias } => {
            assert_eq!(alias, "sub");
            assert_eq!(query.targets.as_ref().unwrap()[0].column, "a");
        }
        _ => panic!("expected a subquery"),
    }
}

#[test]
fn parse_errors() {
    let p = Parser::default();
    // an unclosed quote and a character that starts no token
    assert_eq!(p.parse("copy t from 'x;").unwrap_err(), ParseError::Lexical);
    assert_eq!(p.parse("select # from t;").unwrap_err(), ParseError::Lexical);
    // missing semicolon, empty input, nullable column, bad numeric precision
    assert_eq!(p.parse("select * from t").unwrap_err(), ParseError::Syntax);
    assert_eq!(p.parse("").unwrap_err(), ParseError::Syntax);
    assert_eq!(p.parse("create table t (a integer);").unwrap_err(), ParseError::Syntax);
    assert_eq!(p.parse("create table t (a numeric(0, 2) not null);").unwrap_err(), ParseError::Syntax);
    assert_eq!(p.parse("create table t (a numeric(19, 2) not null);").unwrap_err(), ParseError::Syntax);
    // keywords are not names unless quoted
    assert_eq!(p.parse("select * from table;").unwrap_err(), ParseError::Syntax);
    assert!(p.parse("select * from \"table\";").is_ok());
}
