use imlab::db::database::Database;
use imlab::parser::Parser;
use imlab::parser::ast::Statement::Select;
use imlab::semana::SemanticAnalysis;
use imlab::semana::semana_errors::SemanticError;
use imlab::semana::semana_errors::SemanticError::{KeyNotInColumns, RepeatedColumnNames, TableExists};
use imlab::statement::Statement;

/// Analyzes the first statement of the text against the database.
fn analyze(db: &Database, p: &Parser, s: &str) -> Result<Statement, SemanticError> {
    let mut ast = p.parse(s).unwrap();
    let stmt = ast.statements.remove(0);
    let mut sa = SemanticAnalysis::new(db);
    sa.analyze(stmt, false)
}

/// Prepares and executes a statement.
fn run(db: &mut Database, st: Statement) {
    match st {
        Statement::Create(c) => println!("{}", c.execute(db)),
        Statement::Copy(c) => {
            c.execute(db, b"").unwrap();
        }
        Statement::Select(mut s) => s.prepare().unwrap(),
    }
}

fn create_table(db: &mut Database, p: &Parser, create_str: &str) {
    let st = analyze(db, p, create_str).unwrap();
    run(db, st);
}

#[test]
fn semana_analyze_create() {
    let mut db = Database::default();
    let p = Parser::default();

    // CREATE TABLE
    let st = analyze(&db, &p, "CREATE TABLE test_table (col1 INTEGER NOT NULL);").unwrap();
    run(&mut db, st);

    assert_eq!(db.tables.len(), 1);

    let st = analyze(&db, &p, "CREATE TABLE test_table_2 (col1 INTEGER NOT NULL, primary key (col1));").unwrap();
    run(&mut db, st);

    assert_eq!(db.tables.len(), 2);

    let st = analyze(&db, &p, "CREATE TABLE test_table ();");
    assert_eq!(st.unwrap_err(), TableExists);

    let st = analyze(&db, &p, "CREATE TABLE another_table ( col1 INTEGER NOT NULL, col1 INTEGER NOT NULL );");
    assert_eq!(st.unwrap_err(), RepeatedColumnNames);

    assert_eq!(db.tables.len(), 2);

    let st = analyze(
        &db,
        &p,
        "CREATE TABLE another_table ( col1 INTEGER NOT NULL, col2 INTEGER NOT NULL, primary key (col3) );",
    );
    assert_eq!(st.unwrap_err(), KeyNotInColumns("col3".to_string()));
}

#[test]
fn analyze_table_ref_test() {
    let mut db = Database::default();
    let p = Parser::default();

    // CREATE TABLE
    create_table(
        &mut db,
        &p,
        "CREATE TABLE students (col1 INTEGER NOT NULL, col2 INTEGER NOT NULL, col3 INTEGER NOT NULL);",
    );
    create_table(&mut db, &p, "CREATE TABLE hoeren (h1 INTEGER NOT NULL, h2 INTEGER NOT NULL, h3 INTEGER NOT NULL);");
    create_table(&mut db, &p, "CREATE TABLE another_test (col1 INTEGER NOT NULL);");

    let mut s = SemanticAnalysis::new(&db);

    let mut ast = p.parse("select * from students;").unwrap();

    let _ = match ast.statements.first() {
        Some(Select(query)) => query,
        _ => panic!("Expected a SELECT statement"),
    };

    let res = s.analyze(ast.statements.remove(0), false).unwrap();
    println!("{:#?}", res);

    match res {
        Statement::Select(mut sel) => sel.prepare().unwrap(),
        _ => panic!("Expected a SELECT statement"),
    }
}

fn school() -> Database {
    let mut db = Database::default();
    let p = Parser::default();
    create_table(&mut db, &p, "CREATE TABLE students (matrnr INTEGER NOT NULL, name VARCHAR(20) NOT NULL);");
    create_table(&mut db, &p, "CREATE TABLE attend (matrnr INTEGER NOT NULL, lecture INTEGER NOT NULL);");
    db
}

#[test]
fn analyze_select_errors() {
    let db = school();
    let p = Parser::default();
    assert_eq!(
        analyze(&db, &p, "select * from lectures;").unwrap_err(),
        SemanticError::TableNotExists("lectures".to_string())
    );
    assert_eq!(
        analyze(&db, &p, "select matrnr from students, attend;").unwrap_err(),
        SemanticError::AmbiguousColumn("matrnr".to_string())
    );
    assert_eq!(
        analyze(&db, &p, "select age from students;").unwrap_err(),
        SemanticError::UnknownColumn("age".to_string())
    );
    assert_eq!(
        analyze(&db, &p, "select s.age from students s;").unwrap_err(),
        SemanticError::UnknownColumnInTable("s".to_string(), "age".to_string())
    );
    assert_eq!(
        analyze(&db, &p, "select * from students s, attend s;").unwrap_err(),
        SemanticError::DuplicateAlias("s".to_string())
    );
    assert!(analyze(&db, &p, "select s.name from students s, attend a where s.matrnr = a.matrnr;").is_ok());
}

#[test]
fn analyze_copy() {
    let db = school();
    let p = Parser::default();
    let mut sa = SemanticAnalysis::new(&db);
    let mut ast = p.parse("COPY students FROM 'students.tbl'; COPY nobody FROM 'x.tbl';").unwrap();
    let first = ast.statements.remove(0);
    let second = ast.statements.remove(0);
    match sa.analyze(first, true).unwrap() {
        Statement::Copy(c) => assert_eq!(c.copy_table.file, "students.tbl"),
        _ => panic!("expected a COPY"),
    }
    assert_eq!(sa.analyze(second, true).unwrap_err(), SemanticError::TableNotExists("nobody".to_string()));
    let mut ast = p.parse("COPY students FROM 'missing.tbl';").unwrap();
    assert_eq!(
        sa.analyze(ast.statements.remove(0), false).unwrap_err(),
        SemanticError::FileNotFound("missing.tbl".to_string())
    );
}

fn printed_names(st: Statement) -> Vec<String> {
    match st {
        Statement::Select(s) => match s.op {
            imlab::algebra::Op::Print(p) => p.iu_refs_vec.iter().map(|iu| iu.iu.name.clone()).collect(),
            _ => panic!("expected a print root"),
        },
        _ => panic!("expected a SELECT"),
    }
}

#[test]
fn analyze_select_prints_targets_in_order() {
    let db = school();
    let p = Parser::default();
    let st = analyze(&db, &p, "select a.lecture, s.name, s.matrnr from students s, attend a;").unwrap();
    assert_eq!(printed_names(st), vec!["lecture", "name", "matrnr"]);
    let st = analyze(&db, &p, "select * from students s, attend a;").unwrap();
    assert_eq!(printed_names(st), vec!["matrnr", "name", "matrnr", "lecture"]);
}

#[test]
fn analyze_derived_table_needs_a_free_alias() {
    let db = school();
    let p = Parser::default();
    assert!(analyze(&db, &p, "select x.name from (select name from students) x;").is_ok());
    assert_eq!(
        analyze(&db, &p, "select x.name from students x, (select name from students) x;").unwrap_err(),
        SemanticError::DuplicateAlias("x".to_string())
    );
}

#[test]
fn analyze_derived_tables_beside_named_ones() {
    let db = school();
    let p = Parser::default();
    let st = analyze(&db, &p, "select s.name, x.lecture from students s, (select lecture from attend) x;").unwrap();
    assert_eq!(printed_names(st), vec!["name", "lecture"]);
    assert!(analyze(&db, &p, "select * from students s, (select * from attend) x where x.lecture = s.matrnr;").is_ok());
    assert!(analyze(&db, &p, "select x.nope from (select lecture from attend) x;").is_err());
    assert!(analyze(&db, &p, "select x.lecture from (select lecture from nowhere) x;").is_err());
}
