use std::collections::HashSet;

use imlab::algebra::iu::{IU, IURef};
use imlab::algebra::join::JoinType;
use imlab::algebra::Op;
use imlab::codegen::Codegen;
use imlab::db::database::Database;
use imlab::parser::Parser;
use imlab::semana::SemanticAnalysis;
use imlab::statement::Statement;
use imlab::types::Type;

#[test]
fn test_iu_ref_same_iu() {
    let iu = IURef { id: 0, iu: IU { name: "a".to_string(), ty: Type::new_integer() } };

    let mut set: HashSet<IURef> = HashSet::new();

    set.insert(iu.clone());
    set.insert(iu);

    assert_eq!(set.len(), 1);
}

#[test]
fn test_iu_ref_different_ius() {
    let iu1 = IURef { id: 0, iu: IU { name: "a".to_string(), ty: Type::new_integer() } };
    let iu2 = IURef { id: 1, iu: IU { name: "a".to_string(), ty: Type::new_integer() } };

    let mut set: HashSet<IURef> = HashSet::new();

    set.insert(iu1);
    set.insert(iu2);

    assert_eq!(set.len(), 2);
}

#[test]
fn test_open_close_indent() {
    let mut cg = Codegen::new();
    cg.line("use imlab::db::Database;");
    cg.start_function("foo");
    cg.open("for i in 0..10");
    cg.open("for j in 0..10000");
    cg.line("println!(\"{}{}\", i, j);");
    cg.close();
    cg.close();
    cg.line("let rows = 0usize;");
    cg.end_function();

    println!("{}", cg.text());
}

#[test]
fn codegen_indents_blocks() {
    let mut cg = Codegen::new();
    cg.open("for i in 0..10");
    cg.line("x();");
    cg.close();
    assert_eq!(cg.text(), "for i in 0..10 {\n    x();\n}\n");
    let v1 = cg.new_var("t");
    let v2 = cg.new_var("t");
    assert_ne!(v1, v2);
}

fn plan(sql: &str) -> Statement {
    let mut db = Database::default();
    let p = Parser::default();
    for create in [
        "CREATE TABLE students (matrnr INTEGER NOT NULL, name VARCHAR(20) NOT NULL);",
        "CREATE TABLE attend (matrnr INTEGER NOT NULL, lecture INTEGER NOT NULL);",
    ] {
        let stmt = p.parse(create).unwrap().statements.remove(0);
        match SemanticAnalysis::new(&db).analyze(stmt, false).unwrap() {
            Statement::Create(c) => {
                c.execute(&mut db);
            }
            _ => panic!("expected a CREATE TABLE"),
        }
    }
    let stmt = p.parse(sql).unwrap().statements.remove(0);
    SemanticAnalysis::new(&db).analyze(stmt, false).unwrap()
}

#[test]
fn pushdown_turns_cross_product_into_join() {
    let st = plan("select s.name from students s, attend a where s.matrnr = a.matrnr and s.name = 'Ada';");
    let mut sel = match st {
        Statement::Select(s) => s,
        _ => panic!("expected a SELECT"),
    };
    sel.prepare().unwrap();
    let print = match &sel.op {
        Op::Print(p) => p,
        other => panic!("expected a print root, got {:?}", other),
    };
    let join = match print.child.as_ref() {
        Op::Join(j) => j,
        other => panic!("expected a join under the print, got {:?}", other),
    };
    assert_eq!(join.join_predicates.len(), 1);
    assert!(join.join_type != JoinType::Cross);
    assert!(matches!(join.left_child.as_ref(), Op::Select(_)));
    assert!(matches!(join.right_child.as_ref(), Op::TableScan(_)));
    assert!(!sel.generated_code.is_empty());
    assert!(sel.generated_code.contains("\"Ada\""));
}

#[test]
fn prepared_query_is_framed_by_header_and_footer() {
    let st = plan("select name from students where matrnr = 7;");
    let mut sel = match st {
        Statement::Select(s) => s,
        _ => panic!("expected a SELECT"),
    };
    sel.prepare().unwrap();
    let code = sel.generated_code.as_str();
    assert!(code.starts_with("// Print operator produce\nextern crate imlab;\nuse std::error::Error;\n"));
    assert!(code.contains(
        "use imlab::algebra::print::ParOutput;\n#[no_mangle] pub extern \"C\" fn main_query(db: *const imlab::db::Database) -> i32 {\n"
    ));
    assert!(code.ends_with(
        "    let (text, rows) = out.finalize();\n    print!(\"{}\", text);\n    println!(\"\");\n    println!(\"Total rows is : {}\", rows);\n    rows as i32\n}\n"
    ));
    assert!(code.contains("    // TableScan \n    (0..table_0.num_rows).into_par_iter().chunks(MORSEL_SIZE).for_each( | rows_1 | {\n        for row_2 in rows_1  {\n"));
    assert!(code.contains("// Select operator consume\n"));
}

#[test]
fn cross_join_and_selection_plans_are_generated() {
    let st = plan("select s.name, a.lecture from students s, attend a;");
    let mut sel = match st {
        Statement::Select(s) => s,
        _ => panic!("expected a SELECT"),
    };
    sel.prepare().unwrap();
    assert!(sel.generated_code.contains("// TableScan "));
    let st = plan("select name from students where matrnr = 'abc';");
    let mut sel = match st {
        Statement::Select(s) => s,
        _ => panic!("expected a SELECT"),
    };
    assert!(sel.prepare().is_err());
}

fn printed_ids(st: Statement) -> Vec<(u64, String)> {
    let sel = match st {
        Statement::Select(s) => s,
        _ => panic!("expected a SELECT"),
    };
    match &sel.op {
        Op::Print(p) => p.iu_refs_vec.iter().map(|r| (r.id, r.iu.name.clone())).collect(),
        other => panic!("expected a print root, got {:?}", other),
    }
}

#[test]
fn targets_resolve_to_the_ius_of_their_tables() {
    // students gets the IUs 0 (matrnr) and 1 (name); attend gets 2 (matrnr) and 3 (lecture)
    let st = plan("select a.lecture, name, s.matrnr from students s, attend a;");
    assert_eq!(
        printed_ids(st),
        vec![(3, "lecture".to_string()), (1, "name".to_string()), (0, "matrnr".to_string())]
    );
    let st = plan("select * from attend a, students s;");
    let ids: Vec<u64> = printed_ids(st).into_iter().map(|(id, _)| id).collect();
    assert_eq!(ids, vec![0, 1, 2, 3]);
}
