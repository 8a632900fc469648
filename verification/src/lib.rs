//! An in-memory row-store database: a compact type system, a row layout with a
//! primary-key index, semantic analysis of SQL statements into relational-algebra
//! plans, predicate pushdown and code generation for those plans.

pub mod types;
pub mod util;
pub mod db;
pub mod parser;
pub mod algebra;
pub mod codegen;
pub mod semana;
pub mod statement;
pub mod tpcc;
pub mod new_order;
