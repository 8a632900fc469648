# imlab

An in-memory relational database that compiles queries to Rust code,
written in Verus: the storage engine, the SQL front end, semantic analysis,
the query optimizer and the code generator carry contracts that Verus proves.

## Layout

- `src/types` — the value types (INTEGER, NUMERIC, TEXT, ...), their packed
  type descriptors, and reading and writing their text forms.
- `src/db` — rows encoded in fixed-size slots, tables with a primary-key
  index, CSV loading, and the database of named tables.
- `src/parser` — the SQL lexer and parser (`grammar.rs` holds the grammar as
  spec functions, `parse.rs` the parser proved to follow it) and the syntax
  tree.
- `src/semana` — name resolution and the checks that turn statements into
  executable statements and query plans.
- `src/algebra` — plan operators, predicate pushdown, and code generation in
  the produce/consume model.
- `src/codegen` — the builder of generated code text.
- `src/statement` — executable CREATE TABLE, COPY and SELECT statements.
- `src/tpcc.rs` — the tables of the TPC-C benchmark.
- `src/new_order.rs` — the benchmark's new-order transaction, in three
  steps; the order line amounts, computed in floating point, are left to the
  caller.
- `app/` — the interactive shell, compiling and loading generated queries,
  the runtime support that generated queries use, and the TPC-C benchmark.
- `tests/` — tests of the library.

Laws that relate several operations are public proof functions named
`law_...`, next to the operations they are about.
