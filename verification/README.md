# turso_pg

PostgreSQL dialect support for a SQLite-compatible database engine, written
in Verus.  Every function of the library carries a contract that Verus
proves, except the few wrappers in `src/text.rs` around `std` string
functions (`to_uppercase`, `to_lowercase`, `push`), whose contracts
are trusted and say no more than the `std` documentation.

## Layout

- `src/translator.rs` — translation of PostgreSQL parse trees (`src/pg_ast.rs`)
  into the engine's SQL syntax tree (`src/ast.rs`): expressions, SELECT lists,
  FROM clauses with join trees, ORDER BY, UNION / INTERSECT / EXCEPT, and the
  PostgreSQL-to-SQLite column type mapping.
- `src/catalog.rs` — the `pg_catalog` tables (`pg_class`, `pg_namespace`,
  `pg_attribute`, `pg_roles`, `pg_am`, `pg_get_tabledef` and empty stand-ins),
  computed from the engine schema (`src/schema.rs`).
- `src/logical_compiler.rs` — compilation of logical plans (`src/logical.rs`)
  into VDBE programs (`src/vdbe.rs`).
- `src/sequence.rs` — code generation for `CREATE SEQUENCE` and
  `DROP SEQUENCE`.
- `src/server.rs` — the wire server's command tags and column types.
- `src/text.rs` — character-level string helpers.
- `app/` — parsing SQL with libpg_query into the library's parse trees, and
  building pgwire messages from the library's answers.
- `tests/` — tests of the library.

Each module's functions are specified by spec functions over the views of
its types; the laws of the library (for example that compiling a plan only
appends code and resolves every jump label it creates, or that a string
constant is recovered exactly from its translated literal) are public proof
functions next to the code they speak of.  `src/vdbe.rs` also gives the
instructions that evaluate expressions and jumps a meaning (`step`,
`steps`), against which the compiler's laws state what the emitted code
computes: a comparison leaves 1 or 0 in its destination, and a filtered
scan reaches `ResultRow` exactly for the rows on which every predicate
of its filters is true.
