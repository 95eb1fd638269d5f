//! PostgreSQL dialect support for a SQLite-compatible engine: translation of
//! PostgreSQL parse trees, `pg_catalog` system tables, compilation of logical
//! plans to VDBE-style bytecode, and sequence DDL code generation.

pub mod text;
pub mod schema;
pub mod catalog;
pub mod ast;
pub mod pg_ast;
pub mod translator;
pub mod vdbe;
pub mod logical;
pub mod logical_compiler;
pub mod sequence;
pub mod server;
