//! Decisions of the PostgreSQL wire server that depend on the query and
//! the schema alone: the command tag answering a statement that returns no
//! rows, and the wire type announced for a result column.

use vstd::prelude::*;
use crate::text::{has_prefix, owned, starts_with, str_eq, trim_white, unicode_upper};

verus! {

/// The tag of a CommandComplete message: the command name, the OID of an
/// inserted row and the number of rows affected, when they are given.
#[derive(Debug)]
pub struct CommandTag {
    pub command: String,
    pub oid: Option<u32>,
    pub rows: Option<usize>,
}

/// The view of a [`CommandTag`].
pub struct CommandTagV {
    pub command: Seq<char>,
    pub oid: Option<u32>,
    pub rows: Option<usize>,
}

impl View for CommandTag {
    type V = CommandTagV;

    open spec fn view(&self) -> CommandTagV {
        CommandTagV { command: self.command@, oid: self.oid, rows: self.rows }
    }
}

/// The tag for a statement whose trimmed, upper-cased text is `upper` and
/// which changed `rows` rows: INSERT (with OID 0), UPDATE and DELETE report
/// the row count; CREATE, DROP and ALTER report `... TABLE`; anything else
/// is `OK`.
pub open spec fn command_tag_spec(upper: Seq<char>, rows: usize) -> CommandTagV {
    if has_prefix(upper, "INSERT"@) {
        CommandTagV { command: "INSERT"@, oid: Some(0), rows: Some(rows) }
    } else if has_prefix(upper, "UPDATE"@) {
        CommandTagV { command: "UPDATE"@, oid: None, rows: Some(rows) }
    } else if has_prefix(upper, "DELETE"@) {
        CommandTagV { command: "DELETE"@, oid: None, rows: Some(rows) }
    } else if has_prefix(upper, "CREATE"@) {
        CommandTagV { command: "CREATE TABLE"@, oid: None, rows: None }
    } else if has_prefix(upper, "DROP"@) {
        CommandTagV { command: "DROP TABLE"@, oid: None, rows: None }
    } else if has_prefix(upper, "ALTER"@) {
        CommandTagV { command: "ALTER TABLE"@, oid: None, rows: None }
    } else {
        CommandTagV { command: "OK"@, oid: None, rows: None }
    }
}

/// A tag without OID or row count.
fn plain_tag(command: &str) -> (r: CommandTag)
    ensures
        r@ == (CommandTagV { command: command@, oid: None, rows: None }),
{
    CommandTag { command: owned(command), oid: None, rows: None }
}

/// The tag for a statement whose trimmed, upper-cased text is `upper`.
pub fn command_tag_for_upper(upper: &str, affected_rows: usize) -> (r: CommandTag)
    ensures
        r@ == command_tag_spec(upper@, affected_rows),
{
    if starts_with(upper, "INSERT") {
        CommandTag { command: owned("INSERT"), oid: Some(0), rows: Some(affected_rows) }
    } else if starts_with(upper, "UPDATE") {
        CommandTag { command: owned("UPDATE"), oid: None, rows: Some(affected_rows) }
    } else if starts_with(upper, "DELETE") {
        CommandTag { command: owned("DELETE"), oid: None, rows: Some(affected_rows) }
    } else if starts_with(upper, "CREATE") {
        plain_tag("CREATE TABLE")
    } else if starts_with(upper, "DROP") {
        plain_tag("DROP TABLE")
    } else if starts_with(upper, "ALTER") {
        plain_tag("ALTER TABLE")
    } else {
        plain_tag("OK")
    }
}

/// The tag for `query`, which changed `affected_rows` rows; the query is
/// trimmed and upper-cased first.
pub fn command_tag(query: &str, affected_rows: usize) -> (r: CommandTag)
    ensures
        r@ == command_tag_spec(unicode_upper(trim_white(query@)), affected_rows),
{
    let trimmed = crate::text::trim(query);
    let upper = crate::text::to_uppercase(trimmed);
    command_tag_for_upper(upper.as_str(), affected_rows)
}

/// A PostgreSQL type announced for a result column.
#[derive(Debug, Clone, Copy, PartialEq, Eq, Structural)]
pub enum PgType {
    Int8,
    Float8,
    Text,
    Bytea,
    Bool,
}

impl PgType {
    /// The type's OID in `pg_type`.
    pub fn oid(&self) -> (r: u32)
        ensures
            r == pg_type_oid_of(*self),
    {
        match self {
            PgType::Int8 => 20,
            PgType::Float8 => 701,
            PgType::Text => 25,
            PgType::Bytea => 17,
            PgType::Bool => 16,
        }
    }
}

/// The OID of each announced type.
pub open spec fn pg_type_oid_of(t: PgType) -> u32 {
    match t {
        PgType::Int8 => 20,
        PgType::Float8 => 701,
        PgType::Text => 25,
        PgType::Bytea => 17,
        PgType::Bool => 16,
    }
}

/// The wire type for a declared column type whose upper-case form is
/// `upper`: integer names are INT8, floating and decimal names FLOAT8,
/// string names TEXT, BLOB and BYTEA are BYTEA, BOOLEAN and BOOL are BOOL,
/// and anything else is TEXT.
pub open spec fn pg_type_spec(upper: Seq<char>) -> PgType {
    if upper == "INTEGER"@ || upper == "INT"@ || upper == "INT4"@ || upper == "BIGINT"@ || upper == "INT8"@
        || upper == "SMALLINT"@ || upper == "INT2"@ {
        PgType::Int8
    } else if upper == "REAL"@ || upper == "FLOAT"@ || upper == "FLOAT8"@ || upper == "DOUBLE"@ || upper
        == "DOUBLE PRECISION"@ || upper == "NUMERIC"@ || upper == "DECIMAL"@ {
        PgType::Float8
    } else if upper == "BLOB"@ || upper == "BYTEA"@ {
        PgType::Bytea
    } else if upper == "BOOLEAN"@ || upper == "BOOL"@ {
        PgType::Bool
    } else {
        PgType::Text
    }
}

/// The wire type for a declared column type whose upper-case form is
/// `upper`.
pub fn pg_type_for_upper(upper: &str) -> (r: PgType)
    ensures
        r == pg_type_spec(upper@),
{
    if str_eq(upper, "INTEGER") || str_eq(upper, "INT") || str_eq(upper, "INT4") || str_eq(upper, "BIGINT")
        || str_eq(upper, "INT8") || str_eq(upper, "SMALLINT") || str_eq(upper, "INT2") {
        PgType::Int8
    } else if str_eq(upper, "REAL") || str_eq(upper, "FLOAT") || str_eq(upper, "FLOAT8") || str_eq(
        upper,
        "DOUBLE",
    ) || str_eq(upper, "DOUBLE PRECISION") || str_eq(upper, "NUMERIC") || str_eq(upper, "DECIMAL") {
        PgType::Float8
    } else if str_eq(upper, "BLOB") || str_eq(upper, "BYTEA") {
        PgType::Bytea
    } else if str_eq(upper, "BOOLEAN") || str_eq(upper, "BOOL") {
        PgType::Bool
    } else {
        PgType::Text
    }
}

/// The wire type for a declared column type (matched without regard to
/// case).
pub fn sqlite_type_to_pg_type(type_str: &str) -> (r: PgType)
    ensures
        r == pg_type_spec(unicode_upper(type_str@)),
{
    let upper = crate::text::to_uppercase(type_str);
    pg_type_for_upper(upper.as_str())
}

} // verus!
