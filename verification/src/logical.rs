//! Logical query plans: the tree of relational operators that the logical
//! compiler turns into VDBE programs.

use vstd::prelude::*;
use crate::ast::Operator;
use crate::schema::{Type, Value};

verus! {

/// A column of a plan's output.
#[derive(Debug)]
pub struct ColumnInfo {
    pub name: String,
    pub ty: Type,
    pub database: Option<String>,
    pub table: Option<String>,
    pub table_alias: Option<String>,
}

/// The output columns of a plan node.
#[derive(Debug)]
pub struct LogicalSchema {
    pub columns: Vec<ColumnInfo>,
}

impl LogicalSchema {
    /// A schema with the given columns.
    pub fn new(columns: Vec<ColumnInfo>) -> (r: LogicalSchema)
        ensures
            r.columns == columns,
    {
        LogicalSchema { columns }
    }

    /// The number of columns.
    pub fn column_count(&self) -> (r: usize)
        ensures
            r == self.columns@.len(),
    {
        self.columns.len()
    }
}

/// A reference to a column, by name and optional table.
#[derive(Debug)]
pub struct ColumnRef {
    pub name: String,
    pub table: Option<String>,
}

/// A scalar expression of a plan.
#[derive(Debug)]
pub enum LogicalExpr {
    Literal(Value),
    Column(ColumnRef),
    BinaryExpr { left: Box<LogicalExpr>, op: Operator, right: Box<LogicalExpr> },
    /// An expression of another kind (unary, aggregate, function call,
    /// CASE, IN, EXISTS, BETWEEN, CAST, subquery, placeholder), by name.
    Other(String),
}

/// A scan of a stored table, reading all its columns or the listed ones.
#[derive(Debug)]
pub struct TableScan {
    pub table_name: String,
    pub alias: Option<String>,
    pub schema: LogicalSchema,
    pub projection: Option<Vec<usize>>,
}

/// The rows of `input` for which `predicate` holds.
#[derive(Debug)]
pub struct Filter {
    pub input: Box<LogicalPlan>,
    pub predicate: LogicalExpr,
}

/// The given expressions evaluated over each row of `input`.
#[derive(Debug)]
pub struct Projection {
    pub input: Box<LogicalPlan>,
    pub exprs: Vec<LogicalExpr>,
    pub schema: LogicalSchema,
}

/// A logical plan node.
#[derive(Debug)]
pub enum LogicalPlan {
    TableScan(TableScan),
    Filter(Filter),
    Projection(Projection),
    /// A node of another kind (aggregation, join, sort, limit, union,
    /// distinct, values, ...), by name.
    Other(String),
}

} // verus!
