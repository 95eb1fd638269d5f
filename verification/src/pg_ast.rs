//! PostgreSQL parse trees as the translator reads them: the node kinds of
//! libpg_query's protobuf tree that the translation looks at, each with the
//! fields it reads.  Any other node kind is kept by name only.

use vstd::prelude::*;

verus! {

/// A constant's value.
#[derive(Debug)]
pub enum AConstVal {
    Ival(i32),
    Fval(String),
    Boolval(bool),
    Sval(String),
    Bsval(String),
}

/// A constant.
#[derive(Debug)]
pub struct AConst {
    pub isnull: bool,
    pub val: Option<AConstVal>,
}

/// The kind of an operator expression.
#[derive(Debug, Clone, Copy, PartialEq, Eq, Structural)]
pub enum AExprKind {
    Undefined,
    AexprOp,
    AexprOpAny,
    AexprOpAll,
    AexprDistinct,
    AexprNotDistinct,
    AexprNullif,
    AexprIn,
    AexprLike,
    AexprIlike,
    AexprSimilar,
    AexprBetween,
    AexprNotBetween,
    AexprBetweenSym,
    AexprNotBetweenSym,
}

/// An operator expression: `lexpr name rexpr`.
#[derive(Debug)]
pub struct AExpr {
    pub kind: AExprKind,
    /// The operator's (possibly schema-qualified) name, as String nodes.
    pub name: Vec<PgNode>,
    pub lexpr: Option<Box<PgNode>>,
    pub rexpr: Option<Box<PgNode>>,
}

/// The connective of a boolean expression.
#[derive(Debug, Clone, Copy, PartialEq, Eq, Structural)]
pub enum BoolExprType {
    Undefined,
    AndExpr,
    OrExpr,
    NotExpr,
}

/// AND / OR / NOT over its arguments.
#[derive(Debug)]
pub struct BoolExpr {
    pub boolop: BoolExprType,
    pub args: Vec<PgNode>,
}

/// A function call.
#[derive(Debug)]
pub struct FuncCall {
    /// The (possibly schema-qualified) function name, as String nodes.
    pub funcname: Vec<PgNode>,
    pub args: Vec<PgNode>,
    /// `f(*)`.
    pub agg_star: bool,
    /// `f(DISTINCT ...)`.
    pub agg_distinct: bool,
}

/// `CASE [arg] WHEN ... THEN ... [ELSE defresult] END`.
#[derive(Debug)]
pub struct CaseExpr {
    pub arg: Option<Box<PgNode>>,
    /// The WHEN arms (CaseWhen nodes).
    pub args: Vec<PgNode>,
    pub defresult: Option<Box<PgNode>>,
}

/// One `WHEN expr THEN result` arm.
#[derive(Debug)]
pub struct CaseWhen {
    pub expr: Option<Box<PgNode>>,
    pub result: Option<Box<PgNode>>,
}

/// IS [NOT] NULL.
#[derive(Debug, Clone, Copy, PartialEq, Eq, Structural)]
pub enum NullTestType {
    Undefined,
    IsNull,
    IsNotNull,
}

/// A SELECT-list entry: `val [AS name]` (`name` empty when there is no
/// alias).
#[derive(Debug)]
pub struct ResTarget {
    pub name: String,
    pub val: Option<Box<PgNode>>,
}

/// A table reference: its name and alias.
#[derive(Debug)]
pub struct RangeVar {
    pub relname: String,
    pub alias: Option<String>,
}

/// Kind of an explicit join.
#[derive(Debug, Clone, Copy, PartialEq, Eq, Structural)]
pub enum JoinType {
    Undefined,
    JoinInner,
    JoinLeft,
    JoinFull,
    JoinRight,
    JoinSemi,
    JoinAnti,
    JoinRightSemi,
    JoinRightAnti,
    JoinUniqueOuter,
    JoinUniqueInner,
}

/// `larg JOIN rarg [ON quals]`.
#[derive(Debug)]
pub struct JoinExpr {
    pub jointype: JoinType,
    pub larg: Option<Box<PgNode>>,
    pub rarg: Option<Box<PgNode>>,
    pub quals: Option<Box<PgNode>>,
}

/// Sort direction as written.
#[derive(Debug, Clone, Copy, PartialEq, Eq, Structural)]
pub enum SortByDir {
    Undefined,
    SortbyDefault,
    SortbyAsc,
    SortbyDesc,
    SortbyUsing,
}

/// An ORDER BY term.
#[derive(Debug)]
pub struct SortBy {
    pub node: Option<Box<PgNode>>,
    pub sortby_dir: SortByDir,
}

/// The set operation of a SELECT.
#[derive(Debug, Clone, Copy, PartialEq, Eq, Structural)]
pub enum SetOperation {
    Undefined,
    SetopNone,
    SetopUnion,
    SetopIntersect,
    SetopExcept,
}

/// A SELECT statement; for a set operation, `larg op rarg`.
#[derive(Debug)]
pub struct SelectStmt {
    pub target_list: Vec<PgNode>,
    pub from_clause: Vec<PgNode>,
    pub where_clause: Option<Box<PgNode>>,
    pub sort_clause: Vec<PgNode>,
    pub op: SetOperation,
    /// `UNION ALL` rather than `UNION`.
    pub all: bool,
    pub larg: Option<Box<SelectStmt>>,
    pub rarg: Option<Box<SelectStmt>>,
}

/// A parse-tree node.
#[derive(Debug)]
pub enum PgNode {
    /// A node slot without content.
    Empty,
    /// A column reference: its name parts (String or AStar nodes).
    ColumnRef(Vec<PgNode>),
    /// A string (`sval`).
    String(String),
    /// `*`.
    AStar,
    AConst(AConst),
    AExpr(Box<AExpr>),
    BoolExpr(BoolExpr),
    FuncCall(Box<FuncCall>),
    CaseExpr(Box<CaseExpr>),
    CaseWhen(Box<CaseWhen>),
    /// `arg COLLATE ...`.
    CollateClause(Option<Box<PgNode>>),
    /// `arg::type`.
    TypeCast(Option<Box<PgNode>>),
    /// A subquery expression.
    SubLink,
    NullTest(Option<Box<PgNode>>, NullTestType),
    /// A parenthesised list (`IN (...)`).
    List(Vec<PgNode>),
    ResTarget(Box<ResTarget>),
    RangeVar(RangeVar),
    JoinExpr(Box<JoinExpr>),
    SortBy(Box<SortBy>),
    SelectStmt(Box<SelectStmt>),
    InsertStmt,
    UpdateStmt,
    DeleteStmt,
    CreateStmt,
    /// Any other node kind, by name.
    Other(String),
}

/// The statements of a parsed query string.
#[derive(Debug)]
pub struct ParseResult {
    pub stmts: Vec<PgNode>,
}

/// The name of a node's kind, as error messages show it.
pub open spec fn node_kind(n: PgNode) -> Seq<char> {
    match n {
        PgNode::Empty => "None"@,
        PgNode::ColumnRef(_) => "ColumnRef"@,
        PgNode::String(_) => "String"@,
        PgNode::AStar => "AStar"@,
        PgNode::AConst(_) => "AConst"@,
        PgNode::AExpr(_) => "AExpr"@,
        PgNode::BoolExpr(_) => "BoolExpr"@,
        PgNode::FuncCall(_) => "FuncCall"@,
        PgNode::CaseExpr(_) => "CaseExpr"@,
        PgNode::CaseWhen(_) => "CaseWhen"@,
        PgNode::CollateClause(_) => "CollateClause"@,
        PgNode::TypeCast(_) => "TypeCast"@,
        PgNode::SubLink => "SubLink"@,
        PgNode::NullTest(..) => "NullTest"@,
        PgNode::List(_) => "List"@,
        PgNode::ResTarget(_) => "ResTarget"@,
        PgNode::RangeVar(_) => "RangeVar"@,
        PgNode::JoinExpr(_) => "JoinExpr"@,
        PgNode::SortBy(_) => "SortBy"@,
        PgNode::SelectStmt(_) => "SelectStmt"@,
        PgNode::InsertStmt => "InsertStmt"@,
        PgNode::UpdateStmt => "UpdateStmt"@,
        PgNode::DeleteStmt => "DeleteStmt"@,
        PgNode::CreateStmt => "CreateStmt"@,
        PgNode::Other(name) => name@,
    }
}

impl PgNode {
    /// The name of the node's kind.
    pub fn kind_name(&self) -> (r: &str)
        ensures
            r@ == node_kind(*self),
    {
        match self {
            PgNode::Empty => "None",
            PgNode::ColumnRef(_) => "ColumnRef",
            PgNode::String(_) => "String",
            PgNode::AStar => "AStar",
            PgNode::AConst(_) => "AConst",
            PgNode::AExpr(_) => "AExpr",
            PgNode::BoolExpr(_) => "BoolExpr",
            PgNode::FuncCall(_) => "FuncCall",
            PgNode::CaseExpr(_) => "CaseExpr",
            PgNode::CaseWhen(_) => "CaseWhen",
            PgNode::CollateClause(_) => "CollateClause",
            PgNode::TypeCast(_) => "TypeCast",
            PgNode::SubLink => "SubLink",
            PgNode::NullTest(..) => "NullTest",
            PgNode::List(_) => "List",
            PgNode::ResTarget(_) => "ResTarget",
            PgNode::RangeVar(_) => "RangeVar",
            PgNode::JoinExpr(_) => "JoinExpr",
            PgNode::SortBy(_) => "SortBy",
            PgNode::SelectStmt(_) => "SelectStmt",
            PgNode::InsertStmt => "InsertStmt",
            PgNode::UpdateStmt => "UpdateStmt",
            PgNode::DeleteStmt => "DeleteStmt",
            PgNode::CreateStmt => "CreateStmt",
            PgNode::Other(name) => name.as_str(),
        }
    }
}

/// The name of an operator-expression kind, as error messages show it.
pub open spec fn aexpr_kind_name(k: AExprKind) -> Seq<char> {
    match k {
        AExprKind::Undefined => "Undefined"@,
        AExprKind::AexprOp => "AexprOp"@,
        AExprKind::AexprOpAny => "AexprOpAny"@,
        AExprKind::AexprOpAll => "AexprOpAll"@,
        AExprKind::AexprDistinct => "AexprDistinct"@,
        AExprKind::AexprNotDistinct => "AexprNotDistinct"@,
        AExprKind::AexprNullif => "AexprNullif"@,
        AExprKind::AexprIn => "AexprIn"@,
        AExprKind::AexprLike => "AexprLike"@,
        AExprKind::AexprIlike => "AexprIlike"@,
        AExprKind::AexprSimilar => "AexprSimilar"@,
        AExprKind::AexprBetween => "AexprBetween"@,
        AExprKind::AexprNotBetween => "AexprNotBetween"@,
        AExprKind::AexprBetweenSym => "AexprBetweenSym"@,
        AExprKind::AexprNotBetweenSym => "AexprNotBetweenSym"@,
    }
}

impl AExprKind {
    /// The kind's name.
    pub fn name(&self) -> (r: &'static str)
        ensures
            r@ == aexpr_kind_name(*self),
    {
        match self {
            AExprKind::Undefined => "Undefined",
            AExprKind::AexprOp => "AexprOp",
            AExprKind::AexprOpAny => "AexprOpAny",
            AExprKind::AexprOpAll => "AexprOpAll",
            AExprKind::AexprDistinct => "AexprDistinct",
            AExprKind::AexprNotDistinct => "AexprNotDistinct",
            AExprKind::AexprNullif => "AexprNullif",
            AExprKind::AexprIn => "AexprIn",
            AExprKind::AexprLike => "AexprLike",
            AExprKind::AexprIlike => "AexprIlike",
            AExprKind::AexprSimilar => "AexprSimilar",
            AExprKind::AexprBetween => "AexprBetween",
            AExprKind::AexprNotBetween => "AexprNotBetween",
            AExprKind::AexprBetweenSym => "AexprBetweenSym",
            AExprKind::AexprNotBetweenSym => "AexprNotBetweenSym",
        }
    }
}

} // verus!
