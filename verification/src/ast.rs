//! The SQL syntax tree that the engine compiles (the subset that the
//! PostgreSQL translator produces), with its mathematical views.

use vstd::prelude::*;

verus! {

/// A literal value.
#[derive(Debug)]
pub enum Literal {
    /// A number, as written.
    Numeric(String),
    /// A string, as written: surrounded by single quotes, inner quotes
    /// doubled.
    String(String),
    Null,
}

/// A binary operator.
#[derive(Debug, Clone, Copy, PartialEq, Eq, Structural)]
pub enum Operator {
    Equals,
    NotEquals,
    Less,
    LessEquals,
    Greater,
    GreaterEquals,
    Add,
    Subtract,
    Multiply,
    Divide,
    Modulus,
    Concat,
    And,
    Or,
    Is,
    IsNot,
    BitwiseAnd,
    BitwiseOr,
    LeftShift,
    RightShift,
}

/// The pattern-matching operator of a LIKE-style expression.
#[derive(Debug, Clone, Copy, PartialEq, Eq, Structural)]
pub enum LikeOperator {
    Like,
    Glob,
    Match,
    Regexp,
}

/// A unary operator.
#[derive(Debug, Clone, Copy, PartialEq, Eq, Structural)]
pub enum UnaryOperator {
    Not,
    Negative,
    Positive,
    BitwiseNot,
}

/// DISTINCT or ALL.
#[derive(Debug, Clone, Copy, PartialEq, Eq, Structural)]
pub enum Distinctness {
    Distinct,
    All,
}

/// An expression.
#[derive(Debug)]
pub enum Expr {
    /// A bare identifier.
    Id(String),
    /// `table.column`.
    Qualified(String, String),
    Literal(Literal),
    Binary(Box<Expr>, Operator, Box<Expr>),
    Like { lhs: Box<Expr>, not: bool, op: LikeOperator, rhs: Box<Expr>, escape: Option<Box<Expr>> },
    InList { lhs: Box<Expr>, not: bool, rhs: Vec<Expr> },
    /// `expr IS NOT NULL`.
    NotNull(Box<Expr>),
    /// `expr IS NULL`.
    IsNull(Box<Expr>),
    Unary(UnaryOperator, Box<Expr>),
    FunctionCall { name: String, distinctness: Option<Distinctness>, args: Vec<Expr> },
    /// `name(*)`.
    FunctionCallStar { name: String },
    Case { base: Option<Box<Expr>>, when_then_pairs: Vec<(Expr, Expr)>, else_expr: Option<Box<Expr>> },
}

/// The view of a [`Literal`].
pub enum LiteralV {
    Numeric(Seq<char>),
    String(Seq<char>),
    Null,
}

/// The view of an [`Expr`].
pub enum ExprV {
    Id(Seq<char>),
    Qualified(Seq<char>, Seq<char>),
    Literal(LiteralV),
    Binary(Box<ExprV>, Operator, Box<ExprV>),
    Like { lhs: Box<ExprV>, not: bool, op: LikeOperator, rhs: Box<ExprV>, escape: Option<Box<ExprV>> },
    InList { lhs: Box<ExprV>, not: bool, rhs: Seq<ExprV> },
    NotNull(Box<ExprV>),
    IsNull(Box<ExprV>),
    Unary(UnaryOperator, Box<ExprV>),
    FunctionCall { name: Seq<char>, distinctness: Option<Distinctness>, args: Seq<ExprV> },
    FunctionCallStar { name: Seq<char> },
    Case { base: Option<Box<ExprV>>, when_then_pairs: Seq<(ExprV, ExprV)>, else_expr: Option<Box<ExprV>> },
}

impl View for Literal {
    type V = LiteralV;

    open spec fn view(&self) -> LiteralV {
        match self {
            Literal::Numeric(s) => LiteralV::Numeric(s@),
            Literal::String(s) => LiteralV::String(s@),
            Literal::Null => LiteralV::Null,
        }
    }
}

/// The view of an expression.
pub open spec fn expr_view(e: Expr) -> ExprV
    decreases e,
{
    match e {
        Expr::Id(s) => ExprV::Id(s@),
        Expr::Qualified(a, b) => ExprV::Qualified(a@, b@),
        Expr::Literal(l) => ExprV::Literal(l@),
        Expr::Binary(l, op, r) => ExprV::Binary(Box::new(expr_view(*l)), op, Box::new(expr_view(*r))),
        Expr::Like { lhs, not, op, rhs, escape } => ExprV::Like {
            lhs: Box::new(expr_view(*lhs)),
            not,
            op,
            rhs: Box::new(expr_view(*rhs)),
            escape: match escape {
                Some(x) => Some(Box::new(expr_view(*x))),
                None => None,
            },
        },
        Expr::InList { lhs, not, rhs } => ExprV::InList {
            lhs: Box::new(expr_view(*lhs)),
            not,
            rhs: exprs_view(rhs@),
        },
        Expr::NotNull(x) => ExprV::NotNull(Box::new(expr_view(*x))),
        Expr::IsNull(x) => ExprV::IsNull(Box::new(expr_view(*x))),
        Expr::Unary(op, x) => ExprV::Unary(op, Box::new(expr_view(*x))),
        Expr::FunctionCall { name, distinctness, args } => ExprV::FunctionCall {
            name: name@,
            distinctness,
            args: exprs_view(args@),
        },
        Expr::FunctionCallStar { name } => ExprV::FunctionCallStar { name: name@ },
        Expr::Case { base, when_then_pairs, else_expr } => ExprV::Case {
            base: match base {
                Some(x) => Some(Box::new(expr_view(*x))),
                None => None,
            },
            when_then_pairs: pairs_view(when_then_pairs@),
            else_expr: match else_expr {
                Some(x) => Some(Box::new(expr_view(*x))),
                None => None,
            },
        },
    }
}

/// The views of a list of expressions.
pub open spec fn exprs_view(s: Seq<Expr>) -> Seq<ExprV>
    decreases s,
{
    if s.len() == 0 {
        Seq::empty()
    } else {
        seq![expr_view(s[0])] + exprs_view(s.subrange(1, s.len() as int))
    }
}

/// The views of a list of WHEN/THEN pairs.
pub open spec fn pairs_view(s: Seq<(Expr, Expr)>) -> Seq<(ExprV, ExprV)>
    decreases s,
{
    if s.len() == 0 {
        Seq::empty()
    } else {
        seq![(expr_view(s[0].0), expr_view(s[0].1))] + pairs_view(s.subrange(1, s.len() as int))
    }
}

/// The views of a list of expressions, element by element.
pub proof fn lemma_exprs_view(s: Seq<Expr>)
    ensures
        exprs_view(s).len() == s.len(),
        forall|i: int| 0 <= i < s.len() ==> #[trigger] exprs_view(s)[i] == expr_view(s[i]),
    decreases s.len(),
{
    if s.len() > 0 {
        let t = s.subrange(1, s.len() as int);
        lemma_exprs_view(t);
        assert forall|i: int| 0 <= i < s.len() implies #[trigger] exprs_view(s)[i] == expr_view(s[i]) by {
            if i > 0 {
                assert(exprs_view(s)[i] == exprs_view(t)[i - 1]);
                assert(t[i - 1] == s[i]);
            }
        }
    }
}

/// The views of a list of WHEN/THEN pairs, element by element.
pub proof fn lemma_pairs_view(s: Seq<(Expr, Expr)>)
    ensures
        pairs_view(s).len() == s.len(),
        forall|i: int|
            0 <= i < s.len() ==> #[trigger] pairs_view(s)[i] == (expr_view(s[i].0), expr_view(s[i].1)),
    decreases s.len(),
{
    if s.len() > 0 {
        let t = s.subrange(1, s.len() as int);
        lemma_pairs_view(t);
        assert forall|i: int| 0 <= i < s.len() implies #[trigger] pairs_view(s)[i] == (
            expr_view(s[i].0),
            expr_view(s[i].1),
        ) by {
            if i > 0 {
                assert(pairs_view(s)[i] == pairs_view(t)[i - 1]);
                assert(t[i - 1] == s[i]);
            }
        }
    }
}

impl View for Expr {
    type V = ExprV;

    open spec fn view(&self) -> ExprV {
        expr_view(*self)
    }
}

/// A result column of a SELECT.
#[derive(Debug)]
pub enum ResultColumn {
    /// `expr [AS alias]`.
    Expr(Expr, Option<String>),
    /// `*`.
    Star,
}

/// The view of a [`ResultColumn`].
pub enum ResultColumnV {
    Expr(ExprV, Option<Seq<char>>),
    Star,
}

impl View for ResultColumn {
    type V = ResultColumnV;

    open spec fn view(&self) -> ResultColumnV {
        match self {
            ResultColumn::Expr(e, alias) => ResultColumnV::Expr(
                e@,
                match alias {
                    Some(a) => Some(a@),
                    None => None,
                },
            ),
            ResultColumn::Star => ResultColumnV::Star,
        }
    }
}

/// A table in a FROM clause: its (single-part) name and optional alias.
#[derive(Debug)]
pub enum SelectTable {
    Table(String, Option<String>),
}

/// The view of a [`SelectTable`].
pub enum SelectTableV {
    Table(Seq<char>, Option<Seq<char>>),
}

impl View for SelectTable {
    type V = SelectTableV;

    open spec fn view(&self) -> SelectTableV {
        match self {
            SelectTable::Table(n, a) => SelectTableV::Table(
                n@,
                match a {
                    Some(x) => Some(x@),
                    None => None,
                },
            ),
        }
    }
}

/// The kind of an explicit join.
#[derive(Debug, Clone, Copy, PartialEq, Eq, Structural)]
pub enum JoinType {
    /// INNER
    Inner,
    /// LEFT OUTER
    LeftOuter,
    /// RIGHT OUTER
    RightOuter,
    /// LEFT RIGHT OUTER (full outer)
    FullOuter,
}

/// How a table is joined to the ones before it.
#[derive(Debug, Clone, Copy, PartialEq, Eq, Structural)]
pub enum JoinOperator {
    /// `,` (cross join).
    Comma,
    /// `[type] JOIN`; `None` for a plain JOIN.
    TypedJoin(Option<JoinType>),
}

/// A joined table with its operator and ON condition.
#[derive(Debug)]
pub struct JoinedSelectTable {
    pub operator: JoinOperator,
    pub table: SelectTable,
    /// The ON condition, if any.
    pub constraint: Option<Expr>,
}

/// The view of a [`JoinedSelectTable`].
pub struct JoinedSelectTableV {
    pub operator: JoinOperator,
    pub table: SelectTableV,
    pub constraint: Option<ExprV>,
}

impl View for JoinedSelectTable {
    type V = JoinedSelectTableV;

    open spec fn view(&self) -> JoinedSelectTableV {
        JoinedSelectTableV {
            operator: self.operator,
            table: self.table@,
            constraint: match self.constraint {
                Some(e) => Some(e@),
                None => None,
            },
        }
    }
}

/// The views of a list of joined tables.
pub open spec fn joins_view(s: Seq<JoinedSelectTable>) -> Seq<JoinedSelectTableV> {
    s.map_values(|j: JoinedSelectTable| j@)
}

/// A FROM clause: the first table and the tables joined to it.
#[derive(Debug)]
pub struct FromClause {
    pub select: SelectTable,
    pub joins: Vec<JoinedSelectTable>,
}

/// The view of a [`FromClause`].
pub struct FromClauseV {
    pub select: SelectTableV,
    pub joins: Seq<JoinedSelectTableV>,
}

impl View for FromClause {
    type V = FromClauseV;

    open spec fn view(&self) -> FromClauseV {
        FromClauseV { select: self.select@, joins: joins_view(self.joins@) }
    }
}

/// A simple SELECT (no compound operator, no ORDER BY).
#[derive(Debug)]
pub struct OneSelect {
    pub columns: Vec<ResultColumn>,
    pub from: Option<FromClause>,
    pub where_clause: Option<Expr>,
}

/// The view of a [`OneSelect`].
pub struct OneSelectV {
    pub columns: Seq<ResultColumnV>,
    pub from: Option<FromClauseV>,
    pub where_clause: Option<ExprV>,
}

/// The views of a list of result columns.
pub open spec fn columns_view(s: Seq<ResultColumn>) -> Seq<ResultColumnV> {
    s.map_values(|c: ResultColumn| c@)
}

impl View for OneSelect {
    type V = OneSelectV;

    open spec fn view(&self) -> OneSelectV {
        OneSelectV {
            columns: columns_view(self.columns@),
            from: match self.from {
                Some(f) => Some(f@),
                None => None,
            },
            where_clause: match self.where_clause {
                Some(e) => Some(e@),
                None => None,
            },
        }
    }
}

/// A compound operator.
#[derive(Debug, Clone, Copy, PartialEq, Eq, Structural)]
pub enum CompoundOperator {
    Union,
    UnionAll,
    Intersect,
    Except,
}

/// A SELECT combined with the ones before it.
#[derive(Debug)]
pub struct CompoundSelect {
    pub operator: CompoundOperator,
    pub select: OneSelect,
}

/// The view of a [`CompoundSelect`].
pub struct CompoundSelectV {
    pub operator: CompoundOperator,
    pub select: OneSelectV,
}

impl View for CompoundSelect {
    type V = CompoundSelectV;

    open spec fn view(&self) -> CompoundSelectV {
        CompoundSelectV { operator: self.operator, select: self.select@ }
    }
}

/// Sort direction.
#[derive(Debug, Clone, Copy, PartialEq, Eq, Structural)]
pub enum SortOrder {
    Asc,
    Desc,
}

/// An ORDER BY term.
#[derive(Debug)]
pub struct SortedColumn {
    pub expr: Expr,
    pub order: Option<SortOrder>,
}

/// The view of a [`SortedColumn`].
pub struct SortedColumnV {
    pub expr: ExprV,
    pub order: Option<SortOrder>,
}

impl View for SortedColumn {
    type V = SortedColumnV;

    open spec fn view(&self) -> SortedColumnV {
        SortedColumnV { expr: self.expr@, order: self.order }
    }
}

/// The views of a list of ORDER BY terms.
pub open spec fn sorted_columns_view(s: Seq<SortedColumn>) -> Seq<SortedColumnV> {
    s.map_values(|c: SortedColumn| c@)
}

/// The body of a SELECT: the first simple SELECT and the compound parts.
#[derive(Debug)]
pub struct SelectBody {
    pub select: OneSelect,
    pub compounds: Vec<CompoundSelect>,
}

/// A complete SELECT statement.
#[derive(Debug)]
pub struct Select {
    pub body: SelectBody,
    pub order_by: Vec<SortedColumn>,
}

/// The view of a [`Select`].
pub struct SelectV {
    pub select: OneSelectV,
    pub compounds: Seq<CompoundSelectV>,
    pub order_by: Seq<SortedColumnV>,
}

impl View for Select {
    type V = SelectV;

    open spec fn view(&self) -> SelectV {
        SelectV {
            select: self.body.select@,
            compounds: self.body.compounds@.map_values(|c: CompoundSelect| c@),
            order_by: sorted_columns_view(self.order_by@),
        }
    }
}

/// A statement.
#[derive(Debug)]
pub enum Stmt {
    Select(Select),
}

/// The view of a [`Stmt`].
pub enum StmtV {
    Select(SelectV),
}

impl View for Stmt {
    type V = StmtV;

    open spec fn view(&self) -> StmtV {
        match self {
            Stmt::Select(s) => StmtV::Select(s@),
        }
    }
}

} // verus!
