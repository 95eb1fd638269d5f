//! Translation of PostgreSQL parse trees into the engine's SQL syntax tree,
//! bridging the semantic differences between PostgreSQL and SQLite.
//!
//! Each translation function is specified by a spec function that gives the
//! resulting tree (through its view) or the error message.

use vstd::prelude::*;
use crate::ast::{
    CompoundOperator, CompoundSelect, CompoundSelectV, Distinctness, Expr, ExprV, FromClause, FromClauseV,
    JoinOperator, JoinedSelectTable, JoinedSelectTableV, LikeOperator, Literal, LiteralV, OneSelect, OneSelectV,
    Operator, ResultColumn, ResultColumnV, Select, SelectBody, SelectTable, SelectTableV, SelectV, SortOrder,
    SortedColumn, SortedColumnV, Stmt, StmtV, UnaryOperator, columns_view, expr_view, exprs_view, joins_view, pairs_view,
    sorted_columns_view,
};
use crate::pg_ast::{
    AConst, AConstVal, AExpr, AExprKind, BoolExpr, BoolExprType, CaseExpr, CaseWhen, FuncCall, JoinExpr, JoinType,
    NullTestType, ParseResult, PgNode, RangeVar, SelectStmt, SetOperation, SortByDir,
    aexpr_kind_name, node_kind,
};
use crate::text::{append, owned, str_eq};

verus! {

/// Error of a translation.
#[derive(Debug)]
pub enum ParseError {
    ParseError(String),
}

/// `r` is the translation that `s` specifies: the same tree, or an error
/// with the same message.
pub open spec fn agrees<T: View>(r: Result<T, ParseError>, s: Result<T::V, Seq<char>>) -> bool {
    match r {
        Ok(v) => s == Ok::<T::V, Seq<char>>(v@),
        Err(ParseError::ParseError(m)) => s == Err::<T::V, Seq<char>>(m@),
    }
}

/// An error with the given message.
fn fail<T>(msg: &str) -> (r: Result<T, ParseError>)
    ensures
        r matches Err(ParseError::ParseError(m)) && m@ == msg@,
{
    Err(ParseError::ParseError(owned(msg)))
}

/// An error whose message is `prefix` followed by `detail`.
fn fail2<T>(prefix: &str, detail: &str) -> (r: Result<T, ParseError>)
    ensures
        r matches Err(ParseError::ParseError(m)) && m@ == prefix@ + detail@,
{
    let mut m = owned(prefix);
    append(&mut m, detail);
    Err(ParseError::ParseError(m))
}

// ---------------------------------------------------------------------------
// Decimal numerals
// ---------------------------------------------------------------------------

/// The decimal digit for `d` (0 to 9).
pub open spec fn digit_char(d: nat) -> char {
    ((48 + d) as u32) as char
}

/// Decimal numeral of a natural number, without leading zeros.
pub open spec fn decimal(n: nat) -> Seq<char>
    decreases n,
{
    if n < 10 {
        seq![digit_char(n)]
    } else {
        decimal(n / 10) + seq![digit_char(n % 10)]
    }
}

/// Decimal numeral of an integer, with a leading `-` when negative.
pub open spec fn int_decimal(i: int) -> Seq<char> {
    if i < 0 {
        seq!['-'] + decimal((-i) as nat)
    } else {
        decimal(i as nat)
    }
}

/// The digit character for `d` (0 to 9).
fn digit(d: u64) -> (c: char)
    requires
        d < 10,
    ensures
        c == digit_char(d as nat),
{
    if d == 0 { '0' }
    else if d == 1 { '1' }
    else if d == 2 { '2' }
    else if d == 3 { '3' }
    else if d == 4 { '4' }
    else if d == 5 { '5' }
    else if d == 6 { '6' }
    else if d == 7 { '7' }
    else if d == 8 { '8' }
    else { '9' }
}

/// The decimal numeral of `i`, as `i32`'s `to_string` writes it.
pub fn i32_to_decimal(i: i32) -> (s: String)
    ensures
        s@ == int_decimal(i as int),
{
    let neg = i < 0;
    let mut n: u64 = if neg { (0 - (i as i64)) as u64 } else { i as u64 };
    let ghost n0 = n as nat;
    // Digits from the least significant one.
    let mut rev: Vec<char> = Vec::new();
    let mut suffix: Ghost<Seq<char>> = Ghost(Seq::empty());
    loop
        invariant_except_break
            rev@.len() == 0 ==> n as nat == n0,
            rev@.len() > 0 ==> n > 0 && decimal(n0) == decimal(n as nat) + suffix@,
        invariant
            suffix@ == rev@.reverse(),
        ensures
            decimal(n0) == suffix@,
            suffix@ == rev@.reverse(),
        decreases n,
    {
        let d = n % 10;
        let c = digit(d);
        let ghost old_suffix = suffix@;
        let ghost old_n = n as nat;
        let ghost old_len = rev@.len();
        proof {
            assert(decimal(n0) == decimal(old_n) + old_suffix) by {
                if old_len == 0 {
                    assert(old_suffix =~= Seq::<char>::empty());
                    assert(decimal(old_n) + old_suffix =~= decimal(old_n));
                }
            }
        }
        rev.push(c);
        proof {
            suffix@ = seq![c] + old_suffix;
            assert(rev@.reverse() =~= seq![c] + old_suffix) by {
                assert(rev@.drop_last() =~= rev@.subrange(0, old_len as int));
                assert(rev@.drop_last().reverse() =~= old_suffix);
            }
        }
        n = n / 10;
        proof {
            if old_n < 10 {
                assert(decimal(old_n) == seq![c]);
                assert(seq![c] + old_suffix =~= suffix@);
            } else {
                assert(decimal(old_n) == decimal(n as nat) + seq![c]);
                assert(decimal(n as nat) + seq![c] + old_suffix =~= decimal(n as nat) + suffix@);
            }
        }
        if n == 0 {
            break;
        }
    }
    let mut s = String::new();
    if neg {
        crate::text::push_char(&mut s, '-');
    }
    let ghost prefix = s@;
    let mut k = rev.len();
    while k > 0
        invariant
            k <= rev@.len(),
            s@ == prefix + rev@.subrange(k as int, rev@.len() as int).reverse(),
        decreases k,
    {
        k = k - 1;
        crate::text::push_char(&mut s, rev[k]);
        proof {
            assert(rev@.subrange(k as int, rev@.len() as int).reverse() =~= rev@.subrange(
                k + 1,
                rev@.len() as int,
            ).reverse().push(rev@[k as int]));
        }
    }
    proof {
        assert(rev@.subrange(0, rev@.len() as int) =~= rev@);
        if !neg {
            assert(prefix =~= Seq::<char>::empty());
            assert(s@ =~= decimal(n0));
        } else {
            assert(s@ =~= seq!['-'] + decimal(n0));
        }
    }
    s
}

// ---------------------------------------------------------------------------
// Expressions: specification
// ---------------------------------------------------------------------------

/// The value of the last String node of a list (an operator's or a
/// function's name is its last part: `pg_catalog.~` is `~`).
pub open spec fn last_string(s: Seq<PgNode>) -> Option<Seq<char>>
    decreases s.len(),
{
    if s.len() == 0 {
        None
    } else {
        match s.last() {
            PgNode::String(v) => Some(v@),
            _ => last_string(s.drop_last()),
        }
    }
}

/// The values of the String nodes of a list, in order.
pub open spec fn string_parts(s: Seq<PgNode>) -> Seq<Seq<char>>
    decreases s.len(),
{
    if s.len() == 0 {
        Seq::empty()
    } else {
        let init = string_parts(s.drop_last());
        match s.last() {
            PgNode::String(v) => init.push(v@),
            _ => init,
        }
    }
}

/// The engine operator for a PostgreSQL binary operator name.
pub open spec fn binary_operator(op: Seq<char>) -> Option<Operator> {
    if op == "="@ {
        Some(Operator::Equals)
    } else if op == "!="@ || op == "<>"@ {
        Some(Operator::NotEquals)
    } else if op == "<"@ {
        Some(Operator::Less)
    } else if op == "<="@ {
        Some(Operator::LessEquals)
    } else if op == ">"@ {
        Some(Operator::Greater)
    } else if op == ">="@ {
        Some(Operator::GreaterEquals)
    } else if op == "+"@ {
        Some(Operator::Add)
    } else if op == "-"@ {
        Some(Operator::Subtract)
    } else if op == "*"@ {
        Some(Operator::Multiply)
    } else if op == "/"@ {
        Some(Operator::Divide)
    } else if op == "AND"@ {
        Some(Operator::And)
    } else if op == "OR"@ {
        Some(Operator::Or)
    } else {
        None
    }
}

/// A string literal as the engine's syntax tree holds it: in single quotes,
/// with inner quotes doubled.
pub open spec fn quoted_literal(s: Seq<char>) -> Seq<char> {
    seq!['\''] + crate::text::replace_all(s, "'"@, "''"@) + seq!['\'']
}

/// Translation of a constant.
pub open spec fn tr_const(c: AConst) -> Result<ExprV, Seq<char>> {
    if c.isnull {
        Ok(ExprV::Literal(LiteralV::Null))
    } else {
        match c.val {
            Some(AConstVal::Ival(i)) => Ok(ExprV::Literal(LiteralV::Numeric(int_decimal(i as int)))),
            Some(AConstVal::Sval(v)) => Ok(ExprV::Literal(LiteralV::String(quoted_literal(v@)))),
            Some(AConstVal::Fval(f)) => Ok(ExprV::Literal(LiteralV::Numeric(f@))),
            Some(AConstVal::Boolval(b)) => Ok(ExprV::Literal(LiteralV::Numeric(if b { "1"@ } else { "0"@ }))),
            Some(AConstVal::Bsval(_)) => Err("Unsupported constant type"@),
            None => Err("Empty constant value"@),
        }
    }
}

/// Translation of a column reference: `name` or `table.name`.
pub open spec fn tr_column_ref(fields: Seq<PgNode>) -> Result<ExprV, Seq<char>> {
    if fields.len() == 0 {
        Err("Empty column reference"@)
    } else {
        match fields[0] {
            PgNode::String(v) => if fields.len() == 1 {
                Ok(ExprV::Id(v@))
            } else {
                let parts = string_parts(fields);
                if parts.len() > 1 {
                    Ok(ExprV::Qualified(parts[0], parts[1]))
                } else {
                    Ok(ExprV::Id(parts[0]))
                }
            },
            PgNode::AStar => Err("AStar should be handled in target list, not as expression"@),
            other => Err("Invalid column reference, expected String or AStar but got: "@ + node_kind(other)),
        }
    }
}

/// `e` prefixed by `v` when it is a list.
pub open spec fn cons_ok<T>(v: T, e: Result<Seq<T>, Seq<char>>) -> Result<Seq<T>, Seq<char>> {
    match e {
        Ok(vs) => Ok(seq![v] + vs),
        Err(m) => Err(m),
    }
}

/// `acc op rest[0] op rest[1] ...`, grouped to the left.
pub open spec fn fold_binary(acc: ExprV, rest: Seq<ExprV>, op: Operator) -> ExprV
    decreases rest.len(),
{
    if rest.len() == 0 {
        acc
    } else {
        fold_binary(
            ExprV::Binary(Box::new(acc), op, Box::new(rest[0])),
            rest.subrange(1, rest.len() as int),
            op,
        )
    }
}

/// Translation of an expression.
pub open spec fn tr_expr(n: PgNode) -> Result<ExprV, Seq<char>>
    decreases n,
{
    match n {
        PgNode::ColumnRef(fields) => tr_column_ref(fields@),
        PgNode::AConst(c) => tr_const(c),
        PgNode::AExpr(a) => tr_a_expr(*a),
        PgNode::BoolExpr(b) => tr_bool_expr(b),
        PgNode::FuncCall(f) => tr_func_call(*f),
        PgNode::CaseExpr(c) => tr_case_expr(*c),
        PgNode::CollateClause(arg) => match arg {
            Some(x) => tr_expr(*x),
            None => Err("COLLATE clause missing inner expression"@),
        },
        PgNode::TypeCast(arg) => match arg {
            Some(x) => tr_expr(*x),
            None => Err("TypeCast missing inner expression"@),
        },
        PgNode::SubLink => Ok(ExprV::Literal(LiteralV::Null)),
        PgNode::NullTest(arg, t) => match arg {
            Some(x) => match tr_expr(*x) {
                Ok(v) => if t == NullTestType::IsNotNull {
                    Ok(ExprV::NotNull(Box::new(v)))
                } else {
                    Ok(ExprV::IsNull(Box::new(v)))
                },
                Err(m) => Err(m),
            },
            None => Err("NullTest missing arg"@),
        },
        PgNode::AStar => Err("AStar should not be translated as expression"@),
        other => Err("Unsupported expression type: "@ + node_kind(other)),
    }
}

/// Translation of a list of expressions; the first error wins.
pub open spec fn tr_exprs(s: Seq<PgNode>) -> Result<Seq<ExprV>, Seq<char>>
    decreases s,
{
    if s.len() == 0 {
        Ok(Seq::empty())
    } else {
        match tr_expr(s[0]) {
            Ok(v) => cons_ok(v, tr_exprs(s.subrange(1, s.len() as int))),
            Err(m) => Err(m),
        }
    }
}

/// Translation of an operator expression.
pub open spec fn tr_a_expr(a: AExpr) -> Result<ExprV, Seq<char>>
    decreases a,
{
    match a.kind {
        AExprKind::AexprOp => match last_string(a.name@) {
            None => Err("Missing operator name"@),
            Some(op) => match a.lexpr {
                None => Err("Missing left expression"@),
                Some(l) => match tr_expr(*l) {
                    Err(m) => Err(m),
                    Ok(lv) => match a.rexpr {
                        None => Err("Missing right expression"@),
                        Some(r) => match tr_expr(*r) {
                            Err(m) => Err(m),
                            Ok(rv) => if op == "~"@ {
                                Ok(ExprV::Like {
                                    lhs: Box::new(lv),
                                    not: false,
                                    op: LikeOperator::Regexp,
                                    rhs: Box::new(rv),
                                    escape: None,
                                })
                            } else if op == "!~"@ {
                                Ok(ExprV::Like {
                                    lhs: Box::new(lv),
                                    not: true,
                                    op: LikeOperator::Regexp,
                                    rhs: Box::new(rv),
                                    escape: None,
                                })
                            } else {
                                match binary_operator(op) {
                                    Some(o) => Ok(ExprV::Binary(Box::new(lv), o, Box::new(rv))),
                                    None => Err("Unsupported operator: "@ + op),
                                }
                            },
                        },
                    },
                },
            },
        },
        AExprKind::AexprIn => match a.lexpr {
            None => Err("Missing left expression for IN operator"@),
            Some(l) => match tr_expr(*l) {
                Err(m) => Err(m),
                Ok(lv) => match a.rexpr {
                    None => Err("Missing right expression for IN operator"@),
                    Some(r) => match *r {
                        PgNode::List(items) => match tr_exprs(items@) {
                            Err(m) => Err(m),
                            Ok(vs) => Ok(ExprV::InList { lhs: Box::new(lv), not: in_is_negated(a.name@), rhs: vs }),
                        },
                        _ => Err("Expected list for IN operator right side"@),
                    },
                },
            },
        },
        AExprKind::AexprLike => if a.name@.len() == 0 {
            Err("Missing LIKE operator name"@)
        } else {
            match a.name@[0] {
                PgNode::String(opname) => if opname@ != "~~"@ && opname@ != "!~~"@ {
                    Err("Unsupported LIKE operator: "@ + opname@)
                } else {
                    match a.lexpr {
                        None => Err("Missing left expression for LIKE operator"@),
                        Some(l) => match tr_expr(*l) {
                            Err(m) => Err(m),
                            Ok(lv) => match a.rexpr {
                                None => Err("Missing right expression for LIKE operator"@),
                                Some(r) => match tr_expr(*r) {
                                    Err(m) => Err(m),
                                    Ok(rv) => Ok(ExprV::Like {
                                        lhs: Box::new(lv),
                                        not: opname@ == "!~~"@,
                                        op: LikeOperator::Like,
                                        rhs: Box::new(rv),
                                        escape: None,
                                    }),
                                },
                            },
                        },
                    }
                },
                _ => Err("Invalid LIKE operator name"@),
            }
        },
        AExprKind::AexprOpAny => Ok(ExprV::Literal(LiteralV::Numeric("0"@))),
        k => Err("Unsupported AExpr kind: "@ + aexpr_kind_name(k)),
    }
}

/// `NOT IN` is written with the operator name `<>`.
pub open spec fn in_is_negated(name: Seq<PgNode>) -> bool {
    name.len() > 0 && (name[0] matches PgNode::String(v) && v@ == "<>"@)
}

/// Translation of AND / OR / NOT.
pub open spec fn tr_bool_expr(b: BoolExpr) -> Result<ExprV, Seq<char>>
    decreases b,
{
    if b.args@.len() == 0 {
        Err("BoolExpr must have at least 1 argument"@)
    } else {
        match b.boolop {
            BoolExprType::NotExpr => if b.args@.len() != 1 {
                Err("NOT expression must have exactly 1 argument"@)
            } else {
                match tr_expr(b.args@[0]) {
                    Ok(v) => Ok(ExprV::Unary(UnaryOperator::Not, Box::new(v))),
                    Err(m) => Err(m),
                }
            },
            BoolExprType::AndExpr => if b.args@.len() < 2 {
                Err("AND expression must have at least 2 arguments"@)
            } else {
                match tr_exprs(b.args@) {
                    Ok(vs) => Ok(fold_binary(vs[0], vs.subrange(1, vs.len() as int), Operator::And)),
                    Err(m) => Err(m),
                }
            },
            BoolExprType::OrExpr => if b.args@.len() < 2 {
                Err("OR expression must have at least 2 arguments"@)
            } else {
                match tr_exprs(b.args@) {
                    Ok(vs) => Ok(fold_binary(vs[0], vs.subrange(1, vs.len() as int), Operator::Or)),
                    Err(m) => Err(m),
                }
            },
            BoolExprType::Undefined => Err("Unsupported BoolExpr type: Undefined"@),
        }
    }
}

/// Translation of a function call.
pub open spec fn tr_func_call(f: FuncCall) -> Result<ExprV, Seq<char>>
    decreases f,
{
    match last_string(f.funcname@) {
        None => Err("Missing function name"@),
        Some(name) => if f.agg_star {
            Ok(ExprV::FunctionCallStar { name })
        } else {
            match tr_exprs(f.args@) {
                Ok(args) => Ok(ExprV::FunctionCall {
                    name,
                    distinctness: if f.agg_distinct { Some(Distinctness::Distinct) } else { None },
                    args,
                }),
                Err(m) => Err(m),
            }
        },
    }
}

/// Translation of a CASE expression.
pub open spec fn tr_case_expr(c: CaseExpr) -> Result<ExprV, Seq<char>>
    decreases c,
{
    let base: Result<Option<Box<ExprV>>, Seq<char>> = match c.arg {
        Some(x) => match tr_expr(*x) {
            Ok(v) => Ok(Some(Box::new(v))),
            Err(m) => Err(m),
        },
        None => Ok(None),
    };
    match base {
        Err(m) => Err(m),
        Ok(b) => match tr_when_arms(c.args@) {
            Err(m) => Err(m),
            Ok(arms) => match c.defresult {
                Some(d) => match tr_expr(*d) {
                    Ok(v) => Ok(ExprV::Case { base: b, when_then_pairs: arms, else_expr: Some(Box::new(v)) }),
                    Err(m) => Err(m),
                },
                None => Ok(ExprV::Case { base: b, when_then_pairs: arms, else_expr: None }),
            },
        },
    }
}

/// Translation of the WHEN arms of a CASE expression.
pub open spec fn tr_when_arms(s: Seq<PgNode>) -> Result<Seq<(ExprV, ExprV)>, Seq<char>>
    decreases s,
{
    if s.len() == 0 {
        Ok(Seq::empty())
    } else {
        match s[0] {
            PgNode::CaseWhen(cw) => match cw.expr {
                None => Err("CASE WHEN missing condition"@),
                Some(w) => match tr_expr(*w) {
                    Err(m) => Err(m),
                    Ok(wv) => match cw.result {
                        None => Err("CASE WHEN missing THEN result"@),
                        Some(t) => match tr_expr(*t) {
                            Err(m) => Err(m),
                            Ok(tv) => cons_ok((wv, tv), tr_when_arms(s.subrange(1, s.len() as int))),
                        },
                    },
                },
            },
            _ => Err("Expected CaseWhen node in CASE expression"@),
        }
    }
}

/// The condition and the result of a WHEN arm, when it has both.
pub open spec fn when_parts(n: PgNode) -> Option<(PgNode, PgNode)> {
    match n {
        PgNode::CaseWhen(cw) => match (cw.expr, cw.result) {
            (Some(w), Some(t)) => Some((*w, *t)),
            _ => None,
        },
        _ => None,
    }
}

/// The WHEN arms translate one pair per arm, in order: the `i`-th pair is
/// the translation of the `i`-th arm's condition and result.
proof fn lemma_when_arms(s: Seq<PgNode>)
    ensures
        tr_when_arms(s) matches Ok(arms) ==> {
            &&& arms.len() == s.len()
            &&& forall|i: int|
                0 <= i < s.len() ==> (#[trigger] when_parts(s[i]) matches Some((w, t)) && tr_expr(w) is Ok && tr_expr(
                    t,
                ) is Ok && arms[i] == (tr_expr(w)->Ok_0, tr_expr(t)->Ok_0))
        },
    decreases s.len(),
{
    if s.len() > 0 {
        let rest = s.subrange(1, s.len() as int);
        lemma_when_arms(rest);
        if let Ok(arms) = tr_when_arms(s) {
            assert forall|i: int| 0 <= i < s.len() implies (#[trigger] when_parts(s[i]) matches Some((w, t))
                && tr_expr(w) is Ok && tr_expr(t) is Ok && arms[i] == (tr_expr(w)->Ok_0, tr_expr(t)->Ok_0)) by {
                if i > 0 {
                    assert(rest[i - 1] == s[i]);
                }
            }
        }
    }
}

/// A CASE expression translates into a Case that keeps all its parts: the
/// operand, when there is one, becomes the Case's base (so `CASE x WHEN a
/// ...` compares `x` with `a`), and without one the Case has no base; each
/// WHEN arm becomes the (condition, result) pair at the same position; the
/// ELSE result becomes the Case's else.  An operand that does not
/// translate makes the whole expression fail with its error.
pub proof fn lemma_case_translation(c: CaseExpr)
    ensures
        tr_case_expr(c) is Ok ==> tr_case_expr(c)->Ok_0 is Case,
        tr_case_expr(c) matches Ok(ExprV::Case { base, when_then_pairs, else_expr }) ==> {
            &&& match c.arg {
                Some(x) => tr_expr(*x) is Ok && base == Some(Box::new(tr_expr(*x)->Ok_0)),
                None => base is None,
            }
            &&& when_then_pairs.len() == c.args@.len()
            &&& forall|i: int|
                0 <= i < c.args@.len() ==> (#[trigger] when_parts(c.args@[i]) matches Some((w, t))
                    && when_then_pairs[i] == (tr_expr(w)->Ok_0, tr_expr(t)->Ok_0))
            &&& match c.defresult {
                Some(d) => tr_expr(*d) is Ok && else_expr == Some(Box::new(tr_expr(*d)->Ok_0)),
                None => else_expr is None,
            }
        },
        c.arg is Some && tr_expr(*c.arg->Some_0) is Err ==> tr_case_expr(c) == Err::<ExprV, Seq<char>>(
            tr_expr(*c.arg->Some_0)->Err_0,
        ),
{
    lemma_when_arms(c.args@);
}

// ---------------------------------------------------------------------------
// Expressions: translation
// ---------------------------------------------------------------------------

/// `r` prefixed by `vs` when it is a list.
pub open spec fn prepend_ok<T>(vs: Seq<T>, r: Result<Seq<T>, Seq<char>>) -> Result<Seq<T>, Seq<char>> {
    match r {
        Ok(ws) => Ok(vs + ws),
        Err(m) => Err(m),
    }
}

proof fn lemma_prepend_cons<T>(vs: Seq<T>, v: T, r: Result<Seq<T>, Seq<char>>)
    ensures
        prepend_ok(vs, cons_ok(v, r)) == prepend_ok(vs.push(v), r),
{
    if let Ok(ws) = r {
        assert(vs + (seq![v] + ws) =~= vs.push(v) + ws);
    }
}

proof fn lemma_tr_exprs_step(s: Seq<PgNode>, i: int)
    requires
        0 <= i < s.len(),
    ensures
        tr_exprs(s.subrange(i, s.len() as int)) == match tr_expr(s[i]) {
            Ok(v) => cons_ok(v, tr_exprs(s.subrange(i + 1, s.len() as int))),
            Err(m) => Err(m),
        },
{
    let t = s.subrange(i, s.len() as int);
    assert(t[0] == s[i]);
    assert(t.subrange(1, t.len() as int) =~= s.subrange(i + 1, s.len() as int));
}

proof fn lemma_tr_when_arms_step(s: Seq<PgNode>, i: int)
    requires
        0 <= i < s.len(),
    ensures
        tr_when_arms(s.subrange(i, s.len() as int)) == match s[i] {
            PgNode::CaseWhen(cw) => match cw.expr {
                None => Err("CASE WHEN missing condition"@),
                Some(w) => match tr_expr(*w) {
                    Err(m) => Err(m),
                    Ok(wv) => match cw.result {
                        None => Err("CASE WHEN missing THEN result"@),
                        Some(t) => match tr_expr(*t) {
                            Err(m) => Err(m),
                            Ok(tv) => cons_ok((wv, tv), tr_when_arms(s.subrange(i + 1, s.len() as int))),
                        },
                    },
                },
            },
            _ => Err("Expected CaseWhen node in CASE expression"@),
        },
{
    let t = s.subrange(i, s.len() as int);
    assert(t[0] == s[i]);
    assert(t.subrange(1, t.len() as int) =~= s.subrange(i + 1, s.len() as int));
}

proof fn lemma_exprs_view_push(s: Seq<Expr>, e: Expr)
    ensures
        exprs_view(s.push(e)) == exprs_view(s).push(expr_view(e)),
{
    crate::ast::lemma_exprs_view(s);
    crate::ast::lemma_exprs_view(s.push(e));
    assert(exprs_view(s.push(e)) =~= exprs_view(s).push(expr_view(e)));
}

proof fn lemma_pairs_view_push(s: Seq<(Expr, Expr)>, p: (Expr, Expr))
    ensures
        pairs_view(s.push(p)) == pairs_view(s).push((expr_view(p.0), expr_view(p.1))),
{
    crate::ast::lemma_pairs_view(s);
    crate::ast::lemma_pairs_view(s.push(p));
    assert(pairs_view(s.push(p)) =~= pairs_view(s).push((expr_view(p.0), expr_view(p.1))));
}

/// The value of the last String node of `s`.
fn last_string_value(s: &Vec<PgNode>) -> (r: Option<String>)
    ensures
        match r {
            Some(v) => last_string(s@) == Some(v@),
            None => last_string(s@) == None::<Seq<char>>,
        },
{
    let mut k = s.len();
    proof {
        assert(s@.subrange(0, k as int) =~= s@);
    }
    while k > 0
        invariant
            k <= s@.len(),
            last_string(s@) == last_string(s@.subrange(0, k as int)),
        decreases k,
    {
        let ghost t = s@.subrange(0, k as int);
        assert(t.last() == s@[k - 1]);
        if let PgNode::String(v) = &s[k - 1] {
            return Some(v.clone());
        }
        assert(t.drop_last() =~= s@.subrange(0, k - 1));
        k = k - 1;
    }
    None
}

proof fn lemma_string_parts_first(s: Seq<PgNode>, v: String)
    requires
        s.len() > 0,
        s[0] == PgNode::String(v),
    ensures
        string_parts(s).len() > 0,
        string_parts(s)[0] == v@,
    decreases s.len(),
{
    let init = string_parts(s.drop_last());
    if s.len() > 1 {
        lemma_string_parts_first(s.drop_last(), v);
        assert(s.drop_last()[0] == s[0]);
        assert(init.len() > 0 && init[0] == v@);
        match s.last() {
            PgNode::String(w) => assert(string_parts(s) == init.push(w@)),
            _ => assert(string_parts(s) == init),
        }
    } else {
        assert(s.drop_last() =~= Seq::<PgNode>::empty());
        assert(init =~= Seq::<Seq<char>>::empty());
        assert(s.last() == PgNode::String(v));
        assert(string_parts(s) == init.push(v@));
    }
}

/// The values of the String nodes of `s`, in order.
fn string_values(s: &Vec<PgNode>) -> (r: Vec<String>)
    ensures
        r@.len() == string_parts(s@).len(),
        forall|i: int| 0 <= i < r@.len() ==> #[trigger] r@[i]@ == string_parts(s@)[i],
{
    let mut r: Vec<String> = Vec::new();
    let mut i: usize = 0;
    while i < s.len()
        invariant
            i <= s@.len(),
            r@.len() == string_parts(s@.subrange(0, i as int)).len(),
            forall|j: int| 0 <= j < r@.len() ==> #[trigger] r@[j]@ == string_parts(s@.subrange(0, i as int))[j],
        decreases s.len() - i,
    {
        let ghost t = s@.subrange(0, i + 1);
        assert(t.drop_last() =~= s@.subrange(0, i as int));
        assert(t.last() == s@[i as int]);
        if let PgNode::String(v) = &s[i] {
            r.push(v.clone());
        }
        i = i + 1;
    }
    assert(s@.subrange(0, s@.len() as int) =~= s@);
    r
}

/// Translates a column reference.
fn translate_column_ref(fields: &Vec<PgNode>) -> (r: Result<Expr, ParseError>)
    ensures
        agrees(r, tr_column_ref(fields@)),
{
    if fields.len() == 0 {
        return fail("Empty column reference");
    }
    match &fields[0] {
        PgNode::String(v) => {
            if fields.len() == 1 {
                return Ok(Expr::Id(v.clone()));
            }
            let parts = string_values(fields);
            proof {
                lemma_string_parts_first(fields@, *v);
            }
            if parts.len() > 1 {
                Ok(Expr::Qualified(parts[0].clone(), parts[1].clone()))
            } else {
                Ok(Expr::Id(parts[0].clone()))
            }
        },
        PgNode::AStar => fail("AStar should be handled in target list, not as expression"),
        other => fail2("Invalid column reference, expected String or AStar but got: ", other.kind_name()),
    }
}

/// Translates a constant.
pub fn translate_const(c: &AConst) -> (r: Result<Expr, ParseError>)
    ensures
        agrees(r, tr_const(*c)),
{
    if c.isnull {
        return Ok(Expr::Literal(Literal::Null));
    }
    match &c.val {
        Some(AConstVal::Ival(i)) => Ok(Expr::Literal(Literal::Numeric(i32_to_decimal(*i)))),
        Some(AConstVal::Sval(v)) => {
            proof {
                reveal_strlit("'");
                reveal_strlit("''");
            }
            let inner = crate::text::replace(v.as_str(), "'", "''");
            let mut q = owned("'");
            append(&mut q, inner.as_str());
            append(&mut q, "'");
            proof {
                assert(q@ =~= quoted_literal(v@));
            }
            Ok(Expr::Literal(Literal::String(q)))
        },
        Some(AConstVal::Fval(f)) => Ok(Expr::Literal(Literal::Numeric(f.clone()))),
        Some(AConstVal::Boolval(b)) => Ok(
            Expr::Literal(Literal::Numeric(owned(if *b { "1" } else { "0" }))),
        ),
        Some(AConstVal::Bsval(_)) => fail("Unsupported constant type"),
        None => fail("Empty constant value"),
    }
}

/// The engine operator for a PostgreSQL binary operator name.
fn map_binary_operator(op: &str) -> (r: Option<Operator>)
    ensures
        r == binary_operator(op@),
{
    if str_eq(op, "=") {
        Some(Operator::Equals)
    } else if str_eq(op, "!=") || str_eq(op, "<>") {
        Some(Operator::NotEquals)
    } else if str_eq(op, "<") {
        Some(Operator::Less)
    } else if str_eq(op, "<=") {
        Some(Operator::LessEquals)
    } else if str_eq(op, ">") {
        Some(Operator::Greater)
    } else if str_eq(op, ">=") {
        Some(Operator::GreaterEquals)
    } else if str_eq(op, "+") {
        Some(Operator::Add)
    } else if str_eq(op, "-") {
        Some(Operator::Subtract)
    } else if str_eq(op, "*") {
        Some(Operator::Multiply)
    } else if str_eq(op, "/") {
        Some(Operator::Divide)
    } else if str_eq(op, "AND") {
        Some(Operator::And)
    } else if str_eq(op, "OR") {
        Some(Operator::Or)
    } else {
        None
    }
}

/// Translates an expression.
fn translate_expr(node: &PgNode) -> (r: Result<Expr, ParseError>)
    ensures
        agrees(r, tr_expr(*node)),
    decreases node, 0int,
{
    match node {
        PgNode::ColumnRef(fields) => translate_column_ref(fields),
        PgNode::AConst(c) => translate_const(c),
        PgNode::AExpr(a) => translate_a_expr(a),
        PgNode::BoolExpr(b) => translate_bool_expr(b),
        PgNode::FuncCall(f) => translate_func_call(f),
        PgNode::CaseExpr(c) => translate_case_expr(c),
        PgNode::CollateClause(arg) => match arg {
            Some(x) => translate_expr(x),
            None => fail("COLLATE clause missing inner expression"),
        },
        PgNode::TypeCast(arg) => match arg {
            Some(x) => translate_expr(x),
            None => fail("TypeCast missing inner expression"),
        },
        PgNode::SubLink => Ok(Expr::Literal(Literal::Null)),
        PgNode::NullTest(arg, t) => match arg {
            Some(x) => match translate_expr(x) {
                Ok(v) => if *t == NullTestType::IsNotNull {
                    Ok(Expr::NotNull(Box::new(v)))
                } else {
                    Ok(Expr::IsNull(Box::new(v)))
                },
                Err(e) => Err(e),
            },
            None => fail("NullTest missing arg"),
        },
        PgNode::AStar => fail("AStar should not be translated as expression"),
        other => fail2("Unsupported expression type: ", other.kind_name()),
    }
}

/// Translates a list of expressions, in order; the first error wins.
fn translate_exprs(items: &Vec<PgNode>) -> (r: Result<Vec<Expr>, ParseError>)
    ensures
        match r {
            Ok(v) => tr_exprs(items@) == Ok::<Seq<ExprV>, Seq<char>>(exprs_view(v@)),
            Err(ParseError::ParseError(m)) => tr_exprs(items@) == Err::<Seq<ExprV>, Seq<char>>(m@),
        },
    decreases items, 0int,
{
    let mut out: Vec<Expr> = Vec::new();
    let mut i: usize = 0;
    proof {
        assert(items@.subrange(0, items@.len() as int) =~= items@);
        assert(exprs_view(out@) =~= Seq::<ExprV>::empty());
        if let Ok(ws) = tr_exprs(items@) {
            assert(Seq::<ExprV>::empty() + ws =~= ws);
        }
    }
    while i < items.len()
        invariant
            i <= items@.len(),
            tr_exprs(items@) == prepend_ok(exprs_view(out@), tr_exprs(items@.subrange(i as int, items@.len() as int))),
        decreases items.len() - i,
    {
        proof {
            lemma_tr_exprs_step(items@, i as int);
            assert(decreases_to!(items => items@[i as int]));
        }
        match translate_expr(&items[i]) {
            Ok(v) => {
                proof {
                    lemma_prepend_cons(exprs_view(out@), expr_view(v), tr_exprs(items@.subrange(i + 1, items@.len() as int)));
                    lemma_exprs_view_push(out@, v);
                }
                out.push(v);
            },
            Err(e) => {
                return Err(e);
            },
        }
        i = i + 1;
    }
    proof {
        assert(items@.subrange(i as int, items@.len() as int) =~= Seq::<PgNode>::empty());
        assert(exprs_view(out@) + Seq::<ExprV>::empty() =~= exprs_view(out@));
    }
    Ok(out)
}

/// Translates an operator expression.
fn translate_a_expr(a: &AExpr) -> (r: Result<Expr, ParseError>)
    ensures
        agrees(r, tr_a_expr(*a)),
    decreases a, 1int,
{
    match a.kind {
        AExprKind::AexprOp => translate_binary_expr(a),
        AExprKind::AexprIn => translate_in_expr(a),
        AExprKind::AexprLike => translate_like_expr(a),
        AExprKind::AexprOpAny => Ok(Expr::Literal(Literal::Numeric(owned("0")))),
        _ => fail2("Unsupported AExpr kind: ", a.kind.name()),
    }
}

/// Translates a binary operator expression.
fn translate_binary_expr(a: &AExpr) -> (r: Result<Expr, ParseError>)
    requires
        a.kind == AExprKind::AexprOp,
    ensures
        agrees(r, tr_a_expr(*a)),
    decreases a, 0int,
{
    let op = match last_string_value(&a.name) {
        Some(op) => op,
        None => {
            return fail("Missing operator name");
        },
    };
    let left = match &a.lexpr {
        Some(l) => match translate_expr(l) {
            Ok(v) => v,
            Err(e) => {
                return Err(e);
            },
        },
        None => {
            return fail("Missing left expression");
        },
    };
    let right = match &a.rexpr {
        Some(x) => match translate_expr(x) {
            Ok(v) => v,
            Err(e) => {
                return Err(e);
            },
        },
        None => {
            return fail("Missing right expression");
        },
    };
    if str_eq(op.as_str(), "~") {
        return Ok(
            Expr::Like {
                lhs: Box::new(left),
                not: false,
                op: LikeOperator::Regexp,
                rhs: Box::new(right),
                escape: None,
            },
        );
    }
    if str_eq(op.as_str(), "!~") {
        return Ok(
            Expr::Like {
                lhs: Box::new(left),
                not: true,
                op: LikeOperator::Regexp,
                rhs: Box::new(right),
                escape: None,
            },
        );
    }
    match map_binary_operator(op.as_str()) {
        Some(o) => Ok(Expr::Binary(Box::new(left), o, Box::new(right))),
        None => fail2("Unsupported operator: ", op.as_str()),
    }
}

/// Translates `lhs [NOT] IN (list)`.
fn translate_in_expr(a: &AExpr) -> (r: Result<Expr, ParseError>)
    requires
        a.kind == AExprKind::AexprIn,
    ensures
        agrees(r, tr_a_expr(*a)),
    decreases a, 0int,
{
    let lhs = match &a.lexpr {
        Some(l) => match translate_expr(l) {
            Ok(v) => v,
            Err(e) => {
                return Err(e);
            },
        },
        None => {
            return fail("Missing left expression for IN operator");
        },
    };
    let rhs = match &a.rexpr {
        Some(x) => match &**x {
            PgNode::List(items) => match translate_exprs(items) {
                Ok(vs) => vs,
                Err(e) => {
                    return Err(e);
                },
            },
            _ => {
                return fail("Expected list for IN operator right side");
            },
        },
        None => {
            return fail("Missing right expression for IN operator");
        },
    };
    let not = a.name.len() > 0 && match &a.name[0] {
        PgNode::String(v) => str_eq(v.as_str(), "<>"),
        _ => false,
    };
    Ok(Expr::InList { lhs: Box::new(lhs), not, rhs })
}

/// Translates `lhs [NOT] LIKE rhs`.
fn translate_like_expr(a: &AExpr) -> (r: Result<Expr, ParseError>)
    requires
        a.kind == AExprKind::AexprLike,
    ensures
        agrees(r, tr_a_expr(*a)),
    decreases a, 0int,
{
    if a.name.len() == 0 {
        return fail("Missing LIKE operator name");
    }
    let op_name = match &a.name[0] {
        PgNode::String(v) => v,
        _ => {
            return fail("Invalid LIKE operator name");
        },
    };
    proof {
        reveal_strlit("~~");
        reveal_strlit("!~~");
    }
    let is_like = str_eq(op_name.as_str(), "~~");
    let not = str_eq(op_name.as_str(), "!~~");
    if !is_like && !not {
        return fail2("Unsupported LIKE operator: ", op_name.as_str());
    }
    let lhs = match &a.lexpr {
        Some(l) => match translate_expr(l) {
            Ok(v) => v,
            Err(e) => {
                return Err(e);
            },
        },
        None => {
            return fail("Missing left expression for LIKE operator");
        },
    };
    let rhs = match &a.rexpr {
        Some(x) => match translate_expr(x) {
            Ok(v) => v,
            Err(e) => {
                return Err(e);
            },
        },
        None => {
            return fail("Missing right expression for LIKE operator");
        },
    };
    Ok(Expr::Like { lhs: Box::new(lhs), not, op: LikeOperator::Like, rhs: Box::new(rhs), escape: None })
}

/// `vs[0] op vs[1] op ...`, grouped to the left.
fn fold_with(vs: Vec<Expr>, op: Operator) -> (r: Expr)
    requires
        vs@.len() > 0,
    ensures
        r@ == fold_binary(exprs_view(vs@)[0], exprs_view(vs@).subrange(1, vs@.len() as int), op),
{
    let ghost all = exprs_view(vs@);
    proof {
        crate::ast::lemma_exprs_view(vs@);
    }
    let mut rest = vs;
    let mut acc = rest.remove(0);
    proof {
        crate::ast::lemma_exprs_view(rest@);
        assert(exprs_view(rest@) =~= all.subrange(1, all.len() as int));
    }
    while rest.len() > 0
        invariant
            fold_binary(acc@, exprs_view(rest@), op) == fold_binary(all[0], all.subrange(1, all.len() as int), op),
        decreases rest.len(),
    {
        let ghost before = rest@;
        let x = rest.remove(0);
        proof {
            crate::ast::lemma_exprs_view(before);
            crate::ast::lemma_exprs_view(rest@);
            assert(exprs_view(before)[0] == expr_view(x));
            assert(exprs_view(before).subrange(1, before.len() as int) =~= exprs_view(rest@));
        }
        acc = Expr::Binary(Box::new(acc), op, Box::new(x));
    }
    assert(exprs_view(rest@) =~= Seq::<ExprV>::empty());
    acc
}

/// Translates AND / OR / NOT.
fn translate_bool_expr(b: &BoolExpr) -> (r: Result<Expr, ParseError>)
    ensures
        agrees(r, tr_bool_expr(*b)),
    decreases b, 0int,
{
    if b.args.len() == 0 {
        return fail("BoolExpr must have at least 1 argument");
    }
    match b.boolop {
        BoolExprType::NotExpr => {
            if b.args.len() != 1 {
                return fail("NOT expression must have exactly 1 argument");
            }
            proof {
                assert(decreases_to!(b => b.args@[0]));
            }
            match translate_expr(&b.args[0]) {
                Ok(v) => Ok(Expr::Unary(UnaryOperator::Not, Box::new(v))),
                Err(e) => Err(e),
            }
        },
        BoolExprType::AndExpr => {
            if b.args.len() < 2 {
                return fail("AND expression must have at least 2 arguments");
            }
            match translate_exprs(&b.args) {
                Ok(vs) => {
                    proof {
                        crate::ast::lemma_exprs_view(vs@);
                    }
                    Ok(fold_with(vs, Operator::And))
                },
                Err(e) => Err(e),
            }
        },
        BoolExprType::OrExpr => {
            if b.args.len() < 2 {
                return fail("OR expression must have at least 2 arguments");
            }
            match translate_exprs(&b.args) {
                Ok(vs) => {
                    proof {
                        crate::ast::lemma_exprs_view(vs@);
                    }
                    Ok(fold_with(vs, Operator::Or))
                },
                Err(e) => Err(e),
            }
        },
        BoolExprType::Undefined => fail("Unsupported BoolExpr type: Undefined"),
    }
}

/// Translates a function call.
fn translate_func_call(f: &FuncCall) -> (r: Result<Expr, ParseError>)
    ensures
        agrees(r, tr_func_call(*f)),
    decreases f, 0int,
{
    let name = match last_string_value(&f.funcname) {
        Some(n) => n,
        None => {
            return fail("Missing function name");
        },
    };
    if f.agg_star {
        return Ok(Expr::FunctionCallStar { name });
    }
    match translate_exprs(&f.args) {
        Ok(args) => Ok(
            Expr::FunctionCall {
                name,
                distinctness: if f.agg_distinct { Some(Distinctness::Distinct) } else { None },
                args,
            },
        ),
        Err(e) => Err(e),
    }
}

/// Translates the WHEN arms of a CASE expression.
fn translate_when_arms(s: &Vec<PgNode>) -> (r: Result<Vec<(Expr, Expr)>, ParseError>)
    ensures
        match r {
            Ok(v) => tr_when_arms(s@) == Ok::<Seq<(ExprV, ExprV)>, Seq<char>>(pairs_view(v@)),
            Err(ParseError::ParseError(m)) => tr_when_arms(s@) == Err::<Seq<(ExprV, ExprV)>, Seq<char>>(m@),
        },
    decreases s, 0int,
{
    let mut out: Vec<(Expr, Expr)> = Vec::new();
    let mut i: usize = 0;
    proof {
        assert(s@.subrange(0, s@.len() as int) =~= s@);
        assert(pairs_view(out@) =~= Seq::<(ExprV, ExprV)>::empty());
        if let Ok(ws) = tr_when_arms(s@) {
            assert(Seq::<(ExprV, ExprV)>::empty() + ws =~= ws);
        }
    }
    while i < s.len()
        invariant
            i <= s@.len(),
            tr_when_arms(s@) == prepend_ok(pairs_view(out@), tr_when_arms(s@.subrange(i as int, s@.len() as int))),
        decreases s.len() - i,
    {
        proof {
            lemma_tr_when_arms_step(s@, i as int);
            assert(decreases_to!(s => s@[i as int]));
        }
        match &s[i] {
            PgNode::CaseWhen(cw) => {
                let w = match &cw.expr {
                    Some(x) => match translate_expr(x) {
                        Ok(v) => v,
                        Err(e) => {
                            return Err(e);
                        },
                    },
                    None => {
                        return fail("CASE WHEN missing condition");
                    },
                };
                let t = match &cw.result {
                    Some(x) => match translate_expr(x) {
                        Ok(v) => v,
                        Err(e) => {
                            return Err(e);
                        },
                    },
                    None => {
                        return fail("CASE WHEN missing THEN result");
                    },
                };
                proof {
                    lemma_prepend_cons(
                        pairs_view(out@),
                        (expr_view(w), expr_view(t)),
                        tr_when_arms(s@.subrange(i + 1, s@.len() as int)),
                    );
                    lemma_pairs_view_push(out@, (w, t));
                }
                out.push((w, t));
            },
            _ => {
                return fail("Expected CaseWhen node in CASE expression");
            },
        }
        i = i + 1;
    }
    proof {
        assert(s@.subrange(i as int, s@.len() as int) =~= Seq::<PgNode>::empty());
        assert(pairs_view(out@) + Seq::<(ExprV, ExprV)>::empty() =~= pairs_view(out@));
    }
    Ok(out)
}

/// Translates a CASE expression.
fn translate_case_expr(c: &CaseExpr) -> (r: Result<Expr, ParseError>)
    ensures
        agrees(r, tr_case_expr(*c)),
    decreases c, 0int,
{
    let base = match &c.arg {
        Some(x) => match translate_expr(x) {
            Ok(v) => Some(Box::new(v)),
            Err(e) => {
                return Err(e);
            },
        },
        None => None,
    };
    let arms = match translate_when_arms(&c.args) {
        Ok(v) => v,
        Err(e) => {
            return Err(e);
        },
    };
    let else_expr = match &c.defresult {
        Some(x) => match translate_expr(x) {
            Ok(v) => Some(Box::new(v)),
            Err(e) => {
                return Err(e);
            },
        },
        None => None,
    };
    Ok(Expr::Case { base, when_then_pairs: arms, else_expr })
}

// ---------------------------------------------------------------------------
// Statements: specification
// ---------------------------------------------------------------------------

/// The table name used for a PostgreSQL table name whose lower-case form is
/// `lower`: the `pg_tables` and `information_schema.tables` views read the
/// SQLite schema table, `information_schema.columns` reads
/// `pragma_table_info`; every other name (the `pg_catalog` tables among them,
/// which exist as virtual tables) is kept as written.
pub open spec fn mapped_table_name(lower: Seq<char>, name: Seq<char>) -> Seq<char> {
    if lower == "pg_tables"@ || lower == "information_schema.tables"@ {
        "sqlite_master"@
    } else if lower == "information_schema.columns"@ {
        "pragma_table_info"@
    } else {
        name
    }
}

/// The table name used for the PostgreSQL table name `name`.
pub open spec fn table_name(name: Seq<char>) -> Seq<char> {
    mapped_table_name(crate::text::unicode_lower(name), name)
}

/// Translation of a table reference.
pub open spec fn tr_range_var(rv: RangeVar) -> SelectTableV {
    SelectTableV::Table(
        table_name(rv.relname@),
        match rv.alias {
            Some(a) => Some(a@),
            None => None,
        },
    )
}

/// The join operator for a PostgreSQL join type (a plain JOIN for the kinds
/// without an equivalent).
pub open spec fn join_operator(t: JoinType) -> JoinOperator {
    match t {
        JoinType::JoinInner => JoinOperator::TypedJoin(Some(crate::ast::JoinType::Inner)),
        JoinType::JoinLeft => JoinOperator::TypedJoin(Some(crate::ast::JoinType::LeftOuter)),
        JoinType::JoinRight => JoinOperator::TypedJoin(Some(crate::ast::JoinType::RightOuter)),
        JoinType::JoinFull => JoinOperator::TypedJoin(Some(crate::ast::JoinType::FullOuter)),
        _ => JoinOperator::TypedJoin(None),
    }
}

/// A table joined with `,`.
pub open spec fn comma_join(t: SelectTableV) -> JoinedSelectTableV {
    JoinedSelectTableV { operator: JoinOperator::Comma, table: t, constraint: None }
}

/// A join tree flattened from the left: its first table, then every table
/// joined to it in order (the joins of the left side, those of the right
/// side, then the right table itself with this join's operator and ON
/// condition).
pub open spec fn flat_join(j: JoinExpr) -> Result<(SelectTableV, Seq<JoinedSelectTableV>), Seq<char>>
    decreases j,
{
    let left: Result<(SelectTableV, Seq<JoinedSelectTableV>), Seq<char>> = match j.larg {
        None => Err("Missing left side of JOIN"@),
        Some(l) => match *l {
            PgNode::RangeVar(rv) => Ok((tr_range_var(rv), Seq::empty())),
            PgNode::JoinExpr(n) => flat_join(*n),
            other => Err("Unsupported left side of JOIN: "@ + node_kind(other)),
        },
    };
    match left {
        Err(m) => Err(m),
        Ok((primary, ljoins)) => {
            let right: Result<(SelectTableV, Seq<JoinedSelectTableV>), Seq<char>> = match j.rarg {
                None => Err("Missing right side of JOIN"@),
                Some(r) => match *r {
                    PgNode::RangeVar(rv) => Ok((tr_range_var(rv), Seq::empty())),
                    PgNode::JoinExpr(n) => flat_join(*n),
                    other => Err("Unsupported right side of JOIN: "@ + node_kind(other)),
                },
            };
            match right {
                Err(m) => Err(m),
                Ok((table, rjoins)) => {
                    let constraint: Result<Option<ExprV>, Seq<char>> = match j.quals {
                        Some(q) => match tr_expr(*q) {
                            Ok(c) => Ok(Some(c)),
                            Err(m) => Err(m),
                        },
                        None => Ok(None),
                    };
                    match constraint {
                        Err(m) => Err(m),
                        Ok(c) => Ok(
                            (
                                primary,
                                ljoins + rjoins + seq![
                                    JoinedSelectTableV {
                                        operator: join_operator(j.jointype),
                                        table,
                                        constraint: c,
                                    },
                                ],
                            ),
                        ),
                    }
                },
            }
        },
    }
}

/// Translation of the first FROM item.
pub open spec fn tr_from_clause(n: PgNode) -> Result<FromClauseV, Seq<char>> {
    match n {
        PgNode::RangeVar(rv) => Ok(FromClauseV { select: tr_range_var(rv), joins: Seq::empty() }),
        PgNode::JoinExpr(j) => match flat_join(*j) {
            Ok((t, js)) => Ok(FromClauseV { select: t, joins: js }),
            Err(m) => Err(m),
        },
        other => Err("Unsupported FROM clause type: "@ + node_kind(other)),
    }
}

/// Translation of a non-empty list of FROM items: the first is the primary
/// table, each further one is joined with `,` (a join tree there brings its
/// own joins first).
pub open spec fn tr_from_items(items: Seq<PgNode>) -> Result<FromClauseV, Seq<char>>
    decreases items.len(),
{
    if items.len() <= 1 {
        tr_from_clause(items[0])
    } else {
        match tr_from_items(items.drop_last()) {
            Err(m) => Err(m),
            Ok(fc) => match items.last() {
                PgNode::RangeVar(rv) => Ok(
                    FromClauseV { select: fc.select, joins: fc.joins.push(comma_join(tr_range_var(rv))) },
                ),
                PgNode::JoinExpr(j) => match flat_join(*j) {
                    Ok((t, js)) => Ok(FromClauseV { select: fc.select, joins: fc.joins + js.push(comma_join(t)) }),
                    Err(m) => Err(m),
                },
                other => Err("Unsupported FROM item type: "@ + node_kind(other)),
            },
        }
    }
}

/// `*` or `table.*` in a SELECT list.
pub open spec fn is_star(v: PgNode) -> bool {
    ||| v is AStar
    ||| (v matches PgNode::ColumnRef(f) && f@.len() > 0 && f@[0] is AStar)
}

/// Translation of one SELECT-list entry (`None` for an entry without a
/// value).
pub open spec fn tr_target(n: PgNode) -> Result<Option<ResultColumnV>, Seq<char>> {
    match n {
        PgNode::ResTarget(rt) => match rt.val {
            None => Ok(None),
            Some(v) => if is_star(*v) {
                Ok(Some(ResultColumnV::Star))
            } else {
                match tr_expr(*v) {
                    Ok(e) => Ok(Some(ResultColumnV::Expr(e, if rt.name@.len() == 0 { None } else { Some(rt.name@) }))),
                    Err(m) => Err(m),
                }
            },
        },
        _ => Err("Unsupported target list item"@),
    }
}

/// Translation of a SELECT list; the first error wins.
pub open spec fn tr_target_list(s: Seq<PgNode>) -> Result<Seq<ResultColumnV>, Seq<char>>
    decreases s.len(),
{
    if s.len() == 0 {
        Ok(Seq::empty())
    } else {
        match tr_target_list(s.drop_last()) {
            Err(m) => Err(m),
            Ok(cols) => match tr_target(s.last()) {
                Err(m) => Err(m),
                Ok(None) => Ok(cols),
                Ok(Some(c)) => Ok(cols.push(c)),
            },
        }
    }
}

/// The sort order written in an ORDER BY term, if any.
pub open spec fn sort_order(d: SortByDir) -> Option<SortOrder> {
    match d {
        SortByDir::SortbyAsc => Some(SortOrder::Asc),
        SortByDir::SortbyDesc => Some(SortOrder::Desc),
        _ => None,
    }
}

/// Translation of one ORDER BY term.
pub open spec fn tr_sort_item(n: PgNode) -> Result<SortedColumnV, Seq<char>> {
    match n {
        PgNode::SortBy(sb) => match sb.node {
            None => Err("Missing sort expression"@),
            Some(x) => match tr_expr(*x) {
                Ok(e) => Ok(SortedColumnV { expr: e, order: sort_order(sb.sortby_dir) }),
                Err(m) => Err(m),
            },
        },
        other => Err("Unsupported ORDER BY clause item: "@ + node_kind(other)),
    }
}

/// Translation of an ORDER BY list; the first error wins.
pub open spec fn tr_order_by(s: Seq<PgNode>) -> Result<Seq<SortedColumnV>, Seq<char>>
    decreases s.len(),
{
    if s.len() == 0 {
        Ok(Seq::empty())
    } else {
        match tr_order_by(s.drop_last()) {
            Err(m) => Err(m),
            Ok(cols) => match tr_sort_item(s.last()) {
                Err(m) => Err(m),
                Ok(c) => Ok(cols.push(c)),
            },
        }
    }
}

/// Translation of a simple SELECT (without its ORDER BY): FROM, then the
/// SELECT list, then WHERE.
pub open spec fn tr_one_select(s: SelectStmt) -> Result<OneSelectV, Seq<char>> {
    let from: Result<Option<FromClauseV>, Seq<char>> = if s.from_clause@.len() == 0 {
        Ok(None)
    } else {
        match tr_from_items(s.from_clause@) {
            Ok(f) => Ok(Some(f)),
            Err(m) => Err(m),
        }
    };
    match from {
        Err(m) => Err(m),
        Ok(f) => if s.target_list@.len() == 0 {
            Err("Empty target list"@)
        } else {
            match tr_target_list(s.target_list@) {
                Err(m) => Err(m),
                Ok(cols) => {
                    let w: Result<Option<ExprV>, Seq<char>> = match s.where_clause {
                        Some(x) => match tr_expr(*x) {
                            Ok(e) => Ok(Some(e)),
                            Err(m) => Err(m),
                        },
                        None => Ok(None),
                    };
                    match w {
                        Err(m) => Err(m),
                        Ok(wv) => Ok(OneSelectV { columns: cols, from: f, where_clause: wv }),
                    }
                },
            }
        },
    }
}

/// Whether a SELECT is a UNION / INTERSECT / EXCEPT.
pub open spec fn is_set_operation(s: SelectStmt) -> bool {
    s.op != SetOperation::SetopNone && s.op != SetOperation::Undefined
}

/// The compound operator of a set operation.
pub open spec fn compound_operator(op: SetOperation, all: bool) -> CompoundOperator {
    if op == SetOperation::SetopUnion {
        if all { CompoundOperator::UnionAll } else { CompoundOperator::Union }
    } else if op == SetOperation::SetopIntersect {
        CompoundOperator::Intersect
    } else {
        CompoundOperator::Except
    }
}

/// The simple SELECTs of a tree of set operations, left to right, each with
/// the operator that joins it to the ones before it (the leftmost of each
/// right operand takes its parent's operator).
pub open spec fn flatten_set(s: SelectStmt) -> Seq<(Option<CompoundOperator>, SelectStmt)>
    decreases s,
{
    if !is_set_operation(s) {
        seq![(None, s)]
    } else {
        let l = match s.larg {
            Some(x) => flatten_set(*x),
            None => Seq::empty(),
        };
        let r = match s.rarg {
            Some(x) => flatten_set(*x),
            None => Seq::empty(),
        };
        l + if r.len() > 0 {
            r.update(0, (Some(compound_operator(s.op, s.all)), r[0].1))
        } else {
            r
        }
    }
}

/// Translation of the parts of a set operation after the first; the first
/// error wins.
pub open spec fn tr_compounds(parts: Seq<(Option<CompoundOperator>, SelectStmt)>) -> Result<
    Seq<CompoundSelectV>,
    Seq<char>,
>
    decreases parts.len(),
{
    if parts.len() == 0 {
        Ok(Seq::empty())
    } else {
        match tr_compounds(parts.drop_last()) {
            Err(m) => Err(m),
            Ok(cs) => match parts.last().0 {
                None => Err("Missing compound operator"@),
                Some(op) => match tr_one_select(parts.last().1) {
                    Ok(o) => Ok(cs.push(CompoundSelectV { operator: op, select: o })),
                    Err(m) => Err(m),
                },
            },
        }
    }
}

/// Translation of a set operation; its ORDER BY is dropped.
pub open spec fn tr_set_operation(s: SelectStmt) -> Result<SelectV, Seq<char>> {
    let parts = flatten_set(s);
    if parts.len() == 0 {
        Err("Empty set operation"@)
    } else {
        match tr_one_select(parts[0].1) {
            Err(m) => Err(m),
            Ok(first) => match tr_compounds(parts.subrange(1, parts.len() as int)) {
                Err(m) => Err(m),
                Ok(cs) => Ok(SelectV { select: first, compounds: cs, order_by: Seq::empty() }),
            },
        }
    }
}

/// Translation of a SELECT statement.
pub open spec fn tr_select(s: SelectStmt) -> Result<SelectV, Seq<char>> {
    if is_set_operation(s) {
        tr_set_operation(s)
    } else {
        match tr_one_select(s) {
            Err(m) => Err(m),
            Ok(o) => match tr_order_by(s.sort_clause@) {
                Err(m) => Err(m),
                Ok(ob) => Ok(SelectV { select: o, compounds: Seq::empty(), order_by: ob }),
            },
        }
    }
}

/// The first statement that has content.
pub open spec fn first_stmt(s: Seq<PgNode>) -> Option<PgNode>
    decreases s.len(),
{
    if s.len() == 0 {
        None
    } else if s[0] is Empty {
        first_stmt(s.subrange(1, s.len() as int))
    } else {
        Some(s[0])
    }
}

/// Translation of a parsed query string: its first statement.
pub open spec fn tr_parse_result(p: ParseResult) -> Result<StmtV, Seq<char>> {
    match first_stmt(p.stmts@) {
        None => Err("No statements found"@),
        Some(n) => match n {
            PgNode::SelectStmt(s) => match tr_select(*s) {
                Ok(v) => Ok(StmtV::Select(v)),
                Err(m) => Err(m),
            },
            PgNode::InsertStmt => Err("INSERT statements not yet supported"@),
            PgNode::UpdateStmt => Err("UPDATE statements not yet supported"@),
            PgNode::DeleteStmt => Err("DELETE statements not yet supported"@),
            PgNode::CreateStmt => Err("CREATE statements not yet supported"@),
            other => Err("Unsupported statement type: "@ + node_kind(other)),
        },
    }
}

// ---------------------------------------------------------------------------
// Statements: translation
// ---------------------------------------------------------------------------

proof fn lemma_tr_from_items_err(s: Seq<PgNode>, i: int)
    requires
        1 <= i <= s.len(),
        tr_from_items(s.subrange(0, i)) is Err,
    ensures
        tr_from_items(s) == tr_from_items(s.subrange(0, i)),
    decreases s.len(),
{
    if i == s.len() {
        assert(s.subrange(0, i) =~= s);
    } else {
        assert(s.drop_last().subrange(0, i) =~= s.subrange(0, i));
        lemma_tr_from_items_err(s.drop_last(), i);
    }
}

proof fn lemma_tr_target_list_err(s: Seq<PgNode>, i: int)
    requires
        0 <= i <= s.len(),
        tr_target_list(s.subrange(0, i)) is Err,
    ensures
        tr_target_list(s) == tr_target_list(s.subrange(0, i)),
    decreases s.len(),
{
    if i == s.len() {
        assert(s.subrange(0, i) =~= s);
    } else {
        assert(s.drop_last().subrange(0, i) =~= s.subrange(0, i));
        lemma_tr_target_list_err(s.drop_last(), i);
    }
}

proof fn lemma_tr_order_by_err(s: Seq<PgNode>, i: int)
    requires
        0 <= i <= s.len(),
        tr_order_by(s.subrange(0, i)) is Err,
    ensures
        tr_order_by(s) == tr_order_by(s.subrange(0, i)),
    decreases s.len(),
{
    if i == s.len() {
        assert(s.subrange(0, i) =~= s);
    } else {
        assert(s.drop_last().subrange(0, i) =~= s.subrange(0, i));
        lemma_tr_order_by_err(s.drop_last(), i);
    }
}

proof fn lemma_tr_compounds_err(s: Seq<(Option<CompoundOperator>, SelectStmt)>, i: int)
    requires
        0 <= i <= s.len(),
        tr_compounds(s.subrange(0, i)) is Err,
    ensures
        tr_compounds(s) == tr_compounds(s.subrange(0, i)),
    decreases s.len(),
{
    if i == s.len() {
        assert(s.subrange(0, i) =~= s);
    } else {
        assert(s.drop_last().subrange(0, i) =~= s.subrange(0, i));
        lemma_tr_compounds_err(s.drop_last(), i);
    }
}

/// The table name used for a PostgreSQL table name `name` whose lower-case
/// form is `lower`.
pub fn table_name_for_lower(lower: &str, name: &str) -> (r: String)
    ensures
        r@ == mapped_table_name(lower@, name@),
{
    if str_eq(lower, "pg_tables") || str_eq(lower, "information_schema.tables") {
        owned("sqlite_master")
    } else if str_eq(lower, "information_schema.columns") {
        owned("pragma_table_info")
    } else {
        owned(name)
    }
}

/// Translates a table reference.
fn translate_range_var(rv: &RangeVar) -> (r: SelectTable)
    ensures
        r@ == tr_range_var(*rv),
{
    let lower = crate::text::to_lowercase(rv.relname.as_str());
    let name = table_name_for_lower(lower.as_str(), rv.relname.as_str());
    let alias = match &rv.alias {
        Some(a) => Some(a.clone()),
        None => None,
    };
    SelectTable::Table(name, alias)
}

/// The join operator for a PostgreSQL join type.
fn join_operator_of(t: JoinType) -> (r: JoinOperator)
    ensures
        r == join_operator(t),
{
    match t {
        JoinType::JoinInner => JoinOperator::TypedJoin(Some(crate::ast::JoinType::Inner)),
        JoinType::JoinLeft => JoinOperator::TypedJoin(Some(crate::ast::JoinType::LeftOuter)),
        JoinType::JoinRight => JoinOperator::TypedJoin(Some(crate::ast::JoinType::RightOuter)),
        JoinType::JoinFull => JoinOperator::TypedJoin(Some(crate::ast::JoinType::FullOuter)),
        _ => JoinOperator::TypedJoin(None),
    }
}

/// Flattens a join tree into its first table and the tables joined to it.
fn flatten_join_tree(j: &JoinExpr) -> (r: Result<(SelectTable, Vec<JoinedSelectTable>), ParseError>)
    ensures
        match r {
            Ok((t, js)) => flat_join(*j) == Ok::<(SelectTableV, Seq<JoinedSelectTableV>), Seq<char>>(
                (t@, joins_view(js@)),
            ),
            Err(ParseError::ParseError(m)) => flat_join(*j) == Err::<
                (SelectTableV, Seq<JoinedSelectTableV>),
                Seq<char>,
            >(m@),
        },
    decreases j,
{
    let (primary, mut joins) = match &j.larg {
        None => {
            return fail("Missing left side of JOIN");
        },
        Some(l) => match &**l {
            PgNode::RangeVar(rv) => {
                let t = translate_range_var(rv);
                let v: Vec<JoinedSelectTable> = Vec::new();
                proof {
                    assert(joins_view(v@) =~= Seq::<JoinedSelectTableV>::empty());
                }
                (t, v)
            },
            PgNode::JoinExpr(n) => match flatten_join_tree(n) {
                Ok(p) => p,
                Err(e) => {
                    return Err(e);
                },
            },
            other => {
                return fail2("Unsupported left side of JOIN: ", other.kind_name());
            },
        },
    };
    let (table, mut rjoins) = match &j.rarg {
        None => {
            return fail("Missing right side of JOIN");
        },
        Some(x) => match &**x {
            PgNode::RangeVar(rv) => {
                let t = translate_range_var(rv);
                let v: Vec<JoinedSelectTable> = Vec::new();
                proof {
                    assert(joins_view(v@) =~= Seq::<JoinedSelectTableV>::empty());
                }
                (t, v)
            },
            PgNode::JoinExpr(n) => match flatten_join_tree(n) {
                Ok(p) => p,
                Err(e) => {
                    return Err(e);
                },
            },
            other => {
                return fail2("Unsupported right side of JOIN: ", other.kind_name());
            },
        },
    };
    let operator = join_operator_of(j.jointype);
    let constraint = match &j.quals {
        Some(q) => match translate_expr(q) {
            Ok(c) => Some(c),
            Err(e) => {
                return Err(e);
            },
        },
        None => None,
    };
    let ghost lv = joins@;
    let ghost rv = rjoins@;
    joins.append(&mut rjoins);
    let joined = JoinedSelectTable { operator, table, constraint };
    let ghost jv = joined@;
    joins.push(joined);
    proof {
        assert(joins_view(joins@) =~= joins_view(lv) + joins_view(rv) + seq![jv]);
    }
    Ok((primary, joins))
}

/// Translates the first FROM item.
fn translate_from_clause(n: &PgNode) -> (r: Result<FromClause, ParseError>)
    ensures
        agrees(r, tr_from_clause(*n)),
{
    match n {
        PgNode::RangeVar(rv) => {
            let fc = FromClause { select: translate_range_var(rv), joins: Vec::new() };
            proof {
                assert(joins_view(fc.joins@) =~= Seq::<JoinedSelectTableV>::empty());
            }
            Ok(fc)
        },
        PgNode::JoinExpr(j) => match flatten_join_tree(j) {
            Ok((t, js)) => Ok(FromClause { select: t, joins: js }),
            Err(e) => Err(e),
        },
        other => fail2("Unsupported FROM clause type: ", other.kind_name()),
    }
}

/// Translates a non-empty list of FROM items.
fn translate_from_items(items: &Vec<PgNode>) -> (r: Result<FromClause, ParseError>)
    requires
        items@.len() > 0,
    ensures
        agrees(r, tr_from_items(items@)),
{
    proof {
        assert(items@.subrange(0, 1)[0] == items@[0]);
    }
    let mut fc = match translate_from_clause(&items[0]) {
        Ok(f) => f,
        Err(e) => {
            proof {
                lemma_tr_from_items_err(items@, 1);
            }
            return Err(e);
        },
    };
    let mut i: usize = 1;
    while i < items.len()
        invariant
            1 <= i <= items@.len(),
            tr_from_items(items@.subrange(0, i as int)) == Ok::<FromClauseV, Seq<char>>(fc@),
        decreases items.len() - i,
    {
        let ghost pre = items@.subrange(0, i + 1);
        assert(pre.drop_last() =~= items@.subrange(0, i as int));
        assert(pre.last() == items@[i as int]);
        let ghost before = fc.joins@;
        match &items[i] {
            PgNode::RangeVar(rv) => {
                let t = translate_range_var(rv);
                let joined = JoinedSelectTable { operator: JoinOperator::Comma, table: t, constraint: None };
                let ghost jv = joined@;
                fc.joins.push(joined);
                proof {
                    assert(joins_view(fc.joins@) =~= joins_view(before).push(jv));
                }
            },
            PgNode::JoinExpr(j) => match flatten_join_tree(j) {
                Ok((t, mut js)) => {
                    let ghost nested = js@;
                    fc.joins.append(&mut js);
                    let joined = JoinedSelectTable { operator: JoinOperator::Comma, table: t, constraint: None };
                    let ghost jv = joined@;
                    fc.joins.push(joined);
                    proof {
                        assert(joins_view(fc.joins@) =~= joins_view(before) + joins_view(nested).push(jv));
                    }
                },
                Err(e) => {
                    proof {
                        lemma_tr_from_items_err(items@, i + 1);
                    }
                    return Err(e);
                },
            },
            other => {
                proof {
                    lemma_tr_from_items_err(items@, i + 1);
                }
                return fail2("Unsupported FROM item type: ", other.kind_name());
            },
        }
        i = i + 1;
    }
    proof {
        assert(items@.subrange(0, items@.len() as int) =~= items@);
    }
    Ok(fc)
}

/// Translates one SELECT-list entry.
fn translate_target(n: &PgNode) -> (r: Result<Option<ResultColumn>, ParseError>)
    ensures
        match r {
            Ok(Some(c)) => tr_target(*n) == Ok::<Option<ResultColumnV>, Seq<char>>(Some(c@)),
            Ok(None) => tr_target(*n) == Ok::<Option<ResultColumnV>, Seq<char>>(None),
            Err(ParseError::ParseError(m)) => tr_target(*n) == Err::<Option<ResultColumnV>, Seq<char>>(m@),
        },
{
    match n {
        PgNode::ResTarget(rt) => match &rt.val {
            None => Ok(None),
            Some(v) => {
                let star = match &**v {
                    PgNode::AStar => true,
                    PgNode::ColumnRef(f) => f.len() > 0 && match &f[0] {
                        PgNode::AStar => true,
                        _ => false,
                    },
                    _ => false,
                };
                if star {
                    Ok(Some(ResultColumn::Star))
                } else {
                    match translate_expr(v) {
                        Ok(e) => {
                            let alias = if rt.name.as_str().unicode_len() == 0 {
                                None
                            } else {
                                Some(rt.name.clone())
                            };
                            Ok(Some(ResultColumn::Expr(e, alias)))
                        },
                        Err(e) => Err(e),
                    }
                }
            },
        },
        _ => fail("Unsupported target list item"),
    }
}

/// Translates a SELECT list.
fn translate_target_list(s: &Vec<PgNode>) -> (r: Result<Vec<ResultColumn>, ParseError>)
    ensures
        match r {
            Ok(v) => tr_target_list(s@) == Ok::<Seq<ResultColumnV>, Seq<char>>(columns_view(v@)),
            Err(ParseError::ParseError(m)) => tr_target_list(s@) == Err::<Seq<ResultColumnV>, Seq<char>>(m@),
        },
{
    let mut out: Vec<ResultColumn> = Vec::new();
    let mut i: usize = 0;
    proof {
        assert(s@.subrange(0, 0) =~= Seq::<PgNode>::empty());
        assert(columns_view(out@) =~= Seq::<ResultColumnV>::empty());
    }
    while i < s.len()
        invariant
            i <= s@.len(),
            tr_target_list(s@.subrange(0, i as int)) == Ok::<Seq<ResultColumnV>, Seq<char>>(columns_view(out@)),
        decreases s.len() - i,
    {
        let ghost pre = s@.subrange(0, i + 1);
        assert(pre.drop_last() =~= s@.subrange(0, i as int));
        assert(pre.last() == s@[i as int]);
        let ghost before = out@;
        match translate_target(&s[i]) {
            Ok(Some(c)) => {
                let ghost cv = c@;
                out.push(c);
                proof {
                    assert(columns_view(out@) =~= columns_view(before).push(cv));
                }
            },
            Ok(None) => {},
            Err(e) => {
                proof {
                    lemma_tr_target_list_err(s@, i + 1);
                }
                return Err(e);
            },
        }
        i = i + 1;
    }
    proof {
        assert(s@.subrange(0, s@.len() as int) =~= s@);
    }
    Ok(out)
}

/// The sort order written in an ORDER BY term.
fn sort_order_of(d: SortByDir) -> (r: Option<SortOrder>)
    ensures
        r == sort_order(d),
{
    match d {
        SortByDir::SortbyAsc => Some(SortOrder::Asc),
        SortByDir::SortbyDesc => Some(SortOrder::Desc),
        _ => None,
    }
}

/// Translates an ORDER BY list.
fn translate_order_by(s: &Vec<PgNode>) -> (r: Result<Vec<SortedColumn>, ParseError>)
    ensures
        match r {
            Ok(v) => tr_order_by(s@) == Ok::<Seq<SortedColumnV>, Seq<char>>(sorted_columns_view(v@)),
            Err(ParseError::ParseError(m)) => tr_order_by(s@) == Err::<Seq<SortedColumnV>, Seq<char>>(m@),
        },
{
    let mut out: Vec<SortedColumn> = Vec::new();
    let mut i: usize = 0;
    proof {
        assert(s@.subrange(0, 0) =~= Seq::<PgNode>::empty());
        assert(sorted_columns_view(out@) =~= Seq::<SortedColumnV>::empty());
    }
    while i < s.len()
        invariant
            i <= s@.len(),
            tr_order_by(s@.subrange(0, i as int)) == Ok::<Seq<SortedColumnV>, Seq<char>>(sorted_columns_view(out@)),
        decreases s.len() - i,
    {
        let ghost pre = s@.subrange(0, i + 1);
        assert(pre.drop_last() =~= s@.subrange(0, i as int));
        assert(pre.last() == s@[i as int]);
        let ghost before = out@;
        match &s[i] {
            PgNode::SortBy(sb) => {
                let expr = match &sb.node {
                    Some(x) => match translate_expr(x) {
                        Ok(e) => e,
                        Err(e) => {
                            proof {
                                lemma_tr_order_by_err(s@, i + 1);
                            }
                            return Err(e);
                        },
                    },
                    None => {
                        proof {
                            lemma_tr_order_by_err(s@, i + 1);
                        }
                        return fail("Missing sort expression");
                    },
                };
                let c = SortedColumn { expr, order: sort_order_of(sb.sortby_dir) };
                let ghost cv = c@;
                out.push(c);
                proof {
                    assert(sorted_columns_view(out@) =~= sorted_columns_view(before).push(cv));
                }
            },
            other => {
                proof {
                    lemma_tr_order_by_err(s@, i + 1);
                }
                return fail2("Unsupported ORDER BY clause item: ", other.kind_name());
            },
        }
        i = i + 1;
    }
    proof {
        assert(s@.subrange(0, s@.len() as int) =~= s@);
    }
    Ok(out)
}

/// Translates a simple SELECT (without its ORDER BY).
fn translate_one_select(s: &SelectStmt) -> (r: Result<OneSelect, ParseError>)
    ensures
        agrees(r, tr_one_select(*s)),
{
    let from = if s.from_clause.len() == 0 {
        None
    } else {
        match translate_from_items(&s.from_clause) {
            Ok(f) => Some(f),
            Err(e) => {
                return Err(e);
            },
        }
    };
    if s.target_list.len() == 0 {
        return fail("Empty target list");
    }
    let columns = match translate_target_list(&s.target_list) {
        Ok(c) => c,
        Err(e) => {
            return Err(e);
        },
    };
    let where_clause = match &s.where_clause {
        Some(x) => match translate_expr(x) {
            Ok(e) => Some(e),
            Err(e) => {
                return Err(e);
            },
        },
        None => None,
    };
    Ok(OneSelect { columns, from, where_clause })
}

/// The simple SELECTs of a tree of set operations, appended to `parts`.
fn flatten_set_operation<'a>(stmt: &'a SelectStmt, parts: &mut Vec<(Option<CompoundOperator>, &'a SelectStmt)>)
    ensures
        final(parts)@.len() == old(parts)@.len() + flatten_set(*stmt).len(),
        forall|i: int| 0 <= i < old(parts)@.len() ==> #[trigger] final(parts)@[i] == old(parts)@[i],
        forall|i: int|
            0 <= i < flatten_set(*stmt).len() ==> #[trigger] flatten_set(*stmt)[i] == (
                final(parts)@[old(parts)@.len() + i].0,
                *final(parts)@[old(parts)@.len() + i].1,
            ),
    decreases stmt,
{
    if stmt.op == SetOperation::SetopNone || stmt.op == SetOperation::Undefined {
        parts.push((None, stmt));
        return;
    }
    let operator = if stmt.op == SetOperation::SetopUnion {
        if stmt.all { CompoundOperator::UnionAll } else { CompoundOperator::Union }
    } else if stmt.op == SetOperation::SetopIntersect {
        CompoundOperator::Intersect
    } else {
        CompoundOperator::Except
    };
    let ghost start = parts@.len();
    let ghost l = match &stmt.larg {
        Some(x) => flatten_set(**x),
        None => Seq::empty(),
    };
    let ghost r = match &stmt.rarg {
        Some(x) => flatten_set(**x),
        None => Seq::empty(),
    };
    if let Some(larg) = &stmt.larg {
        flatten_set_operation(larg, parts);
    }
    let ghost mid = parts@;
    let prev = parts.len();
    if let Some(rarg) = &stmt.rarg {
        flatten_set_operation(rarg, parts);
        if parts.len() > prev {
            let first = parts[prev].1;
            parts.set(prev, (Some(operator), first));
        }
    }
    proof {
        let f = flatten_set(*stmt);
        let rr = if r.len() > 0 { r.update(0, (Some(compound_operator(stmt.op, stmt.all)), r[0].1)) } else { r };
        assert(f == l + rr);
        assert forall|i: int| 0 <= i < f.len() implies #[trigger] f[i] == (
            parts@[start + i].0,
            *parts@[start + i].1,
        ) by {
            if i < l.len() {
                assert(f[i] == l[i]);
                assert(parts@[start + i] == mid[start + i]);
            } else {
                assert(f[i] == rr[i - l.len()]);
            }
        }
    }
}

/// Translates a set operation.
fn translate_set_operation(stmt: &SelectStmt) -> (r: Result<Select, ParseError>)
    ensures
        agrees(r, tr_set_operation(*stmt)),
{
    let mut parts: Vec<(Option<CompoundOperator>, &SelectStmt)> = Vec::new();
    flatten_set_operation(stmt, &mut parts);
    let ghost f = flatten_set(*stmt);
    if parts.len() == 0 {
        return fail("Empty set operation");
    }
    assert(f[0] == (parts@[0].0, *parts@[0].1));
    let first = match translate_one_select(parts[0].1) {
        Ok(o) => o,
        Err(e) => {
            return Err(e);
        },
    };
    let ghost rest = f.subrange(1, f.len() as int);
    let mut compounds: Vec<CompoundSelect> = Vec::new();
    let mut k: usize = 1;
    proof {
        assert(rest.subrange(0, 0) =~= Seq::<(Option<CompoundOperator>, SelectStmt)>::empty());
        assert(compounds@.map_values(|c: CompoundSelect| c@) =~= Seq::<CompoundSelectV>::empty());
    }
    while k < parts.len()
        invariant
            1 <= k <= parts@.len(),
            parts@.len() == f.len(),
            f == flatten_set(*stmt),
            tr_one_select(f[0].1) == Ok::<OneSelectV, Seq<char>>(first@),
            rest == f.subrange(1, f.len() as int),
            forall|i: int| 0 <= i < f.len() ==> #[trigger] f[i] == (parts@[i].0, *parts@[i].1),
            tr_compounds(rest.subrange(0, k - 1)) == Ok::<Seq<CompoundSelectV>, Seq<char>>(
                compounds@.map_values(|c: CompoundSelect| c@),
            ),
        decreases parts.len() - k,
    {
        let ghost pre = rest.subrange(0, k as int);
        assert(pre.drop_last() =~= rest.subrange(0, k - 1));
        assert(pre.last() == f[k as int]);
        let ghost before = compounds@;
        let (op, part) = parts[k];
        assert(f[k as int] == (op, *part));
        match op {
            None => {
                proof {
                    lemma_tr_compounds_err(rest, k as int);
                }
                return fail("Missing compound operator");
            },
            Some(o) => match translate_one_select(part) {
                Ok(sel) => {
                    let c = CompoundSelect { operator: o, select: sel };
                    let ghost cv = c@;
                    compounds.push(c);
                    proof {
                        assert(compounds@.map_values(|c: CompoundSelect| c@) =~= before.map_values(
                            |c: CompoundSelect| c@,
                        ).push(cv));
                    }
                },
                Err(e) => {
                    proof {
                        lemma_tr_compounds_err(rest, k as int);
                    }
                    return Err(e);
                },
            },
        }
        k = k + 1;
    }
    proof {
        assert(rest.subrange(0, rest.len() as int) =~= rest);
    }
    let r = Select { body: SelectBody { select: first, compounds }, order_by: Vec::new() };
    proof {
        assert(sorted_columns_view(r.order_by@) =~= Seq::<SortedColumnV>::empty());
    }
    Ok(r)
}

/// Translates a SELECT statement.
fn translate_select(stmt: &SelectStmt) -> (r: Result<Select, ParseError>)
    ensures
        agrees(r, tr_select(*stmt)),
{
    if stmt.op != SetOperation::SetopNone && stmt.op != SetOperation::Undefined {
        return translate_set_operation(stmt);
    }
    let one = match translate_one_select(stmt) {
        Ok(o) => o,
        Err(e) => {
            return Err(e);
        },
    };
    let order_by = match translate_order_by(&stmt.sort_clause) {
        Ok(o) => o,
        Err(e) => {
            return Err(e);
        },
    };
    let r = Select { body: SelectBody { select: one, compounds: Vec::new() }, order_by };
    proof {
        assert(r.body.compounds@.map_values(|c: CompoundSelect| c@) =~= Seq::<CompoundSelectV>::empty());
    }
    Ok(r)
}

/// The index of the first statement that has content, if any.
fn first_stmt_index(s: &Vec<PgNode>) -> (r: Option<usize>)
    ensures
        match r {
            Some(i) => i < s@.len() && first_stmt(s@) == Some(s@[i as int]),
            None => first_stmt(s@) == None::<PgNode>,
        },
{
    let mut i: usize = 0;
    proof {
        assert(s@.subrange(0, s@.len() as int) =~= s@);
    }
    while i < s.len()
        invariant
            i <= s@.len(),
            first_stmt(s@) == first_stmt(s@.subrange(i as int, s@.len() as int)),
        decreases s.len() - i,
    {
        let ghost t = s@.subrange(i as int, s@.len() as int);
        assert(t[0] == s@[i as int]);
        assert(t.subrange(1, t.len() as int) =~= s@.subrange(i + 1, s@.len() as int));
        if let PgNode::Empty = &s[i] {
        } else {
            return Some(i);
        }
        i = i + 1;
    }
    None
}

/// Translates PostgreSQL parse trees into the engine's syntax tree.
pub struct PostgreSQLTranslator {}

impl Default for PostgreSQLTranslator {
    /// A translator; it holds no state.
    fn default() -> (r: Self)
        ensures
            r == (PostgreSQLTranslator {}),
    {
        PostgreSQLTranslator {}
    }
}

impl PostgreSQLTranslator {
    /// A translator, the same as the default one.
    pub fn new() -> (r: Self)
        ensures
            r == (PostgreSQLTranslator {}),
    {
        PostgreSQLTranslator {}
    }

    /// The table name used for the PostgreSQL table name `table_name`.
    pub fn map_table_name(&self, name: &str) -> (r: String)
        ensures
            r@ == table_name(name@),
    {
        let lower = crate::text::to_lowercase(name);
        table_name_for_lower(lower.as_str(), name)
    }

    /// Translates the first statement of a parse result.
    pub fn translate(&self, parse_result: &ParseResult) -> (r: Result<Stmt, ParseError>)
        ensures
            agrees(r, tr_parse_result(*parse_result)),
    {
        let i = match first_stmt_index(&parse_result.stmts) {
            Some(i) => i,
            None => {
                return fail("No statements found");
            },
        };
        match &parse_result.stmts[i] {
            PgNode::SelectStmt(s) => match translate_select(s) {
                Ok(sel) => Ok(Stmt::Select(sel)),
                Err(e) => Err(e),
            },
            PgNode::InsertStmt => fail("INSERT statements not yet supported"),
            PgNode::UpdateStmt => fail("UPDATE statements not yet supported"),
            PgNode::DeleteStmt => fail("DELETE statements not yet supported"),
            PgNode::CreateStmt => fail("CREATE statements not yet supported"),
            other => fail2("Unsupported statement type: ", other.kind_name()),
        }
    }
}

// ---------------------------------------------------------------------------
// Laws
// ---------------------------------------------------------------------------

/// The characters of a quoted string literal: its surrounding quotes
/// removed and doubled quotes made single again.
pub open spec fn unquote(q: Seq<char>) -> Seq<char> {
    crate::text::replace_all(q.subrange(1, q.len() - 1), "''"@, "'"@)
}

proof fn lemma_undouble_doubled(s: Seq<char>)
    ensures
        crate::text::replace_all(crate::text::replace_all(s, "'"@, "''"@), "''"@, "'"@) == s,
    decreases s.len(),
{
    reveal_strlit("'");
    reveal_strlit("''");
    let one: Seq<char> = "'"@;
    let two: Seq<char> = "''"@;
    if s.len() > 0 {
        let rest = s.drop_first();
        lemma_undouble_doubled(rest);
        let d = crate::text::replace_all(rest, one, two);
        if s[0] == '\'' {
            assert(s.subrange(0, 1) =~= one);
            assert(crate::text::has_prefix(s, one));
            assert(s.subrange(1, s.len() as int) =~= rest);
            let x = two + d;
            assert(x.subrange(0, 2) =~= two);
            assert(crate::text::has_prefix(x, two));
            assert(x.subrange(2, x.len() as int) =~= d);
            assert(one + rest =~= s);
        } else {
            assert(s.subrange(0, 1)[0] != one[0]);
            assert(!crate::text::has_prefix(s, one));
            let x = seq![s[0]] + d;
            if x.len() >= 2 {
                assert(x.subrange(0, 2)[0] != two[0]);
            }
            assert(!crate::text::has_prefix(x, two));
            assert(x.drop_first() =~= d);
            assert(seq![s[0]] + rest =~= s);
        }
    }
}

/// A string constant is translated into a literal from which the engine
/// recovers it exactly: removing the surrounding quotes and undoing the
/// doubled quotes gives back the constant's characters.
pub proof fn lemma_string_literal_round_trip(s: Seq<char>)
    ensures
        quoted_literal(s)[0] == '\'',
        quoted_literal(s).last() == '\'',
        unquote(quoted_literal(s)) == s,
{
    reveal_strlit("'");
    reveal_strlit("''");
    let q = quoted_literal(s);
    let inner = crate::text::replace_all(s, "'"@, "''"@);
    assert(q.subrange(1, q.len() - 1) =~= inner);
    lemma_undouble_doubled(s);
}

/// The simple SELECTs of a set operation: none is itself a set operation,
/// and every one after the first carries the operator that joins it to the
/// ones before, so translating a set operation never fails for a missing
/// operator.
pub proof fn lemma_flatten_set_parts(s: SelectStmt)
    ensures
        forall|i: int| 0 <= i < flatten_set(s).len() ==> !is_set_operation(#[trigger] flatten_set(s)[i].1),
        forall|i: int| 1 <= i < flatten_set(s).len() ==> (#[trigger] flatten_set(s)[i]).0 is Some,
    decreases s,
{
    if is_set_operation(s) {
        let l = match s.larg {
            Some(x) => flatten_set(*x),
            None => Seq::empty(),
        };
        let r = match s.rarg {
            Some(x) => flatten_set(*x),
            None => Seq::empty(),
        };
        if let Some(x) = s.larg {
            lemma_flatten_set_parts(*x);
        }
        if let Some(x) = s.rarg {
            lemma_flatten_set_parts(*x);
        }
        let rr = if r.len() > 0 {
            r.update(0, (Some(compound_operator(s.op, s.all)), r[0].1))
        } else {
            r
        };
        let f = flatten_set(s);
        assert(f == l + rr);
        assert forall|i: int| 0 <= i < f.len() implies !is_set_operation(#[trigger] f[i].1) by {
            if i < l.len() {
                assert(f[i] == l[i]);
            } else {
                assert(f[i] == rr[i - l.len()]);
                assert(rr[i - l.len()].1 == r[i - l.len()].1);
            }
        }
        assert forall|i: int| 1 <= i < f.len() implies (#[trigger] f[i]).0 is Some by {
            if i < l.len() {
                assert(f[i] == l[i]);
            } else {
                assert(f[i] == rr[i - l.len()]);
            }
        }
    }
}

// ---------------------------------------------------------------------------
// Column types
// ---------------------------------------------------------------------------

/// The SQLite storage type for a PostgreSQL type whose upper-case name is
/// `upper`: integer types, serials and booleans are INTEGER; decimal and
/// floating types are REAL; BYTEA is BLOB; everything else (strings, dates
/// and times, JSON, UUID, arrays, unknown names) is TEXT.
pub open spec fn sqlite_type_name(upper: Seq<char>) -> Seq<char> {
    if upper == "SMALLINT"@ || upper == "INT2"@ || upper == "INTEGER"@ || upper == "INT"@ || upper == "INT4"@
        || upper == "BIGINT"@ || upper == "INT8"@ || upper == "SERIAL"@ || upper == "BIGSERIAL"@
        || upper == "BOOLEAN"@ || upper == "BOOL"@ {
        "INTEGER"@
    } else if upper == "DECIMAL"@ || upper == "NUMERIC"@ || upper == "REAL"@ || upper == "FLOAT4"@
        || upper == "DOUBLE PRECISION"@ || upper == "FLOAT8"@ {
        "REAL"@
    } else if upper == "BYTEA"@ {
        "BLOB"@
    } else {
        "TEXT"@
    }
}

/// Every PostgreSQL type name maps to one of SQLite's four storage types.
pub proof fn lemma_storage_types(pg_type: Seq<char>)
    ensures
        ({
            let t = sqlite_type_name(crate::text::unicode_upper(pg_type));
            t == "INTEGER"@ || t == "REAL"@ || t == "BLOB"@ || t == "TEXT"@
        }),
{
}

/// PostgreSQL type names map to the SQLite storage type of their kind:
/// every integer type (SMALLINT, INT2, INTEGER, INT, INT4, BIGINT, INT8,
/// SERIAL, BIGSERIAL) and the booleans (BOOLEAN, BOOL) to INTEGER; the
/// decimal and floating types (DECIMAL, NUMERIC, REAL, FLOAT4, DOUBLE
/// PRECISION, FLOAT8) to REAL; BYTEA to BLOB; the string, date and time,
/// JSON and UUID types (VARCHAR, CHARACTER VARYING, CHAR, CHARACTER, TEXT,
/// DATE, TIME, TIMESTAMP, TIMESTAMPTZ, INTERVAL, JSON, JSONB, UUID) to TEXT.
pub proof fn lemma_storage_type_kinds(upper: Seq<char>)
    ensures
        (upper == "SMALLINT"@ || upper == "INT2"@ || upper == "INTEGER"@ || upper == "INT"@ || upper == "INT4"@ || upper == "BIGINT"@ || upper == "INT8"@ || upper == "SERIAL"@ || upper == "BIGSERIAL"@) ==> sqlite_type_name(upper) == "INTEGER"@,
        (upper == "BOOLEAN"@ || upper == "BOOL"@) ==> sqlite_type_name(upper) == "INTEGER"@,
        (upper == "DECIMAL"@ || upper == "NUMERIC"@ || upper == "REAL"@ || upper == "FLOAT4"@ || upper == "DOUBLE PRECISION"@ || upper == "FLOAT8"@) ==> sqlite_type_name(upper) == "REAL"@,
        (upper == "BYTEA"@) ==> sqlite_type_name(upper) == "BLOB"@,
        (upper == "VARCHAR"@ || upper == "CHARACTER VARYING"@ || upper == "CHAR"@ || upper == "CHARACTER"@ || upper == "TEXT"@ || upper == "DATE"@ || upper == "TIME"@ || upper == "TIMESTAMP"@ || upper == "TIMESTAMPTZ"@ || upper == "INTERVAL"@ || upper == "JSON"@ || upper == "JSONB"@ || upper == "UUID"@) ==> sqlite_type_name(upper) == "TEXT"@,
{
    reveal_strlit("SMALLINT");
    reveal_strlit("INT2");
    reveal_strlit("INTEGER");
    reveal_strlit("INT");
    reveal_strlit("INT4");
    reveal_strlit("BIGINT");
    reveal_strlit("INT8");
    reveal_strlit("SERIAL");
    reveal_strlit("BIGSERIAL");
    reveal_strlit("BOOLEAN");
    reveal_strlit("BOOL");
    reveal_strlit("DECIMAL");
    reveal_strlit("NUMERIC");
    reveal_strlit("REAL");
    reveal_strlit("FLOAT4");
    reveal_strlit("DOUBLE PRECISION");
    reveal_strlit("FLOAT8");
    reveal_strlit("BYTEA");
    reveal_strlit("VARCHAR");
    reveal_strlit("CHARACTER VARYING");
    reveal_strlit("CHAR");
    reveal_strlit("CHARACTER");
    reveal_strlit("TEXT");
    reveal_strlit("DATE");
    reveal_strlit("TIME");
    reveal_strlit("TIMESTAMP");
    reveal_strlit("TIMESTAMPTZ");
    reveal_strlit("INTERVAL");
    reveal_strlit("JSON");
    reveal_strlit("JSONB");
    reveal_strlit("UUID");
    reveal_strlit("BLOB");
    if upper =~= "DECIMAL"@ {
        assert(upper == "DECIMAL"@);
        assert(upper[0] != "INTEGER"@[0]);
        assert(upper[0] != "BOOLEAN"@[0]);
        assert(upper != "INTEGER"@);
        assert(upper != "BOOLEAN"@);
        assert(sqlite_type_name(upper) == "REAL"@);
    }
    if upper =~= "NUMERIC"@ {
        assert(upper == "NUMERIC"@);
        assert(upper[0] != "INTEGER"@[0]);
        assert(upper[0] != "BOOLEAN"@[0]);
        assert(upper != "INTEGER"@);
        assert(upper != "BOOLEAN"@);
        assert(sqlite_type_name(upper) == "REAL"@);
    }
    if upper =~= "REAL"@ {
        assert(upper == "REAL"@);
        assert(upper[0] != "INT2"@[0]);
        assert(upper[0] != "INT4"@[0]);
        assert(upper[0] != "INT8"@[0]);
        assert(upper[0] != "BOOL"@[0]);
        assert(upper != "INT2"@);
        assert(upper != "INT4"@);
        assert(upper != "INT8"@);
        assert(upper != "BOOL"@);
        assert(sqlite_type_name(upper) == "REAL"@);
    }
    if upper =~= "FLOAT4"@ {
        assert(upper == "FLOAT4"@);
        assert(upper[0] != "BIGINT"@[0]);
        assert(upper[0] != "SERIAL"@[0]);
        assert(upper != "BIGINT"@);
        assert(upper != "SERIAL"@);
        assert(sqlite_type_name(upper) == "REAL"@);
    }
    if upper =~= "FLOAT8"@ {
        assert(upper == "FLOAT8"@);
        assert(upper[0] != "BIGINT"@[0]);
        assert(upper[0] != "SERIAL"@[0]);
        assert(upper != "BIGINT"@);
        assert(upper != "SERIAL"@);
        assert(sqlite_type_name(upper) == "REAL"@);
    }
    if upper =~= "VARCHAR"@ {
        assert(upper == "VARCHAR"@);
        assert(upper[0] != "INTEGER"@[0]);
        assert(upper != "INTEGER"@);
        assert(upper[0] != "BOOLEAN"@[0]);
        assert(upper != "BOOLEAN"@);
        assert(upper[0] != "DECIMAL"@[0]);
        assert(upper != "DECIMAL"@);
        assert(upper[0] != "NUMERIC"@[0]);
        assert(upper != "NUMERIC"@);
        assert(sqlite_type_name(upper) == "TEXT"@);
    }
    if upper =~= "CHARACTER VARYING"@ {
        assert(upper == "CHARACTER VARYING"@);
        assert(sqlite_type_name(upper) == "TEXT"@);
    }
    if upper =~= "CHAR"@ {
        assert(upper == "CHAR"@);
        assert(upper[0] != "INT2"@[0]);
        assert(upper != "INT2"@);
        assert(upper[0] != "INT4"@[0]);
        assert(upper != "INT4"@);
        assert(upper[0] != "INT8"@[0]);
        assert(upper != "INT8"@);
        assert(upper[0] != "BOOL"@[0]);
        assert(upper != "BOOL"@);
        assert(upper[0] != "REAL"@[0]);
        assert(upper != "REAL"@);
        assert(sqlite_type_name(upper) == "TEXT"@);
    }
    if upper =~= "CHARACTER"@ {
        assert(upper == "CHARACTER"@);
        assert(upper[0] != "BIGSERIAL"@[0]);
        assert(upper != "BIGSERIAL"@);
        assert(sqlite_type_name(upper) == "TEXT"@);
    }
    if upper =~= "TEXT"@ {
        assert(upper == "TEXT"@);
        assert(upper[0] != "INT2"@[0]);
        assert(upper != "INT2"@);
        assert(upper[0] != "INT4"@[0]);
        assert(upper != "INT4"@);
        assert(upper[0] != "INT8"@[0]);
        assert(upper != "INT8"@);
        assert(upper[0] != "BOOL"@[0]);
        assert(upper != "BOOL"@);
        assert(upper[0] != "REAL"@[0]);
        assert(upper != "REAL"@);
        assert(sqlite_type_name(upper) == "TEXT"@);
    }
    if upper =~= "DATE"@ {
        assert(upper == "DATE"@);
        assert(upper[0] != "INT2"@[0]);
        assert(upper != "INT2"@);
        assert(upper[0] != "INT4"@[0]);
        assert(upper != "INT4"@);
        assert(upper[0] != "INT8"@[0]);
        assert(upper != "INT8"@);
        assert(upper[0] != "BOOL"@[0]);
        assert(upper != "BOOL"@);
        assert(upper[0] != "REAL"@[0]);
        assert(upper != "REAL"@);
        assert(sqlite_type_name(upper) == "TEXT"@);
    }
    if upper =~= "TIME"@ {
        assert(upper == "TIME"@);
        assert(upper[0] != "INT2"@[0]);
        assert(upper != "INT2"@);
        assert(upper[0] != "INT4"@[0]);
        assert(upper != "INT4"@);
        assert(upper[0] != "INT8"@[0]);
        assert(upper != "INT8"@);
        assert(upper[0] != "BOOL"@[0]);
        assert(upper != "BOOL"@);
        assert(upper[0] != "REAL"@[0]);
        assert(upper != "REAL"@);
        assert(sqlite_type_name(upper) == "TEXT"@);
    }
    if upper =~= "TIMESTAMP"@ {
        assert(upper == "TIMESTAMP"@);
        assert(upper[0] != "BIGSERIAL"@[0]);
        assert(upper != "BIGSERIAL"@);
        assert(sqlite_type_name(upper) == "TEXT"@);
    }
    if upper =~= "TIMESTAMPTZ"@ {
        assert(upper == "TIMESTAMPTZ"@);
        assert(sqlite_type_name(upper) == "TEXT"@);
    }
    if upper =~= "INTERVAL"@ {
        assert(upper == "INTERVAL"@);
        assert(upper[0] != "SMALLINT"@[0]);
        assert(upper != "SMALLINT"@);
        assert(sqlite_type_name(upper) == "TEXT"@);
    }
    if upper =~= "JSON"@ {
        assert(upper == "JSON"@);
        assert(upper[0] != "INT2"@[0]);
        assert(upper != "INT2"@);
        assert(upper[0] != "INT4"@[0]);
        assert(upper != "INT4"@);
        assert(upper[0] != "INT8"@[0]);
        assert(upper != "INT8"@);
        assert(upper[0] != "BOOL"@[0]);
        assert(upper != "BOOL"@);
        assert(upper[0] != "REAL"@[0]);
        assert(upper != "REAL"@);
        assert(sqlite_type_name(upper) == "TEXT"@);
    }
    if upper =~= "JSONB"@ {
        assert(upper == "JSONB"@);
        assert(upper[0] != "BYTEA"@[0]);
        assert(upper != "BYTEA"@);
        assert(sqlite_type_name(upper) == "TEXT"@);
    }
    if upper =~= "UUID"@ {
        assert(upper == "UUID"@);
        assert(upper[0] != "INT2"@[0]);
        assert(upper != "INT2"@);
        assert(upper[0] != "INT4"@[0]);
        assert(upper != "INT4"@);
        assert(upper[0] != "INT8"@[0]);
        assert(upper != "INT8"@);
        assert(upper[0] != "BOOL"@[0]);
        assert(upper != "BOOL"@);
        assert(upper[0] != "REAL"@[0]);
        assert(upper != "REAL"@);
        assert(sqlite_type_name(upper) == "TEXT"@);
    }
    if upper =~= "SMALLINT"@ {
        assert(upper == "SMALLINT"@);
        assert(sqlite_type_name(upper) == "INTEGER"@);
    }
    if upper =~= "INT2"@ {
        assert(upper == "INT2"@);
        assert(sqlite_type_name(upper) == "INTEGER"@);
    }
    if upper =~= "INTEGER"@ {
        assert(upper == "INTEGER"@);
        assert(sqlite_type_name(upper) == "INTEGER"@);
    }
    if upper =~= "INT"@ {
        assert(upper == "INT"@);
        assert(sqlite_type_name(upper) == "INTEGER"@);
    }
    if upper =~= "INT4"@ {
        assert(upper == "INT4"@);
        assert(sqlite_type_name(upper) == "INTEGER"@);
    }
    if upper =~= "BIGINT"@ {
        assert(upper == "BIGINT"@);
        assert(sqlite_type_name(upper) == "INTEGER"@);
    }
    if upper =~= "INT8"@ {
        assert(upper == "INT8"@);
        assert(sqlite_type_name(upper) == "INTEGER"@);
    }
    if upper =~= "SERIAL"@ {
        assert(upper == "SERIAL"@);
        assert(sqlite_type_name(upper) == "INTEGER"@);
    }
    if upper =~= "BIGSERIAL"@ {
        assert(upper == "BIGSERIAL"@);
        assert(sqlite_type_name(upper) == "INTEGER"@);
    }
    if upper =~= "BOOLEAN"@ {
        assert(upper == "BOOLEAN"@);
        assert(sqlite_type_name(upper) == "INTEGER"@);
    }
    if upper =~= "BOOL"@ {
        assert(upper == "BOOL"@);
        assert(sqlite_type_name(upper) == "INTEGER"@);
    }
}

/// The SQLite storage type for a PostgreSQL type whose upper-case name is
/// `upper`.
pub fn sqlite_type_for_upper(upper: &str) -> (r: String)
    ensures
        r@ == sqlite_type_name(upper@),
{
    if str_eq(upper, "SMALLINT") || str_eq(upper, "INT2") || str_eq(upper, "INTEGER") || str_eq(upper, "INT")
        || str_eq(upper, "INT4") || str_eq(upper, "BIGINT") || str_eq(upper, "INT8") || str_eq(upper, "SERIAL")
        || str_eq(upper, "BIGSERIAL") || str_eq(upper, "BOOLEAN") || str_eq(upper, "BOOL") {
        owned("INTEGER")
    } else if str_eq(upper, "DECIMAL") || str_eq(upper, "NUMERIC") || str_eq(upper, "REAL") || str_eq(
        upper,
        "FLOAT4",
    ) || str_eq(upper, "DOUBLE PRECISION") || str_eq(upper, "FLOAT8") {
        owned("REAL")
    } else if str_eq(upper, "BYTEA") {
        owned("BLOB")
    } else {
        owned("TEXT")
    }
}

/// The SQLite storage type for a PostgreSQL type name (matched without
/// regard to case).
pub fn map_postgresql_type(pg_type: &str) -> (r: String)
    ensures
        r@ == sqlite_type_name(crate::text::unicode_upper(pg_type@)),
        crate::text::all_ascii(pg_type@) ==> r@ == sqlite_type_name(
            pg_type@.map_values(|c: char| crate::text::ascii_upper(c)),
        ),
{
    let upper = crate::text::to_uppercase(pg_type);
    sqlite_type_for_upper(upper.as_str())
}

} // verus!
