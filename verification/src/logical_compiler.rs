//! Compilation of logical plans into VDBE bytecode.
//!
//! A table scan becomes `OpenRead`, `Rewind`, one `Column` per output
//! column, `ResultRow` and `Next` back to the first column read; a chain
//! of filters (over a scan or over a projection) evaluates each predicate
//! inside the loop and skips the row with `IfNot` when one is false or
//! NULL; a projection evaluates its expressions before `ResultRow`.  Column references are resolved by name
//! against the scanned table.  Every function is specified by the program
//! it leaves behind, written with the builder operations of [`ProgramV`];
//! what the comparison and filter code does when it runs is stated with
//! the instruction semantics of [`step`].

use vstd::prelude::*;
use crate::ast::Operator;
use crate::logical::{Filter, LogicalExpr, LogicalPlan, LogicalSchema, Projection, TableScan};
use crate::schema::{BTreeTable, Column, LimboError, Schema, Table, Value};
use crate::text::{append, owned, str_eq};
use crate::vdbe::{branch_pc, in_i64, lemma_steps_split, set_reg, step, steps, trunc_div, BranchOffset, CursorType, CursorTypeV, Insn, InsnV, ProgramBuilder, ProgramV};

verus! {

// ---------------------------------------------------------------------------
// Specification
// ---------------------------------------------------------------------------

/// The B-tree table called `name` in `schema`, if any.
pub open spec fn lookup_table(schema: Schema, name: Seq<char>) -> Option<BTreeTable> {
    match schema.table_index(name) {
        Some(i) => match schema.tables@[i].1 {
            Table::BTree(t) => Some(t),
            _ => None,
        },
        None => None,
    }
}

/// The binary operators the compiler handles.
pub open spec fn supported_op(op: Operator) -> bool {
    ||| op == Operator::Add
    ||| op == Operator::Subtract
    ||| op == Operator::Multiply
    ||| op == Operator::Divide
    ||| op == Operator::Equals
    ||| op == Operator::NotEquals
    ||| op == Operator::Less
    ||| op == Operator::LessEquals
    ||| op == Operator::Greater
    ||| op == Operator::GreaterEquals
    ||| op == Operator::And
    ||| op == Operator::Or
}

/// The expressions the compiler handles: non-BLOB literals, column
/// references, and the supported binary operators over such expressions.
pub open spec fn supported_expr(e: LogicalExpr) -> bool
    decreases e,
{
    match e {
        LogicalExpr::Literal(v) => !(v is Blob),
        LogicalExpr::Column(_) => true,
        LogicalExpr::BinaryExpr { left, op, right } => supported_op(op) && supported_expr(*left) && supported_expr(
            *right,
        ),
        LogicalExpr::Other(_) => false,
    }
}

/// All expressions of a list are handled.
pub open spec fn supported_exprs(s: Seq<LogicalExpr>) -> bool {
    forall|i: int| 0 <= i < s.len() ==> #[trigger] supported_expr(s[i])
}

/// The scratch registers an expression takes besides its destination.
pub open spec fn expr_regs(e: LogicalExpr) -> nat
    decreases e,
{
    match e {
        LogicalExpr::BinaryExpr { left, op, right } => 2 + expr_regs(*left) + expr_regs(*right),
        _ => 0,
    }
}

/// The scratch registers of a list of expressions.
pub open spec fn exprs_regs(s: Seq<LogicalExpr>) -> nat
    decreases s.len(),
{
    if s.len() == 0 {
        0
    } else {
        exprs_regs(s.drop_last()) + expr_regs(s.last())
    }
}

/// The program with the instructions `s` appended.
pub open spec fn emit_all(p: ProgramV, s: Seq<InsnV>) -> ProgramV {
    ProgramV { insns: p.insns + s, ..p }
}

/// The instruction loading a literal into `dest`.
pub open spec fn literal_insn(v: Value, dest: usize) -> InsnV {
    match v {
        Value::Integer(i) => InsnV::Integer { value: i, dest },
        Value::Float(b) => InsnV::Real { value: b, dest },
        Value::Text(s) => InsnV::String8 { value: s@, dest },
        _ => InsnV::Null { dest, dest_end: None },
    }
}

/// The six comparison operators.
pub open spec fn is_comparison(op: Operator) -> bool {
    ||| op == Operator::Equals
    ||| op == Operator::NotEquals
    ||| op == Operator::Less
    ||| op == Operator::LessEquals
    ||| op == Operator::Greater
    ||| op == Operator::GreaterEquals
}

/// The conditional jump of a comparison: to `target` when `l op r` holds.
pub open spec fn compare_jump(op: Operator, l: usize, r: usize, target: BranchOffset) -> InsnV {
    match op {
        Operator::Equals => InsnV::Eq { lhs: l, rhs: r, target_pc: target },
        Operator::NotEquals => InsnV::Ne { lhs: l, rhs: r, target_pc: target },
        Operator::Less => InsnV::Lt { lhs: l, rhs: r, target_pc: target },
        Operator::LessEquals => InsnV::Le { lhs: l, rhs: r, target_pc: target },
        Operator::Greater => InsnV::Gt { lhs: l, rhs: r, target_pc: target },
        _ => InsnV::Ge { lhs: l, rhs: r, target_pc: target },
    }
}

/// A comparison: two labels are taken (`k`, where the result is true, and
/// `k + 1`, the end); the jump goes to `k` when `l op r` holds, otherwise
/// `dest := 0` and a jump to the end; at `k`, `dest := 1`.
pub open spec fn compare_code(p: ProgramV, op: Operator, l: usize, r: usize, dest: usize) -> ProgramV {
    let k = p.labels.len() as int;
    p.alloc_labels(2).emit(compare_jump(op, l, r, BranchOffset::Label(k as usize))).emit(
        InsnV::Integer { value: 0, dest },
    ).emit(InsnV::Goto { target_pc: BranchOffset::Label((k + 1) as usize) }).assign(k as usize).emit(
        InsnV::Integer { value: 1, dest },
    ).assign((k + 1) as usize)
}

/// The operators whose code takes two labels.
pub open spec fn takes_labels(op: Operator) -> bool {
    is_comparison(op) || op == Operator::And || op == Operator::Or
}

/// The code setting `dest` to `l op r`.  Comparisons, AND and OR allocate
/// two labels and resolve both.
pub open spec fn binop_code(p: ProgramV, op: Operator, l: usize, r: usize, dest: usize) -> ProgramV {
    let k = p.labels.len() as int;
    match op {
        Operator::Add => p.emit(InsnV::Add { lhs: l, rhs: r, dest }),
        Operator::Subtract => p.emit(InsnV::Subtract { lhs: l, rhs: r, dest }),
        Operator::Multiply => p.emit(InsnV::Multiply { lhs: l, rhs: r, dest }),
        Operator::Divide => p.emit(InsnV::Divide { lhs: l, rhs: r, dest }),
        Operator::Equals => compare_code(p, op, l, r, dest),
        Operator::NotEquals => compare_code(p, op, l, r, dest),
        Operator::Less => compare_code(p, op, l, r, dest),
        Operator::LessEquals => compare_code(p, op, l, r, dest),
        Operator::Greater => compare_code(p, op, l, r, dest),
        Operator::GreaterEquals => compare_code(p, op, l, r, dest),
        Operator::And => p.alloc_labels(2).emit(
            InsnV::IfNot { reg: l, target_pc: BranchOffset::Label(k as usize), jump_if_null: true },
        ).emit(InsnV::Move { from_reg: r, to_reg: dest, count: 1 }).emit(
            InsnV::Goto { target_pc: BranchOffset::Label((k + 1) as usize) },
        ).assign(k as usize).emit(InsnV::Integer { value: 0, dest }).assign((k + 1) as usize),
        Operator::Or => p.alloc_labels(2).emit(
            InsnV::If { reg: l, target_pc: BranchOffset::Label(k as usize), jump_if_null: false },
        ).emit(InsnV::Move { from_reg: r, to_reg: dest, count: 1 }).emit(
            InsnV::Goto { target_pc: BranchOffset::Label((k + 1) as usize) },
        ).assign(k as usize).emit(InsnV::Integer { value: 1, dest }).assign((k + 1) as usize),
        _ => p,
    }
}

/// Column `c` is called `name`.
pub open spec fn column_named(c: Column, name: Seq<char>) -> bool {
    c.name matches Some(n) && n@ == name
}

/// The position of the first column of `cols` called `name`, if any.
pub open spec fn column_index(cols: Seq<Column>, name: Seq<char>) -> Option<nat>
    decreases cols.len(),
{
    if cols.len() == 0 {
        None
    } else {
        match column_index(cols.drop_last(), name) {
            Some(i) => Some(i),
            None => if column_named(cols.last(), name) {
                Some((cols.len() - 1) as nat)
            } else {
                None
            },
        }
    }
}

/// The column a reference to `name` reads (0 when there is none).
pub open spec fn column_of(cols: Seq<Column>, name: Seq<char>) -> usize {
    match column_index(cols, name) {
        Some(i) => i as usize,
        None => 0,
    }
}

/// The first column name (left to right) that `e` refers to and `cols`
/// lacks, if any.
pub open spec fn unresolved_column(cols: Seq<Column>, e: LogicalExpr) -> Option<Seq<char>>
    decreases e,
{
    match e {
        LogicalExpr::Column(c) => if column_index(cols, c.name@) is Some {
            None
        } else {
            Some(c.name@)
        },
        LogicalExpr::BinaryExpr { left, op, right } => match unresolved_column(cols, *left) {
            Some(n) => Some(n),
            None => unresolved_column(cols, *right),
        },
        _ => None,
    }
}

/// The first column name that an expression of `s` (in order) refers to
/// and `cols` lacks, if any.
pub open spec fn unresolved_in(cols: Seq<Column>, s: Seq<LogicalExpr>) -> Option<Seq<char>>
    decreases s.len(),
{
    if s.len() == 0 {
        None
    } else {
        match unresolved_in(cols, s.drop_last()) {
            Some(n) => Some(n),
            None => unresolved_column(cols, s.last()),
        }
    }
}

/// The code evaluating `e` into `dest`: a literal is loaded, a column
/// reference reads the column of that name of the table on `cursor`
/// (whose columns are `cols`), and a binary expression takes the next two
/// registers for its operands, evaluates the left then the right operand
/// into them, then combines them.
pub open spec fn expr_code(p: ProgramV, e: LogicalExpr, dest: usize, cursor: usize, cols: Seq<Column>) -> ProgramV
    decreases e,
{
    match e {
        LogicalExpr::Literal(v) => p.emit(literal_insn(v, dest)),
        LogicalExpr::Column(c) => p.emit(InsnV::Column { cursor_id: cursor, column: column_of(cols, c.name@), dest }),
        LogicalExpr::BinaryExpr { left, op, right } => {
            let l = p.next_free_register;
            let p2 = expr_code(p.alloc_regs(2), *left, l as usize, cursor, cols);
            let p3 = expr_code(p2, *right, (l + 1) as usize, cursor, cols);
            binop_code(p3, op, l as usize, (l + 1) as usize, dest)
        },
        LogicalExpr::Other(_) => p,
    }
}

/// The code evaluating each expression of `s` into consecutive registers
/// from `base`, in order.
pub open spec fn exprs_code(p: ProgramV, s: Seq<LogicalExpr>, base: nat, cursor: usize, cols: Seq<Column>) -> ProgramV
    decreases s.len(),
{
    if s.len() == 0 {
        p
    } else {
        expr_code(exprs_code(p, s.drop_last(), base, cursor, cols), s.last(), (base + s.len() - 1) as usize, cursor, cols)
    }
}

/// The columns a scan reads, in output order: the projected ones, or all.
pub open spec fn scan_columns(scan: TableScan) -> Seq<usize> {
    match scan.projection {
        Some(p) => p@,
        None => Seq::new(scan.schema.columns@.len(), |i: int| i as usize),
    }
}

/// Reads of the columns `cols` of `cursor` into consecutive registers from
/// `start`.
pub open spec fn column_reads(cursor: usize, cols: Seq<usize>, start: nat) -> Seq<InsnV> {
    Seq::new(cols.len(), |i: int| InsnV::Column { cursor_id: cursor, column: cols[i], dest: (start + i) as usize })
}

/// All columns `0..n`.
pub open spec fn all_columns(n: nat) -> Seq<usize> {
    Seq::new(n, |i: int| i as usize)
}

/// The cursor opened on a table.
pub open spec fn table_cursor(t: BTreeTable) -> CursorTypeV {
    CursorTypeV::BTreeTable { name: t.name@, root_page: t.root_page }
}

/// What a compilation returns.
pub open spec fn result_of(start: nat, count: nat, cursor: nat) -> CompilationResult {
    CompilationResult {
        output_start_reg: start as usize,
        output_count: count as usize,
        cursor_id: Some(cursor as usize),
    }
}

/// The loop opening shared by all scans: a cursor on `t`, `OpenRead`, the
/// `n` column registers and `extra` more, the loop start and loop end
/// labels, `Rewind` to the loop end, and the loop start resolved to the
/// next instruction.
pub open spec fn scan_head(p: ProgramV, t: BTreeTable, n: nat, extra: nat) -> ProgramV {
    let c = p.cursors.len() as usize;
    let k = p.labels.len();
    p.alloc_cursor(table_cursor(t)).emit(InsnV::OpenRead { cursor_id: c, root_page: t.root_page, db: 0 }).alloc_regs(
        n,
    ).alloc_regs(extra).alloc_labels(2).emit(
        InsnV::Rewind { cursor_id: c, pc_if_empty: BranchOffset::Label((k + 1) as usize) },
    ).assign(k as usize)
}

/// A table scan: each row's columns are read and output.
pub open spec fn table_scan_code(p: ProgramV, t: BTreeTable, scan: TableScan) -> (ProgramV, CompilationResult) {
    let c = p.cursors.len();
    let k = p.labels.len() as int;
    let start = p.next_free_register;
    let n = scan.schema.columns@.len();
    let cols = scan_columns(scan);
    let body = emit_all(scan_head(p, t, n, 0), column_reads(c as usize, cols, start));
    (
        body.emit(InsnV::ResultRow { start_reg: start as usize, count: cols.len() as usize }).emit(
            InsnV::Next { cursor_id: c as usize, pc_if_next: BranchOffset::Label(k as usize) },
        ).assign((k + 1) as usize),
        result_of(start, cols.len(), c),
    )
}

/// The checks of a list of predicates, in order: each is evaluated into
/// `reg` and `IfNot` jumps to label `skip` when it is false or NULL.
pub open spec fn checks_code(
    p: ProgramV,
    preds: Seq<LogicalExpr>,
    reg: usize,
    skip: usize,
    cursor: usize,
    cols: Seq<Column>,
) -> ProgramV
    decreases preds.len(),
{
    if preds.len() == 0 {
        p
    } else {
        expr_code(checks_code(p, preds.drop_last(), reg, skip, cursor, cols), preds.last(), reg, cursor, cols).emit(
            InsnV::IfNot { reg, target_pc: BranchOffset::Label(skip), jump_if_null: true },
        )
    }
}

/// A table scan with filters: after the columns are read each predicate
/// is evaluated into the register after them, and `IfNot` skips the
/// output when it is false or NULL.
pub open spec fn filtered_scan_code(p: ProgramV, t: BTreeTable, scan: TableScan, preds: Seq<LogicalExpr>) -> (
    ProgramV,
    CompilationResult,
) {
    let c = p.cursors.len();
    let k = p.labels.len() as int;
    let start = p.next_free_register;
    let n = scan.schema.columns@.len();
    let cols = scan_columns(scan);
    let body = emit_all(scan_head(p, t, n, 1).alloc_labels(1), column_reads(c as usize, cols, start));
    let checked = checks_code(body, preds, (start + n) as usize, (k + 2) as usize, c as usize, t.columns@);
    (
        checked.emit(InsnV::ResultRow { start_reg: start as usize, count: cols.len() as usize }).assign(
            (k + 2) as usize,
        ).emit(InsnV::Next { cursor_id: c as usize, pc_if_next: BranchOffset::Label(k as usize) }).assign(
            (k + 1) as usize,
        ),
        result_of(start, cols.len(), c),
    )
}

/// A table scan with a projection: all columns are read, then the
/// expressions are evaluated into the registers after them and output.
pub open spec fn projected_scan_code(p: ProgramV, t: BTreeTable, scan: TableScan, exprs: Seq<LogicalExpr>) -> (
    ProgramV,
    CompilationResult,
) {
    let c = p.cursors.len();
    let k = p.labels.len() as int;
    let start = p.next_free_register;
    let n = scan.schema.columns@.len();
    let m = exprs.len();
    let body = emit_all(scan_head(p, t, n, m), column_reads(c as usize, all_columns(n), start));
    let evaluated = exprs_code(body, exprs, start + n, c as usize, t.columns@);
    (
        evaluated.emit(InsnV::ResultRow { start_reg: (start + n) as usize, count: m as usize }).emit(
            InsnV::Next { cursor_id: c as usize, pc_if_next: BranchOffset::Label(k as usize) },
        ).assign((k + 1) as usize),
        result_of(start + n, m, c),
    )
}

/// A table scan with filters and a projection: all columns are read, the
/// predicates are checked in the register after the projection's (a false
/// or NULL one skips the row), then the expressions are evaluated and
/// output.
pub open spec fn filtered_projected_scan_code(
    p: ProgramV,
    t: BTreeTable,
    scan: TableScan,
    preds: Seq<LogicalExpr>,
    exprs: Seq<LogicalExpr>,
) -> (ProgramV, CompilationResult) {
    let c = p.cursors.len();
    let k = p.labels.len() as int;
    let start = p.next_free_register;
    let n = scan.schema.columns@.len();
    let m = exprs.len();
    let pred_reg = (start + n + m) as usize;
    let body = emit_all(scan_head(p, t, n, m + 1).alloc_labels(1), column_reads(c as usize, all_columns(n), start));
    let checked = checks_code(body, preds, pred_reg, (k + 2) as usize, c as usize, t.columns@);
    let projected = exprs_code(checked, exprs, start + n, c as usize, t.columns@);
    (
        projected.emit(InsnV::ResultRow { start_reg: (start + n) as usize, count: m as usize }).assign((k + 2) as usize).emit(
            InsnV::Next { cursor_id: c as usize, pc_if_next: BranchOffset::Label(k as usize) },
        ).assign((k + 1) as usize),
        result_of(start + n, m, c),
    )
}

/// The message of a plan shape the compiler does not handle.
pub open spec fn not_supported() -> Seq<char> {
    "not supported"@
}

/// The message of a missing table.
pub open spec fn table_not_found(name: Seq<char>) -> Seq<char> {
    "Table not found: "@ + name
}

/// The message of a column reference the scanned table cannot resolve.
pub open spec fn column_not_found(name: Seq<char>) -> Seq<char> {
    "Column not found: "@ + name
}

/// The first column the predicates, then the projection, refer to that the
/// table (with columns `cols`) lacks.
pub open spec fn missing_column(
    cols: Seq<Column>,
    preds: Seq<LogicalExpr>,
    exprs: Option<Seq<LogicalExpr>>,
) -> Option<Seq<char>> {
    match unresolved_in(cols, preds) {
        Some(n) => Some(n),
        None => match exprs {
            Some(es) => unresolved_in(cols, es),
            None => None,
        },
    }
}

/// A scan of `scan` whose rows are output only when every predicate of
/// `preds` holds, with an optional projection; or the error when its table
/// does not exist or a column it refers to is not one of the table's (the
/// program is then unchanged).
pub open spec fn scan_plan(
    p: ProgramV,
    schema: Schema,
    scan: TableScan,
    preds: Seq<LogicalExpr>,
    exprs: Option<Seq<LogicalExpr>>,
) -> Result<(ProgramV, CompilationResult), Seq<char>> {
    match lookup_table(schema, scan.table_name@) {
        None => Err(table_not_found(scan.table_name@)),
        Some(t) => match missing_column(t.columns@, preds, exprs) {
            Some(name) => Err(column_not_found(name)),
            None => Ok(
                match exprs {
                    None => if preds.len() == 0 {
                        table_scan_code(p, t, scan)
                    } else {
                        filtered_scan_code(p, t, scan, preds)
                    },
                    Some(es) => if preds.len() == 0 {
                        projected_scan_code(p, t, scan, es)
                    } else {
                        filtered_projected_scan_code(p, t, scan, preds, es)
                    },
                },
            ),
        },
    }
}

/// The plan under a chain of filters.
pub open spec fn filter_base(plan: LogicalPlan) -> LogicalPlan
    decreases plan,
{
    match plan {
        LogicalPlan::Filter(f) => filter_base(*f.input),
        _ => plan,
    }
}

/// The predicates of a chain of filters, innermost first.
pub open spec fn filter_preds(plan: LogicalPlan) -> Seq<LogicalExpr>
    decreases plan,
{
    match plan {
        LogicalPlan::Filter(f) => filter_preds(*f.input).push(f.predicate),
        _ => Seq::empty(),
    }
}

/// The plans the compiler handles under a chain of filters with predicates
/// `preds`: a table scan, or a projection over a table scan or over a
/// filtered table scan, with every expression handled.
pub open spec fn supported_base(base: LogicalPlan, preds: Seq<LogicalExpr>) -> bool {
    supported_exprs(preds) && match base {
        LogicalPlan::TableScan(_) => true,
        LogicalPlan::Projection(pr) => supported_exprs(pr.exprs@) && match *pr.input {
            LogicalPlan::TableScan(_) => true,
            LogicalPlan::Filter(f) => (*f.input is TableScan) && supported_expr(f.predicate),
            _ => false,
        },
        _ => false,
    }
}

/// The plans the compiler handles: a handled plan under any chain of
/// filters with handled predicates.
pub open spec fn supported_plan(plan: LogicalPlan) -> bool {
    supported_base(filter_base(plan), filter_preds(plan))
}

/// Registers of a scan, over-estimated: its columns and its output.
pub open spec fn scan_regs(scan: TableScan) -> nat {
    scan.schema.columns@.len() + scan_columns(scan).len()
}

/// An upper bound on the registers a scan with predicates `preds` and an
/// optional projection takes.
pub open spec fn scan_plan_regs(scan: TableScan, preds: Seq<LogicalExpr>, exprs: Option<Seq<LogicalExpr>>) -> nat {
    scan_regs(scan) + (if preds.len() > 0 {
        1 + exprs_regs(preds)
    } else {
        0
    }) + match exprs {
        Some(es) => es.len() + exprs_regs(es),
        None => 0,
    }
}

/// What a handled plan under filters with predicates `preds` compiles to:
/// a scan with those predicates (and the projection's own filter, checked
/// last), or the error of a missing table or column.
pub open spec fn base_code(p: ProgramV, schema: Schema, base: LogicalPlan, preds: Seq<LogicalExpr>) -> Result<
    (ProgramV, CompilationResult),
    Seq<char>,
> {
    match base {
        LogicalPlan::TableScan(s) => scan_plan(p, schema, s, preds, None),
        LogicalPlan::Projection(pr) => match *pr.input {
            LogicalPlan::TableScan(s) => scan_plan(p, schema, s, preds, Some(pr.exprs@)),
            LogicalPlan::Filter(f) => match *f.input {
                LogicalPlan::TableScan(s) => scan_plan(p, schema, s, preds.push(f.predicate), Some(pr.exprs@)),
                _ => Err(not_supported()),
            },
            _ => Err(not_supported()),
        },
        _ => Err(not_supported()),
    }
}

/// The registers a handled plan under filters with predicates `preds`
/// takes, over-estimated.
pub open spec fn base_regs(base: LogicalPlan, preds: Seq<LogicalExpr>) -> nat {
    match base {
        LogicalPlan::TableScan(s) => scan_plan_regs(s, preds, None),
        LogicalPlan::Projection(pr) => match *pr.input {
            LogicalPlan::TableScan(s) => scan_plan_regs(s, preds, Some(pr.exprs@)),
            LogicalPlan::Filter(f) => match *f.input {
                LogicalPlan::TableScan(s) => scan_plan_regs(s, preds.push(f.predicate), Some(pr.exprs@)),
                _ => 0,
            },
            _ => 0,
        },
        _ => 0,
    }
}

/// An upper bound on the registers compiling `plan` takes.
pub open spec fn plan_regs(plan: LogicalPlan) -> nat {
    base_regs(filter_base(plan), filter_preds(plan))
}

/// The compilation of a handled plan: the program it leaves and its
/// result, or the error of a missing table or column.  A chain of filters
/// becomes checks inside the scan loop of the plan under it, so that only
/// the rows for which every predicate holds are output.
pub open spec fn plan_code(p: ProgramV, schema: Schema, plan: LogicalPlan) -> Result<
    (ProgramV, CompilationResult),
    Seq<char>,
> {
    base_code(p, schema, filter_base(plan), filter_preds(plan))
}

/// `r` is what `s` specifies for a compiler whose builder is now `after`.
pub open spec fn compiled(
    r: Result<CompilationResult, LimboError>,
    after: ProgramV,
    before: ProgramV,
    s: Result<(ProgramV, CompilationResult), Seq<char>>,
) -> bool {
    match r {
        Ok(res) => s == Ok::<(ProgramV, CompilationResult), Seq<char>>((after, res)),
        Err(LimboError::ParseError(m)) => s == Err::<(ProgramV, CompilationResult), Seq<char>>(m@) && after
            == before,
        Err(LimboError::InternalError(_)) => false,
    }
}


// ---------------------------------------------------------------------------
// Laws
// ---------------------------------------------------------------------------

/// `a` is a prefix of `b`.
pub open spec fn prefix_of<T>(a: Seq<T>, b: Seq<T>) -> bool {
    a.len() <= b.len() && forall|i: int| 0 <= i < a.len() ==> #[trigger] b[i] == a[i]
}

/// `q` is `p` with more code: `p`'s instructions, cursors and labels are
/// kept as they were and only added to, and registers are only handed out.
pub open spec fn extends(p: ProgramV, q: ProgramV) -> bool {
    &&& prefix_of(p.insns, q.insns)
    &&& prefix_of(p.cursors, q.cursors)
    &&& prefix_of(p.labels, q.labels)
    &&& p.next_free_register <= q.next_free_register
    &&& q.write_databases == p.write_databases
}

/// Every label of `q` from the `k`-th on is resolved, to an instruction of
/// `q` or to its end.
pub open spec fn resolved_from(q: ProgramV, k: nat) -> bool {
    forall|i: int| k <= i < q.labels.len() ==> (#[trigger] q.labels[i] matches Some(x) && x <= q.insns.len())
}

proof fn lemma_extends_trans(p: ProgramV, q: ProgramV, r: ProgramV)
    requires
        extends(p, q),
        extends(q, r),
    ensures
        extends(p, r),
{
    assert forall|i: int| 0 <= i < p.insns.len() implies #[trigger] r.insns[i] == p.insns[i] by {
        assert(r.insns[i] == q.insns[i]);
    }
    assert forall|i: int| 0 <= i < p.cursors.len() implies #[trigger] r.cursors[i] == p.cursors[i] by {
        assert(r.cursors[i] == q.cursors[i]);
    }
    assert forall|i: int| 0 <= i < p.labels.len() implies #[trigger] r.labels[i] == p.labels[i] by {
        assert(r.labels[i] == q.labels[i]);
    }
}

proof fn lemma_resolved_trans(p: ProgramV, q: ProgramV, r: ProgramV)
    requires
        extends(p, q),
        extends(q, r),
        resolved_from(q, p.labels.len()),
        resolved_from(r, q.labels.len()),
    ensures
        resolved_from(r, p.labels.len()),
{
    assert forall|i: int| p.labels.len() <= i < r.labels.len() implies (#[trigger] r.labels[i] matches Some(x) && x
        <= r.insns.len()) by {
        if i < q.labels.len() {
            assert(r.labels[i] == q.labels[i]);
            assert(q.labels[i] matches Some(x) && x <= q.insns.len());
        }
    }
}

proof fn lemma_emit_extends(p: ProgramV, i: InsnV)
    ensures
        extends(p, p.emit(i)),
        resolved_from(p.emit(i), p.labels.len()),
{
}

proof fn lemma_binop_labels_len(p: ProgramV, op: Operator, l: usize, r: usize, dest: usize)
    ensures
        binop_code(p, op, l, r, dest).labels.len() == p.labels.len() + if takes_labels(op) {
            2nat
        } else {
            0nat
        },
        binop_code(p, op, l, r, dest).next_free_register == p.next_free_register,
{
}

proof fn lemma_binop_extends(p: ProgramV, op: Operator, l: usize, r: usize, dest: usize)
    requires
        binop_code(p, op, l, r, dest).labels.len() <= usize::MAX,
    ensures
        extends(p, binop_code(p, op, l, r, dest)),
        resolved_from(binop_code(p, op, l, r, dest), p.labels.len()),
{
    lemma_binop_labels_len(p, op, l, r, dest);
    let q = binop_code(p, op, l, r, dest);
    let k = p.labels.len();
    if takes_labels(op) {
        assert(q.labels.len() == k + 2);
        assert(q.labels[k as int] is Some);
        assert(q.labels[k + 1int] is Some);
        assert forall|i: int| 0 <= i < p.labels.len() implies #[trigger] q.labels[i] == p.labels[i] by {}
        assert forall|i: int| 0 <= i < p.insns.len() implies #[trigger] q.insns[i] == p.insns[i] by {}
    }
}

/// What the comparison `op` says of two integers.
pub open spec fn compare_holds(op: Operator, a: int, b: int) -> bool {
    match op {
        Operator::Equals => a == b,
        Operator::NotEquals => a != b,
        Operator::Less => a < b,
        Operator::LessEquals => a <= b,
        Operator::Greater => a > b,
        _ => a >= b,
    }
}

/// A register holds a true value: a non-zero integer.
pub open spec fn is_true(v: Option<int>) -> bool {
    v matches Some(x) && x != 0
}

/// What the code of a comparison, AND or OR leaves in its destination,
/// given its operands.  A comparison gives 1 when both operands are
/// non-NULL and it holds, and 0 otherwise; AND gives 0 unless the left
/// operand is true, and then the right operand; OR gives 1 when the left
/// operand is true, and otherwise the right operand.
pub open spec fn binop_value(op: Operator, left: Option<int>, right: Option<int>) -> Option<int> {
    if is_comparison(op) {
        Some(if (left, right) matches (Some(a), Some(b)) && compare_holds(op, a, b) { 1int } else { 0int })
    } else if op == Operator::And {
        if is_true(left) {
            right
        } else {
            Some(0)
        }
    } else {
        if is_true(left) {
            Some(1)
        } else {
            right
        }
    }
}

/// The number of instructions the code of a comparison, AND or OR runs
/// through: two when it jumps (the comparison holds, or AND / OR is
/// decided by its left operand), three when it does not.
pub open spec fn binop_steps(op: Operator, left: Option<int>, right: Option<int>) -> nat {
    let jumps = if !takes_labels(op) {
        false
    } else if is_comparison(op) {
        binop_value(op, left, right) == Some(1int)
    } else if op == Operator::And {
        !is_true(left)
    } else {
        is_true(left)
    };
    if !takes_labels(op) {
        1
    } else if jumps {
        2
    } else {
        3
    }
}

/// The four arithmetic operators.
pub open spec fn is_arith(op: Operator) -> bool {
    op == Operator::Add || op == Operator::Subtract || op == Operator::Multiply || op == Operator::Divide
}

/// SQLite's integer arithmetic: the left operand plus, minus, times or
/// divided by (rounding toward zero) the right one; NULL when an operand
/// is NULL or a divisor is 0; `None` (not modelled) when the result does
/// not fit in 64 bits, as SQLite then computes in floating point.
pub open spec fn arith_value(op: Operator, left: Option<int>, right: Option<int>) -> Option<Option<int>> {
    match (left, right) {
        (Some(a), Some(b)) => if op == Operator::Divide && b == 0 {
            Some(None)
        } else {
            let v = if op == Operator::Add {
                a + b
            } else if op == Operator::Subtract {
                a - b
            } else if op == Operator::Multiply {
                a * b
            } else {
                trunc_div(a, b)
            };
            if in_i64(v) {
                Some(Some(v))
            } else {
                None
            }
        },
        _ => Some(None),
    }
}

/// The code of an arithmetic operator computes it on its operands in
/// order: in any program `q` that keeps it, one step from its first
/// instruction reaches the instruction after it with `dest` holding
/// [`arith_value`] of the left operand register `l` and the right operand
/// register `r` (so `l - r` for a subtraction, `l / r` for a division), and
/// every other register as it was.
pub proof fn lemma_arith_code_computes(
    p: ProgramV,
    op: Operator,
    l: usize,
    r: usize,
    dest: usize,
    q: ProgramV,
    regs: spec_fn(int) -> Option<int>,
    row: spec_fn(int) -> Option<int>,
)
    requires
        is_arith(op),
        arith_value(op, regs(l as int), regs(r as int)) is Some,
        keeps(binop_code(p, op, l, r, dest), q, p.labels.len()),
    ensures
        binop_code(p, op, l, r, dest).insns.len() == p.insns.len() + 1,
        steps(q, p.insns.len() as int, regs, row, 1) == Some(
            (
                (p.insns.len() + 1) as int,
                set_reg(regs, dest as int, arith_value(op, regs(l as int), regs(r as int))->0),
            ),
        ),
{
    let c = binop_code(p, op, l, r, dest);
    let base = p.insns.len() as int;
    assert(q.insns[base] == c.insns[base]);
    let v = arith_value(op, regs(l as int), regs(r as int))->0;
    let r2 = set_reg(regs, dest as int, v);
    assert(step(q, base, regs, row) == Some((base + 1, r2)));
    assert(steps(q, base + 1, r2, row, 0) == Some((base + 1, r2)));
}

/// `q` holds the code of `c` as it is: `c`'s instructions, and the labels
/// from the `k`-th on resolved as in `c`.
pub open spec fn keeps(c: ProgramV, q: ProgramV, k: nat) -> bool {
    &&& prefix_of(c.insns, q.insns)
    &&& c.labels.len() <= q.labels.len()
    &&& forall|i: int| k <= i < c.labels.len() ==> #[trigger] q.labels[i] == c.labels[i]
}

/// The code of a comparison, AND or OR computes [`binop_value`]: in any
/// program `q` that keeps it, run from its first instruction for
/// [`binop_steps`] steps, it reaches the instruction after it with `dest`
/// holding the value and every other register as it was.
pub proof fn lemma_binop_code_computes(
    p: ProgramV,
    op: Operator,
    l: usize,
    r: usize,
    dest: usize,
    q: ProgramV,
    regs: spec_fn(int) -> Option<int>,
    row: spec_fn(int) -> Option<int>,
)
    requires
        takes_labels(op),
        p.labels.len() + 2 <= usize::MAX,
        p.insns.len() + 4 <= usize::MAX,
        keeps(binop_code(p, op, l, r, dest), q, p.labels.len()),
    ensures
        steps(q, p.insns.len() as int, regs, row, binop_steps(op, regs(l as int), regs(r as int))) matches Some(
            (pc, out),
        ) && pc == binop_code(p, op, l, r, dest).insns.len() && out(dest as int) == binop_value(
            op,
            regs(l as int),
            regs(r as int),
        ) && forall|j: int| j != dest ==> #[trigger] out(j) == regs(j),
{
    let c = binop_code(p, op, l, r, dest);
    let k = p.labels.len() as int;
    let base = p.insns.len() as int;
    assert(c.insns.len() == base + 4);
    assert(c.labels[k] == Some((base + 3) as usize));
    assert(c.labels[k + 1] == Some((base + 4) as usize));
    assert(q.labels[k] == c.labels[k]);
    assert(q.labels[k + 1] == c.labels[k + 1]);
    assert(q.insns[base] == c.insns[base]);
    assert(q.insns[base + 1] == c.insns[base + 1]);
    assert(q.insns[base + 2] == c.insns[base + 2]);
    assert(q.insns[base + 3] == c.insns[base + 3]);
    let v = binop_value(op, regs(l as int), regs(r as int));
    if binop_steps(op, regs(l as int), regs(r as int)) == 2 {
        assert(step(q, base, regs, row) == Some((base + 3, regs)));
        let r2 = set_reg(regs, dest as int, v);
        assert(step(q, base + 3, regs, row) == Some((base + 4, r2)));
        assert(steps(q, base + 4, r2, row, 0) == Some((base + 4, r2)));
        assert(steps(q, base + 3, regs, row, 1) == Some((base + 4, r2)));
        assert(steps(q, base, regs, row, 2) == Some((base + 4, r2)));
    } else {
        assert(step(q, base, regs, row) == Some((base + 1, regs)));
        let r2 = set_reg(regs, dest as int, v);
        assert(step(q, base + 1, regs, row) == Some((base + 2, r2)));
        assert(step(q, base + 2, r2, row) == Some((base + 4, r2)));
        assert(steps(q, base + 4, r2, row, 0) == Some((base + 4, r2)));
        assert(steps(q, base + 2, r2, row, 1) == Some((base + 4, r2)));
        assert(steps(q, base + 1, regs, row, 2) == Some((base + 4, r2)));
        assert(steps(q, base, regs, row, 3) == Some((base + 4, r2)));
    }
}

/// The value the code of `e` leaves in its destination when the current
/// row of the table (whose columns are `cols`) is `row`, for the
/// expressions whose code [`step`] runs through: integer and NULL
/// literals, column references, comparisons, AND and OR; `None` for the
/// others.
pub open spec fn eval(cols: Seq<Column>, row: spec_fn(int) -> Option<int>, e: LogicalExpr) -> Option<Option<int>>
    decreases e,
{
    match e {
        LogicalExpr::Literal(Value::Integer(i)) => Some(Some(i as int)),
        LogicalExpr::Literal(Value::Null) => Some(None),
        LogicalExpr::Column(c) => Some(row(column_of(cols, c.name@) as int)),
        LogicalExpr::BinaryExpr { left, op, right } => if takes_labels(op) {
            match (eval(cols, row, *left), eval(cols, row, *right)) {
                (Some(a), Some(b)) => Some(binop_value(op, a, b)),
                _ => None,
            }
        } else if is_arith(op) {
            match (eval(cols, row, *left), eval(cols, row, *right)) {
                (Some(a), Some(b)) => arith_value(op, a, b),
                _ => None,
            }
        } else {
            None
        },
        _ => None,
    }
}

/// The number of instructions the code of `e` runs through for `row`.
pub open spec fn eval_steps(cols: Seq<Column>, row: spec_fn(int) -> Option<int>, e: LogicalExpr) -> nat
    decreases e,
{
    match e {
        LogicalExpr::BinaryExpr { left, op, right } => eval_steps(cols, row, *left) + eval_steps(cols, row, *right)
            + binop_steps(op, eval(cols, row, *left)->0, eval(cols, row, *right)->0),
        _ => 1,
    }
}

/// The code of an expression computes it: in any program `q` that keeps
/// it, run from its first instruction for [`eval_steps`] steps, it reaches
/// the instruction after it with `dest` holding [`eval`] of the expression
/// and every register handed out before it, but `dest`, as it was.
pub proof fn lemma_expr_code_computes(
    p: ProgramV,
    e: LogicalExpr,
    dest: usize,
    cursor: usize,
    cols: Seq<Column>,
    q: ProgramV,
    regs: spec_fn(int) -> Option<int>,
    row: spec_fn(int) -> Option<int>,
)
    requires
        eval(cols, row, e) is Some,
        dest < p.next_free_register,
        p.next_free_register + expr_regs(e) <= usize::MAX,
        expr_code(p, e, dest, cursor, cols).labels.len() <= usize::MAX,
        expr_code(p, e, dest, cursor, cols).insns.len() <= usize::MAX,
        keeps(expr_code(p, e, dest, cursor, cols), q, p.labels.len()),
    ensures
        steps(q, p.insns.len() as int, regs, row, eval_steps(cols, row, e)) matches Some((pc, out)) && pc
            == expr_code(p, e, dest, cursor, cols).insns.len() && out(dest as int) == eval(cols, row, e)->0
            && forall|j: int| j < p.next_free_register && j != dest ==> #[trigger] out(j) == regs(j),
    decreases e,
{
    let c = expr_code(p, e, dest, cursor, cols);
    let base = p.insns.len() as int;
    match e {
        LogicalExpr::BinaryExpr { left, op, right } => {
            let l = p.next_free_register;
            let p1 = p.alloc_regs(2);
            let p2 = expr_code(p1, *left, l as usize, cursor, cols);
            let p3 = expr_code(p2, *right, (l + 1) as usize, cursor, cols);
            lemma_expr_code_labels(p1, *left, l as usize, cursor, cols);
            lemma_expr_code_labels(p2, *right, (l + 1) as usize, cursor, cols);
            lemma_binop_labels_len(p3, op, l as usize, (l + 1) as usize, dest);
            lemma_expr_code_extends(p1, *left, l as usize, cursor, cols);
            lemma_expr_code_extends(p2, *right, (l + 1) as usize, cursor, cols);
            lemma_binop_extends(p3, op, l as usize, (l + 1) as usize, dest);
            lemma_expr_code_regs(p1, *left, l as usize, cursor, cols);
            assert(keeps(p2, q, p1.labels.len())) by {
                assert forall|i: int| 0 <= i < p2.insns.len() implies #[trigger] q.insns[i] == p2.insns[i] by {
                    assert(p3.insns[i] == p2.insns[i]);
                    assert(c.insns[i] == p3.insns[i]);
                }
                assert forall|i: int| p1.labels.len() <= i < p2.labels.len() implies #[trigger] q.labels[i]
                    == p2.labels[i] by {
                    assert(p3.labels[i] == p2.labels[i]);
                    assert(c.labels[i] == p3.labels[i]);
                }
            }
            assert(keeps(p3, q, p2.labels.len())) by {
                assert forall|i: int| 0 <= i < p3.insns.len() implies #[trigger] q.insns[i] == p3.insns[i] by {
                    assert(c.insns[i] == p3.insns[i]);
                }
                assert forall|i: int| p2.labels.len() <= i < p3.labels.len() implies #[trigger] q.labels[i]
                    == p3.labels[i] by {
                    assert(c.labels[i] == p3.labels[i]);
                }
            }
            lemma_expr_code_computes(p1, *left, l as usize, cursor, cols, q, regs, row);
            let sl = eval_steps(cols, row, *left);
            let (pc1, r1) = steps(q, base, regs, row, sl)->0;
            lemma_expr_code_computes(p2, *right, (l + 1) as usize, cursor, cols, q, r1, row);
            let sr = eval_steps(cols, row, *right);
            let (pc2, r2) = steps(q, p2.insns.len() as int, r1, row, sr)->0;
            assert(r2(l as int) == r1(l as int));
            if takes_labels(op) {
                lemma_binop_code_computes(p3, op, l as usize, (l + 1) as usize, dest, q, r2, row);
            } else {
                lemma_arith_code_computes(p3, op, l as usize, (l + 1) as usize, dest, q, r2, row);
            }
            let sb = binop_steps(op, r2(l as int), r2((l + 1) as int));
            lemma_steps_split(q, base, regs, row, sl, sr);
            lemma_steps_split(q, base, regs, row, sl + sr, sb);
            let (pc3, r3) = steps(q, p3.insns.len() as int, r2, row, sb)->0;
            assert forall|j: int| j < p.next_free_register && j != dest implies #[trigger] r3(j) == regs(j) by {
                assert(r3(j) == r2(j));
                assert(r2(j) == r1(j));
                assert(r1(j) == regs(j));
            }
            assert(pc1 == p2.insns.len());
            assert(pc2 == p3.insns.len());
            assert(steps(q, base, regs, row, sl + sr) == Some((pc2, r2)));
            assert(sb == binop_steps(op, eval(cols, row, *left)->0, eval(cols, row, *right)->0));
            assert(eval_steps(cols, row, e) == sl + sr + sb);
            assert(steps(q, base, regs, row, sl + sr + sb) == Some((pc3, r3)));
            assert(c == binop_code(p3, op, l as usize, (l + 1) as usize, dest));
            assert(pc3 == c.insns.len());
            assert(r3(dest as int) == eval(cols, row, e)->0);
        },
        LogicalExpr::Literal(v) => {
            assert(q.insns[base] == c.insns[base]);
            let value = eval(cols, row, e)->0;
            let r1 = set_reg(regs, dest as int, value);
            match v {
                Value::Integer(i) => assert(step(q, base, regs, row) == Some((base + 1, r1))),
                Value::Null => assert(step(q, base, regs, row) == Some((base + 1, r1))),
                _ => {},
            }
            assert(steps(q, base + 1, r1, row, 0) == Some((base + 1, r1)));
            assert(steps(q, base, regs, row, 1) == Some((base + 1, r1)));
        },
        LogicalExpr::Column(col) => {
            assert(q.insns[base] == c.insns[base]);
            let r1 = set_reg(regs, dest as int, row(column_of(cols, col.name@) as int));
            assert(step(q, base, regs, row) == Some((base + 1, r1)));
            assert(steps(q, base + 1, r1, row, 0) == Some((base + 1, r1)));
            assert(steps(q, base, regs, row, 1) == Some((base + 1, r1)));
        },
        LogicalExpr::Other(_) => {},
    }
}

/// The code of an expression only adds to the program, and resolves every
/// label it takes.
pub proof fn lemma_expr_code_extends(p: ProgramV, e: LogicalExpr, dest: usize, cursor: usize, cols: Seq<Column>)
    requires
        expr_code(p, e, dest, cursor, cols).labels.len() <= usize::MAX,
    ensures
        extends(p, expr_code(p, e, dest, cursor, cols)),
        resolved_from(expr_code(p, e, dest, cursor, cols), p.labels.len()),
    decreases e,
{
    match e {
        LogicalExpr::BinaryExpr { left, op, right } => {
            let l = p.next_free_register;
            let p1 = p.alloc_regs(2);
            let p2 = expr_code(p1, *left, l as usize, cursor, cols);
            let p3 = expr_code(p2, *right, (l + 1) as usize, cursor, cols);
            let q = binop_code(p3, op, l as usize, (l + 1) as usize, dest);
            lemma_binop_labels_len(p3, op, l as usize, (l + 1) as usize, dest);
            lemma_expr_code_labels(p2, *right, (l + 1) as usize, cursor, cols);
            lemma_expr_code_extends(p1, *left, l as usize, cursor, cols);
            lemma_expr_code_extends(p2, *right, (l + 1) as usize, cursor, cols);
            lemma_binop_extends(p3, op, l as usize, (l + 1) as usize, dest);
            assert(extends(p, p1));
            assert(resolved_from(p1, p.labels.len()));
            lemma_extends_trans(p, p1, p2);
            lemma_resolved_trans(p, p1, p2);
            lemma_extends_trans(p, p2, p3);
            lemma_resolved_trans(p, p2, p3);
            lemma_extends_trans(p, p3, q);
            lemma_resolved_trans(p, p3, q);
        },
        LogicalExpr::Literal(v) => lemma_emit_extends(p, literal_insn(v, dest)),
        LogicalExpr::Column(c) => lemma_emit_extends(
            p,
            InsnV::Column { cursor_id: cursor, column: column_of(cols, c.name@), dest },
        ),
        LogicalExpr::Other(_) => {},
    }
}

/// The code of a list of expressions only adds to the program, and
/// resolves every label it takes.
pub proof fn lemma_exprs_code_extends(p: ProgramV, s: Seq<LogicalExpr>, base: nat, cursor: usize, cols: Seq<Column>)
    requires
        exprs_code(p, s, base, cursor, cols).labels.len() <= usize::MAX,
    ensures
        extends(p, exprs_code(p, s, base, cursor, cols)),
        resolved_from(exprs_code(p, s, base, cursor, cols), p.labels.len()),
    decreases s.len(),
{
    if s.len() > 0 {
        let mid = exprs_code(p, s.drop_last(), base, cursor, cols);
        let q = expr_code(mid, s.last(), (base + s.len() - 1) as usize, cursor, cols);
        lemma_expr_code_labels(mid, s.last(), (base + s.len() - 1) as usize, cursor, cols);
        lemma_exprs_code_extends(p, s.drop_last(), base, cursor, cols);
        lemma_expr_code_extends(mid, s.last(), (base + s.len() - 1) as usize, cursor, cols);
        lemma_extends_trans(p, mid, q);
        lemma_resolved_trans(p, mid, q);
    }
}


/// The loop opening of a scan: `OpenRead` then `Rewind` (to the loop end
/// label) appended, one cursor and `n + extra` registers handed out, and
/// two labels added, the loop start resolved to the instruction after
/// `Rewind` and the loop end not yet.
proof fn lemma_scan_head(p: ProgramV, t: BTreeTable, n: nat, extra: nat)
    requires
        p.labels.len() + 2 <= usize::MAX,
    ensures
        ({
            let h = scan_head(p, t, n, extra);
            let k = p.labels.len() as int;
            let base = p.insns.len() as int;
            let c = p.cursors.len() as usize;
            &&& prefix_of(p.insns, h.insns)
            &&& h.insns.len() == base + 2
            &&& h.insns[base] == InsnV::OpenRead { cursor_id: c, root_page: t.root_page, db: 0 }
            &&& h.insns[base + 1] == InsnV::Rewind { cursor_id: c, pc_if_empty: BranchOffset::Label((k + 1) as usize) }
            &&& h.cursors == p.cursors.push(table_cursor(t))
            &&& h.next_free_register == p.next_free_register + n + extra
            &&& h.labels.len() == k + 2
            &&& prefix_of(p.labels, h.labels)
            &&& h.labels[k] == Some((base + 2) as usize)
            &&& h.labels[k + 1] == None::<usize>
            &&& h.write_databases == p.write_databases
        }),
{
}

/// A table scan's loop, instruction by instruction: `OpenRead`, `Rewind`
/// to the loop end, one `Column` per output column into consecutive
/// registers, `ResultRow` of those registers, and `Next` back to the loop
/// start, which is the first `Column`; the loop end is the instruction
/// after `Next`.  It opens one cursor, on the scanned table.
pub proof fn lemma_table_scan_shape(p: ProgramV, t: BTreeTable, scan: TableScan)
    requires
        p.labels.len() + 2 <= usize::MAX,
    ensures
        ({
            let (q, res) = table_scan_code(p, t, scan);
            let k = p.labels.len() as int;
            let base = p.insns.len() as int;
            let c = p.cursors.len() as usize;
            let cols = scan_columns(scan);
            let m = cols.len() as int;
            let start = p.next_free_register;
            &&& prefix_of(p.insns, q.insns)
            &&& q.insns.len() == base + m + 4
            &&& q.insns[base] == InsnV::OpenRead { cursor_id: c, root_page: t.root_page, db: 0 }
            &&& q.insns[base + 1] == InsnV::Rewind { cursor_id: c, pc_if_empty: BranchOffset::Label((k + 1) as usize) }
            &&& (forall|i: int|
                0 <= i < m ==> #[trigger] q.insns[base + 2 + i] == InsnV::Column {
                    cursor_id: c,
                    column: cols[i],
                    dest: (start + i) as usize,
                })
            &&& q.insns[base + 2 + m] == InsnV::ResultRow { start_reg: start as usize, count: m as usize }
            &&& q.insns[base + 3 + m] == InsnV::Next { cursor_id: c, pc_if_next: BranchOffset::Label(k as usize) }
            &&& q.labels.len() == k + 2
            &&& q.labels[k] == Some((base + 2) as usize)
            &&& q.labels[k + 1] == Some((base + m + 4) as usize)
            &&& q.cursors == p.cursors.push(table_cursor(t))
            &&& res.cursor_id == Some(c)
            &&& res.output_start_reg == start as usize
            &&& res.output_count == m as usize
        }),
{
    let h = scan_head(p, t, scan.schema.columns@.len(), 0);
    lemma_scan_head(p, t, scan.schema.columns@.len(), 0);
    let (q, res) = table_scan_code(p, t, scan);
    let base = p.insns.len() as int;
    let m = scan_columns(scan).len() as int;
    let reads = column_reads(p.cursors.len() as usize, scan_columns(scan), p.next_free_register);
    assert forall|i: int| 0 <= i < m implies #[trigger] q.insns[base + 2 + i] == reads[i] by {
        assert(q.insns[base + 2 + i] == (h.insns + reads)[base + 2 + i]);
    }
    assert forall|i: int| 0 <= i < base implies #[trigger] q.insns[i] == p.insns[i] by {
        assert(q.insns[i] == h.insns[i]);
    }
}

/// The checks of a list of predicates only add labels, and take the
/// scratch registers of the predicates.
pub proof fn lemma_checks_labels_regs(
    p: ProgramV,
    preds: Seq<LogicalExpr>,
    reg: usize,
    skip: usize,
    cursor: usize,
    cols: Seq<Column>,
)
    ensures
        checks_code(p, preds, reg, skip, cursor, cols).labels.len() >= p.labels.len(),
        checks_code(p, preds, reg, skip, cursor, cols).next_free_register == p.next_free_register + exprs_regs(preds),
    decreases preds.len(),
{
    if preds.len() > 0 {
        let mid = checks_code(p, preds.drop_last(), reg, skip, cursor, cols);
        lemma_checks_labels_regs(p, preds.drop_last(), reg, skip, cursor, cols);
        lemma_expr_code_labels(mid, preds.last(), reg, cursor, cols);
        lemma_expr_code_regs(mid, preds.last(), reg, cursor, cols);
    }
}

/// The checks of a list of predicates only add to the program, and resolve
/// every label they take.
pub proof fn lemma_checks_extends(
    p: ProgramV,
    preds: Seq<LogicalExpr>,
    reg: usize,
    skip: usize,
    cursor: usize,
    cols: Seq<Column>,
)
    requires
        checks_code(p, preds, reg, skip, cursor, cols).labels.len() <= usize::MAX,
    ensures
        extends(p, checks_code(p, preds, reg, skip, cursor, cols)),
        resolved_from(checks_code(p, preds, reg, skip, cursor, cols), p.labels.len()),
    decreases preds.len(),
{
    if preds.len() > 0 {
        let mid = checks_code(p, preds.drop_last(), reg, skip, cursor, cols);
        let e = expr_code(mid, preds.last(), reg, cursor, cols);
        let q = checks_code(p, preds, reg, skip, cursor, cols);
        lemma_expr_code_labels(mid, preds.last(), reg, cursor, cols);
        lemma_checks_extends(p, preds.drop_last(), reg, skip, cursor, cols);
        lemma_expr_code_extends(mid, preds.last(), reg, cursor, cols);
        lemma_extends_trans(p, mid, e);
        lemma_resolved_trans(p, mid, e);
        lemma_emit_extends(e, InsnV::IfNot { reg, target_pc: BranchOffset::Label(skip), jump_if_null: true });
        lemma_extends_trans(p, e, q);
        lemma_resolved_trans(p, e, q);
    }
}

/// The checks of a list of predicates jump only to labels they create, or
/// to `skip`.
pub proof fn lemma_checks_jumps(
    p: ProgramV,
    preds: Seq<LogicalExpr>,
    reg: usize,
    skip: usize,
    cursor: usize,
    cols: Seq<Column>,
    lo: nat,
)
    requires
        checks_code(p, preds, reg, skip, cursor, cols).labels.len() <= usize::MAX,
        lo <= skip < p.labels.len(),
    ensures
        jumps_within(
            checks_code(p, preds, reg, skip, cursor, cols),
            p.insns.len() as int,
            lo,
            checks_code(p, preds, reg, skip, cursor, cols).labels.len(),
        ),
    decreases preds.len(),
{
    if preds.len() > 0 {
        let mid = checks_code(p, preds.drop_last(), reg, skip, cursor, cols);
        let e = expr_code(mid, preds.last(), reg, cursor, cols);
        let q = checks_code(p, preds, reg, skip, cursor, cols);
        lemma_checks_labels_regs(p, preds.drop_last(), reg, skip, cursor, cols);
        lemma_expr_code_labels(mid, preds.last(), reg, cursor, cols);
        lemma_checks_jumps(p, preds.drop_last(), reg, skip, cursor, cols, lo);
        lemma_checks_extends(p, preds.drop_last(), reg, skip, cursor, cols);
        lemma_expr_code_jumps(mid, preds.last(), reg, cursor, cols);
        lemma_expr_code_extends(mid, preds.last(), reg, cursor, cols);
        lemma_jumps_compose(mid, e, p.insns.len() as int, lo, mid.labels.len(), mid.labels.len(), e.labels.len());
        assert(jumps_within(q, e.insns.len() as int, lo, q.labels.len()));
        assert forall|i: int| 0 <= i < e.insns.len() implies #[trigger] q.insns[i] == e.insns[i] by {}
        lemma_jumps_compose(e, q, p.insns.len() as int, lo, e.labels.len(), lo, q.labels.len());
    }
}

/// Every predicate of `preds` holds on the row: each, in order, is a
/// non-zero integer.
pub open spec fn checks_pass(cols: Seq<Column>, row: spec_fn(int) -> Option<int>, preds: Seq<LogicalExpr>) -> bool
    decreases preds.len(),
{
    preds.len() == 0 || (checks_pass(cols, row, preds.drop_last()) && is_true(eval(cols, row, preds.last())->0))
}

/// The number of instructions the checks run through for `row`: up to and
/// including the first failing check.
pub open spec fn checks_steps(cols: Seq<Column>, row: spec_fn(int) -> Option<int>, preds: Seq<LogicalExpr>) -> nat
    decreases preds.len(),
{
    if preds.len() == 0 {
        0
    } else if checks_pass(cols, row, preds.drop_last()) {
        checks_steps(cols, row, preds.drop_last()) + eval_steps(cols, row, preds.last()) + 1
    } else {
        checks_steps(cols, row, preds.drop_last())
    }
}

/// Every predicate of `preds` can be evaluated on the row (see [`eval`]).
pub open spec fn all_evaluable(cols: Seq<Column>, row: spec_fn(int) -> Option<int>, preds: Seq<LogicalExpr>) -> bool {
    forall|i: int| 0 <= i < preds.len() ==> #[trigger] eval(cols, row, preds[i]) is Some
}

/// The checks compute the conjunction of the predicates: in any program
/// `q` that keeps them, run from their first instruction they reach the
/// instruction after them when every predicate holds, and the target of
/// `skip` as soon as one is false or NULL.
pub proof fn lemma_checks_computes(
    p: ProgramV,
    preds: Seq<LogicalExpr>,
    reg: usize,
    skip: usize,
    cursor: usize,
    cols: Seq<Column>,
    q: ProgramV,
    regs: spec_fn(int) -> Option<int>,
    row: spec_fn(int) -> Option<int>,
)
    requires
        all_evaluable(cols, row, preds),
        reg < p.next_free_register,
        p.next_free_register + exprs_regs(preds) <= usize::MAX,
        checks_code(p, preds, reg, skip, cursor, cols).labels.len() <= usize::MAX,
        checks_code(p, preds, reg, skip, cursor, cols).insns.len() <= usize::MAX,
        keeps(checks_code(p, preds, reg, skip, cursor, cols), q, p.labels.len()),
    ensures
        steps(q, p.insns.len() as int, regs, row, checks_steps(cols, row, preds)) matches Some((pc, out)) && pc
            == if checks_pass(cols, row, preds) {
            checks_code(p, preds, reg, skip, cursor, cols).insns.len() as int
        } else {
            branch_pc(q, BranchOffset::Label(skip))
        },
    decreases preds.len(),
{
    if preds.len() > 0 {
        let init = preds.drop_last();
        let mid = checks_code(p, init, reg, skip, cursor, cols);
        let e = expr_code(mid, preds.last(), reg, cursor, cols);
        let c = checks_code(p, preds, reg, skip, cursor, cols);
        lemma_checks_labels_regs(p, init, reg, skip, cursor, cols);
        lemma_expr_code_labels(mid, preds.last(), reg, cursor, cols);
        lemma_checks_extends(p, init, reg, skip, cursor, cols);
        lemma_expr_code_extends(mid, preds.last(), reg, cursor, cols);
        lemma_exprs_regs_prefix(preds, preds.len() - 1);
        assert(init =~= preds.subrange(0, preds.len() - 1));
        assert(keeps(mid, q, p.labels.len())) by {
            assert forall|i: int| 0 <= i < mid.insns.len() implies #[trigger] q.insns[i] == mid.insns[i] by {
                assert(e.insns[i] == mid.insns[i]);
                assert(c.insns[i] == e.insns[i]);
            }
            assert forall|i: int| p.labels.len() <= i < mid.labels.len() implies #[trigger] q.labels[i]
                == mid.labels[i] by {
                assert(e.labels[i] == mid.labels[i]);
            }
        }
        assert forall|i: int| 0 <= i < init.len() implies #[trigger] eval(cols, row, init[i]) is Some by {
            assert(init[i] == preds[i]);
        }
        lemma_checks_computes(p, init, reg, skip, cursor, cols, q, regs, row);
        let s1 = checks_steps(cols, row, init);
        if checks_pass(cols, row, init) {
            let (pc1, r1) = steps(q, p.insns.len() as int, regs, row, s1)->0;
            assert(eval(cols, row, preds[preds.len() - 1]) is Some);
            assert(keeps(e, q, mid.labels.len())) by {
                assert forall|i: int| 0 <= i < e.insns.len() implies #[trigger] q.insns[i] == e.insns[i] by {
                    assert(c.insns[i] == e.insns[i]);
                }
            }
            lemma_expr_code_computes(mid, preds.last(), reg, cursor, cols, q, r1, row);
            let s2 = eval_steps(cols, row, preds.last());
            let (pc2, r2) = steps(q, pc1, r1, row, s2)->0;
            lemma_steps_split(q, p.insns.len() as int, regs, row, s1, s2);
            lemma_steps_split(q, p.insns.len() as int, regs, row, s1 + s2, 1);
            assert(q.insns[pc2] == c.insns[pc2]);
            let next = step(q, pc2, r2, row)->0;
            assert(steps(q, next.0, next.1, row, 0) == Some(next));
        }
    }
}

/// Where the checks of a filtered scan begin: after `OpenRead`, `Rewind`
/// and the column reads.
pub open spec fn filter_start(p: ProgramV, scan: TableScan) -> int {
    (p.insns.len() + 2 + scan_columns(scan).len()) as int
}

/// A filtered scan outputs exactly the rows for which every predicate is
/// true: for a row on which the predicates can be evaluated (see
/// [`eval`]), running the scan's code from the start of the checks reaches
/// the `ResultRow` when every predicate is a non-zero integer, and the
/// `Next` after it, without output, as soon as one is 0 or NULL.
pub proof fn lemma_filtered_scan_outputs_true_rows(
    p: ProgramV,
    t: BTreeTable,
    scan: TableScan,
    preds: Seq<LogicalExpr>,
    regs: spec_fn(int) -> Option<int>,
    row: spec_fn(int) -> Option<int>,
)
    requires
        preds.len() > 0,
        all_evaluable(t.columns@, row, preds),
        p.next_free_register + scan_plan_regs(scan, preds, None) <= usize::MAX,
        filtered_scan_code(p, t, scan, preds).0.labels.len() <= usize::MAX,
        filtered_scan_code(p, t, scan, preds).0.insns.len() <= usize::MAX,
    ensures
        ({
            let (q, res) = filtered_scan_code(p, t, scan, preds);
            let e = q.insns.len() as int;
            &&& q.insns[e - 2] == InsnV::ResultRow { start_reg: res.output_start_reg, count: res.output_count }
            &&& q.insns[e - 1] == InsnV::Next {
                cursor_id: p.cursors.len() as usize,
                pc_if_next: BranchOffset::Label(p.labels.len() as usize),
            }
            &&& steps(q, filter_start(p, scan), regs, row, checks_steps(t.columns@, row, preds)) matches Some(
                (pc, out),
            ) && pc == if checks_pass(t.columns@, row, preds) {
                e - 2
            } else {
                e - 1
            }
        }),
{
    let n = scan.schema.columns@.len();
    let c = p.cursors.len() as usize;
    let start = p.next_free_register;
    let cols = scan_columns(scan);
    let k = p.labels.len() as int;
    let pred_reg = (start + n) as usize;
    let h1 = scan_head(p, t, n, 1).alloc_labels(1);
    let body = emit_all(h1, column_reads(c, cols, start));
    let checked = checks_code(body, preds, pred_reg, (k + 2) as usize, c, t.columns@);
    let q = filtered_scan_code(p, t, scan, preds).0;
    lemma_checks_labels_regs(body, preds, pred_reg, (k + 2) as usize, c, t.columns@);
    lemma_scan_head(p, t, n, 1);
    lemma_checks_extends(body, preds, pred_reg, (k + 2) as usize, c, t.columns@);
    assert(body.insns.len() == filter_start(p, scan));
    assert(keeps(checked, q, body.labels.len())) by {
        assert forall|i: int| 0 <= i < checked.insns.len() implies #[trigger] q.insns[i] == checked.insns[i] by {}
        assert forall|i: int| body.labels.len() <= i < checked.labels.len() implies #[trigger] q.labels[i]
            == checked.labels[i] by {}
    }
    lemma_checks_computes(body, preds, pred_reg, (k + 2) as usize, c, t.columns@, q, regs, row);
    assert(branch_pc(q, BranchOffset::Label((k + 2) as usize)) == q.insns.len() - 1);
}

/// Where the projection's code of a filtered projection begins: after the
/// checks.
pub open spec fn projection_start(
    p: ProgramV,
    t: BTreeTable,
    scan: TableScan,
    preds: Seq<LogicalExpr>,
    exprs: Seq<LogicalExpr>,
) -> int {
    let c = p.cursors.len() as usize;
    let start = p.next_free_register;
    let n = scan.schema.columns@.len();
    let pred_reg = (start + n + exprs.len()) as usize;
    let body = emit_all(scan_head(p, t, n, exprs.len() + 1).alloc_labels(1), column_reads(c, all_columns(n), start));
    checks_code(body, preds, pred_reg, (p.labels.len() + 2) as usize, c, t.columns@).insns.len() as int
}

/// A filtered projection evaluates its projection and outputs a row
/// exactly when every predicate holds on it: for a row on which the
/// predicates can be evaluated (see [`eval`]), running the code from the
/// start of the checks (after `OpenRead`, `Rewind` and the reads of all
/// columns) reaches the projection's code when every predicate is a
/// non-zero integer, and the final `Next`, skipping the projection and the
/// `ResultRow`, as soon as one is 0 or NULL.
pub proof fn lemma_filtered_projected_scan_outputs_true_rows(
    p: ProgramV,
    t: BTreeTable,
    scan: TableScan,
    preds: Seq<LogicalExpr>,
    exprs: Seq<LogicalExpr>,
    regs: spec_fn(int) -> Option<int>,
    row: spec_fn(int) -> Option<int>,
)
    requires
        preds.len() > 0,
        all_evaluable(t.columns@, row, preds),
        p.next_free_register + scan_plan_regs(scan, preds, Some(exprs)) <= usize::MAX,
        filtered_projected_scan_code(p, t, scan, preds, exprs).0.labels.len() <= usize::MAX,
        filtered_projected_scan_code(p, t, scan, preds, exprs).0.insns.len() <= usize::MAX,
    ensures
        ({
            let (q, res) = filtered_projected_scan_code(p, t, scan, preds, exprs);
            let e = q.insns.len() as int;
            let j = projection_start(p, t, scan, preds, exprs);
            &&& p.insns.len() < j <= e - 2
            &&& q.insns[e - 2] == InsnV::ResultRow { start_reg: res.output_start_reg, count: res.output_count }
            &&& q.insns[e - 1] == InsnV::Next {
                cursor_id: p.cursors.len() as usize,
                pc_if_next: BranchOffset::Label(p.labels.len() as usize),
            }
            &&& steps(
                q,
                (p.insns.len() + 2 + scan.schema.columns@.len()) as int,
                regs,
                row,
                checks_steps(t.columns@, row, preds),
            ) matches Some((pc, out)) && pc == if checks_pass(t.columns@, row, preds) {
                j
            } else {
                e - 1
            }
        }),
{
    let n = scan.schema.columns@.len();
    let m = exprs.len();
    let c = p.cursors.len() as usize;
    let start = p.next_free_register;
    let pred_reg = (start + n + m) as usize;
    let k = p.labels.len() as int;
    let h = scan_head(p, t, n, m + 1);
    let body = emit_all(h.alloc_labels(1), column_reads(c, all_columns(n), start));
    let checked = checks_code(body, preds, pred_reg, (k + 2) as usize, c, t.columns@);
    let projected = exprs_code(checked, exprs, start + n, c, t.columns@);
    let q = filtered_projected_scan_code(p, t, scan, preds, exprs).0;
    lemma_checks_labels_regs(body, preds, pred_reg, (k + 2) as usize, c, t.columns@);
    lemma_exprs_code_labels(checked, exprs, start + n, c, t.columns@);
    assert(q.labels.len() >= body.labels.len());
    lemma_scan_head(p, t, n, m + 1);
    lemma_checks_extends(body, preds, pred_reg, (k + 2) as usize, c, t.columns@);
    lemma_exprs_code_extends(checked, exprs, start + n, c, t.columns@);
    assert(body.insns.len() == p.insns.len() + 2 + n);
    assert(keeps(checked, q, body.labels.len())) by {
        assert forall|i: int| 0 <= i < checked.insns.len() implies #[trigger] q.insns[i] == checked.insns[i] by {
            assert(projected.insns[i] == checked.insns[i]);
        }
        assert forall|i: int| body.labels.len() <= i < checked.labels.len() implies #[trigger] q.labels[i]
            == checked.labels[i] by {
            assert(projected.labels[i] == checked.labels[i]);
        }
    }
    lemma_checks_computes(body, preds, pred_reg, (k + 2) as usize, c, t.columns@, q, regs, row);
    assert(q.labels[k + 2] == Some((q.insns.len() - 1) as usize));
    assert(branch_pc(q, BranchOffset::Label((k + 2) as usize)) == q.insns.len() - 1);
}

/// A successful scan plan only adds to the program and leaves every label
/// it takes resolved.
proof fn lemma_scan_plan_extends(
    p: ProgramV,
    schema: Schema,
    scan: TableScan,
    preds: Seq<LogicalExpr>,
    exprs: Option<Seq<LogicalExpr>>,
)
    requires
        scan_plan(p, schema, scan, preds, exprs) is Ok,
        scan_plan(p, schema, scan, preds, exprs)->Ok_0.0.labels.len() <= usize::MAX,
    ensures
        extends(p, scan_plan(p, schema, scan, preds, exprs)->Ok_0.0),
        resolved_from(scan_plan(p, schema, scan, preds, exprs)->Ok_0.0, p.labels.len()),
{
    let t = lookup_table(schema, scan.table_name@)->0;
    match exprs {
        None => if preds.len() == 0 {
            lemma_table_scan_shape(p, t, scan);
            lemma_table_scan_extends(p, t, scan);
        } else {
            lemma_filtered_scan_extends(p, t, scan, preds);
        },
        Some(es) => if preds.len() == 0 {
            lemma_projected_scan_extends(p, t, scan, es);
        } else {
            lemma_filtered_projected_scan_extends(p, t, scan, preds, es);
        },
    }
}

/// Compiling a handled plan only adds to the program (its instructions,
/// cursors and labels stay as they were) and leaves every label it takes
/// resolved.
pub proof fn lemma_compiled_plan_extends(p: ProgramV, schema: Schema, plan: LogicalPlan)
    requires
        supported_plan(plan),
        plan_code(p, schema, plan) is Ok,
        plan_code(p, schema, plan)->Ok_0.0.labels.len() <= usize::MAX,
    ensures
        extends(p, plan_code(p, schema, plan)->Ok_0.0),
        resolved_from(plan_code(p, schema, plan)->Ok_0.0, p.labels.len()),
{
    let preds = filter_preds(plan);
    match filter_base(plan) {
        LogicalPlan::TableScan(sc) => lemma_scan_plan_extends(p, schema, sc, preds, None),
        LogicalPlan::Projection(pr) => match *pr.input {
            LogicalPlan::TableScan(sc) => lemma_scan_plan_extends(p, schema, sc, preds, Some(pr.exprs@)),
            LogicalPlan::Filter(f) => match *f.input {
                LogicalPlan::TableScan(sc) => lemma_scan_plan_extends(
                    p,
                    schema,
                    sc,
                    preds.push(f.predicate),
                    Some(pr.exprs@),
                ),
                _ => {},
            },
            _ => {},
        },
        _ => {},
    }
}

proof fn lemma_table_scan_extends(p: ProgramV, t: BTreeTable, scan: TableScan)
    requires
        table_scan_code(p, t, scan).0.labels.len() <= usize::MAX,
    ensures
        extends(p, table_scan_code(p, t, scan).0),
        resolved_from(table_scan_code(p, t, scan).0, p.labels.len()),
{
    lemma_scan_head(p, t, scan.schema.columns@.len(), 0);
    lemma_table_scan_shape(p, t, scan);
    let q = table_scan_code(p, t, scan).0;
    let h = scan_head(p, t, scan.schema.columns@.len(), 0);
    assert forall|i: int| 0 <= i < p.labels.len() implies #[trigger] q.labels[i] == p.labels[i] by {
        assert(q.labels[i] == h.labels[i]);
    }
    assert forall|i: int| 0 <= i < p.cursors.len() implies #[trigger] q.cursors[i] == p.cursors[i] by {}
}

proof fn lemma_filtered_scan_extends(p: ProgramV, t: BTreeTable, scan: TableScan, preds: Seq<LogicalExpr>)
    requires
        filtered_scan_code(p, t, scan, preds).0.labels.len() <= usize::MAX,
    ensures
        extends(p, filtered_scan_code(p, t, scan, preds).0),
        resolved_from(filtered_scan_code(p, t, scan, preds).0, p.labels.len()),
{
    let n = scan.schema.columns@.len();
    let c = p.cursors.len() as usize;
    let start = p.next_free_register;
    let cols = scan_columns(scan);
    let h = scan_head(p, t, n, 1);
    let h1 = h.alloc_labels(1);
    let body = emit_all(h1, column_reads(c, cols, start));
    let k = p.labels.len() as int;
    let mid = checks_code(body, preds, (start + n) as usize, (k + 2) as usize, c, t.columns@);
    let q = filtered_scan_code(p, t, scan, preds).0;
    lemma_checks_labels_regs(body, preds, (start + n) as usize, (k + 2) as usize, c, t.columns@);
    lemma_scan_head(p, t, n, 1);
    lemma_checks_extends(body, preds, (start + n) as usize, (k + 2) as usize, c, t.columns@);
    assert forall|i: int| 0 <= i < p.labels.len() implies #[trigger] q.labels[i] == p.labels[i] by {
        assert(mid.labels[i] == body.labels[i]);
        assert(body.labels[i] == h.labels[i]);
    }
    assert forall|i: int| 0 <= i < p.insns.len() implies #[trigger] q.insns[i] == p.insns[i] by {
        assert(q.insns[i] == mid.insns[i]);
        assert(mid.insns[i] == body.insns[i]);
        assert(body.insns[i] == h.insns[i]);
    }
    assert forall|i: int| 0 <= i < p.cursors.len() implies #[trigger] q.cursors[i] == p.cursors[i] by {
        assert(q.cursors[i] == mid.cursors[i]);
        assert(mid.cursors[i] == h.cursors[i]);
    }
    assert forall|i: int| p.labels.len() <= i < q.labels.len() implies (#[trigger] q.labels[i] matches Some(x) && x
        <= q.insns.len()) by {
        if i == k {
            assert(mid.labels[k] == body.labels[k]);
        } else if i > k + 2 {
            assert(q.labels[i] == mid.labels[i]);
            assert(mid.labels[i] matches Some(x) && x <= mid.insns.len());
        }
    }
}

proof fn lemma_projected_scan_extends(p: ProgramV, t: BTreeTable, scan: TableScan, exprs: Seq<LogicalExpr>)
    requires
        projected_scan_code(p, t, scan, exprs).0.labels.len() <= usize::MAX,
    ensures
        extends(p, projected_scan_code(p, t, scan, exprs).0),
        resolved_from(projected_scan_code(p, t, scan, exprs).0, p.labels.len()),
{
    let n = scan.schema.columns@.len();
    let m = exprs.len();
    let c = p.cursors.len() as usize;
    let start = p.next_free_register;
    let h = scan_head(p, t, n, m);
    let body = emit_all(h, column_reads(c, all_columns(n), start));
    let mid = exprs_code(body, exprs, start + n, c, t.columns@);
    let q = projected_scan_code(p, t, scan, exprs).0;
    let k = p.labels.len() as int;
    lemma_exprs_code_labels(body, exprs, start + n, c, t.columns@);
    lemma_scan_head(p, t, n, m);
    lemma_exprs_code_extends(body, exprs, start + n, c, t.columns@);
    assert forall|i: int| 0 <= i < p.labels.len() implies #[trigger] q.labels[i] == p.labels[i] by {
        assert(mid.labels[i] == body.labels[i]);
        assert(body.labels[i] == h.labels[i]);
    }
    assert forall|i: int| 0 <= i < p.insns.len() implies #[trigger] q.insns[i] == p.insns[i] by {
        assert(q.insns[i] == mid.insns[i]);
        assert(mid.insns[i] == body.insns[i]);
        assert(body.insns[i] == h.insns[i]);
    }
    assert forall|i: int| 0 <= i < p.cursors.len() implies #[trigger] q.cursors[i] == p.cursors[i] by {
        assert(q.cursors[i] == mid.cursors[i]);
        assert(mid.cursors[i] == h.cursors[i]);
    }
    assert forall|i: int| p.labels.len() <= i < q.labels.len() implies (#[trigger] q.labels[i] matches Some(x) && x
        <= q.insns.len()) by {
        if i == k {
            assert(mid.labels[k] == body.labels[k]);
        } else if i > k + 1 {
            assert(q.labels[i] == mid.labels[i]);
            assert(mid.labels[i] matches Some(x) && x <= mid.insns.len());
        }
    }
}

proof fn lemma_filtered_projected_scan_extends(
    p: ProgramV,
    t: BTreeTable,
    scan: TableScan,
    preds: Seq<LogicalExpr>,
    exprs: Seq<LogicalExpr>,
)
    requires
        filtered_projected_scan_code(p, t, scan, preds, exprs).0.labels.len() <= usize::MAX,
    ensures
        extends(p, filtered_projected_scan_code(p, t, scan, preds, exprs).0),
        resolved_from(filtered_projected_scan_code(p, t, scan, preds, exprs).0, p.labels.len()),
{
    let n = scan.schema.columns@.len();
    let m = exprs.len();
    let c = p.cursors.len() as usize;
    let start = p.next_free_register;
    let pred_reg = (start + n + m) as usize;
    let k = p.labels.len() as int;
    let h = scan_head(p, t, n, m + 1);
    let h1 = h.alloc_labels(1);
    let body = emit_all(h1, column_reads(c, all_columns(n), start));
    let ev = checks_code(body, preds, pred_reg, (k + 2) as usize, c, t.columns@);
    let mid2 = exprs_code(ev, exprs, start + n, c, t.columns@);
    let q = filtered_projected_scan_code(p, t, scan, preds, exprs).0;
    lemma_checks_labels_regs(body, preds, pred_reg, (k + 2) as usize, c, t.columns@);
    lemma_exprs_code_labels(ev, exprs, start + n, c, t.columns@);
    lemma_scan_head(p, t, n, m + 1);
    lemma_checks_extends(body, preds, pred_reg, (k + 2) as usize, c, t.columns@);
    lemma_exprs_code_extends(ev, exprs, start + n, c, t.columns@);
    assert forall|i: int| 0 <= i < p.labels.len() implies #[trigger] q.labels[i] == p.labels[i] by {
        assert(mid2.labels[i] == ev.labels[i]);
        assert(ev.labels[i] == body.labels[i]);
        assert(body.labels[i] == h.labels[i]);
    }
    assert forall|i: int| 0 <= i < p.insns.len() implies #[trigger] q.insns[i] == p.insns[i] by {
        assert(q.insns[i] == mid2.insns[i]);
        assert(mid2.insns[i] == ev.insns[i]);
        assert(ev.insns[i] == body.insns[i]);
        assert(body.insns[i] == h.insns[i]);
    }
    assert forall|i: int| 0 <= i < p.cursors.len() implies #[trigger] q.cursors[i] == p.cursors[i] by {
        assert(q.cursors[i] == mid2.cursors[i]);
        assert(mid2.cursors[i] == ev.cursors[i]);
        assert(ev.cursors[i] == h.cursors[i]);
    }
    assert forall|i: int| p.labels.len() <= i < q.labels.len() implies (#[trigger] q.labels[i] matches Some(x) && x
        <= q.insns.len()) by {
        if i == k {
            assert(mid2.labels[k] == ev.labels[k]);
            assert(ev.labels[k] == body.labels[k]);
        } else if i > k + 2 {
            assert(q.labels[i] == mid2.labels[i]);
            if i < ev.labels.len() {
                assert(mid2.labels[i] == ev.labels[i]);
                assert(ev.labels[i] matches Some(x) && x <= ev.insns.len());
            } else {
                assert(mid2.labels[i] matches Some(x) && x <= mid2.insns.len());
            }
        }
    }
}

/// The jump target of an instruction, if it jumps.
pub open spec fn jump_target(i: InsnV) -> Option<BranchOffset> {
    match i {
        InsnV::Rewind { pc_if_empty, .. } => Some(pc_if_empty),
        InsnV::Next { pc_if_next, .. } => Some(pc_if_next),
        InsnV::IfNot { target_pc, .. } => Some(target_pc),
        InsnV::If { target_pc, .. } => Some(target_pc),
        InsnV::Goto { target_pc } => Some(target_pc),
        InsnV::Eq { target_pc, .. } => Some(target_pc),
        InsnV::Ne { target_pc, .. } => Some(target_pc),
        InsnV::Lt { target_pc, .. } => Some(target_pc),
        InsnV::Le { target_pc, .. } => Some(target_pc),
        InsnV::Gt { target_pc, .. } => Some(target_pc),
        InsnV::Ge { target_pc, .. } => Some(target_pc),
        _ => None,
    }
}

/// Every instruction of `q` from the `from`-th on that jumps to a label
/// jumps to one of the labels `lo..hi`.
pub open spec fn jumps_within(q: ProgramV, from: int, lo: nat, hi: nat) -> bool {
    forall|i: int|
        from <= i < q.insns.len() ==> match jump_target(#[trigger] q.insns[i]) {
            Some(BranchOffset::Label(k)) => lo <= k < hi,
            _ => true,
        }
}

proof fn lemma_jumps_compose(q1: ProgramV, q2: ProgramV, from: int, lo: nat, h1: nat, lo2: nat, h2: nat)
    requires
        0 <= from,
        jumps_within(q1, from, lo, h1),
        prefix_of(q1.insns, q2.insns),
        jumps_within(q2, q1.insns.len() as int, lo2, h2),
        lo <= lo2,
        h1 <= h2,
    ensures
        jumps_within(q2, from, lo, h2),
{
    assert forall|i: int| from <= i < q2.insns.len() implies match jump_target(#[trigger] q2.insns[i]) {
        Some(BranchOffset::Label(k)) => lo <= k < h2,
        _ => true,
    } by {
        if i < q1.insns.len() {
            assert(q2.insns[i] == q1.insns[i]);
        }
    }
}

/// The code of an expression jumps only to labels it creates.
pub proof fn lemma_expr_code_jumps(p: ProgramV, e: LogicalExpr, dest: usize, cursor: usize, cols: Seq<Column>)
    requires
        expr_code(p, e, dest, cursor, cols).labels.len() <= usize::MAX,
    ensures
        jumps_within(
            expr_code(p, e, dest, cursor, cols),
            p.insns.len() as int,
            p.labels.len(),
            expr_code(p, e, dest, cursor, cols).labels.len(),
        ),
    decreases e,
{
    if let LogicalExpr::BinaryExpr { left, op, right } = e {
        let l = p.next_free_register;
        let p1 = p.alloc_regs(2);
        let p2 = expr_code(p1, *left, l as usize, cursor, cols);
        let p3 = expr_code(p2, *right, (l + 1) as usize, cursor, cols);
        let q = binop_code(p3, op, l as usize, (l + 1) as usize, dest);
        lemma_binop_labels_len(p3, op, l as usize, (l + 1) as usize, dest);
        lemma_expr_code_labels(p2, *right, (l + 1) as usize, cursor, cols);
        lemma_expr_code_labels(p1, *left, l as usize, cursor, cols);
        lemma_expr_code_jumps(p1, *left, l as usize, cursor, cols);
        lemma_expr_code_jumps(p2, *right, (l + 1) as usize, cursor, cols);
        lemma_expr_code_extends(p1, *left, l as usize, cursor, cols);
        lemma_expr_code_extends(p2, *right, (l + 1) as usize, cursor, cols);
        lemma_binop_extends(p3, op, l as usize, (l + 1) as usize, dest);
        lemma_jumps_compose(p2, p3, p.insns.len() as int, p.labels.len(), p2.labels.len(), p2.labels.len(), p3.labels.len());
        assert(jumps_within(q, p3.insns.len() as int, p3.labels.len(), q.labels.len()));
        lemma_jumps_compose(p3, q, p.insns.len() as int, p.labels.len(), p3.labels.len(), p3.labels.len(), q.labels.len());
    }
}

/// The code of a list of expressions jumps only to labels it creates.
pub proof fn lemma_exprs_code_jumps(p: ProgramV, s: Seq<LogicalExpr>, base: nat, cursor: usize, cols: Seq<Column>)
    requires
        exprs_code(p, s, base, cursor, cols).labels.len() <= usize::MAX,
    ensures
        jumps_within(
            exprs_code(p, s, base, cursor, cols),
            p.insns.len() as int,
            p.labels.len(),
            exprs_code(p, s, base, cursor, cols).labels.len(),
        ),
    decreases s.len(),
{
    if s.len() > 0 {
        let mid = exprs_code(p, s.drop_last(), base, cursor, cols);
        let d = (base + s.len() - 1) as usize;
        let q = expr_code(mid, s.last(), d, cursor, cols);
        lemma_expr_code_labels(mid, s.last(), d, cursor, cols);
        lemma_exprs_code_labels(p, s.drop_last(), base, cursor, cols);
        lemma_exprs_code_jumps(p, s.drop_last(), base, cursor, cols);
        lemma_expr_code_jumps(mid, s.last(), d, cursor, cols);
        lemma_expr_code_extends(mid, s.last(), d, cursor, cols);
        lemma_jumps_compose(mid, q, p.insns.len() as int, p.labels.len(), mid.labels.len(), mid.labels.len(), q.labels.len());
    }
}

/// The jumps of a successful scan plan target labels it created.
proof fn lemma_scan_plan_jumps(
    p: ProgramV,
    schema: Schema,
    scan: TableScan,
    preds: Seq<LogicalExpr>,
    exprs: Option<Seq<LogicalExpr>>,
)
    requires
        scan_plan(p, schema, scan, preds, exprs) is Ok,
        scan_plan(p, schema, scan, preds, exprs)->Ok_0.0.labels.len() <= usize::MAX,
    ensures
        jumps_within(
            scan_plan(p, schema, scan, preds, exprs)->Ok_0.0,
            p.insns.len() as int,
            p.labels.len(),
            scan_plan(p, schema, scan, preds, exprs)->Ok_0.0.labels.len(),
        ),
{
    let start = p.next_free_register;
    let c = p.cursors.len() as usize;
    let k = p.labels.len();
    let t = lookup_table(schema, scan.table_name@)->0;
    let n = scan.schema.columns@.len();
    match exprs {
        None => if preds.len() == 0 {
            lemma_table_scan_shape(p, t, scan);
        } else {
            let h = scan_head(p, t, n, 1);
            let body = emit_all(h.alloc_labels(1), column_reads(c, scan_columns(scan), start));
            let mid = checks_code(body, preds, (start + n) as usize, (k + 2) as usize, c, t.columns@);
            let q = filtered_scan_code(p, t, scan, preds).0;
            lemma_checks_labels_regs(body, preds, (start + n) as usize, (k + 2) as usize, c, t.columns@);
            lemma_scan_head(p, t, n, 1);
            lemma_checks_jumps(body, preds, (start + n) as usize, (k + 2) as usize, c, t.columns@, k);
            lemma_checks_extends(body, preds, (start + n) as usize, (k + 2) as usize, c, t.columns@);
            assert(jumps_within(body, p.insns.len() as int, k, k + 3)) by {
                assert forall|i: int| p.insns.len() <= i < body.insns.len() implies match jump_target(
                    #[trigger] body.insns[i],
                ) {
                    Some(BranchOffset::Label(j)) => k <= j < k + 3,
                    _ => true,
                } by {
                    if i >= h.insns.len() {
                        assert(body.insns[i] == column_reads(c, scan_columns(scan), start)[i - h.insns.len()]);
                    }
                }
            }
            lemma_jumps_compose(body, mid, p.insns.len() as int, k, k + 3, k, mid.labels.len());
            assert(jumps_within(q, mid.insns.len() as int, k, q.labels.len()));
            assert forall|i: int| 0 <= i < mid.insns.len() implies #[trigger] q.insns[i] == mid.insns[i] by {}
            lemma_jumps_compose(mid, q, p.insns.len() as int, k, mid.labels.len(), k, q.labels.len());
        },
        Some(es) => if preds.len() == 0 {
            let m = es.len();
            let h = scan_head(p, t, n, m);
            let body = emit_all(h, column_reads(c, all_columns(n), start));
            let mid = exprs_code(body, es, start + n, c, t.columns@);
            let q = projected_scan_code(p, t, scan, es).0;
            lemma_exprs_code_labels(body, es, start + n, c, t.columns@);
            lemma_scan_head(p, t, n, m);
            lemma_exprs_code_jumps(body, es, start + n, c, t.columns@);
            lemma_exprs_code_extends(body, es, start + n, c, t.columns@);
            assert(jumps_within(body, p.insns.len() as int, k, k + 2)) by {
                assert forall|i: int| p.insns.len() <= i < body.insns.len() implies match jump_target(
                    #[trigger] body.insns[i],
                ) {
                    Some(BranchOffset::Label(j)) => k <= j < k + 2,
                    _ => true,
                } by {
                    if i >= h.insns.len() {
                        assert(body.insns[i] == column_reads(c, all_columns(n), start)[i - h.insns.len()]);
                    }
                }
            }
            lemma_jumps_compose(body, mid, p.insns.len() as int, k, k + 2, body.labels.len(), mid.labels.len());
            assert(jumps_within(q, mid.insns.len() as int, k, q.labels.len()));
            assert forall|i: int| 0 <= i < mid.insns.len() implies #[trigger] q.insns[i] == mid.insns[i] by {}
            lemma_jumps_compose(mid, q, p.insns.len() as int, k, mid.labels.len(), k, q.labels.len());
        } else {
            let m = es.len();
            let pred_reg = (start + n + m) as usize;
            let h = scan_head(p, t, n, m + 1);
            let body = emit_all(h.alloc_labels(1), column_reads(c, all_columns(n), start));
            let ev = checks_code(body, preds, pred_reg, (k + 2) as usize, c, t.columns@);
            let mid2 = exprs_code(ev, es, start + n, c, t.columns@);
            let q = filtered_projected_scan_code(p, t, scan, preds, es).0;
            lemma_checks_labels_regs(body, preds, pred_reg, (k + 2) as usize, c, t.columns@);
            lemma_exprs_code_labels(ev, es, start + n, c, t.columns@);
            lemma_scan_head(p, t, n, m + 1);
            lemma_checks_jumps(body, preds, pred_reg, (k + 2) as usize, c, t.columns@, k);
            lemma_exprs_code_jumps(ev, es, start + n, c, t.columns@);
            lemma_checks_extends(body, preds, pred_reg, (k + 2) as usize, c, t.columns@);
            lemma_exprs_code_extends(ev, es, start + n, c, t.columns@);
            assert(jumps_within(body, p.insns.len() as int, k, k + 3)) by {
                assert forall|i: int| p.insns.len() <= i < body.insns.len() implies match jump_target(
                    #[trigger] body.insns[i],
                ) {
                    Some(BranchOffset::Label(j)) => k <= j < k + 3,
                    _ => true,
                } by {
                    if i >= h.insns.len() {
                        assert(body.insns[i] == column_reads(c, all_columns(n), start)[i - h.insns.len()]);
                    }
                }
            }
            lemma_jumps_compose(body, ev, p.insns.len() as int, k, k + 3, k, ev.labels.len());
            lemma_jumps_compose(ev, mid2, p.insns.len() as int, k, ev.labels.len(), ev.labels.len(), mid2.labels.len());
            assert(jumps_within(q, mid2.insns.len() as int, k, q.labels.len()));
            assert forall|i: int| 0 <= i < mid2.insns.len() implies #[trigger] q.insns[i] == mid2.insns[i] by {}
            lemma_jumps_compose(mid2, q, p.insns.len() as int, k, mid2.labels.len(), k, q.labels.len());
        },
    }
}

/// Every jump that compiling a handled plan emits targets a label that the
/// same compilation created; with [`lemma_compiled_plan_extends`], every
/// such jump lands on an instruction of the program or its end.
pub proof fn lemma_compiled_plan_jumps(p: ProgramV, schema: Schema, plan: LogicalPlan)
    requires
        supported_plan(plan),
        plan_code(p, schema, plan) is Ok,
        plan_code(p, schema, plan)->Ok_0.0.labels.len() <= usize::MAX,
    ensures
        jumps_within(
            plan_code(p, schema, plan)->Ok_0.0,
            p.insns.len() as int,
            p.labels.len(),
            plan_code(p, schema, plan)->Ok_0.0.labels.len(),
        ),
{
    let preds = filter_preds(plan);
    match filter_base(plan) {
        LogicalPlan::TableScan(sc) => lemma_scan_plan_jumps(p, schema, sc, preds, None),
        LogicalPlan::Projection(pr) => match *pr.input {
            LogicalPlan::TableScan(sc) => lemma_scan_plan_jumps(p, schema, sc, preds, Some(pr.exprs@)),
            LogicalPlan::Filter(f) => match *f.input {
                LogicalPlan::TableScan(sc) => lemma_scan_plan_jumps(
                    p,
                    schema,
                    sc,
                    preds.push(f.predicate),
                    Some(pr.exprs@),
                ),
                _ => {},
            },
            _ => {},
        },
        _ => {},
    }
}

/// The registers after the code of a list of expressions are their scratch
/// registers more.
pub proof fn lemma_exprs_code_regs(p: ProgramV, s: Seq<LogicalExpr>, base: nat, cursor: usize, cols: Seq<Column>)
    ensures
        exprs_code(p, s, base, cursor, cols).next_free_register == p.next_free_register + exprs_regs(s),
    decreases s.len(),
{
    if s.len() > 0 {
        lemma_exprs_code_regs(p, s.drop_last(), base, cursor, cols);
        lemma_expr_code_regs(exprs_code(p, s.drop_last(), base, cursor, cols), s.last(), (base + s.len() - 1) as usize, cursor, cols);
    }
}

/// Every table scan of the plan that outputs its own columns lists no more
/// of them than the table has.
pub open spec fn plan_projections_fit(plan: LogicalPlan) -> bool {
    match filter_base(plan) {
        LogicalPlan::TableScan(s) => scan_columns(s).len() <= s.schema.columns@.len(),
        _ => true,
    }
}

/// The registers a successful scan plan outputs were handed out by it.
proof fn lemma_scan_plan_output_fresh(
    p: ProgramV,
    schema: Schema,
    scan: TableScan,
    preds: Seq<LogicalExpr>,
    exprs: Option<Seq<LogicalExpr>>,
)
    requires
        exprs is None ==> scan_columns(scan).len() <= scan.schema.columns@.len(),
        scan_plan(p, schema, scan, preds, exprs) is Ok,
        p.next_free_register + scan_plan_regs(scan, preds, exprs) <= usize::MAX,
    ensures
        ({
            let (q, res) = scan_plan(p, schema, scan, preds, exprs)->Ok_0;
            &&& p.next_free_register <= res.output_start_reg
            &&& res.output_start_reg + res.output_count <= q.next_free_register
        }),
{
    let start = p.next_free_register;
    let t = lookup_table(schema, scan.table_name@)->0;
    let n = scan.schema.columns@.len();
    let c = p.cursors.len() as usize;
    let k = p.labels.len();
    match exprs {
        None => if preds.len() > 0 {
            let body = emit_all(scan_head(p, t, n, 1).alloc_labels(1), column_reads(c, scan_columns(scan), start));
            lemma_checks_labels_regs(body, preds, (start + n) as usize, (k + 2) as usize, c, t.columns@);
        },
        Some(es) => {
            let m = es.len();
            if preds.len() == 0 {
                let body = emit_all(scan_head(p, t, n, m), column_reads(c, all_columns(n), start));
                lemma_exprs_code_regs(body, es, start + n, c, t.columns@);
            } else {
                let pred_reg = (start + n + m) as usize;
                let body = emit_all(scan_head(p, t, n, m + 1).alloc_labels(1), column_reads(c, all_columns(n), start));
                let ev = checks_code(body, preds, pred_reg, (k + 2) as usize, c, t.columns@);
                lemma_checks_labels_regs(body, preds, pred_reg, (k + 2) as usize, c, t.columns@);
                lemma_exprs_code_regs(ev, es, start + n, c, t.columns@);
            }
        },
    }
}

/// The registers a compiled plan outputs were handed out by that
/// compilation: they lie between the first register free before it and the
/// first register free after it.
pub proof fn lemma_compiled_plan_output_fresh(p: ProgramV, schema: Schema, plan: LogicalPlan)
    requires
        supported_plan(plan),
        plan_projections_fit(plan),
        plan_code(p, schema, plan) is Ok,
        p.next_free_register + plan_regs(plan) <= usize::MAX,
    ensures
        ({
            let (q, res) = plan_code(p, schema, plan)->Ok_0;
            &&& p.next_free_register <= res.output_start_reg
            &&& res.output_start_reg + res.output_count <= q.next_free_register
        }),
{
    let preds = filter_preds(plan);
    match filter_base(plan) {
        LogicalPlan::TableScan(sc) => lemma_scan_plan_output_fresh(p, schema, sc, preds, None),
        LogicalPlan::Projection(pr) => match *pr.input {
            LogicalPlan::TableScan(sc) => lemma_scan_plan_output_fresh(p, schema, sc, preds, Some(pr.exprs@)),
            LogicalPlan::Filter(f) => match *f.input {
                LogicalPlan::TableScan(sc) => lemma_scan_plan_output_fresh(
                    p,
                    schema,
                    sc,
                    preds.push(f.predicate),
                    Some(pr.exprs@),
                ),
                _ => {},
            },
            _ => {},
        },
        _ => {},
    }
}

// ---------------------------------------------------------------------------
// Compilation
// ---------------------------------------------------------------------------

/// Name resolution context: the schema plans refer to.
pub struct Resolver<'a> {
    pub schema: &'a Schema,
}

impl<'a> Resolver<'a> {
    /// A resolver over `schema`.
    pub fn new(schema: &'a Schema) -> (r: Self)
        ensures
            r.schema == schema,
    {
        Resolver { schema }
    }
}

/// Result of compiling a logical plan node.
#[derive(Debug, Clone, Copy, PartialEq, Eq, Structural)]
pub struct CompilationResult {
    /// Starting register for output columns
    pub output_start_reg: usize,
    /// Number of output columns
    pub output_count: usize,
    /// Cursor ID if this node opened a cursor
    pub cursor_id: Option<usize>,
}

/// Compiles logical plans into the program being built.
pub struct LogicalCompiler<'a> {
    pub program: &'a mut ProgramBuilder,
    pub resolver: &'a Resolver<'a>,
}

/// The error for a missing table.
fn table_not_found_error(name: &str) -> (r: LimboError)
    ensures
        r matches LimboError::ParseError(m) && m@ == table_not_found(name@),
{
    let mut m = owned("Table not found: ");
    append(&mut m, name);
    LimboError::ParseError(m)
}


/// The error for a column reference the scanned table cannot resolve.
fn column_not_found_error(name: &str) -> (r: LimboError)
    ensures
        r matches LimboError::ParseError(m) && m@ == column_not_found(name@),
{
    let mut m = owned("Column not found: ");
    append(&mut m, name);
    LimboError::ParseError(m)
}

/// Reads the columns `cols` of `cursor_id` into registers from `start`.
fn emit_column_reads(program: &mut ProgramBuilder, cursor_id: usize, cols: &Vec<usize>, start: usize)
    requires
        start + cols@.len() <= usize::MAX,
    ensures
        final(program)@ == emit_all(old(program)@, column_reads(cursor_id, cols@, start as nat)),
{
    let ghost p0 = program@;
    let ghost reads = column_reads(cursor_id, cols@, start as nat);
    let mut i: usize = 0;
    proof {
        assert(emit_all(p0, reads.subrange(0, 0)).insns =~= p0.insns);
    }
    while i < cols.len()
        invariant
            i <= cols@.len(),
            start + cols@.len() <= usize::MAX,
            reads == column_reads(cursor_id, cols@, start as nat),
            program@ == emit_all(p0, reads.subrange(0, i as int)),
        decreases cols.len() - i,
    {
        program.emit_insn(Insn::Column { cursor_id, column: cols[i], dest: start + i });
        proof {
            assert(reads.subrange(0, i + 1) =~= reads.subrange(0, i as int).push(reads[i as int]));
            assert(program@.insns =~= emit_all(p0, reads.subrange(0, i + 1)).insns);
        }
        i = i + 1;
    }
    proof {
        assert(reads.subrange(0, cols@.len() as int) =~= reads);
    }
}

/// Reads every column `0..n` of `cursor_id` into registers from `start`.
fn emit_all_column_reads(program: &mut ProgramBuilder, cursor_id: usize, n: usize, start: usize)
    requires
        start + n <= usize::MAX,
    ensures
        final(program)@ == emit_all(old(program)@, column_reads(cursor_id, all_columns(n as nat), start as nat)),
{
    let ghost p0 = program@;
    let ghost reads = column_reads(cursor_id, all_columns(n as nat), start as nat);
    let mut i: usize = 0;
    proof {
        assert(emit_all(p0, reads.subrange(0, 0)).insns =~= p0.insns);
    }
    while i < n
        invariant
            i <= n,
            start + n <= usize::MAX,
            reads == column_reads(cursor_id, all_columns(n as nat), start as nat),
            program@ == emit_all(p0, reads.subrange(0, i as int)),
        decreases n - i,
    {
        program.emit_insn(Insn::Column { cursor_id, column: i, dest: start + i });
        proof {
            assert(reads.subrange(0, i + 1) =~= reads.subrange(0, i as int).push(reads[i as int]));
            assert(program@.insns =~= emit_all(p0, reads.subrange(0, i + 1)).insns);
        }
        i = i + 1;
    }
    proof {
        assert(reads.subrange(0, n as int) =~= reads);
    }
}

/// The conditional jump of the comparison `op` (see [`compare_jump`]).
fn compare_jump_insn(op: &Operator, l: usize, r: usize, target: BranchOffset) -> (i: Insn)
    requires
        is_comparison(*op),
    ensures
        i@ == compare_jump(*op, l, r, target),
{
    match op {
        Operator::Equals => Insn::Eq { lhs: l, rhs: r, target_pc: target },
        Operator::NotEquals => Insn::Ne { lhs: l, rhs: r, target_pc: target },
        Operator::Less => Insn::Lt { lhs: l, rhs: r, target_pc: target },
        Operator::LessEquals => Insn::Le { lhs: l, rhs: r, target_pc: target },
        Operator::Greater => Insn::Gt { lhs: l, rhs: r, target_pc: target },
        _ => Insn::Ge { lhs: l, rhs: r, target_pc: target },
    }
}

/// Emits the code setting `dest_reg` to `left_reg op right_reg`.
fn compile_binary_op(program: &mut ProgramBuilder, op: &Operator, left_reg: usize, right_reg: usize, dest_reg: usize)
    requires
        supported_op(*op),
    ensures
        final(program)@ == binop_code(old(program)@, *op, left_reg, right_reg, dest_reg),
{
    match op {
        Operator::Add => program.emit_insn(Insn::Add { lhs: left_reg, rhs: right_reg, dest: dest_reg }),
        Operator::Subtract => program.emit_insn(Insn::Subtract { lhs: left_reg, rhs: right_reg, dest: dest_reg }),
        Operator::Multiply => program.emit_insn(Insn::Multiply { lhs: left_reg, rhs: right_reg, dest: dest_reg }),
        Operator::Divide => program.emit_insn(Insn::Divide { lhs: left_reg, rhs: right_reg, dest: dest_reg }),
        Operator::Equals | Operator::NotEquals | Operator::Less | Operator::LessEquals | Operator::Greater
        | Operator::GreaterEquals => {
            let ghost p0 = program@;
            let true_label = program.alloc_label();
            let end_label = program.alloc_label();
            assert(program@.labels =~= p0.alloc_labels(2).labels);
            program.emit_insn(compare_jump_insn(op, left_reg, right_reg, true_label));
            program.emit_insn(Insn::Integer { value: 0, dest: dest_reg });
            program.emit_insn(Insn::Goto { target_pc: end_label });
            program.assign_label(true_label);
            program.emit_insn(Insn::Integer { value: 1, dest: dest_reg });
            program.assign_label(end_label);
        },
        Operator::And => {
            let ghost p0 = program@;
            let skip_right_eval = program.alloc_label();
            let end_label = program.alloc_label();
            assert(program@.labels =~= p0.alloc_labels(2).labels);
            program.emit_insn(Insn::IfNot { reg: left_reg, target_pc: skip_right_eval, jump_if_null: true });
            program.emit_insn(Insn::Move { from_reg: right_reg, to_reg: dest_reg, count: 1 });
            program.emit_insn(Insn::Goto { target_pc: end_label });
            program.assign_label(skip_right_eval);
            program.emit_insn(Insn::Integer { value: 0, dest: dest_reg });
            program.assign_label(end_label);
        },
        Operator::Or => {
            let ghost p0 = program@;
            let skip_right_eval = program.alloc_label();
            let end_label = program.alloc_label();
            assert(program@.labels =~= p0.alloc_labels(2).labels);
            program.emit_insn(Insn::If { reg: left_reg, target_pc: skip_right_eval, jump_if_null: false });
            program.emit_insn(Insn::Move { from_reg: right_reg, to_reg: dest_reg, count: 1 });
            program.emit_insn(Insn::Goto { target_pc: end_label });
            program.assign_label(skip_right_eval);
            program.emit_insn(Insn::Integer { value: 1, dest: dest_reg });
            program.assign_label(end_label);
        },
        _ => {},
    }
}

/// The registers after the code of `e` are its scratch registers more.
pub proof fn lemma_expr_code_regs(p: ProgramV, e: LogicalExpr, dest: usize, cursor: usize, cols: Seq<Column>)
    ensures
        expr_code(p, e, dest, cursor, cols).next_free_register == p.next_free_register + expr_regs(e),
    decreases e,
{
    if let LogicalExpr::BinaryExpr { left, op, right } = e {
        let l = p.next_free_register;
        lemma_expr_code_regs(p.alloc_regs(2), *left, l as usize, cursor, cols);
        let p2 = expr_code(p.alloc_regs(2), *left, l as usize, cursor, cols);
        lemma_expr_code_regs(p2, *right, (l + 1) as usize, cursor, cols);
    }
}


/// The code of an expression only adds labels.
pub proof fn lemma_expr_code_labels(p: ProgramV, e: LogicalExpr, dest: usize, cursor: usize, cols: Seq<Column>)
    ensures
        expr_code(p, e, dest, cursor, cols).labels.len() >= p.labels.len(),
    decreases e,
{
    if let LogicalExpr::BinaryExpr { left, op, right } = e {
        let l = p.next_free_register;
        lemma_expr_code_labels(p.alloc_regs(2), *left, l as usize, cursor, cols);
        let p2 = expr_code(p.alloc_regs(2), *left, l as usize, cursor, cols);
        lemma_expr_code_labels(p2, *right, (l + 1) as usize, cursor, cols);
    }
}

/// The code of a list of expressions only adds labels.
pub proof fn lemma_exprs_code_labels(p: ProgramV, s: Seq<LogicalExpr>, base: nat, cursor: usize, cols: Seq<Column>)
    ensures
        exprs_code(p, s, base, cursor, cols).labels.len() >= p.labels.len(),
    decreases s.len(),
{
    if s.len() > 0 {
        lemma_exprs_code_labels(p, s.drop_last(), base, cursor, cols);
        lemma_expr_code_labels(exprs_code(p, s.drop_last(), base, cursor, cols), s.last(), (base + s.len() - 1) as usize, cursor, cols);
    }
}

/// The position of the first of `cols` called `name`.
fn find_column(cols: &Vec<Column>, name: &String) -> (r: Option<usize>)
    ensures
        match column_index(cols@, name@) {
            Some(i) => r == Some(i as usize),
            None => r is None,
        },
{
    let mut i: usize = 0;
    while i < cols.len()
        invariant
            i <= cols@.len(),
            column_index(cols@.subrange(0, i as int), name@) is None,
        decreases cols.len() - i,
    {
        let named = match &cols[i].name {
            Some(n) => str_eq(n.as_str(), name.as_str()),
            None => false,
        };
        proof {
            assert(cols@.subrange(0, i + 1).drop_last() =~= cols@.subrange(0, i as int));
            assert(named == column_named(cols@[i as int], name@));
        }
        if named {
            proof {
                lemma_column_index_prefix(cols@, name@, i + 1);
            }
            return Some(i);
        }
        i = i + 1;
    }
    proof {
        assert(cols@.subrange(0, cols@.len() as int) =~= cols@);
    }
    None
}

/// A column found in a prefix of `cols` is found at the same place in
/// `cols`.
proof fn lemma_column_index_prefix(cols: Seq<Column>, name: Seq<char>, m: int)
    requires
        0 <= m <= cols.len(),
        column_index(cols.subrange(0, m), name) is Some,
    ensures
        column_index(cols, name) == column_index(cols.subrange(0, m), name),
    decreases cols.len(),
{
    if m == cols.len() {
        assert(cols.subrange(0, m) =~= cols);
    } else {
        assert(cols.drop_last().subrange(0, m) =~= cols.subrange(0, m));
        lemma_column_index_prefix(cols.drop_last(), name, m);
    }
}

/// The first column name `e` refers to that `cols` lacks.
fn find_unresolved(cols: &Vec<Column>, e: &LogicalExpr) -> (r: Option<String>)
    ensures
        match unresolved_column(cols@, *e) {
            Some(n) => r matches Some(x) && x@ == n,
            None => r is None,
        },
    decreases e,
{
    match e {
        LogicalExpr::Column(c) => match find_column(cols, &c.name) {
            Some(_) => None,
            None => Some(c.name.clone()),
        },
        LogicalExpr::BinaryExpr { left, op, right } => match find_unresolved(cols, left) {
            Some(n) => Some(n),
            None => find_unresolved(cols, right),
        },
        _ => None,
    }
}

/// The first column name an expression of `exprs` refers to that `cols`
/// lacks.
fn find_unresolved_in(cols: &Vec<Column>, exprs: &Vec<LogicalExpr>) -> (r: Option<String>)
    ensures
        match unresolved_in(cols@, exprs@) {
            Some(n) => r matches Some(x) && x@ == n,
            None => r is None,
        },
{
    let mut i: usize = 0;
    proof {
        assert(exprs@.subrange(0, 0) =~= Seq::<LogicalExpr>::empty());
    }
    while i < exprs.len()
        invariant
            i <= exprs@.len(),
            unresolved_in(cols@, exprs@.subrange(0, i as int)) is None,
        decreases exprs.len() - i,
    {
        let found = find_unresolved(cols, &exprs[i]);
        proof {
            assert(exprs@.subrange(0, i + 1).drop_last() =~= exprs@.subrange(0, i as int));
        }
        if found.is_some() {
            proof {
                lemma_unresolved_prefix(cols@, exprs@, i + 1);
            }
            return found;
        }
        i = i + 1;
    }
    proof {
        assert(exprs@.subrange(0, exprs@.len() as int) =~= exprs@);
    }
    None
}

/// A missing column found in a prefix of `s` is the first of `s`.
proof fn lemma_unresolved_prefix(cols: Seq<Column>, s: Seq<LogicalExpr>, m: int)
    requires
        0 <= m <= s.len(),
        unresolved_in(cols, s.subrange(0, m)) is Some,
    ensures
        unresolved_in(cols, s) == unresolved_in(cols, s.subrange(0, m)),
    decreases s.len(),
{
    if m == s.len() {
        assert(s.subrange(0, m) =~= s);
    } else {
        assert(s.drop_last().subrange(0, m) =~= s.subrange(0, m));
        lemma_unresolved_prefix(cols, s.drop_last(), m);
    }
}

/// When no expression of `s` lacks a column, none of them does.
proof fn lemma_unresolved_none(cols: Seq<Column>, s: Seq<LogicalExpr>, i: int)
    requires
        0 <= i < s.len(),
        unresolved_in(cols, s) is None,
    ensures
        unresolved_column(cols, s[i]) is None,
    decreases s.len(),
{
    if i < s.len() - 1 {
        lemma_unresolved_none(cols, s.drop_last(), i);
    }
}

/// Emits the code evaluating `expr` into `dest_reg`; a column reference
/// reads the column of that name among `cols`, the columns of the table
/// open on `cursor_id`.
fn compile_logical_expr(
    program: &mut ProgramBuilder,
    expr: &LogicalExpr,
    dest_reg: usize,
    cursor_id: usize,
    cols: &Vec<Column>,
)
    requires
        supported_expr(*expr),
        unresolved_column(cols@, *expr) is None,
        old(program).next_free_register + expr_regs(*expr) <= usize::MAX,
    ensures
        final(program)@ == expr_code(old(program)@, *expr, dest_reg, cursor_id, cols@),
    decreases expr,
{
    proof {
        lemma_expr_code_regs(old(program)@, *expr, dest_reg, cursor_id, cols@);
    }
    match expr {
        LogicalExpr::Literal(value) => {
            match value {
                Value::Integer(i) => program.emit_insn(Insn::Integer { value: *i, dest: dest_reg }),
                Value::Float(f) => program.emit_insn(Insn::Real { value: *f, dest: dest_reg }),
                Value::Text(s) => program.emit_insn(Insn::String8 { value: s.clone(), dest: dest_reg }),
                Value::Null => program.emit_insn(Insn::Null { dest: dest_reg, dest_end: None }),
                Value::Blob(_) => {},
            }
        },
        LogicalExpr::Column(c) => {
            if let Some(column) = find_column(cols, &c.name) {
                program.emit_insn(Insn::Column { cursor_id, column, dest: dest_reg });
            }
        },
        LogicalExpr::BinaryExpr { left, op, right } => {
            let left_reg = program.alloc_registers(1);
            let right_reg = program.alloc_registers(1);
            proof {
                assert(program@ == old(program)@.alloc_regs(2));
                lemma_expr_code_regs(program@, **left, left_reg, cursor_id, cols@);
            }
            compile_logical_expr(program, left, left_reg, cursor_id, cols);
            compile_logical_expr(program, right, right_reg, cursor_id, cols);
            compile_binary_op(program, op, left_reg, right_reg, dest_reg);
        },
        LogicalExpr::Other(_) => {},
    }
}

/// Emits the code evaluating each of `exprs` into registers from `base`.
fn compile_exprs(
    program: &mut ProgramBuilder,
    exprs: &Vec<LogicalExpr>,
    base: usize,
    cursor_id: usize,
    cols: &Vec<Column>,
)
    requires
        supported_exprs(exprs@),
        unresolved_in(cols@, exprs@) is None,
        base + exprs@.len() <= usize::MAX,
        old(program).next_free_register + exprs_regs(exprs@) <= usize::MAX,
    ensures
        final(program)@ == exprs_code(old(program)@, exprs@, base as nat, cursor_id, cols@),
        final(program)@.next_free_register == old(program)@.next_free_register + exprs_regs(exprs@),
{
    let ghost p0 = program@;
    let mut i: usize = 0;
    proof {
        assert(exprs@.subrange(0, 0) =~= Seq::<LogicalExpr>::empty());
    }
    while i < exprs.len()
        invariant
            i <= exprs@.len(),
            supported_exprs(exprs@),
            unresolved_in(cols@, exprs@) is None,
            base + exprs@.len() <= usize::MAX,
            p0.next_free_register + exprs_regs(exprs@) <= usize::MAX,
            program@ == exprs_code(p0, exprs@.subrange(0, i as int), base as nat, cursor_id, cols@),
            program@.next_free_register == p0.next_free_register + exprs_regs(exprs@.subrange(0, i as int)),
        decreases exprs.len() - i,
    {
        let ghost pre = exprs@.subrange(0, i + 1);
        proof {
            assert(pre.drop_last() =~= exprs@.subrange(0, i as int));
            assert(pre.last() == exprs@[i as int]);
            lemma_exprs_regs_prefix(exprs@, i + 1);
            lemma_expr_code_regs(program@, exprs@[i as int], (base + i) as usize, cursor_id, cols@);
            assert(supported_expr(exprs@[i as int]));
            lemma_unresolved_none(cols@, exprs@, i as int);
        }
        compile_logical_expr(program, &exprs[i], base + i, cursor_id, cols);
        i = i + 1;
    }
    proof {
        assert(exprs@.subrange(0, exprs@.len() as int) =~= exprs@);
    }
}

/// The scratch registers of a prefix are at most those of the whole list.
proof fn lemma_exprs_regs_prefix(s: Seq<LogicalExpr>, i: int)
    requires
        0 <= i <= s.len(),
    ensures
        exprs_regs(s.subrange(0, i)) <= exprs_regs(s),
        i > 0 ==> exprs_regs(s.subrange(0, i)) == exprs_regs(s.subrange(0, i - 1)) + expr_regs(s[i - 1]),
    decreases s.len(),
{
    if i > 0 {
        assert(s.subrange(0, i).drop_last() =~= s.subrange(0, i - 1));
    }
    if i < s.len() {
        lemma_exprs_regs_prefix(s.drop_last(), i);
        assert(s.drop_last().subrange(0, i) =~= s.subrange(0, i));
    } else {
        assert(s.subrange(0, i) =~= s);
    }
}


/// Emits the loop opening of a scan of `table` (see [`scan_head`]);
/// returns the cursor, the first column register, and the loop start and
/// loop end labels.
fn emit_scan_head(program: &mut ProgramBuilder, table: &BTreeTable, num_columns: usize, extra: usize) -> (r: (
    usize,
    usize,
    BranchOffset,
    BranchOffset,
))
    requires
        old(program).next_free_register + num_columns + extra <= usize::MAX,
    ensures
        r.0 == old(program)@.cursors.len(),
        r.1 == old(program).next_free_register,
        r.2 == BranchOffset::Label(old(program)@.labels.len() as usize),
        r.3 == BranchOffset::Label((old(program)@.labels.len() + 1) as usize),
        old(program)@.labels.len() + 2 <= usize::MAX,
        final(program)@ == scan_head(old(program)@, *table, num_columns as nat, extra as nat),
{
    let ghost p0 = program@;
    let cursor_id = program.alloc_cursor_id(
        CursorType::BTreeTable { name: table.name.clone(), root_page: table.root_page },
    );
    program.emit_insn(Insn::OpenRead { cursor_id, root_page: table.root_page, db: 0 });
    let start_reg = program.alloc_registers(num_columns);
    program.alloc_registers(extra);
    let ghost p1 = program@;
    let loop_start = program.alloc_label();
    let loop_end = program.alloc_label();
    assert(program@.labels =~= p1.alloc_labels(2).labels);
    program.emit_insn(Insn::Rewind { cursor_id, pc_if_empty: loop_end });
    program.assign_label(loop_start);
    (cursor_id, start_reg, loop_start, loop_end)
}

/// The expressions a list of references points to.
pub open spec fn derefs(s: Seq<&LogicalExpr>) -> Seq<LogicalExpr> {
    s.map_values(|e: &LogicalExpr| *e)
}

/// Walks down a chain of filters: appends their predicates, innermost
/// first, and returns the plan under the chain.
fn collect_filters<'p>(filter: &'p Filter, predicates: &mut Vec<&'p LogicalExpr>) -> (base: &'p LogicalPlan)
    ensures
        *base == filter_base(LogicalPlan::Filter(*filter)),
        derefs(final(predicates)@) == derefs(old(predicates)@) + filter_preds(LogicalPlan::Filter(*filter)),
    decreases filter,
{
    let ghost before = derefs(predicates@);
    let base = match &*filter.input {
        LogicalPlan::Filter(inner) => collect_filters(inner, predicates),
        other => {
            proof {
                assert(filter_base(*other) == *other);
                assert(filter_preds(*other) == Seq::<LogicalExpr>::empty());
            }
            other
        },
    };
    let ghost mid = derefs(predicates@);
    proof {
        assert(mid =~= before + filter_preds(*filter.input));
    }
    predicates.push(&filter.predicate);
    proof {
        assert(derefs(predicates@) =~= mid.push(filter.predicate));
        assert(filter_preds(LogicalPlan::Filter(*filter)) == filter_preds(*filter.input).push(filter.predicate));
        assert(derefs(predicates@) =~= before + filter_preds(LogicalPlan::Filter(*filter)));
    }
    base
}

/// The first column name one of `predicates` (in order) refers to that
/// `cols` lacks.
fn find_unresolved_refs(cols: &Vec<Column>, predicates: &Vec<&LogicalExpr>) -> (r: Option<String>)
    ensures
        match unresolved_in(cols@, derefs(predicates@)) {
            Some(n) => r matches Some(x) && x@ == n,
            None => r is None,
        },
{
    let ghost ps = derefs(predicates@);
    let mut i: usize = 0;
    proof {
        assert(ps.subrange(0, 0) =~= Seq::<LogicalExpr>::empty());
    }
    while i < predicates.len()
        invariant
            i <= predicates@.len(),
            ps == derefs(predicates@),
            unresolved_in(cols@, ps.subrange(0, i as int)) is None,
        decreases predicates.len() - i,
    {
        let found = find_unresolved(cols, predicates[i]);
        proof {
            assert(ps.subrange(0, i + 1).drop_last() =~= ps.subrange(0, i as int));
            assert(ps[i as int] == *predicates@[i as int]);
        }
        if found.is_some() {
            proof {
                lemma_unresolved_prefix(cols@, ps, i + 1);
            }
            return found;
        }
        i = i + 1;
    }
    proof {
        assert(ps.subrange(0, ps.len() as int) =~= ps);
    }
    None
}

/// Emits the checks of `predicates` (see [`checks_code`]): each is
/// evaluated into `reg`, and `IfNot` jumps to `skip` when it is false or
/// NULL.
fn emit_checks(
    program: &mut ProgramBuilder,
    predicates: &Vec<&LogicalExpr>,
    reg: usize,
    skip: BranchOffset,
    cursor_id: usize,
    cols: &Vec<Column>,
)
    requires
        skip is Label,
        supported_exprs(derefs(predicates@)),
        unresolved_in(cols@, derefs(predicates@)) is None,
        old(program).next_free_register + exprs_regs(derefs(predicates@)) <= usize::MAX,
    ensures
        skip matches BranchOffset::Label(k) && final(program)@ == checks_code(
            old(program)@,
            derefs(predicates@),
            reg,
            k,
            cursor_id,
            cols@,
        ),
{
    let ghost p0 = program@;
    let ghost ps = derefs(predicates@);
    let ghost k = skip->Label_0;
    let mut i: usize = 0;
    proof {
        assert(ps.subrange(0, 0) =~= Seq::<LogicalExpr>::empty());
    }
    while i < predicates.len()
        invariant
            i <= predicates@.len(),
            ps == derefs(predicates@),
            skip == BranchOffset::Label(k),
            supported_exprs(ps),
            unresolved_in(cols@, ps) is None,
            p0.next_free_register + exprs_regs(ps) <= usize::MAX,
            program@ == checks_code(p0, ps.subrange(0, i as int), reg, k, cursor_id, cols@),
            program@.next_free_register == p0.next_free_register + exprs_regs(ps.subrange(0, i as int)),
        decreases predicates.len() - i,
    {
        let ghost pre = ps.subrange(0, i + 1);
        proof {
            assert(pre.drop_last() =~= ps.subrange(0, i as int));
            assert(pre.last() == ps[i as int]);
            assert(ps[i as int] == *predicates@[i as int]);
            lemma_exprs_regs_prefix(ps, i + 1);
            lemma_expr_code_regs(program@, ps[i as int], reg, cursor_id, cols@);
            assert(supported_expr(ps[i as int]));
            lemma_unresolved_none(cols@, ps, i as int);
        }
        compile_logical_expr(program, predicates[i], reg, cursor_id, cols);
        program.emit_insn(Insn::IfNot { reg, target_pc: skip, jump_if_null: true });
        i = i + 1;
    }
    proof {
        assert(ps.subrange(0, ps.len() as int) =~= ps);
    }
}

impl<'a> LogicalCompiler<'a> {
    /// A compiler that emits into `program`.
    pub fn new(program: &'a mut ProgramBuilder, resolver: &'a Resolver<'a>) -> (r: Self)
        ensures
            *r.program == *old(program),
            *final(r.program) == *final(program),
            r.resolver == resolver,
    {
        LogicalCompiler { program, resolver }
    }

    /// Compiles a handled plan into the program.
    pub fn compile_plan(&mut self, plan: &LogicalPlan) -> (r: Result<CompilationResult, LimboError>)
        requires
            old(self).resolver.schema.wf(),
            supported_plan(*plan),
            old(self).program.next_free_register + plan_regs(*plan) <= usize::MAX,
        ensures
            compiled(
                r,
                (*final(self).program)@,
                (*old(self).program)@,
                plan_code((*old(self).program)@, *old(self).resolver.schema, *plan),
            ),
            *final(final(self).program) == *final(old(self).program),
            final(self).resolver == old(self).resolver,
    {
        match plan {
            LogicalPlan::TableScan(table_scan) => self.compile_table_scan(table_scan),
            LogicalPlan::Filter(filter) => self.compile_filter(filter),
            LogicalPlan::Projection(projection) => self.compile_projection(projection),
            LogicalPlan::Other(_) => Err(LimboError::InternalError(owned("LogicalPlan node not yet supported"))),
        }
    }

    /// Compiles a table scan: `OpenRead`, `Rewind`, the column reads,
    /// `ResultRow`, `Next`.
    pub fn compile_table_scan(&mut self, table_scan: &TableScan) -> (r: Result<CompilationResult, LimboError>)
        requires
            old(self).resolver.schema.wf(),
            old(self).program.next_free_register + scan_regs(*table_scan) <= usize::MAX,
        ensures
            compiled(
                r,
                (*final(self).program)@,
                (*old(self).program)@,
                scan_plan((*old(self).program)@, *old(self).resolver.schema, *table_scan, Seq::empty(), None),
            ),
            *final(final(self).program) == *final(old(self).program),
            final(self).resolver == old(self).resolver,
    {
        let schema = self.resolver.schema;
        let table = match schema.get_btree_table(table_scan.table_name.as_str()) {
            Some(t) => t,
            None => {
                return Err(table_not_found_error(table_scan.table_name.as_str()));
            },
        };
        let num_columns = table_scan.schema.column_count();
        let (cursor_id, result_start_reg, loop_start, loop_end) = emit_scan_head(self.program, table, num_columns, 0);
        let output_count = match &table_scan.projection {
            Some(projection_indices) => {
                emit_column_reads(self.program, cursor_id, projection_indices, result_start_reg);
                projection_indices.len()
            },
            None => {
                emit_all_column_reads(self.program, cursor_id, num_columns, result_start_reg);
                num_columns
            },
        };
        proof {
            assert(scan_columns(*table_scan).len() == output_count);
            if table_scan.projection is None {
                assert(all_columns(num_columns as nat) =~= scan_columns(*table_scan));
            }
        }
        self.program.emit_insn(Insn::ResultRow { start_reg: result_start_reg, count: output_count });
        self.program.emit_insn(Insn::Next { cursor_id, pc_if_next: loop_start });
        self.program.assign_label(loop_end);
        Ok(CompilationResult { output_start_reg: result_start_reg, output_count, cursor_id: Some(cursor_id) })
    }

    /// Compiles a chain of filters: the plan under the chain is compiled
    /// with every predicate of the chain checked inside its scan loop, so
    /// that only the rows for which all of them are true are output.
    fn compile_filter(&mut self, filter: &Filter) -> (r: Result<CompilationResult, LimboError>)
        requires
            old(self).resolver.schema.wf(),
            supported_plan(LogicalPlan::Filter(*filter)),
            old(self).program.next_free_register + plan_regs(LogicalPlan::Filter(*filter)) <= usize::MAX,
        ensures
            compiled(
                r,
                (*final(self).program)@,
                (*old(self).program)@,
                plan_code((*old(self).program)@, *old(self).resolver.schema, LogicalPlan::Filter(*filter)),
            ),
            *final(final(self).program) == *final(old(self).program),
            final(self).resolver == old(self).resolver,
    {
        let mut predicates: Vec<&LogicalExpr> = Vec::new();
        let base = collect_filters(filter, &mut predicates);
        proof {
            assert(derefs(predicates@) =~= filter_preds(LogicalPlan::Filter(*filter)));
        }
        self.compile_base(base, &mut predicates)
    }

    /// Compiles the plan under a chain of filters, checking `predicates`.
    fn compile_base<'p>(&mut self, base: &'p LogicalPlan, predicates: &mut Vec<&'p LogicalExpr>) -> (r: Result<
        CompilationResult,
        LimboError,
    >)
        requires
            old(self).resolver.schema.wf(),
            supported_base(*base, derefs(old(predicates)@)),
            old(self).program.next_free_register + base_regs(*base, derefs(old(predicates)@)) <= usize::MAX,
        ensures
            compiled(
                r,
                (*final(self).program)@,
                (*old(self).program)@,
                base_code((*old(self).program)@, *old(self).resolver.schema, *base, derefs(old(predicates)@)),
            ),
            *final(final(self).program) == *final(old(self).program),
            final(self).resolver == old(self).resolver,
    {
        match base {
            LogicalPlan::TableScan(table_scan) => {
                if predicates.len() == 0 {
                    self.compile_table_scan(table_scan)
                } else {
                    self.compile_table_scan_with_filter(table_scan, predicates)
                }
            },
            LogicalPlan::Projection(projection) => self.compile_projection_with(projection, predicates),
            _ => Err(LimboError::InternalError(owned("LogicalPlan node not yet supported"))),
        }
    }

    /// Compiles a projection over a table scan or over a filtered table
    /// scan.
    fn compile_projection(&mut self, projection: &Projection) -> (r: Result<CompilationResult, LimboError>)
        requires
            old(self).resolver.schema.wf(),
            supported_plan(LogicalPlan::Projection(*projection)),
            old(self).program.next_free_register + plan_regs(LogicalPlan::Projection(*projection)) <= usize::MAX,
        ensures
            compiled(
                r,
                (*final(self).program)@,
                (*old(self).program)@,
                plan_code((*old(self).program)@, *old(self).resolver.schema, LogicalPlan::Projection(*projection)),
            ),
            *final(final(self).program) == *final(old(self).program),
            final(self).resolver == old(self).resolver,
    {
        let mut predicates: Vec<&LogicalExpr> = Vec::new();
        proof {
            assert(derefs(predicates@) =~= Seq::<LogicalExpr>::empty());
        }
        self.compile_projection_with(projection, &mut predicates)
    }

    /// Compiles a projection under filters with the given predicates; the
    /// projection's own filter, if any, is checked after them.
    fn compile_projection_with<'p>(&mut self, projection: &'p Projection, predicates: &mut Vec<&'p LogicalExpr>) -> (r: Result<
        CompilationResult,
        LimboError,
    >)
        requires
            old(self).resolver.schema.wf(),
            supported_base(LogicalPlan::Projection(*projection), derefs(old(predicates)@)),
            old(self).program.next_free_register + base_regs(
                LogicalPlan::Projection(*projection),
                derefs(old(predicates)@),
            ) <= usize::MAX,
        ensures
            compiled(
                r,
                (*final(self).program)@,
                (*old(self).program)@,
                base_code(
                    (*old(self).program)@,
                    *old(self).resolver.schema,
                    LogicalPlan::Projection(*projection),
                    derefs(old(predicates)@),
                ),
            ),
            *final(final(self).program) == *final(old(self).program),
            final(self).resolver == old(self).resolver,
    {
        match &*projection.input {
            LogicalPlan::TableScan(table_scan) => {
                if predicates.len() == 0 {
                    self.compile_table_scan_with_projection(table_scan, &projection.exprs, &projection.schema)
                } else {
                    self.compile_table_scan_with_filter_and_projection(
                        table_scan,
                        predicates,
                        &projection.exprs,
                        &projection.schema,
                    )
                }
            },
            LogicalPlan::Filter(filter) => match &*filter.input {
                LogicalPlan::TableScan(table_scan) => {
                    let ghost before = derefs(predicates@);
                    predicates.push(&filter.predicate);
                    proof {
                        assert(derefs(predicates@) =~= before.push(filter.predicate));
                    }
                    self.compile_table_scan_with_filter_and_projection(
                        table_scan,
                        predicates,
                        &projection.exprs,
                        &projection.schema,
                    )
                },
                _ => Err(LimboError::InternalError(owned("Complex projection over filtered non-table-scan not yet implemented"))),
            },
            _ => Err(LimboError::InternalError(owned("General projection compilation not yet implemented"))),
        }
    }

    /// Compiles a table scan whose rows are output only when every one of
    /// `predicates` holds.
    fn compile_table_scan_with_filter(&mut self, table_scan: &TableScan, predicates: &Vec<&LogicalExpr>) -> (r: Result<
        CompilationResult,
        LimboError,
    >)
        requires
            old(self).resolver.schema.wf(),
            predicates@.len() > 0,
            supported_exprs(derefs(predicates@)),
            old(self).program.next_free_register + scan_plan_regs(*table_scan, derefs(predicates@), None) <= usize::MAX,
        ensures
            compiled(
                r,
                (*final(self).program)@,
                (*old(self).program)@,
                scan_plan((*old(self).program)@, *old(self).resolver.schema, *table_scan, derefs(predicates@), None),
            ),
            *final(final(self).program) == *final(old(self).program),
            final(self).resolver == old(self).resolver,
    {
        let schema = self.resolver.schema;
        let table = match schema.get_btree_table(table_scan.table_name.as_str()) {
            Some(t) => t,
            None => {
                return Err(table_not_found_error(table_scan.table_name.as_str()));
            },
        };
        if let Some(name) = find_unresolved_refs(&table.columns, predicates) {
            return Err(column_not_found_error(name.as_str()));
        }
        let num_columns = table_scan.schema.column_count();
        let (cursor_id, result_start_reg, loop_start, loop_end) = emit_scan_head(self.program, table, num_columns, 1);
        let predicate_reg = result_start_reg + num_columns;
        let check_next = self.program.alloc_label();
        let output_count = match &table_scan.projection {
            Some(projection_indices) => {
                emit_column_reads(self.program, cursor_id, projection_indices, result_start_reg);
                projection_indices.len()
            },
            None => {
                emit_all_column_reads(self.program, cursor_id, num_columns, result_start_reg);
                num_columns
            },
        };
        proof {
            assert(scan_columns(*table_scan).len() == output_count);
            if table_scan.projection is None {
                assert(all_columns(num_columns as nat) =~= scan_columns(*table_scan));
            }
            lemma_checks_labels_regs(
                (*self.program)@,
                derefs(predicates@),
                predicate_reg,
                (old(self).program@.labels.len() + 2) as usize,
                cursor_id,
                table.columns@,
            );
        }
        emit_checks(self.program, predicates, predicate_reg, check_next, cursor_id, &table.columns);
        self.program.emit_insn(Insn::ResultRow { start_reg: result_start_reg, count: output_count });
        self.program.assign_label(check_next);
        self.program.emit_insn(Insn::Next { cursor_id, pc_if_next: loop_start });
        self.program.assign_label(loop_end);
        Ok(CompilationResult { output_start_reg: result_start_reg, output_count, cursor_id: Some(cursor_id) })
    }

    /// Compiles a table scan that outputs the values of `projection_exprs`.
    fn compile_table_scan_with_projection(
        &mut self,
        table_scan: &TableScan,
        projection_exprs: &Vec<LogicalExpr>,
        output_schema: &LogicalSchema,
    ) -> (r: Result<CompilationResult, LimboError>)
        requires
            old(self).resolver.schema.wf(),
            supported_exprs(projection_exprs@),
            old(self).program.next_free_register + scan_regs(*table_scan) + projection_exprs@.len() + exprs_regs(
                projection_exprs@,
            ) <= usize::MAX,
        ensures
            compiled(
                r,
                (*final(self).program)@,
                (*old(self).program)@,
                scan_plan(
                    (*old(self).program)@,
                    *old(self).resolver.schema,
                    *table_scan,
                    Seq::empty(),
                    Some(projection_exprs@),
                ),
            ),
            *final(final(self).program) == *final(old(self).program),
            final(self).resolver == old(self).resolver,
    {
        let schema = self.resolver.schema;
        let table = match schema.get_btree_table(table_scan.table_name.as_str()) {
            Some(t) => t,
            None => {
                return Err(table_not_found_error(table_scan.table_name.as_str()));
            },
        };
        if let Some(name) = find_unresolved_in(&table.columns, projection_exprs) {
            return Err(column_not_found_error(name.as_str()));
        }
        let num_table_columns = table_scan.schema.column_count();
        let num_exprs = projection_exprs.len();
        let (cursor_id, table_column_regs, loop_start, loop_end) = emit_scan_head(
            self.program,
            table,
            num_table_columns,
            num_exprs,
        );
        let projection_output_regs = table_column_regs + num_table_columns;
        emit_all_column_reads(self.program, cursor_id, num_table_columns, table_column_regs);
        proof {
            lemma_exprs_code_labels((*self.program)@, projection_exprs@, projection_output_regs as nat, cursor_id, table.columns@);
        }
        compile_exprs(self.program, projection_exprs, projection_output_regs, cursor_id, &table.columns);
        self.program.emit_insn(Insn::ResultRow { start_reg: projection_output_regs, count: num_exprs });
        self.program.emit_insn(Insn::Next { cursor_id, pc_if_next: loop_start });
        self.program.assign_label(loop_end);
        Ok(
            CompilationResult {
                output_start_reg: projection_output_regs,
                output_count: num_exprs,
                cursor_id: Some(cursor_id),
            },
        )
    }

    /// Compiles a table scan that outputs the values of `projection_exprs`
    /// for the rows where every one of `predicates` holds.
    fn compile_table_scan_with_filter_and_projection(
        &mut self,
        table_scan: &TableScan,
        predicates: &Vec<&LogicalExpr>,
        projection_exprs: &Vec<LogicalExpr>,
        output_schema: &LogicalSchema,
    ) -> (r: Result<CompilationResult, LimboError>)
        requires
            old(self).resolver.schema.wf(),
            predicates@.len() > 0,
            supported_exprs(derefs(predicates@)),
            supported_exprs(projection_exprs@),
            old(self).program.next_free_register + scan_plan_regs(
                *table_scan,
                derefs(predicates@),
                Some(projection_exprs@),
            ) <= usize::MAX,
        ensures
            compiled(
                r,
                (*final(self).program)@,
                (*old(self).program)@,
                scan_plan(
                    (*old(self).program)@,
                    *old(self).resolver.schema,
                    *table_scan,
                    derefs(predicates@),
                    Some(projection_exprs@),
                ),
            ),
            *final(final(self).program) == *final(old(self).program),
            final(self).resolver == old(self).resolver,
    {
        let schema = self.resolver.schema;
        let table = match schema.get_btree_table(table_scan.table_name.as_str()) {
            Some(t) => t,
            None => {
                return Err(table_not_found_error(table_scan.table_name.as_str()));
            },
        };
        if let Some(name) = find_unresolved_refs(&table.columns, predicates) {
            return Err(column_not_found_error(name.as_str()));
        }
        if let Some(name) = find_unresolved_in(&table.columns, projection_exprs) {
            return Err(column_not_found_error(name.as_str()));
        }
        let num_table_columns = table_scan.schema.column_count();
        let num_exprs = projection_exprs.len();
        let (cursor_id, table_column_regs, loop_start, loop_end) = emit_scan_head(
            self.program,
            table,
            num_table_columns,
            num_exprs + 1,
        );
        let projection_output_regs = table_column_regs + num_table_columns;
        let predicate_reg = projection_output_regs + num_exprs;
        let check_next = self.program.alloc_label();
        emit_all_column_reads(self.program, cursor_id, num_table_columns, table_column_regs);
        proof {
            lemma_checks_labels_regs(
                (*self.program)@,
                derefs(predicates@),
                predicate_reg,
                (old(self).program@.labels.len() + 2) as usize,
                cursor_id,
                table.columns@,
            );
        }
        emit_checks(self.program, predicates, predicate_reg, check_next, cursor_id, &table.columns);
        proof {
            lemma_exprs_code_labels((*self.program)@, projection_exprs@, projection_output_regs as nat, cursor_id, table.columns@);
        }
        compile_exprs(self.program, projection_exprs, projection_output_regs, cursor_id, &table.columns);
        self.program.emit_insn(Insn::ResultRow { start_reg: projection_output_regs, count: num_exprs });
        self.program.assign_label(check_next);
        self.program.emit_insn(Insn::Next { cursor_id, pc_if_next: loop_start });
        self.program.assign_label(loop_end);
        Ok(
            CompilationResult {
                output_start_reg: projection_output_regs,
                output_count: num_exprs,
                cursor_id: Some(cursor_id),
            },
        )
    }
}

/// The message of the final `Halt` of a compiled plan.
pub open spec fn halt_description() -> Seq<char> {
    "Logical plan execution completed"@
}

/// Compiles a complete logical plan into `program`, ending it with `Halt`.
pub fn compile_logical_plan(plan: &LogicalPlan, program: &mut ProgramBuilder, resolver: &Resolver) -> (r: Result<
    (),
    LimboError,
>)
    requires
        resolver.schema.wf(),
        supported_plan(*plan),
        old(program).next_free_register + plan_regs(*plan) <= usize::MAX,
    ensures
        match r {
            Ok(()) => match plan_code(old(program)@, *resolver.schema, *plan) {
                Ok((after, _)) => final(program)@ == after.emit(InsnV::Halt { err_code: 0, description: halt_description() }),
                Err(_) => false,
            },
            Err(LimboError::ParseError(m)) => plan_code(old(program)@, *resolver.schema, *plan) == Err::<
                (ProgramV, CompilationResult),
                Seq<char>,
            >(m@) && final(program)@ == old(program)@,
            Err(LimboError::InternalError(_)) => false,
        },
{
    let mut compiler = LogicalCompiler::new(program, resolver);
    let _result = match compiler.compile_plan(plan) {
        Ok(res) => res,
        Err(e) => {
            return Err(e);
        },
    };
    program.emit_insn(Insn::Halt { err_code: 0, description: owned("Logical plan execution completed") });
    Ok(())
}

} // verus!
