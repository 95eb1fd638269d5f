//! VDBE programs as the code generators build them: the instructions they
//! emit, and the program builder that hands out registers, cursors and jump
//! labels.

use vstd::prelude::*;

verus! {

/// A jump target: a label resolved when the program is finished, or a
/// fixed instruction offset.
#[derive(Debug, Clone, Copy, PartialEq, Eq, Structural)]
pub enum BranchOffset {
    Label(usize),
    Offset(usize),
}

/// A root page given in a register or as a literal page number.
#[derive(Debug, Clone, Copy, PartialEq, Eq, Structural)]
pub enum RegisterOrLiteral {
    Register(usize),
    Literal(i64),
}

/// A cookie of the database header.
#[derive(Debug, Clone, Copy, PartialEq, Eq, Structural)]
pub enum Cookie {
    SchemaVersion,
}

/// What a cursor is opened on: a B-tree table, by name and root page.
#[derive(Debug)]
pub enum CursorType {
    BTreeTable { name: String, root_page: i64 },
}

/// The view of a [`CursorType`].
pub enum CursorTypeV {
    BTreeTable { name: Seq<char>, root_page: i64 },
}

impl View for CursorType {
    type V = CursorTypeV;

    open spec fn view(&self) -> CursorTypeV {
        match self {
            CursorType::BTreeTable { name, root_page } => CursorTypeV::BTreeTable { name: name@, root_page: *root_page },
        }
    }
}

/// A VDBE instruction.
#[derive(Debug)]
pub enum Insn {
    /// Open a read cursor on a table.
    OpenRead { cursor_id: usize, root_page: i64, db: usize },
    /// Open a write cursor on a table.
    OpenWrite { cursor_id: usize, root_page: RegisterOrLiteral, db: usize },
    /// Move to the first row; jump when there is none.
    Rewind { cursor_id: usize, pc_if_empty: BranchOffset },
    /// Read a column of the current row.
    Column { cursor_id: usize, column: usize, dest: usize },
    /// The rowid of the current row.
    RowId { cursor_id: usize, dest: usize },
    /// Output a row made of `count` registers from `start_reg`.
    ResultRow { start_reg: usize, count: usize },
    /// Move to the next row; jump when there is one.
    Next { cursor_id: usize, pc_if_next: BranchOffset },
    /// Jump when the register is false (or NULL, if `jump_if_null`).
    IfNot { reg: usize, target_pc: BranchOffset, jump_if_null: bool },
    /// Jump when the register is true (or NULL, if `jump_if_null`).
    If { reg: usize, target_pc: BranchOffset, jump_if_null: bool },
    Goto { target_pc: BranchOffset },
    Integer { value: i64, dest: usize },
    /// A floating-point constant, by its IEEE-754 bits.
    Real { value: u64, dest: usize },
    String8 { value: String, dest: usize },
    Null { dest: usize, dest_end: Option<usize> },
    Add { lhs: usize, rhs: usize, dest: usize },
    Subtract { lhs: usize, rhs: usize, dest: usize },
    Multiply { lhs: usize, rhs: usize, dest: usize },
    Divide { lhs: usize, rhs: usize, dest: usize },
    /// Jump when `lhs = rhs`.
    Eq { lhs: usize, rhs: usize, target_pc: BranchOffset },
    /// Jump when `lhs <> rhs`.
    Ne { lhs: usize, rhs: usize, target_pc: BranchOffset },
    /// Jump when `lhs < rhs`.
    Lt { lhs: usize, rhs: usize, target_pc: BranchOffset },
    /// Jump when `lhs <= rhs`.
    Le { lhs: usize, rhs: usize, target_pc: BranchOffset },
    /// Jump when `lhs > rhs`.
    Gt { lhs: usize, rhs: usize, target_pc: BranchOffset },
    /// Jump when `lhs >= rhs`.
    Ge { lhs: usize, rhs: usize, target_pc: BranchOffset },
    Move { from_reg: usize, to_reg: usize, count: usize },
    /// Create a table B-tree; its root page goes to `root`.
    CreateBtree { db: usize, root: usize },
    /// Build a record from `count` registers.
    MakeRecord { start_reg: usize, count: usize, dest_reg: usize },
    NewRowid { cursor: usize, rowid_reg: usize, prev_largest_reg: usize },
    Insert { cursor: usize, key_reg: usize, record_reg: usize, table_name: String },
    Delete { cursor_id: usize, table_name: String, is_part_of_update: bool },
    /// Destroy the B-tree at `root`.
    Destroy { db: usize, root: i64, former_root_reg: usize, is_temp: usize },
    /// Reload the schema entries matching the condition.
    ParseSchema { db: usize, where_clause: Option<String> },
    /// Add a sequence to the in-memory schema.
    AddSequence {
        db: usize,
        name: String,
        start: i64,
        increment: i64,
        min_value: i64,
        max_value: i64,
        cache: i64,
        cycle: bool,
    },
    /// Remove a sequence from the in-memory schema.
    DropSequence { db: usize, seq_name: String },
    SetCookie { db: usize, cookie: Cookie, value: i32, p5: u16 },
    Halt { err_code: usize, description: String },
}

/// The view of an [`Insn`]: the same instruction with its strings as
/// character sequences.
pub enum InsnV {
    OpenRead { cursor_id: usize, root_page: i64, db: usize },
    OpenWrite { cursor_id: usize, root_page: RegisterOrLiteral, db: usize },
    Rewind { cursor_id: usize, pc_if_empty: BranchOffset },
    Column { cursor_id: usize, column: usize, dest: usize },
    RowId { cursor_id: usize, dest: usize },
    ResultRow { start_reg: usize, count: usize },
    Next { cursor_id: usize, pc_if_next: BranchOffset },
    IfNot { reg: usize, target_pc: BranchOffset, jump_if_null: bool },
    If { reg: usize, target_pc: BranchOffset, jump_if_null: bool },
    Goto { target_pc: BranchOffset },
    Integer { value: i64, dest: usize },
    Real { value: u64, dest: usize },
    String8 { value: Seq<char>, dest: usize },
    Null { dest: usize, dest_end: Option<usize> },
    Add { lhs: usize, rhs: usize, dest: usize },
    Subtract { lhs: usize, rhs: usize, dest: usize },
    Multiply { lhs: usize, rhs: usize, dest: usize },
    Divide { lhs: usize, rhs: usize, dest: usize },
    Eq { lhs: usize, rhs: usize, target_pc: BranchOffset },
    Ne { lhs: usize, rhs: usize, target_pc: BranchOffset },
    Lt { lhs: usize, rhs: usize, target_pc: BranchOffset },
    Le { lhs: usize, rhs: usize, target_pc: BranchOffset },
    Gt { lhs: usize, rhs: usize, target_pc: BranchOffset },
    Ge { lhs: usize, rhs: usize, target_pc: BranchOffset },
    Move { from_reg: usize, to_reg: usize, count: usize },
    CreateBtree { db: usize, root: usize },
    MakeRecord { start_reg: usize, count: usize, dest_reg: usize },
    NewRowid { cursor: usize, rowid_reg: usize, prev_largest_reg: usize },
    Insert { cursor: usize, key_reg: usize, record_reg: usize, table_name: Seq<char> },
    Delete { cursor_id: usize, table_name: Seq<char>, is_part_of_update: bool },
    Destroy { db: usize, root: i64, former_root_reg: usize, is_temp: usize },
    ParseSchema { db: usize, where_clause: Option<Seq<char>> },
    AddSequence {
        db: usize,
        name: Seq<char>,
        start: i64,
        increment: i64,
        min_value: i64,
        max_value: i64,
        cache: i64,
        cycle: bool,
    },
    DropSequence { db: usize, seq_name: Seq<char> },
    SetCookie { db: usize, cookie: Cookie, value: i32, p5: u16 },
    Halt { err_code: usize, description: Seq<char> },
}

impl View for Insn {
    type V = InsnV;

    open spec fn view(&self) -> InsnV {
        match *self {
            Insn::OpenRead { cursor_id, root_page, db } => InsnV::OpenRead { cursor_id, root_page, db },
            Insn::OpenWrite { cursor_id, root_page, db } => InsnV::OpenWrite { cursor_id, root_page, db },
            Insn::Rewind { cursor_id, pc_if_empty } => InsnV::Rewind { cursor_id, pc_if_empty },
            Insn::Column { cursor_id, column, dest } => InsnV::Column { cursor_id, column, dest },
            Insn::RowId { cursor_id, dest } => InsnV::RowId { cursor_id, dest },
            Insn::ResultRow { start_reg, count } => InsnV::ResultRow { start_reg, count },
            Insn::Next { cursor_id, pc_if_next } => InsnV::Next { cursor_id, pc_if_next },
            Insn::IfNot { reg, target_pc, jump_if_null } => InsnV::IfNot { reg, target_pc, jump_if_null },
            Insn::If { reg, target_pc, jump_if_null } => InsnV::If { reg, target_pc, jump_if_null },
            Insn::Goto { target_pc } => InsnV::Goto { target_pc },
            Insn::Integer { value, dest } => InsnV::Integer { value, dest },
            Insn::Real { value, dest } => InsnV::Real { value, dest },
            Insn::String8 { value, dest } => InsnV::String8 { value: value@, dest },
            Insn::Null { dest, dest_end } => InsnV::Null { dest, dest_end },
            Insn::Add { lhs, rhs, dest } => InsnV::Add { lhs, rhs, dest },
            Insn::Subtract { lhs, rhs, dest } => InsnV::Subtract { lhs, rhs, dest },
            Insn::Multiply { lhs, rhs, dest } => InsnV::Multiply { lhs, rhs, dest },
            Insn::Divide { lhs, rhs, dest } => InsnV::Divide { lhs, rhs, dest },
            Insn::Eq { lhs, rhs, target_pc } => InsnV::Eq { lhs, rhs, target_pc },
            Insn::Ne { lhs, rhs, target_pc } => InsnV::Ne { lhs, rhs, target_pc },
            Insn::Lt { lhs, rhs, target_pc } => InsnV::Lt { lhs, rhs, target_pc },
            Insn::Le { lhs, rhs, target_pc } => InsnV::Le { lhs, rhs, target_pc },
            Insn::Gt { lhs, rhs, target_pc } => InsnV::Gt { lhs, rhs, target_pc },
            Insn::Ge { lhs, rhs, target_pc } => InsnV::Ge { lhs, rhs, target_pc },
            Insn::Move { from_reg, to_reg, count } => InsnV::Move { from_reg, to_reg, count },
            Insn::CreateBtree { db, root } => InsnV::CreateBtree { db, root },
            Insn::MakeRecord { start_reg, count, dest_reg } => InsnV::MakeRecord { start_reg, count, dest_reg },
            Insn::NewRowid { cursor, rowid_reg, prev_largest_reg } => InsnV::NewRowid {
                cursor,
                rowid_reg,
                prev_largest_reg,
            },
            Insn::Insert { cursor, key_reg, record_reg, table_name } => InsnV::Insert {
                cursor,
                key_reg,
                record_reg,
                table_name: table_name@,
            },
            Insn::Delete { cursor_id, table_name, is_part_of_update } => InsnV::Delete {
                cursor_id,
                table_name: table_name@,
                is_part_of_update,
            },
            Insn::Destroy { db, root, former_root_reg, is_temp } => InsnV::Destroy {
                db,
                root,
                former_root_reg,
                is_temp,
            },
            Insn::ParseSchema { db, where_clause } => InsnV::ParseSchema {
                db,
                where_clause: match where_clause {
                    Some(w) => Some(w@),
                    None => None,
                },
            },
            Insn::AddSequence { db, name, start, increment, min_value, max_value, cache, cycle } => InsnV::AddSequence {
                db,
                name: name@,
                start,
                increment,
                min_value,
                max_value,
                cache,
                cycle,
            },
            Insn::DropSequence { db, seq_name } => InsnV::DropSequence { db, seq_name: seq_name@ },
            Insn::SetCookie { db, cookie, value, p5 } => InsnV::SetCookie { db, cookie, value, p5 },
            Insn::Halt { err_code, description } => InsnV::Halt { err_code, description: description@ },
        }
    }
}

/// The views of a list of instructions.
pub open spec fn insns_view(s: Seq<Insn>) -> Seq<InsnV> {
    s.map_values(|i: Insn| i@)
}

/// A program under construction: its instructions so far, the next free
/// register (registers are numbered from 1), its cursors, and for each jump
/// label the instruction it was resolved to, if it has been.
pub struct ProgramBuilder {
    pub insns: Vec<Insn>,
    pub next_free_register: usize,
    pub cursor_ref: Vec<CursorType>,
    pub label_to_resolved_offset: Vec<Option<usize>>,
    /// The databases written by the program, each with the schema version
    /// it expects.
    pub write_databases: Vec<(usize, u32)>,
}

/// The view of a [`ProgramBuilder`].
pub struct ProgramV {
    pub insns: Seq<InsnV>,
    pub next_free_register: nat,
    pub cursors: Seq<CursorTypeV>,
    pub labels: Seq<Option<usize>>,
    pub write_databases: Seq<(usize, u32)>,
}

impl View for ProgramBuilder {
    type V = ProgramV;

    open spec fn view(&self) -> ProgramV {
        ProgramV {
            insns: insns_view(self.insns@),
            next_free_register: self.next_free_register as nat,
            cursors: self.cursor_ref@.map_values(|c: CursorType| c@),
            labels: self.label_to_resolved_offset@,
            write_databases: self.write_databases@,
        }
    }
}

impl ProgramV {
    /// The program with `i` appended.
    pub open spec fn emit(self, i: InsnV) -> ProgramV {
        ProgramV { insns: self.insns.push(i), ..self }
    }

    /// The program after `n` more registers are handed out.
    pub open spec fn alloc_regs(self, n: nat) -> ProgramV {
        ProgramV { next_free_register: self.next_free_register + n, ..self }
    }

    /// The program after a cursor on `c` is handed out.
    pub open spec fn alloc_cursor(self, c: CursorTypeV) -> ProgramV {
        ProgramV { cursors: self.cursors.push(c), ..self }
    }

    /// The program after `n` more labels are handed out.
    pub open spec fn alloc_labels(self, n: nat) -> ProgramV {
        ProgramV { labels: self.labels + Seq::new(n, |i: int| None::<usize>), ..self }
    }

    /// The program with label `k` resolved to the next instruction.
    pub open spec fn assign(self, k: usize) -> ProgramV {
        ProgramV { labels: self.labels.update(k as int, Some(self.insns.len() as usize)), ..self }
    }

    /// The empty program.
    pub open spec fn empty() -> ProgramV {
        ProgramV {
            insns: Seq::empty(),
            next_free_register: 1,
            cursors: Seq::empty(),
            labels: Seq::empty(),
            write_databases: Seq::empty(),
        }
    }
}

/// Register `k` of `regs` set to `v`.  Registers are seen as NULL (`None`)
/// or an integer, which is all the jump and constant instructions look at.
pub open spec fn set_reg(regs: spec_fn(int) -> Option<int>, k: int, v: Option<int>) -> spec_fn(int) -> Option<int> {
    |j: int| if j == k { v } else { regs(j) }
}

/// Where a jump to `b` lands in `q`: a resolved label's instruction, or the
/// offset itself (`-1` for a label not resolved).
pub open spec fn branch_pc(q: ProgramV, b: BranchOffset) -> int {
    match b {
        BranchOffset::Label(k) => if k < q.labels.len() && q.labels[k as int] is Some {
            q.labels[k as int]->0 as int
        } else {
            -1
        },
        BranchOffset::Offset(o) => o as int,
    }
}

/// `x` fits in a 64-bit signed integer.
pub open spec fn in_i64(x: int) -> bool {
    i64::MIN <= x <= i64::MAX
}

/// An arithmetic instruction computing `f(lhs, rhs)` into `dest`: NULL when
/// an operand is NULL (or, for a division, when the divisor is 0), the
/// integer result when it fits in 64 bits; `None` (not modelled) when it
/// does not, as SQLite then computes in floating point.
pub open spec fn arith_step(
    pc: int,
    regs: spec_fn(int) -> Option<int>,
    lhs: usize,
    rhs: usize,
    dest: usize,
    f: spec_fn(int, int) -> int,
    divides: bool,
) -> Option<(int, spec_fn(int) -> Option<int>)> {
    match (regs(lhs as int), regs(rhs as int)) {
        (Some(a), Some(b)) => if divides && b == 0 {
            Some((pc + 1, set_reg(regs, dest as int, None)))
        } else if in_i64(f(a, b)) {
            Some((pc + 1, set_reg(regs, dest as int, Some(f(a, b)))))
        } else {
            None
        },
        _ => Some((pc + 1, set_reg(regs, dest as int, None))),
    }
}

/// Integer division rounding toward zero, as SQLite divides integers.
pub open spec fn trunc_div(a: int, b: int) -> int {
    let q = (if a < 0 { -a } else { a }) / (if b < 0 { -b } else { b });
    if (a < 0) == (b < 0) {
        q
    } else {
        -q
    }
}

/// A comparison instruction: jump to `target` when both operands are
/// non-NULL and `rel` holds of them, else go on.
pub open spec fn compare_step(
    q: ProgramV,
    pc: int,
    regs: spec_fn(int) -> Option<int>,
    lhs: usize,
    rhs: usize,
    target: BranchOffset,
    rel: spec_fn(int, int) -> bool,
) -> Option<(int, spec_fn(int) -> Option<int>)> {
    let jump = match (regs(lhs as int), regs(rhs as int)) {
        (Some(a), Some(b)) => rel(a, b),
        _ => false,
    };
    Some((if jump { branch_pc(q, target) } else { pc + 1 }, regs))
}

/// One step of `q` at instruction `pc`, with `row` the current row of the
/// cursor being read (by column position): the next instruction and the
/// registers after it, for the column read, constant, move, jump,
/// arithmetic and comparison instructions; `None` for the others (and outside the
/// program).
pub open spec fn step(
    q: ProgramV,
    pc: int,
    regs: spec_fn(int) -> Option<int>,
    row: spec_fn(int) -> Option<int>,
) -> Option<(int, spec_fn(int) -> Option<int>)> {
    if !(0 <= pc < q.insns.len()) {
        None
    } else {
        match q.insns[pc] {
            InsnV::Column { cursor_id, column, dest } => Some((pc + 1, set_reg(regs, dest as int, row(column as int)))),
            InsnV::Integer { value, dest } => Some((pc + 1, set_reg(regs, dest as int, Some(value as int)))),
            InsnV::Null { dest, dest_end: None } => Some((pc + 1, set_reg(regs, dest as int, None))),
            InsnV::Move { from_reg, to_reg, count } => if count == 1 {
                Some((pc + 1, set_reg(regs, to_reg as int, regs(from_reg as int))))
            } else {
                None
            },
            InsnV::Goto { target_pc } => Some((branch_pc(q, target_pc), regs)),
            InsnV::If { reg, target_pc, jump_if_null } => {
                let jump = match regs(reg as int) {
                    Some(x) => x != 0,
                    None => jump_if_null,
                };
                Some((if jump { branch_pc(q, target_pc) } else { pc + 1 }, regs))
            },
            InsnV::IfNot { reg, target_pc, jump_if_null } => {
                let jump = match regs(reg as int) {
                    Some(x) => x == 0,
                    None => jump_if_null,
                };
                Some((if jump { branch_pc(q, target_pc) } else { pc + 1 }, regs))
            },
            InsnV::Add { lhs, rhs, dest } => arith_step(pc, regs, lhs, rhs, dest, |a: int, b: int| a + b, false),
            InsnV::Subtract { lhs, rhs, dest } => arith_step(pc, regs, lhs, rhs, dest, |a: int, b: int| a - b, false),
            InsnV::Multiply { lhs, rhs, dest } => arith_step(pc, regs, lhs, rhs, dest, |a: int, b: int| a * b, false),
            InsnV::Divide { lhs, rhs, dest } => arith_step(pc, regs, lhs, rhs, dest, |a: int, b: int| trunc_div(a, b), true),
            InsnV::Eq { lhs, rhs, target_pc } => compare_step(q, pc, regs, lhs, rhs, target_pc, |a: int, b: int| a == b),
            InsnV::Ne { lhs, rhs, target_pc } => compare_step(q, pc, regs, lhs, rhs, target_pc, |a: int, b: int| a != b),
            InsnV::Lt { lhs, rhs, target_pc } => compare_step(q, pc, regs, lhs, rhs, target_pc, |a: int, b: int| a < b),
            InsnV::Le { lhs, rhs, target_pc } => compare_step(q, pc, regs, lhs, rhs, target_pc, |a: int, b: int| a <= b),
            InsnV::Gt { lhs, rhs, target_pc } => compare_step(q, pc, regs, lhs, rhs, target_pc, |a: int, b: int| a > b),
            InsnV::Ge { lhs, rhs, target_pc } => compare_step(q, pc, regs, lhs, rhs, target_pc, |a: int, b: int| a >= b),
            _ => None,
        }
    }
}

/// Runs `q` for exactly `n` steps from `pc` (see [`step`]): the
/// instruction reached and the registers then, or `None` when an
/// instruction on the way is not one [`step`] takes.
pub open spec fn steps(
    q: ProgramV,
    pc: int,
    regs: spec_fn(int) -> Option<int>,
    row: spec_fn(int) -> Option<int>,
    n: nat,
) -> Option<(int, spec_fn(int) -> Option<int>)>
    decreases n,
{
    if n == 0 {
        Some((pc, regs))
    } else {
        match step(q, pc, regs, row) {
            Some((next, after)) => steps(q, next, after, row, (n - 1) as nat),
            None => None,
        }
    }
}

/// Running `a + b` steps is running `a` steps, then `b` more.
pub proof fn lemma_steps_split(
    q: ProgramV,
    pc: int,
    regs: spec_fn(int) -> Option<int>,
    row: spec_fn(int) -> Option<int>,
    a: nat,
    b: nat,
)
    ensures
        steps(q, pc, regs, row, a + b) == match steps(q, pc, regs, row, a) {
            Some((mid, r)) => steps(q, mid, r, row, b),
            None => None,
        },
    decreases a,
{
    if a > 0 {
        match step(q, pc, regs, row) {
            Some((next, after)) => {
                lemma_steps_split(q, next, after, row, (a - 1) as nat, b);
                assert((a + b - 1) as nat == ((a - 1) as nat + b) as nat);
            },
            None => {},
        }
    }
}

impl ProgramBuilder {
    /// An empty program.
    pub fn new() -> (r: ProgramBuilder)
        ensures
            r@ == ProgramV::empty(),
    {
        let r = ProgramBuilder {
            insns: Vec::new(),
            next_free_register: 1,
            cursor_ref: Vec::new(),
            label_to_resolved_offset: Vec::new(),
            write_databases: Vec::new(),
        };
        proof {
            assert(r@.insns =~= Seq::<InsnV>::empty());
            assert(r@.cursors =~= Seq::<CursorTypeV>::empty());
        }
        r
    }

    /// Appends an instruction.
    pub fn emit_insn(&mut self, insn: Insn)
        ensures
            final(self)@ == old(self)@.emit(insn@),
    {
        self.insns.push(insn);
        proof {
            assert(final(self)@.insns =~= old(self)@.insns.push(insn@));
        }
    }

    /// Hands out one register.
    pub fn alloc_register(&mut self) -> (r: usize)
        requires
            old(self).next_free_register < usize::MAX,
        ensures
            r == old(self).next_free_register,
            final(self)@ == old(self)@.alloc_regs(1),
    {
        let r = self.next_free_register;
        self.next_free_register = r + 1;
        r
    }

    /// Hands out `amount` consecutive registers; returns the first.
    pub fn alloc_registers(&mut self, amount: usize) -> (r: usize)
        requires
            old(self).next_free_register + amount <= usize::MAX,
        ensures
            r == old(self).next_free_register,
            final(self)@ == old(self)@.alloc_regs(amount as nat),
    {
        let r = self.next_free_register;
        self.next_free_register = r + amount;
        r
    }

    /// Hands out a cursor on `cursor_type`.
    pub fn alloc_cursor_id(&mut self, cursor_type: CursorType) -> (r: usize)
        ensures
            r == old(self)@.cursors.len(),
            final(self)@ == old(self)@.alloc_cursor(cursor_type@),
    {
        let r = self.cursor_ref.len();
        self.cursor_ref.push(cursor_type);
        proof {
            assert(final(self)@.cursors =~= old(self)@.cursors.push(cursor_type@));
        }
        r
    }

    /// Hands out an unresolved jump label.
    pub fn alloc_label(&mut self) -> (r: BranchOffset)
        ensures
            r == BranchOffset::Label(old(self)@.labels.len() as usize),
            final(self)@ == old(self)@.alloc_labels(1),
            final(self)@.labels.len() <= usize::MAX,
    {
        let r = self.label_to_resolved_offset.len();
        self.label_to_resolved_offset.push(None);
        proof {
            assert(self.label_to_resolved_offset.len() == self.label_to_resolved_offset@.len());
            assert(final(self)@.labels =~= old(self)@.labels + Seq::new(1, |i: int| None::<usize>));
        }
        BranchOffset::Label(r)
    }

    /// Resolves a label to the next instruction emitted.
    pub fn assign_label(&mut self, label: BranchOffset)
        requires
            label matches BranchOffset::Label(k) && k < old(self)@.labels.len(),
        ensures
            label matches BranchOffset::Label(k) && final(self)@ == old(self)@.assign(k),
    {
        if let BranchOffset::Label(k) = label {
            let n = self.insns.len();
            self.label_to_resolved_offset.set(k, Some(n));
        }
    }

    /// Records that the program writes database `db`, expecting the given
    /// schema version.
    pub fn begin_write_on_database(&mut self, db: usize, schema_cookie: u32)
        ensures
            final(self)@ == (ProgramV { write_databases: old(self)@.write_databases.push((db, schema_cookie)), ..old(self)@ }),
    {
        self.write_databases.push((db, schema_cookie));
    }
}

} // verus!
