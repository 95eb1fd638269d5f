//! Code generation for `CREATE SEQUENCE` and `DROP SEQUENCE`.
//!
//! A sequence is persisted as an ordinary table whose columns are the
//! `__turso_seq_*` configuration fields, holding one row; the in-memory
//! schema learns of it through `AddSequence`.  The database has already been
//! resolved (its id and schema are inputs), the name normalised, and the
//! sequence options validated by the schema layer (its outcome is an
//! input, checked after the existence test as the statement requires).

use vstd::prelude::*;
use crate::schema::{LimboError, Schema, Table};
use crate::text::{append, owned, replace_all};
use crate::vdbe::{BranchOffset, Cookie, CursorType, CursorTypeV, Insn, InsnV, ProgramBuilder, ProgramV, RegisterOrLiteral};

verus! {

/// The name of the schema table.
pub const SQLITE_TABLEID: &'static str = "sqlite_schema";

/// A validated sequence definition.
#[derive(Debug)]
pub struct Sequence {
    pub name: String,
    pub start_value: i64,
    pub increment_by: i64,
    pub min_value: i64,
    pub max_value: i64,
    pub cache: i64,
    pub cycle: bool,
}

/// The CREATE TABLE statement of the table backing sequence `name`.
pub open spec fn backing_table_sql(name: Seq<char>) -> Seq<char> {
    "CREATE TABLE \""@ + name
        + "\"(__turso_seq_value INTEGER,__turso_seq_is_called INTEGER,__turso_seq_start INTEGER,__turso_seq_inc INTEGER,__turso_seq_min INTEGER,__turso_seq_max INTEGER,__turso_seq_cache INTEGER,__turso_seq_cycle INTEGER)"@
}

/// The CREATE TABLE statement of the table backing sequence `name`: the
/// name in double quotes, then the eight integer configuration columns.
pub fn sequence_backing_table_sql(name: &str) -> (r: String)
    ensures
        r@ == backing_table_sql(name@),
{
    let mut sql = owned("CREATE TABLE \"");
    append(&mut sql, name);
    append(
        &mut sql,
        "\"(__turso_seq_value INTEGER,__turso_seq_is_called INTEGER,__turso_seq_start INTEGER,__turso_seq_inc INTEGER,__turso_seq_min INTEGER,__turso_seq_max INTEGER,__turso_seq_cache INTEGER,__turso_seq_cycle INTEGER)",
    );
    sql
}

/// Whether `schema` has a sequence called `name`.
pub open spec fn has_sequence(schema: Schema, name: Seq<char>) -> bool {
    exists|i: int| 0 <= i < schema.sequences@.len() && schema.sequences@[i]@ == name
}

/// The root page of the B-tree table called `name`, if any.
pub open spec fn btree_root(schema: Schema, name: Seq<char>) -> Option<i64> {
    match schema.table_index(name) {
        Some(i) => match schema.tables@[i].1 {
            Table::BTree(t) => Some(t.root_page),
            _ => None,
        },
        None => None,
    }
}

/// The message of a sequence that already exists.
pub open spec fn already_exists(name: Seq<char>) -> Seq<char> {
    "sequence \""@ + name + "\" already exists"@
}

/// The message of a sequence that does not exist.
pub open spec fn does_not_exist(name: Seq<char>) -> Seq<char> {
    "sequence \""@ + name + "\" does not exist"@
}

/// `"sequence \"name\"" + suffix` as a parse error.
fn sequence_error(name: &str, suffix: &str) -> (r: LimboError)
    ensures
        r matches LimboError::ParseError(m) && m@ == "sequence \""@ + name@ + suffix@,
{
    let mut m = owned("sequence \"");
    append(&mut m, name);
    append(&mut m, suffix);
    LimboError::ParseError(m)
}

/// The schema version the next version of `v` is written as: the cookie as
/// a signed 32-bit value, plus one.
pub open spec fn next_cookie(v: u32) -> i32 {
    ((v as i32) + 1) as i32
}

/// `schema_version as i32 + 1`.
fn next_schema_cookie(v: u32) -> (r: i32)
    requires
        v != 0x7fff_ffff,
    ensures
        r == next_cookie(v),
{
    let c = v as i32;
    assert(c != 0x7fff_ffffi32) by (bit_vector)
        requires
            v != 0x7fff_ffffu32,
            c == v as i32,
    ;
    c + 1
}

// ---------------------------------------------------------------------------
// CREATE SEQUENCE
// ---------------------------------------------------------------------------

/// What the opening of CREATE SEQUENCE leaves for its closing: the
/// sequence, its backing table's SQL, the register holding the new root
/// page, and the cursor on the schema table.
pub struct CreatedSequence {
    pub seq: Sequence,
    pub sql: String,
    pub table_root_reg: usize,
    pub schema_cursor_id: usize,
}

/// The opening of CREATE SEQUENCE in a program.
pub open spec fn create_opening_code(p: ProgramV, db: usize, cookie: u32, schema_root: i64) -> ProgramV {
    let root_reg = p.next_free_register as usize;
    let c = p.cursors.len() as usize;
    ProgramV { write_databases: p.write_databases.push((db, cookie)), ..p }.alloc_regs(1).emit(
        InsnV::CreateBtree { db, root: root_reg },
    ).alloc_cursor(CursorTypeV::BTreeTable { name: "sqlite_schema"@, root_page: schema_root }).emit(
        InsnV::OpenWrite { cursor_id: c, root_page: RegisterOrLiteral::Literal(1), db },
    )
}

/// Opens CREATE SEQUENCE on database `db` with the given schema: marks the
/// database written, then when a sequence of that name exists returns
/// `Ok(None)` with IF NOT EXISTS and the "already exists" error otherwise;
/// when it does not, passes on the validation error or allocates the
/// backing table's root page (`CreateBtree`) and opens the schema table for
/// writing.  The schema row of the backing table is written next, by the
/// schema layer, then [`create_sequence_closing`] finishes the statement.
pub fn create_sequence_opening(
    normalized_name: &str,
    if_not_exists: bool,
    seq: Result<Sequence, LimboError>,
    database_id: usize,
    schema: &Schema,
    program: &mut ProgramBuilder,
) -> (r: Result<Option<CreatedSequence>, LimboError>)
    requires
        schema.wf(),
        !has_sequence(*schema, normalized_name@) && seq is Ok ==> {
            &&& btree_root(*schema, "sqlite_schema"@) is Some
            &&& old(program).next_free_register < usize::MAX
        },
    ensures
        ({
            let marked = ProgramV {
                write_databases: old(program)@.write_databases.push((database_id, schema.schema_version)),
                ..old(program)@
            };
            if has_sequence(*schema, normalized_name@) {
                &&& final(program)@ == marked
                &&& if if_not_exists {
                    r matches Ok(None)
                } else {
                    r matches Err(LimboError::ParseError(m)) && m@ == already_exists(normalized_name@)
                }
            } else {
                match seq {
                    Err(e) => r == Err::<Option<CreatedSequence>, LimboError>(e) && final(program)@ == marked,
                    Ok(s) => r matches Ok(Some(c)) && c.seq == s && c.sql@ == backing_table_sql(normalized_name@)
                        && c.table_root_reg == old(program).next_free_register && c.schema_cursor_id
                        == old(program)@.cursors.len() && final(program)@ == create_opening_code(
                        old(program)@,
                        database_id,
                        schema.schema_version,
                        btree_root(*schema, "sqlite_schema"@)->0,
                    ),
                }
            }
        }),
{
    let schema_cookie = schema.schema_version;
    program.begin_write_on_database(database_id, schema_cookie);
    if schema.has_sequence(normalized_name) {
        if if_not_exists {
            return Ok(None);
        }
        return Err(sequence_error(normalized_name, "\" already exists"));
    }
    let seq = match seq {
        Ok(s) => s,
        Err(e) => {
            return Err(e);
        },
    };
    let sql = sequence_backing_table_sql(normalized_name);
    let table_root_reg = program.alloc_register();
    program.emit_insn(Insn::CreateBtree { db: database_id, root: table_root_reg });
    let table = schema.get_btree_table(SQLITE_TABLEID);
    proof {
        reveal_strlit("sqlite_schema");
    }
    let schema_root = match table {
        Some(t) => t.root_page,
        None => 0,
    };
    let schema_cursor_id = program.alloc_cursor_id(
        CursorType::BTreeTable { name: owned(SQLITE_TABLEID), root_page: schema_root },
    );
    program.emit_insn(
        Insn::OpenWrite { cursor_id: schema_cursor_id, root_page: RegisterOrLiteral::Literal(1), db: database_id },
    );
    Ok(Some(CreatedSequence { seq, sql, table_root_reg, schema_cursor_id }))
}

/// The eight configuration values of a new sequence's row: value, is_called
/// (false), start, increment, min, max, cache, cycle (as 0 or 1).
pub open spec fn sequence_row(s: Sequence) -> Seq<i64> {
    seq![s.start_value, 0, s.start_value, s.increment_by, s.min_value, s.max_value, s.cache, if s.cycle { 1 } else { 0 }]
}

/// `Integer` loads of `values` into consecutive registers from `base`.
pub open spec fn integer_loads(values: Seq<i64>, base: nat) -> Seq<InsnV> {
    Seq::new(values.len(), |i: int| InsnV::Integer { value: values[i], dest: (base + i) as usize })
}

/// The closing of CREATE SEQUENCE in a program.
pub open spec fn create_closing_code(p: ProgramV, c: CreatedSequence, name: Seq<char>, db: usize, cookie: u32) -> ProgramV {
    let seq_cursor = p.cursors.len() as usize;
    let base = p.next_free_register;
    let record_reg = (base + 8) as usize;
    let rowid_reg = (base + 9) as usize;
    let opened = p.alloc_cursor(CursorTypeV::BTreeTable { name: name, root_page: 0 }).emit(
        InsnV::OpenWrite { cursor_id: seq_cursor, root_page: RegisterOrLiteral::Register(c.table_root_reg), db },
    ).alloc_regs(8);
    ProgramV { insns: opened.insns + integer_loads(sequence_row(c.seq), base), ..opened }.alloc_regs(1).emit(
        InsnV::MakeRecord { start_reg: base as usize, count: 8, dest_reg: record_reg },
    ).alloc_regs(1).emit(InsnV::NewRowid { cursor: seq_cursor, rowid_reg, prev_largest_reg: 0 }).emit(
        InsnV::Insert { cursor: seq_cursor, key_reg: rowid_reg, record_reg, table_name: name },
    ).emit(
        InsnV::ParseSchema { db, where_clause: Some("name = '"@ + replace_all(name, "'"@, "''"@) + "'"@) },
    ).emit(
        InsnV::AddSequence {
            db,
            name: name,
            start: c.seq.start_value,
            increment: c.seq.increment_by,
            min_value: c.seq.min_value,
            max_value: c.seq.max_value,
            cache: c.seq.cache,
            cycle: c.seq.cycle,
        },
    ).emit(InsnV::SetCookie { db, cookie: Cookie::SchemaVersion, value: next_cookie(cookie), p5: 0 })
}

/// The closing of CREATE SEQUENCE stores and registers the sequence's own
/// configuration: the eight registers from the first one it takes are
/// loaded with the current value (the start), is_called (0), the start,
/// the increment, the minimum, the maximum, the cache size and the cycle
/// flag (1 or 0), and the `AddSequence` that registers the sequence in the
/// schema carries its name and the same start, increment, minimum,
/// maximum, cache and cycle flag.
pub proof fn lemma_create_closing_registers_sequence(
    p: ProgramV,
    c: CreatedSequence,
    name: Seq<char>,
    db: usize,
    cookie: u32,
)
    requires
        p.next_free_register + 8 <= usize::MAX,
    ensures
        ({
            let q = create_closing_code(p, c, name, db, cookie);
            let b = p.insns.len() as int;
            let base = p.next_free_register;
            let s = c.seq;
            &&& q.insns.len() == b + 15
            &&& q.insns[b + 1] == InsnV::Integer { value: s.start_value, dest: base as usize }
            &&& q.insns[b + 2] == InsnV::Integer { value: 0, dest: (base + 1) as usize }
            &&& q.insns[b + 3] == InsnV::Integer { value: s.start_value, dest: (base + 2) as usize }
            &&& q.insns[b + 4] == InsnV::Integer { value: s.increment_by, dest: (base + 3) as usize }
            &&& q.insns[b + 5] == InsnV::Integer { value: s.min_value, dest: (base + 4) as usize }
            &&& q.insns[b + 6] == InsnV::Integer { value: s.max_value, dest: (base + 5) as usize }
            &&& q.insns[b + 7] == InsnV::Integer { value: s.cache, dest: (base + 6) as usize }
            &&& q.insns[b + 8] == InsnV::Integer { value: if s.cycle { 1 } else { 0 }, dest: (base + 7) as usize }
            &&& q.insns[b + 9] == InsnV::MakeRecord { start_reg: base as usize, count: 8, dest_reg: (base + 8) as usize }
            &&& q.insns[b + 13] == InsnV::AddSequence {
                db,
                name,
                start: s.start_value,
                increment: s.increment_by,
                min_value: s.min_value,
                max_value: s.max_value,
                cache: s.cache,
                cycle: s.cycle,
            }
        }),
{
    let q = create_closing_code(p, c, name, db, cookie);
    let b = p.insns.len() as int;
    let base = p.next_free_register;
    let loads = integer_loads(sequence_row(c.seq), base);
    assert forall|i: int| 0 <= i < 8 implies #[trigger] q.insns[b + 1 + i] == loads[i] by {}
}

/// Finishes CREATE SEQUENCE once the schema row is written: opens the
/// backing table at its new root page, inserts the configuration row,
/// reloads the table's schema entry, adds the sequence to the in-memory
/// schema, and bumps the schema version.
pub fn create_sequence_closing(
    created: CreatedSequence,
    normalized_name: &str,
    database_id: usize,
    schema: &Schema,
    program: &mut ProgramBuilder,
)
    requires
        old(program).next_free_register + 8 <= u16::MAX,
        schema.schema_version != 0x7fff_ffff,
    ensures
        final(program)@ == create_closing_code(
            old(program)@,
            created,
            normalized_name@,
            database_id,
            schema.schema_version,
        ),
{
    let ghost p0 = program@;
    let ghost c0 = created;
    let seq_cursor_id = program.alloc_cursor_id(CursorType::BTreeTable { name: owned(normalized_name), root_page: 0 });
    program.emit_insn(
        Insn::OpenWrite {
            cursor_id: seq_cursor_id,
            root_page: RegisterOrLiteral::Register(created.table_root_reg),
            db: database_id,
        },
    );
    let base_reg = program.alloc_registers(8);
    let ghost p1 = program@;
    let seq = &created.seq;
    program.emit_insn(Insn::Integer { dest: base_reg, value: seq.start_value });
    program.emit_insn(Insn::Integer { dest: base_reg + 1, value: 0 });
    program.emit_insn(Insn::Integer { dest: base_reg + 2, value: seq.start_value });
    program.emit_insn(Insn::Integer { dest: base_reg + 3, value: seq.increment_by });
    program.emit_insn(Insn::Integer { dest: base_reg + 4, value: seq.min_value });
    program.emit_insn(Insn::Integer { dest: base_reg + 5, value: seq.max_value });
    program.emit_insn(Insn::Integer { dest: base_reg + 6, value: seq.cache });
    program.emit_insn(Insn::Integer { dest: base_reg + 7, value: if seq.cycle { 1 } else { 0 } });
    proof {
        assert(program@.insns =~= p1.insns + integer_loads(sequence_row(c0.seq), base_reg as nat));
    }
    let record_reg = program.alloc_register();
    program.emit_insn(Insn::MakeRecord { start_reg: base_reg, count: 8, dest_reg: record_reg });
    let rowid_reg = program.alloc_register();
    program.emit_insn(Insn::NewRowid { cursor: seq_cursor_id, rowid_reg, prev_largest_reg: 0 });
    program.emit_insn(
        Insn::Insert { cursor: seq_cursor_id, key_reg: rowid_reg, record_reg, table_name: owned(normalized_name) },
    );
    proof {
        reveal_strlit("'");
        reveal_strlit("''");
    }
    let escaped = crate::text::replace(normalized_name, "'", "''");
    let mut where_clause = owned("name = '");
    append(&mut where_clause, escaped.as_str());
    append(&mut where_clause, "'");
    program.emit_insn(Insn::ParseSchema { db: database_id, where_clause: Some(where_clause) });
    program.emit_insn(
        Insn::AddSequence {
            db: database_id,
            name: owned(normalized_name),
            start: seq.start_value,
            increment: seq.increment_by,
            min_value: seq.min_value,
            max_value: seq.max_value,
            cache: seq.cache,
            cycle: seq.cycle,
        },
    );
    let value = next_schema_cookie(schema.schema_version);
    program.emit_insn(Insn::SetCookie { db: database_id, cookie: Cookie::SchemaVersion, value, p5: 0 });
}

// ---------------------------------------------------------------------------
// DROP SEQUENCE
// ---------------------------------------------------------------------------

/// The code of DROP SEQUENCE for an existing sequence whose backing table's
/// root page is `root`: a scan of the schema table that deletes each row
/// whose type is `table` and whose name is the sequence's, then `Destroy`
/// of the backing table, `DropSequence`, and the schema version bumped.
pub open spec fn drop_code(p: ProgramV, name: Seq<char>, db: usize, cookie: u32, root: i64, schema_root: i64) -> ProgramV {
    let c = p.cursors.len() as usize;
    let r = p.next_free_register;
    let name_reg = r as usize;
    let type_reg = (r + 1) as usize;
    let rowid_reg = (r + 2) as usize;
    let col0 = (r + 3) as usize;
    let col1 = (r + 4) as usize;
    let former = (r + 5) as usize;
    let k = p.labels.len();
    let end_loop = BranchOffset::Label(k as usize);
    let loop_start = BranchOffset::Label((k + 1) as usize);
    let skip = BranchOffset::Label((k + 2) as usize);
    ProgramV { write_databases: p.write_databases.push((db, cookie)), ..p }.alloc_cursor(
        CursorTypeV::BTreeTable { name: "sqlite_schema"@, root_page: schema_root },
    ).emit(InsnV::OpenWrite { cursor_id: c, root_page: RegisterOrLiteral::Literal(1), db }).alloc_regs(3).emit(
        InsnV::String8 { value: name, dest: name_reg },
    ).emit(InsnV::String8 { value: "table"@, dest: type_reg }).alloc_labels(2).emit(
        InsnV::Rewind { cursor_id: c, pc_if_empty: end_loop },
    ).assign((k + 1) as usize).alloc_regs(2).emit(InsnV::Column { cursor_id: c, column: 0, dest: col0 }).emit(
        InsnV::Column { cursor_id: c, column: 1, dest: col1 },
    ).alloc_labels(1).emit(InsnV::Ne { lhs: col0, rhs: type_reg, target_pc: skip }).emit(
        InsnV::Ne { lhs: col1, rhs: name_reg, target_pc: skip },
    ).emit(InsnV::RowId { cursor_id: c, dest: rowid_reg }).emit(
        InsnV::Delete { cursor_id: c, table_name: "sqlite_schema"@, is_part_of_update: false },
    ).assign((k + 2) as usize).emit(InsnV::Next { cursor_id: c, pc_if_next: loop_start }).assign(k as usize).alloc_regs(
        1,
    ).emit(InsnV::Destroy { db, root, former_root_reg: former, is_temp: 0 }).emit(
        InsnV::DropSequence { db, seq_name: name },
    ).emit(InsnV::SetCookie { db, cookie: Cookie::SchemaVersion, value: next_cookie(cookie), p5: 0 })
}

/// Translates DROP SEQUENCE on database `db` with the given schema: marks
/// the database written; when no sequence of that name with a backing table
/// exists, returns `Ok` with IF EXISTS and the "does not exist" error
/// otherwise; else emits [`drop_code`].
pub fn translate_drop_sequence(
    normalized_name: &str,
    if_exists: bool,
    database_id: usize,
    schema: &Schema,
    program: &mut ProgramBuilder,
) -> (r: Result<(), LimboError>)
    requires
        schema.wf(),
        has_sequence(*schema, normalized_name@) && btree_root(*schema, normalized_name@) is Some ==> {
            &&& btree_root(*schema, "sqlite_schema"@) is Some
            &&& schema.schema_version != 0x7fff_ffff
            &&& old(program).next_free_register + 6 <= usize::MAX
            &&& old(program)@.labels.len() + 3 <= usize::MAX
        },
    ensures
        ({
            let marked = ProgramV {
                write_databases: old(program)@.write_databases.push((database_id, schema.schema_version)),
                ..old(program)@
            };
            if has_sequence(*schema, normalized_name@) && btree_root(*schema, normalized_name@) is Some {
                r is Ok && final(program)@ == drop_code(
                    old(program)@,
                    normalized_name@,
                    database_id,
                    schema.schema_version,
                    btree_root(*schema, normalized_name@)->0,
                    btree_root(*schema, "sqlite_schema"@)->0,
                )
            } else {
                &&& final(program)@ == marked
                &&& if if_exists {
                    r is Ok
                } else {
                    r matches Err(LimboError::ParseError(m)) && m@ == does_not_exist(normalized_name@)
                }
            }
        }),
{
    let schema_cookie = schema.schema_version;
    program.begin_write_on_database(database_id, schema_cookie);
    let root_page = if schema.has_sequence(normalized_name) {
        match schema.get_btree_table(normalized_name) {
            Some(t) => Some(t.root_page),
            None => None,
        }
    } else {
        None
    };
    let root_page = match root_page {
        Some(r) => r,
        None => {
            if if_exists {
                return Ok(());
            }
            return Err(sequence_error(normalized_name, "\" does not exist"));
        },
    };
    proof {
        reveal_strlit("sqlite_schema");
    }
    let schema_root = match schema.get_btree_table(SQLITE_TABLEID) {
        Some(t) => t.root_page,
        None => 0,
    };
    let schema_cursor_id = program.alloc_cursor_id(
        CursorType::BTreeTable { name: owned(SQLITE_TABLEID), root_page: schema_root },
    );
    program.emit_insn(
        Insn::OpenWrite { cursor_id: schema_cursor_id, root_page: RegisterOrLiteral::Literal(1), db: database_id },
    );
    let seq_name_reg = program.alloc_register();
    let type_str_reg = program.alloc_register();
    let rowid_reg = program.alloc_register();
    program.emit_insn(Insn::String8 { dest: seq_name_reg, value: owned(normalized_name) });
    program.emit_insn(Insn::String8 { dest: type_str_reg, value: owned("table") });
    let ghost before_labels = program@;
    let end_loop_label = program.alloc_label();
    let loop_start_label = program.alloc_label();
    assert(program@.labels =~= before_labels.alloc_labels(2).labels);
    program.emit_insn(Insn::Rewind { cursor_id: schema_cursor_id, pc_if_empty: end_loop_label });
    program.assign_label(loop_start_label);
    let col0_reg = program.alloc_register();
    let col1_reg = program.alloc_register();
    program.emit_insn(Insn::Column { cursor_id: schema_cursor_id, column: 0, dest: col0_reg });
    program.emit_insn(Insn::Column { cursor_id: schema_cursor_id, column: 1, dest: col1_reg });
    let skip_delete_label = program.alloc_label();
    program.emit_insn(Insn::Ne { lhs: col0_reg, rhs: type_str_reg, target_pc: skip_delete_label });
    program.emit_insn(Insn::Ne { lhs: col1_reg, rhs: seq_name_reg, target_pc: skip_delete_label });
    program.emit_insn(Insn::RowId { cursor_id: schema_cursor_id, dest: rowid_reg });
    program.emit_insn(
        Insn::Delete { cursor_id: schema_cursor_id, table_name: owned("sqlite_schema"), is_part_of_update: false },
    );
    program.assign_label(skip_delete_label);
    program.emit_insn(Insn::Next { cursor_id: schema_cursor_id, pc_if_next: loop_start_label });
    program.assign_label(end_loop_label);
    let former_root_reg = program.alloc_register();
    program.emit_insn(Insn::Destroy { db: database_id, root: root_page, former_root_reg, is_temp: 0 });
    program.emit_insn(Insn::DropSequence { db: database_id, seq_name: owned(normalized_name) });
    let value = next_schema_cookie(schema_cookie);
    program.emit_insn(Insn::SetCookie { db: database_id, cookie: Cookie::SchemaVersion, value, p5: 0 });
    Ok(())
}

} // verus!
