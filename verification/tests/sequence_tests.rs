use turso_pg::schema::{BTreeTable, Column, LimboError, Schema, Table, Type};
use turso_pg::sequence::{
    create_sequence_closing, create_sequence_opening, sequence_backing_table_sql, translate_drop_sequence, Sequence,
};
use turso_pg::vdbe::{BranchOffset, Cookie, Insn, ProgramBuilder, RegisterOrLiteral};

fn base_schema() -> Schema {
    let mut schema = Schema::new();
    let cols = vec![
        Column::new("type".to_string(), Type::Text, false, None, false),
        Column::new("name".to_string(), Type::Text, false, None, false),
    ];
    schema.add_table("sqlite_schema".to_string(), Table::BTree(BTreeTable::new("sqlite_schema".to_string(), 1, cols)));
    schema.schema_version = 7;
    schema
}

fn seq(name: &str) -> Sequence {
    Sequence {
        name: name.to_string(),
        start_value: 5,
        increment_by: 2,
        min_value: 1,
        max_value: 100,
        cache: 1,
        cycle: true,
    }
}

#[test]
fn backing_table_sql_lists_the_configuration_columns() {
    assert_eq!(
        sequence_backing_table_sql("s1"),
        "CREATE TABLE \"s1\"(__turso_seq_value INTEGER,__turso_seq_is_called INTEGER,__turso_seq_start INTEGER,\
         __turso_seq_inc INTEGER,__turso_seq_min INTEGER,__turso_seq_max INTEGER,__turso_seq_cache INTEGER,\
         __turso_seq_cycle INTEGER)"
    );
}

#[test]
fn create_sequence_emits_the_row_and_schema_update() {
    let schema = base_schema();
    let mut program = ProgramBuilder::new();
    let created = create_sequence_opening("s1", false, Ok(seq("s1")), 0, &schema, &mut program)
        .unwrap()
        .expect("the sequence is new");
    assert_eq!(created.table_root_reg, 1);
    assert_eq!(created.schema_cursor_id, 0);
    assert_eq!(created.sql, sequence_backing_table_sql("s1"));
    assert_eq!(program.write_databases, vec![(0, 7)]);
    assert!(matches!(program.insns[0], Insn::CreateBtree { db: 0, root: 1 }));
    assert!(matches!(
        program.insns[1],
        Insn::OpenWrite { cursor_id: 0, root_page: RegisterOrLiteral::Literal(1), db: 0 }
    ));
    let start = program.insns.len();
    create_sequence_closing(created, "s1", 0, &schema, &mut program);
    let insns = &program.insns[start..];
    assert!(matches!(insns[0], Insn::OpenWrite { cursor_id: 1, root_page: RegisterOrLiteral::Register(1), db: 0 }));
    let values: Vec<i64> = insns[1..9]
        .iter()
        .map(|i| match i {
            Insn::Integer { value, .. } => *value,
            other => panic!("unexpected {other:?}"),
        })
        .collect();
    assert_eq!(values, vec![5, 0, 5, 2, 1, 100, 1, 1]);
    assert!(matches!(insns[9], Insn::MakeRecord { start_reg: 2, count: 8, dest_reg: 10 }));
    assert!(matches!(insns[10], Insn::NewRowid { cursor: 1, rowid_reg: 11, prev_largest_reg: 0 }));
    assert!(matches!(&insns[11], Insn::Insert { cursor: 1, key_reg: 11, record_reg: 10, table_name } if table_name == "s1"));
    assert!(matches!(&insns[12], Insn::ParseSchema { db: 0, where_clause: Some(w) } if w == "name = 's1'"));
    assert!(matches!(&insns[13], Insn::AddSequence { name, start: 5, increment: 2, cycle: true, .. } if name == "s1"));
    assert!(matches!(insns[14], Insn::SetCookie { db: 0, cookie: Cookie::SchemaVersion, value: 8, p5: 0 }));
}

#[test]
fn create_sequence_escapes_quotes_in_the_reload_condition() {
    let schema = base_schema();
    let mut program = ProgramBuilder::new();
    let created = create_sequence_opening("it's", false, Ok(seq("it's")), 0, &schema, &mut program).unwrap().unwrap();
    create_sequence_closing(created, "it's", 0, &schema, &mut program);
    let parse = program.insns.iter().find(|i| matches!(i, Insn::ParseSchema { .. })).unwrap();
    assert!(matches!(parse, Insn::ParseSchema { where_clause: Some(w), .. } if w == "name = 'it''s'"));
}

#[test]
fn create_existing_sequence() {
    let mut schema = base_schema();
    schema.sequences.push("s1".to_string());
    let mut program = ProgramBuilder::new();
    match create_sequence_opening("s1", false, Ok(seq("s1")), 0, &schema, &mut program) {
        Err(LimboError::ParseError(m)) => assert_eq!(m, "sequence \"s1\" already exists"),
        _ => panic!("expected an error"),
    }
    assert!(program.insns.is_empty());
    let mut program = ProgramBuilder::new();
    let r = create_sequence_opening(
        "s1",
        true,
        Err(LimboError::ParseError("bad options".to_string())),
        0,
        &schema,
        &mut program,
    );
    assert!(matches!(r, Ok(None)));
    assert!(program.insns.is_empty());
    assert_eq!(program.write_databases, vec![(0, 7)]);
}

#[test]
fn invalid_options_are_reported_for_a_new_sequence() {
    let schema = base_schema();
    let mut program = ProgramBuilder::new();
    let r = create_sequence_opening(
        "s2",
        false,
        Err(LimboError::ParseError("INCREMENT must not be zero".to_string())),
        0,
        &schema,
        &mut program,
    );
    assert!(matches!(r, Err(LimboError::ParseError(m)) if m == "INCREMENT must not be zero"));
    assert!(program.insns.is_empty());
}

#[test]
fn drop_sequence_deletes_the_schema_row_and_the_table() {
    let mut schema = base_schema();
    schema.sequences.push("s1".to_string());
    schema.add_table("s1".to_string(), Table::BTree(BTreeTable::new("s1".to_string(), 9, vec![])));
    let mut program = ProgramBuilder::new();
    translate_drop_sequence("s1", false, 0, &schema, &mut program).unwrap();
    let i = &program.insns;
    assert!(matches!(i[0], Insn::OpenWrite { cursor_id: 0, root_page: RegisterOrLiteral::Literal(1), db: 0 }));
    assert!(matches!(&i[1], Insn::String8 { value, dest: 1 } if value == "s1"));
    assert!(matches!(&i[2], Insn::String8 { value, dest: 2 } if value == "table"));
    assert!(matches!(i[3], Insn::Rewind { cursor_id: 0, pc_if_empty: BranchOffset::Label(0) }));
    assert!(matches!(i[4], Insn::Column { cursor_id: 0, column: 0, dest: 4 }));
    assert!(matches!(i[5], Insn::Column { cursor_id: 0, column: 1, dest: 5 }));
    assert!(matches!(i[6], Insn::Ne { lhs: 4, rhs: 2, target_pc: BranchOffset::Label(2) }));
    assert!(matches!(i[7], Insn::Ne { lhs: 5, rhs: 1, target_pc: BranchOffset::Label(2) }));
    assert!(matches!(i[8], Insn::RowId { cursor_id: 0, dest: 3 }));
    assert!(matches!(&i[9], Insn::Delete { cursor_id: 0, table_name, is_part_of_update: false } if table_name == "sqlite_schema"));
    assert!(matches!(i[10], Insn::Next { cursor_id: 0, pc_if_next: BranchOffset::Label(1) }));
    assert!(matches!(i[11], Insn::Destroy { db: 0, root: 9, former_root_reg: 6, is_temp: 0 }));
    assert!(matches!(&i[12], Insn::DropSequence { db: 0, seq_name } if seq_name == "s1"));
    assert!(matches!(i[13], Insn::SetCookie { db: 0, cookie: Cookie::SchemaVersion, value: 8, p5: 0 }));
    assert_eq!(program.label_to_resolved_offset, vec![Some(11), Some(4), Some(10)]);
}

#[test]
fn drop_missing_sequence() {
    let schema = base_schema();
    let mut program = ProgramBuilder::new();
    match translate_drop_sequence("s9", false, 0, &schema, &mut program) {
        Err(LimboError::ParseError(m)) => assert_eq!(m, "sequence \"s9\" does not exist"),
        _ => panic!("expected an error"),
    }
    let mut program = ProgramBuilder::new();
    assert!(translate_drop_sequence("s9", true, 0, &schema, &mut program).is_ok());
    assert!(program.insns.is_empty());
}

#[test]
fn schema_version_past_i32_range_wraps_in_the_cookie() {
    let mut schema = base_schema();
    schema.schema_version = 0x8000_0000;
    schema.sequences.push("s1".to_string());
    schema.add_table("s1".to_string(), Table::BTree(BTreeTable::new("s1".to_string(), 9, vec![])));
    let mut program = ProgramBuilder::new();
    translate_drop_sequence("s1", false, 0, &schema, &mut program).unwrap();
    assert!(matches!(program.insns[13], Insn::SetCookie { value: -2147483647, .. }));
}

#[test]
fn drop_missing_sequence_at_the_last_schema_version() {
    let mut schema = Schema::new();
    schema.schema_version = 0x7fff_ffff;
    let mut program = ProgramBuilder::new();
    assert!(translate_drop_sequence("s9", true, 0, &schema, &mut program).is_ok());
    assert!(program.insns.is_empty());
    assert_eq!(program.write_databases, vec![(0, 0x7fff_ffff)]);
}

#[test]
fn create_sequence_answers_early_without_a_schema_table() {
    let mut schema = Schema::new();
    schema.sequences.push("s1".to_string());
    let mut program = ProgramBuilder::new();
    assert!(matches!(create_sequence_opening("s1", true, Ok(seq("s1")), 0, &schema, &mut program), Ok(None)));
    let mut program = ProgramBuilder::new();
    let r = create_sequence_opening(
        "s2",
        false,
        Err(LimboError::ParseError("INCREMENT must not be zero".to_string())),
        0,
        &schema,
        &mut program,
    );
    assert!(matches!(r, Err(LimboError::ParseError(m)) if m == "INCREMENT must not be zero"));
    assert!(program.insns.is_empty());
}
