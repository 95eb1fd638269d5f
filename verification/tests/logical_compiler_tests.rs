use turso_pg::ast::Operator;
use turso_pg::logical::{ColumnInfo, ColumnRef, Filter, LogicalExpr, LogicalPlan, LogicalSchema, Projection, TableScan};
use turso_pg::logical_compiler::{compile_logical_plan, LogicalCompiler, Resolver};
use turso_pg::schema::{BTreeTable, Column, LimboError, Schema, Table, Type, Value};
use turso_pg::vdbe::{BranchOffset, Insn, ProgramBuilder};

fn create_test_schema() -> Schema {
    let mut schema = Schema::new();
    let columns = vec![
        Column::new("id".to_string(), Type::Integer, true, None, false),
        Column::new("name".to_string(), Type::Text, false, None, false),
        Column::new("age".to_string(), Type::Integer, false, None, false),
    ];
    let table = BTreeTable::new("test_table".to_string(), 2, columns);
    schema.add_table("test_table".to_string(), Table::BTree(table));
    schema
}

fn column_info(name: &str, ty: Type) -> ColumnInfo {
    ColumnInfo {
        name: name.to_string(),
        ty,
        database: None,
        table: Some("test_table".to_string()),
        table_alias: None,
    }
}

fn full_schema() -> LogicalSchema {
    LogicalSchema::new(vec![
        column_info("id", Type::Integer),
        column_info("name", Type::Text),
        column_info("age", Type::Integer),
    ])
}

fn scan(projection: Option<Vec<usize>>) -> TableScan {
    TableScan { table_name: "test_table".to_string(), alias: None, schema: full_schema(), projection }
}

fn col(name: &str) -> LogicalExpr {
    LogicalExpr::Column(ColumnRef { name: name.to_string(), table: None })
}

fn lit(i: i64) -> LogicalExpr {
    LogicalExpr::Literal(Value::Integer(i))
}

fn bin(l: LogicalExpr, op: Operator, r: LogicalExpr) -> LogicalExpr {
    LogicalExpr::BinaryExpr { left: Box::new(l), op, right: Box::new(r) }
}

#[test]
fn test_table_scan_compilation() {
    let schema = create_test_schema();
    let mut program = ProgramBuilder::new();
    let resolver = Resolver::new(&schema);
    let logical_schema = LogicalSchema::new(vec![
        column_info("id", Type::Integer),
        column_info("name", Type::Text),
        column_info("age", Type::Integer),
    ]);
    let table_scan = TableScan {
        table_name: "test_table".to_string(),
        alias: None,
        schema: logical_schema,
        projection: None,
    };
    let mut compiler = LogicalCompiler::new(&mut program, &resolver);
    let result = compiler.compile_table_scan(&table_scan);
    assert!(result.is_ok());
    let result = result.unwrap();
    assert_eq!(result.output_count, 3);
    assert!(result.cursor_id.is_some());
}

#[test]
fn test_table_scan_with_projection() {
    let schema = create_test_schema();
    let mut program = ProgramBuilder::new();
    let resolver = Resolver::new(&schema);
    let logical_schema = LogicalSchema::new(vec![column_info("id", Type::Integer), column_info("name", Type::Text)]);
    let table_scan = TableScan {
        table_name: "test_table".to_string(),
        alias: None,
        schema: logical_schema,
        projection: Some(vec![0, 1]),
    };
    let mut compiler = LogicalCompiler::new(&mut program, &resolver);
    let result = compiler.compile_table_scan(&table_scan);
    assert!(result.is_ok());
    let result = result.unwrap();
    assert_eq!(result.output_count, 2);
    assert!(result.cursor_id.is_some());
}

#[test]
fn table_scan_emits_the_loop() {
    let schema = create_test_schema();
    let mut program = ProgramBuilder::new();
    let resolver = Resolver::new(&schema);
    let result = {
        let mut compiler = LogicalCompiler::new(&mut program, &resolver);
        compiler.compile_table_scan(&scan(Some(vec![2, 0]))).unwrap()
    };
    assert_eq!(result.output_start_reg, 1);
    assert_eq!(result.output_count, 2);
    assert_eq!(result.cursor_id, Some(0));
    assert_eq!(program.next_free_register, 4);
    assert_eq!(program.insns.len(), 6);
    assert!(matches!(program.insns[0], Insn::OpenRead { cursor_id: 0, root_page: 2, db: 0 }));
    assert!(matches!(program.insns[1], Insn::Rewind { cursor_id: 0, pc_if_empty: BranchOffset::Label(1) }));
    assert!(matches!(program.insns[2], Insn::Column { cursor_id: 0, column: 2, dest: 1 }));
    assert!(matches!(program.insns[3], Insn::Column { cursor_id: 0, column: 0, dest: 2 }));
    assert!(matches!(program.insns[4], Insn::ResultRow { start_reg: 1, count: 2 }));
    assert!(matches!(program.insns[5], Insn::Next { cursor_id: 0, pc_if_next: BranchOffset::Label(0) }));
    // The loop start is the first column read, the loop end follows Next.
    assert_eq!(program.label_to_resolved_offset, vec![Some(2), Some(6)]);
}

#[test]
fn missing_table_is_an_error_and_emits_nothing() {
    let schema = create_test_schema();
    let mut program = ProgramBuilder::new();
    let resolver = Resolver::new(&schema);
    let mut missing = scan(None);
    missing.table_name = "nope".to_string();
    let result = {
        let mut compiler = LogicalCompiler::new(&mut program, &resolver);
        compiler.compile_table_scan(&missing)
    };
    match result {
        Err(LimboError::ParseError(m)) => assert_eq!(m, "Table not found: nope"),
        other => panic!("unexpected {other:?}"),
    }
    assert!(program.insns.is_empty());
    assert_eq!(program.next_free_register, 1);
}

#[test]
fn filter_checks_the_predicate_inside_the_loop() {
    let schema = create_test_schema();
    let mut program = ProgramBuilder::new();
    let resolver = Resolver::new(&schema);
    let plan = LogicalPlan::Filter(Filter {
        input: Box::new(LogicalPlan::TableScan(scan(None))),
        predicate: bin(col("age"), Operator::Greater, lit(18)),
    });
    compile_logical_plan(&plan, &mut program, &resolver).unwrap();
    // OpenRead, Rewind, 3 columns, left operand, right operand, Gt, 0, Goto, 1, IfNot, ResultRow, Next, Halt
    assert_eq!(program.insns.len(), 15);
    // `age` is the third column of the table.
    assert!(matches!(program.insns[5], Insn::Column { cursor_id: 0, column: 2, dest: 5 }));
    assert!(matches!(program.insns[6], Insn::Integer { value: 18, dest: 6 }));
    assert!(matches!(program.insns[7], Insn::Gt { lhs: 5, rhs: 6, target_pc: BranchOffset::Label(3) }));
    assert!(matches!(program.insns[8], Insn::Integer { value: 0, dest: 4 }));
    assert!(matches!(program.insns[9], Insn::Goto { target_pc: BranchOffset::Label(4) }));
    assert!(matches!(program.insns[10], Insn::Integer { value: 1, dest: 4 }));
    assert!(matches!(
        program.insns[11],
        Insn::IfNot { reg: 4, target_pc: BranchOffset::Label(2), jump_if_null: true }
    ));
    assert!(matches!(program.insns[12], Insn::ResultRow { start_reg: 1, count: 3 }));
    assert!(matches!(program.insns[13], Insn::Next { cursor_id: 0, pc_if_next: BranchOffset::Label(0) }));
    match &program.insns[14] {
        Insn::Halt { err_code, description } => {
            assert_eq!(*err_code, 0);
            assert_eq!(description, "Logical plan execution completed");
        },
        other => panic!("unexpected {other:?}"),
    }
    // A false or NULL predicate skips to Next; a true comparison jumps to
    // the store of 1; every label is resolved.
    assert_eq!(program.label_to_resolved_offset, vec![Some(2), Some(14), Some(13), Some(10), Some(11)]);
}

#[test]
fn projection_evaluates_expressions_after_reading_all_columns() {
    let schema = create_test_schema();
    let mut program = ProgramBuilder::new();
    let resolver = Resolver::new(&schema);
    let plan = LogicalPlan::Projection(Projection {
        input: Box::new(LogicalPlan::TableScan(scan(None))),
        exprs: vec![LogicalExpr::Literal(Value::Text("x".to_string())), LogicalExpr::Literal(Value::Null)],
        schema: full_schema(),
    });
    let result = {
        let mut compiler = LogicalCompiler::new(&mut program, &resolver);
        compiler.compile_plan(&plan).unwrap()
    };
    assert_eq!(result.output_start_reg, 4);
    assert_eq!(result.output_count, 2);
    assert!(matches!(&program.insns[5], Insn::String8 { value, dest: 4 } if value == "x"));
    assert!(matches!(program.insns[6], Insn::Null { dest: 5, dest_end: None }));
    assert!(matches!(program.insns[7], Insn::ResultRow { start_reg: 4, count: 2 }));
}

#[test]
fn filtered_projection_and_logical_operators() {
    let schema = create_test_schema();
    let mut program = ProgramBuilder::new();
    let resolver = Resolver::new(&schema);
    let plan = LogicalPlan::Projection(Projection {
        input: Box::new(LogicalPlan::Filter(Filter {
            input: Box::new(LogicalPlan::TableScan(scan(None))),
            predicate: bin(lit(1), Operator::And, lit(0)),
        })),
        exprs: vec![bin(lit(2), Operator::Add, lit(3))],
        schema: full_schema(),
    });
    let result = {
        let mut compiler = LogicalCompiler::new(&mut program, &resolver);
        compiler.compile_plan(&plan).unwrap()
    };
    // Columns in 1..=3, the projection in 4, the predicate in 5.
    assert_eq!(result.output_start_reg, 4);
    assert_eq!(result.output_count, 1);
    assert!(matches!(program.insns[5], Insn::Integer { value: 1, dest: 6 }));
    assert!(matches!(program.insns[6], Insn::Integer { value: 0, dest: 7 }));
    assert!(matches!(program.insns[7], Insn::IfNot { reg: 6, target_pc: BranchOffset::Label(3), jump_if_null: true }));
    assert!(matches!(program.insns[8], Insn::Move { from_reg: 7, to_reg: 5, count: 1 }));
    assert!(matches!(program.insns[9], Insn::Goto { target_pc: BranchOffset::Label(4) }));
    assert!(matches!(program.insns[10], Insn::Integer { value: 0, dest: 5 }));
    assert!(matches!(program.insns[11], Insn::IfNot { reg: 5, target_pc: BranchOffset::Label(2), jump_if_null: true }));
    assert!(matches!(program.insns[14], Insn::Add { lhs: 8, rhs: 9, dest: 4 }));
    assert!(matches!(program.insns[15], Insn::ResultRow { start_reg: 4, count: 1 }));
    for label in &program.label_to_resolved_offset {
        assert!(label.is_some());
    }
    // Every jump targets one of the labels, and the output registers were handed out.
    for insn in &program.insns {
        let target = match insn {
            Insn::Rewind { pc_if_empty, .. } => Some(*pc_if_empty),
            Insn::Next { pc_if_next, .. } => Some(*pc_if_next),
            Insn::IfNot { target_pc, .. } | Insn::If { target_pc, .. } | Insn::Goto { target_pc } => Some(*target_pc),
            _ => None,
        };
        if let Some(BranchOffset::Label(k)) = target {
            assert!(k < program.label_to_resolved_offset.len());
        }
    }
    assert!(result.output_start_reg >= 1);
    assert!(result.output_start_reg + result.output_count <= program.next_free_register);
    assert_eq!(program.label_to_resolved_offset[3], Some(10));
    assert_eq!(program.label_to_resolved_offset[4], Some(11));
}

#[test]
fn or_and_comparisons_emit_their_patterns() {
    let schema = create_test_schema();
    let mut program = ProgramBuilder::new();
    let resolver = Resolver::new(&schema);
    let plan = LogicalPlan::Projection(Projection {
        input: Box::new(LogicalPlan::TableScan(scan(Some(vec![])))),
        exprs: vec![
            bin(lit(1), Operator::Or, lit(0)),
            bin(lit(1), Operator::NotEquals, lit(2)),
            bin(LogicalExpr::Literal(Value::Float(0)), Operator::Divide, lit(2)),
        ],
        schema: full_schema(),
    });
    {
        let mut compiler = LogicalCompiler::new(&mut program, &resolver);
        compiler.compile_plan(&plan).unwrap();
    }
    assert!(matches!(program.insns[7], Insn::If { reg: 7, target_pc: BranchOffset::Label(2), jump_if_null: false }));
    assert!(matches!(program.insns[10], Insn::Integer { value: 1, dest: 4 }));
    assert!(matches!(program.insns[13], Insn::Ne { lhs: 9, rhs: 10, target_pc: BranchOffset::Label(4) }));
    assert!(matches!(program.insns[14], Insn::Integer { value: 0, dest: 5 }));
    assert!(matches!(program.insns[15], Insn::Goto { target_pc: BranchOffset::Label(5) }));
    assert!(matches!(program.insns[16], Insn::Integer { value: 1, dest: 5 }));
    assert!(matches!(program.insns[17], Insn::Real { value: 0, dest: 11 }));
    assert!(matches!(program.insns[19], Insn::Divide { lhs: 11, rhs: 12, dest: 6 }));
    assert_eq!(program.label_to_resolved_offset[4], Some(16));
    assert_eq!(program.label_to_resolved_offset[5], Some(17));
}

#[test]
fn filter_over_a_projection_checks_the_predicate_before_the_output() {
    let schema = create_test_schema();
    let mut program = ProgramBuilder::new();
    let resolver = Resolver::new(&schema);
    let plan = LogicalPlan::Filter(Filter {
        input: Box::new(LogicalPlan::Projection(Projection {
            input: Box::new(LogicalPlan::TableScan(scan(None))),
            exprs: vec![col("id")],
            schema: full_schema(),
        })),
        predicate: bin(col("age"), Operator::Greater, lit(18)),
    });
    let result = {
        let mut compiler = LogicalCompiler::new(&mut program, &resolver);
        compiler.compile_plan(&plan).unwrap()
    };
    // Columns in 1..=3, the projection in 4, the predicate in 5, its operands in 6 and 7.
    assert_eq!(result.output_start_reg, 4);
    assert_eq!(result.output_count, 1);
    assert!(matches!(program.insns[5], Insn::Column { cursor_id: 0, column: 2, dest: 6 }));
    assert!(matches!(program.insns[6], Insn::Integer { value: 18, dest: 7 }));
    assert!(matches!(program.insns[7], Insn::Gt { lhs: 6, rhs: 7, target_pc: BranchOffset::Label(3) }));
    assert!(matches!(program.insns[11], Insn::IfNot { reg: 5, target_pc: BranchOffset::Label(2), jump_if_null: true }));
    assert!(matches!(program.insns[12], Insn::Column { cursor_id: 0, column: 0, dest: 4 }));
    assert!(matches!(program.insns[13], Insn::ResultRow { start_reg: 4, count: 1 }));
    assert!(matches!(program.insns[14], Insn::Next { cursor_id: 0, pc_if_next: BranchOffset::Label(0) }));
    assert_eq!(program.insns.len(), 15);
    assert_eq!(program.label_to_resolved_offset, vec![Some(2), Some(15), Some(14), Some(10), Some(11)]);
}

#[test]
fn filter_over_a_projection_of_a_missing_table_reports_the_table() {
    let schema = Schema::new();
    let mut program = ProgramBuilder::new();
    let resolver = Resolver::new(&schema);
    let plan = LogicalPlan::Filter(Filter {
        input: Box::new(LogicalPlan::Projection(Projection {
            input: Box::new(LogicalPlan::TableScan(scan(None))),
            exprs: vec![col("id")],
            schema: full_schema(),
        })),
        predicate: bin(col("age"), Operator::Greater, lit(18)),
    });
    match compile_logical_plan(&plan, &mut program, &resolver) {
        Err(LimboError::ParseError(m)) => assert_eq!(m, "Table not found: test_table"),
        other => panic!("unexpected {other:?}"),
    }
    assert!(program.insns.is_empty());
}

#[test]
fn nested_filters_check_every_predicate() {
    let schema = create_test_schema();
    let mut program = ProgramBuilder::new();
    let resolver = Resolver::new(&schema);
    let plan = LogicalPlan::Filter(Filter {
        input: Box::new(LogicalPlan::Filter(Filter {
            input: Box::new(LogicalPlan::TableScan(scan(None))),
            predicate: bin(col("age"), Operator::Greater, lit(18)),
        })),
        predicate: bin(lit(65), Operator::Greater, col("age")),
    });
    compile_logical_plan(&plan, &mut program, &resolver).unwrap();
    // The inner predicate is checked first, then the outer one, both in register 4.
    assert!(matches!(program.insns[7], Insn::Gt { lhs: 5, rhs: 6, target_pc: BranchOffset::Label(3) }));
    assert!(matches!(program.insns[11], Insn::IfNot { reg: 4, target_pc: BranchOffset::Label(2), jump_if_null: true }));
    assert!(matches!(program.insns[12], Insn::Integer { value: 65, dest: 7 }));
    assert!(matches!(program.insns[13], Insn::Column { cursor_id: 0, column: 2, dest: 8 }));
    assert!(matches!(program.insns[14], Insn::Gt { lhs: 7, rhs: 8, target_pc: BranchOffset::Label(5) }));
    assert!(matches!(program.insns[18], Insn::IfNot { reg: 4, target_pc: BranchOffset::Label(2), jump_if_null: true }));
    assert!(matches!(program.insns[19], Insn::ResultRow { start_reg: 1, count: 3 }));
    assert!(matches!(program.insns[20], Insn::Next { cursor_id: 0, pc_if_next: BranchOffset::Label(0) }));
    let result_row = 19;
    let next = 20;
    let adult = [Some(1), Some(0), Some(30)];
    assert_eq!(run_until(&program, 5, &[result_row, next], &adult).0, result_row);
    let child = [Some(2), Some(0), Some(10)];
    assert_eq!(run_until(&program, 5, &[result_row, next], &child).0, next);
    let senior = [Some(3), Some(0), Some(70)];
    assert_eq!(run_until(&program, 5, &[result_row, next], &senior).0, next);
}

#[test]
fn projection_reads_referenced_columns_by_name() {
    let schema = create_test_schema();
    let mut program = ProgramBuilder::new();
    let resolver = Resolver::new(&schema);
    let plan = LogicalPlan::Projection(Projection {
        input: Box::new(LogicalPlan::TableScan(scan(None))),
        exprs: vec![col("name"), col("id")],
        schema: full_schema(),
    });
    {
        let mut compiler = LogicalCompiler::new(&mut program, &resolver);
        compiler.compile_plan(&plan).unwrap();
    }
    assert!(matches!(program.insns[5], Insn::Column { cursor_id: 0, column: 1, dest: 4 }));
    assert!(matches!(program.insns[6], Insn::Column { cursor_id: 0, column: 0, dest: 5 }));
}

#[test]
fn unknown_columns_are_reported() {
    let schema = create_test_schema();
    let mut program = ProgramBuilder::new();
    let resolver = Resolver::new(&schema);
    let plan = LogicalPlan::Projection(Projection {
        input: Box::new(LogicalPlan::Filter(Filter {
            input: Box::new(LogicalPlan::TableScan(scan(None))),
            predicate: bin(col("salary"), Operator::Less, lit(10)),
        })),
        exprs: vec![col("bonus")],
        schema: full_schema(),
    });
    match compile_logical_plan(&plan, &mut program, &resolver) {
        Err(LimboError::ParseError(m)) => assert_eq!(m, "Column not found: salary"),
        other => panic!("unexpected {other:?}"),
    }
    assert!(program.insns.is_empty());
}

#[test]
fn compile_logical_plan_reports_missing_tables() {
    let schema = Schema::new();
    let mut program = ProgramBuilder::new();
    let resolver = Resolver::new(&schema);
    let plan = LogicalPlan::TableScan(scan(None));
    match compile_logical_plan(&plan, &mut program, &resolver) {
        Err(LimboError::ParseError(m)) => assert_eq!(m, "Table not found: test_table"),
        other => panic!("unexpected {other:?}"),
    }
    assert!(program.insns.is_empty());
}

/// Runs `program` from `pc` until `stop` (at most 100 steps) on integer or
/// NULL registers, with `row` the current row of the cursor; follows the
/// instructions that evaluate predicates.
fn run_until(program: &ProgramBuilder, mut pc: usize, stop: &[usize], row: &[Option<i64>]) -> (usize, Vec<Option<i64>>) {
    let mut regs: Vec<Option<i64>> = vec![None; 64];
    let target = |b: &BranchOffset| match b {
        BranchOffset::Label(k) => program.label_to_resolved_offset[*k].unwrap(),
        BranchOffset::Offset(o) => *o,
    };
    for _ in 0..100 {
        if stop.contains(&pc) {
            break;
        }
        pc = match &program.insns[pc] {
            Insn::Column { column, dest, .. } => {
                regs[*dest] = row[*column];
                pc + 1
            },
            Insn::Integer { value, dest } => {
                regs[*dest] = Some(*value);
                pc + 1
            },
            Insn::Null { dest, .. } => {
                regs[*dest] = None;
                pc + 1
            },
            Insn::Goto { target_pc } => target(target_pc),
            Insn::IfNot { reg, target_pc, jump_if_null } => {
                let jump = match regs[*reg] {
                    Some(x) => x == 0,
                    None => *jump_if_null,
                };
                if jump { target(target_pc) } else { pc + 1 }
            },
            Insn::Gt { lhs, rhs, target_pc } => match (regs[*lhs], regs[*rhs]) {
                (Some(a), Some(b)) if a > b => target(target_pc),
                _ => pc + 1,
            },
            other => panic!("unexpected {other:?}"),
        };
    }
    (pc, regs)
}

#[test]
fn filter_outputs_exactly_the_rows_whose_predicate_is_true() {
    let schema = create_test_schema();
    let mut program = ProgramBuilder::new();
    let resolver = Resolver::new(&schema);
    let plan = LogicalPlan::Filter(Filter {
        input: Box::new(LogicalPlan::TableScan(scan(None))),
        predicate: bin(col("age"), Operator::Greater, lit(18)),
    });
    compile_logical_plan(&plan, &mut program, &resolver).unwrap();
    // The predicate's code starts after OpenRead, Rewind and the three column reads.
    let result_row = 12;
    let next = 13;
    let adult = [Some(1), Some(0), Some(30)];
    let (pc, regs) = run_until(&program, 5, &[result_row, next], &adult);
    assert_eq!(pc, result_row);
    assert_eq!(regs[4], Some(1));
    let child = [Some(2), Some(0), Some(10)];
    let (pc, regs) = run_until(&program, 5, &[result_row, next], &child);
    assert_eq!(pc, next);
    assert_eq!(regs[4], Some(0));
    let unknown = [Some(3), Some(0), None];
    let (pc, _) = run_until(&program, 5, &[result_row, next], &unknown);
    assert_eq!(pc, next);
}
