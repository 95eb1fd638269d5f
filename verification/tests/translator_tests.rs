use turso_pg::ast::{
    CompoundOperator, Distinctness, Expr, FromClause, JoinOperator, JoinType, LikeOperator, Literal, Operator,
    ResultColumn, Select, SelectTable, SortOrder, Stmt, UnaryOperator,
};
use turso_pg::pg_ast::{
    AConst, AConstVal, AExpr, AExprKind, BoolExpr, BoolExprType, CaseExpr, CaseWhen, FuncCall, JoinExpr,
    JoinType as PgJoinType, NullTestType, ParseResult, PgNode, RangeVar, ResTarget, SelectStmt, SetOperation,
    SortBy, SortByDir,
};
use turso_pg::translator::{
    i32_to_decimal, map_postgresql_type, sqlite_type_for_upper, table_name_for_lower, translate_const, ParseError,
    PostgreSQLTranslator,
};

fn string_node(v: &str) -> PgNode {
    PgNode::String(v.to_string())
}

fn column(name: &str) -> PgNode {
    PgNode::ColumnRef(vec![string_node(name)])
}

fn qualified(table: &str, name: &str) -> PgNode {
    PgNode::ColumnRef(vec![string_node(table), string_node(name)])
}

fn target(val: PgNode) -> PgNode {
    PgNode::ResTarget(Box::new(ResTarget { name: String::new(), val: Some(Box::new(val)) }))
}

fn named_target(val: PgNode, name: &str) -> PgNode {
    PgNode::ResTarget(Box::new(ResTarget { name: name.to_string(), val: Some(Box::new(val)) }))
}

fn star() -> PgNode {
    target(PgNode::ColumnRef(vec![PgNode::AStar]))
}

fn int_const(i: i32) -> PgNode {
    PgNode::AConst(AConst { isnull: false, val: Some(AConstVal::Ival(i)) })
}

fn str_const(v: &str) -> PgNode {
    PgNode::AConst(AConst { isnull: false, val: Some(AConstVal::Sval(v.to_string())) })
}

fn float_const(v: &str) -> PgNode {
    PgNode::AConst(AConst { isnull: false, val: Some(AConstVal::Fval(v.to_string())) })
}

fn a_expr(kind: AExprKind, name: &str, l: PgNode, r: PgNode) -> PgNode {
    PgNode::AExpr(Box::new(AExpr {
        kind,
        name: vec![string_node(name)],
        lexpr: Some(Box::new(l)),
        rexpr: Some(Box::new(r)),
    }))
}

fn op(name: &str, l: PgNode, r: PgNode) -> PgNode {
    a_expr(AExprKind::AexprOp, name, l, r)
}

fn bool_expr(boolop: BoolExprType, args: Vec<PgNode>) -> PgNode {
    PgNode::BoolExpr(BoolExpr { boolop, args })
}

fn table(name: &str) -> PgNode {
    PgNode::RangeVar(RangeVar { relname: name.to_string(), alias: None })
}

fn aliased_table(name: &str, alias: &str) -> PgNode {
    PgNode::RangeVar(RangeVar { relname: name.to_string(), alias: Some(alias.to_string()) })
}

fn select_stmt(targets: Vec<PgNode>, from: Vec<PgNode>, where_clause: Option<PgNode>) -> SelectStmt {
    SelectStmt {
        target_list: targets,
        from_clause: from,
        where_clause: where_clause.map(Box::new),
        sort_clause: vec![],
        op: SetOperation::SetopNone,
        all: false,
        larg: None,
        rarg: None,
    }
}

fn parse_result(stmt: SelectStmt) -> ParseResult {
    ParseResult { stmts: vec![PgNode::SelectStmt(Box::new(stmt))] }
}

fn translate(p: &ParseResult) -> Result<Stmt, ParseError> {
    PostgreSQLTranslator::new().translate(p)
}

fn translated_select(p: &ParseResult) -> Select {
    match translate(p) {
        Ok(Stmt::Select(s)) => s,
        Err(ParseError::ParseError(m)) => panic!("translation failed: {m}"),
    }
}

fn error_message(p: &ParseResult) -> String {
    match translate(p) {
        Ok(s) => panic!("expected an error, got {s:?}"),
        Err(ParseError::ParseError(m)) => m,
    }
}

fn table_name(from: &Option<FromClause>) -> String {
    match from {
        Some(f) => match &f.select {
            SelectTable::Table(name, _) => name.clone(),
        },
        None => panic!("Expected FROM clause"),
    }
}

#[test]
fn test_type_mapping() {
    assert_eq!(map_postgresql_type("INTEGER"), "INTEGER");
    assert_eq!(map_postgresql_type("VARCHAR(255)"), "TEXT");
    assert_eq!(map_postgresql_type("BOOLEAN"), "INTEGER");
    assert_eq!(map_postgresql_type("JSONB"), "TEXT");
    assert_eq!(map_postgresql_type("UUID"), "TEXT");
    assert_eq!(map_postgresql_type("INTEGER[]"), "TEXT");
}

#[test]
fn test_basic_translation() {
    // SELECT * FROM users WHERE id = 1
    let p = parse_result(select_stmt(
        vec![star()],
        vec![table("users")],
        Some(op("=", column("id"), int_const(1))),
    ));
    let translated = translate(&p);
    assert!(translated.is_ok());
    if let Ok(Stmt::Select(select)) = translated {
        let body = &select.body.select;
        assert_eq!(body.columns.len(), 1);
        assert!(matches!(body.columns[0], ResultColumn::Star));
        assert!(body.from.is_some());
        assert!(body.where_clause.is_some());
    }
}

#[test]
fn test_table_name_mapping() {
    // SELECT * FROM pg_tables
    let p = parse_result(select_stmt(vec![star()], vec![table("pg_tables")], None));
    let select = translated_select(&p);
    assert_eq!(table_name(&select.body.select.from), "sqlite_master");
}

#[test]
fn test_simple_select_star() {
    // SELECT * FROM sqlite_master
    let p = parse_result(select_stmt(vec![star()], vec![table("sqlite_master")], None));
    let select = translated_select(&p);
    let body = &select.body.select;
    assert_eq!(body.columns.len(), 1);
    assert!(matches!(body.columns[0], ResultColumn::Star), "Expected ResultColumn::Star but got {:?}", body.columns[0]);
    match &body.from {
        Some(f) => match &f.select {
            SelectTable::Table(name, alias) => {
                assert_eq!(name, "sqlite_master");
                assert!(alias.is_none());
            },
        },
        None => panic!("Expected FROM clause"),
    }
}

#[test]
fn test_column_expressions() {
    // SELECT id, name FROM users
    let p = parse_result(select_stmt(vec![target(column("id")), target(column("name"))], vec![table("users")], None));
    let select = translated_select(&p);
    let body = &select.body.select;
    assert_eq!(body.columns.len(), 2);
    match &body.columns[0] {
        ResultColumn::Expr(Expr::Id(name), alias) => {
            assert_eq!(name, "id");
            assert!(alias.is_none());
        },
        other => panic!("Expected Name expression but got {other:?}"),
    }
    match &body.columns[1] {
        ResultColumn::Expr(Expr::Id(name), alias) => {
            assert_eq!(name, "name");
            assert!(alias.is_none());
        },
        other => panic!("Expected Name expression but got {other:?}"),
    }
    assert!(body.from.is_some());
}

#[test]
fn test_qualified_column_expressions() {
    // SELECT users.id, t.name FROM users t
    let p = parse_result(select_stmt(
        vec![target(qualified("users", "id")), target(qualified("t", "name"))],
        vec![aliased_table("users", "t")],
        None,
    ));
    let select = translated_select(&p);
    let body = &select.body.select;
    assert_eq!(body.columns.len(), 2);
    match &body.columns[0] {
        ResultColumn::Expr(Expr::Qualified(t, c), alias) => {
            assert_eq!(t, "users");
            assert_eq!(c, "id");
            assert!(alias.is_none());
        },
        other => panic!("Expected Qualified expression but got {other:?}"),
    }
    match &body.columns[1] {
        ResultColumn::Expr(Expr::Qualified(t, c), alias) => {
            assert_eq!(t, "t");
            assert_eq!(c, "name");
            assert!(alias.is_none());
        },
        other => panic!("Expected Qualified expression but got {other:?}"),
    }
    assert!(body.from.is_some());
}

#[test]
fn test_select_with_where_clause() {
    // SELECT * FROM users WHERE id = 1
    let p = parse_result(select_stmt(
        vec![star()],
        vec![table("users")],
        Some(op("=", column("id"), int_const(1))),
    ));
    let select = translated_select(&p);
    let body = &select.body.select;
    assert_eq!(body.columns.len(), 1);
    assert!(matches!(body.columns[0], ResultColumn::Star));
    assert!(body.from.is_some());
    match &body.where_clause {
        Some(Expr::Binary(left, o, right)) => {
            assert!(matches!(**left, Expr::Id(ref n) if n == "id"), "Expected Name expression for left side");
            assert!(matches!(o, Operator::Equals), "Expected Equals operator");
            match &**right {
                Expr::Literal(Literal::Numeric(n)) => assert_eq!(n, "1"),
                other => panic!("Expected numeric literal, got {other:?}"),
            }
        },
        other => panic!("Expected Binary expression but got {other:?}"),
    }
}

#[test]
fn test_comprehensive_translation() {
    let cases = vec![
        // SELECT * FROM sqlite_master
        (parse_result(select_stmt(vec![star()], vec![table("sqlite_master")], None)), "SELECT * with no WHERE"),
        // SELECT name FROM pg_tables WHERE name = 'users'
        (
            parse_result(select_stmt(
                vec![target(column("name"))],
                vec![table("pg_tables")],
                Some(op("=", column("name"), str_const("users"))),
            )),
            "SELECT with WHERE and table mapping",
        ),
        // SELECT id, name, age FROM users WHERE age > 18
        (
            parse_result(select_stmt(
                vec![target(column("id")), target(column("name")), target(column("age"))],
                vec![table("users")],
                Some(op(">", column("age"), int_const(18))),
            )),
            "SELECT multiple columns with WHERE",
        ),
        // SELECT 'hello', 42 FROM users
        (
            parse_result(select_stmt(vec![target(str_const("hello")), target(int_const(42))], vec![table("users")], None)),
            "SELECT with literals",
        ),
    ];
    for (p, description) in cases {
        println!("Testing: {description}");
        let translated = translate(&p);
        assert!(translated.is_ok(), "Failed to translate ({description})");
        if let Ok(Stmt::Select(select)) = translated {
            assert!(!select.body.select.columns.is_empty(), "No columns in result for: {description}");
        }
    }
}

#[test]
fn test_literal_expressions() {
    // SELECT 'hello', 42, 3.14 FROM users
    let p = parse_result(select_stmt(
        vec![target(str_const("hello")), target(int_const(42)), target(float_const("3.14"))],
        vec![table("users")],
        None,
    ));
    let select = translated_select(&p);
    let cols = &select.body.select.columns;
    assert_eq!(cols.len(), 3);
    match &cols[0] {
        ResultColumn::Expr(Expr::Literal(Literal::String(s)), _) => assert_eq!(s, "'hello'"),
        other => panic!("Expected string literal, got {other:?}"),
    }
    match &cols[1] {
        ResultColumn::Expr(Expr::Literal(Literal::Numeric(n)), _) => assert_eq!(n, "42"),
        other => panic!("Expected numeric literal, got {other:?}"),
    }
    match &cols[2] {
        ResultColumn::Expr(Expr::Literal(Literal::Numeric(n)), _) => assert_eq!(n, "3.14"),
        other => panic!("Expected numeric literal, got {other:?}"),
    }
}

#[test]
fn test_bool_expr_and_translation() {
    // SELECT * FROM users WHERE age > 18 AND name = 'John'
    let p = parse_result(select_stmt(
        vec![star()],
        vec![table("users")],
        Some(bool_expr(
            BoolExprType::AndExpr,
            vec![op(">", column("age"), int_const(18)), op("=", column("name"), str_const("John"))],
        )),
    ));
    let select = translated_select(&p);
    assert!(
        matches!(select.body.select.where_clause, Some(Expr::Binary(_, Operator::And, _))),
        "Expected AND expression"
    );
}

#[test]
fn test_bool_expr_or_translation() {
    // SELECT * FROM users WHERE age > 18 OR name = 'John'
    let p = parse_result(select_stmt(
        vec![star()],
        vec![table("users")],
        Some(bool_expr(
            BoolExprType::OrExpr,
            vec![op(">", column("age"), int_const(18)), op("=", column("name"), str_const("John"))],
        )),
    ));
    let select = translated_select(&p);
    assert!(
        matches!(select.body.select.where_clause, Some(Expr::Binary(_, Operator::Or, _))),
        "Expected OR expression"
    );
}

fn in_list(lhs: PgNode, items: Vec<PgNode>, name: &str) -> PgNode {
    a_expr(AExprKind::AexprIn, name, lhs, PgNode::List(items))
}

#[test]
fn test_in_list_translation() {
    // SELECT * FROM users WHERE type IN ('admin', 'user', 'guest')
    let p = parse_result(select_stmt(
        vec![star()],
        vec![table("users")],
        Some(in_list(column("type"), vec![str_const("admin"), str_const("user"), str_const("guest")], "=")),
    ));
    let select = translated_select(&p);
    match &select.body.select.where_clause {
        Some(Expr::InList { lhs, not, rhs }) => {
            assert!(!not, "Should not be NOT IN");
            assert_eq!(rhs.len(), 3, "Should have 3 values in the IN list");
            assert!(matches!(**lhs, Expr::Id(_)), "Left side should be a column name");
            for value in rhs {
                assert!(matches!(value, Expr::Literal(_)), "IN list values should be literals");
            }
        },
        other => panic!("Expected InList expression but got: {other:?}"),
    }
}

#[test]
fn test_like_translation() {
    // SELECT * FROM users WHERE name LIKE 'John%'
    let p = parse_result(select_stmt(
        vec![star()],
        vec![table("users")],
        Some(a_expr(AExprKind::AexprLike, "~~", column("name"), str_const("John%"))),
    ));
    let select = translated_select(&p);
    match &select.body.select.where_clause {
        Some(Expr::Like { lhs, not, op, rhs, escape }) => {
            assert!(!not, "Should not be NOT LIKE");
            assert!(matches!(op, LikeOperator::Like), "Should be LIKE operator");
            assert!(escape.is_none(), "No ESCAPE clause expected");
            assert!(matches!(**lhs, Expr::Id(_)), "Left side should be column name");
            assert!(matches!(**rhs, Expr::Literal(_)), "Right side should be literal");
        },
        other => panic!("Expected Like expression but got: {other:?}"),
    }
}

#[test]
fn test_not_like_translation() {
    // SELECT * FROM users WHERE name NOT LIKE 'sqlite_%'
    let p = parse_result(select_stmt(
        vec![star()],
        vec![table("users")],
        Some(a_expr(AExprKind::AexprLike, "!~~", column("name"), str_const("sqlite_%"))),
    ));
    let select = translated_select(&p);
    match &select.body.select.where_clause {
        Some(Expr::Like { lhs, not, op, rhs, escape }) => {
            assert!(*not, "Should be NOT LIKE");
            assert!(matches!(op, LikeOperator::Like), "Should be LIKE operator");
            assert!(escape.is_none(), "No ESCAPE clause expected");
            assert!(matches!(**lhs, Expr::Id(_)), "Left side should be column name");
            assert!(matches!(**rhs, Expr::Literal(_)), "Right side should be literal");
        },
        other => panic!("Expected Like expression but got: {other:?}"),
    }
}

#[test]
fn test_complex_schema_query_translation() {
    // SELECT type, name FROM sqlite_schema
    //   WHERE type IN ('table', 'index', 'view') AND name NOT LIKE 'sqlite_%'
    let p = parse_result(select_stmt(
        vec![target(column("type")), target(column("name"))],
        vec![table("sqlite_schema")],
        Some(bool_expr(
            BoolExprType::AndExpr,
            vec![
                in_list(column("type"), vec![str_const("table"), str_const("index"), str_const("view")], "="),
                a_expr(AExprKind::AexprLike, "!~~", column("name"), str_const("sqlite_%")),
            ],
        )),
    ));
    let select = translated_select(&p);
    let body = &select.body.select;
    assert_eq!(body.columns.len(), 2, "Should have 2 columns");
    assert!(body.from.is_some(), "Should have FROM clause");
    match &body.where_clause {
        Some(Expr::Binary(left, o, right)) => {
            assert!(matches!(o, Operator::And), "Top level should be AND");
            assert!(matches!(**left, Expr::InList { .. }), "Left side should be IN list");
            match &**right {
                Expr::Like { not, .. } => assert!(*not, "Right side should be NOT LIKE"),
                _ => panic!("Right side should be LIKE expression"),
            }
        },
        _ => panic!("WHERE clause should be Binary expression"),
    }
}

#[test]
fn translates_information_schema_and_case_insensitive_names() {
    let tr = PostgreSQLTranslator::new();
    assert_eq!(tr.map_table_name("PG_Tables"), "sqlite_master");
    assert_eq!(tr.map_table_name("information_schema.tables"), "sqlite_master");
    assert_eq!(tr.map_table_name("information_schema.columns"), "pragma_table_info");
    assert_eq!(tr.map_table_name("pg_class"), "pg_class");
    assert_eq!(tr.map_table_name("Users"), "Users");
    assert_eq!(table_name_for_lower("pg_tables", "PG_TABLES"), "sqlite_master");
    assert_eq!(table_name_for_lower("users", "USERS"), "USERS");
}

#[test]
fn translates_aliases_and_string_quotes() {
    // SELECT name AS n, 'it''s' FROM users u
    let p = parse_result(select_stmt(
        vec![named_target(column("name"), "n"), target(str_const("it's"))],
        vec![aliased_table("users", "u")],
        None,
    ));
    let select = translated_select(&p);
    let body = &select.body.select;
    match &body.columns[0] {
        ResultColumn::Expr(Expr::Id(name), Some(alias)) => {
            assert_eq!(name, "name");
            assert_eq!(alias, "n");
        },
        other => panic!("unexpected {other:?}"),
    }
    match &body.columns[1] {
        ResultColumn::Expr(Expr::Literal(Literal::String(s)), None) => assert_eq!(s, "'it''s'"),
        other => panic!("unexpected {other:?}"),
    }
    match &body.from {
        Some(f) => match &f.select {
            SelectTable::Table(name, alias) => {
                assert_eq!(name, "users");
                assert_eq!(alias.as_deref(), Some("u"));
            },
        },
        None => panic!("missing FROM"),
    }
}

#[test]
fn translates_constants_of_every_kind() {
    let p = parse_result(select_stmt(
        vec![
            target(PgNode::AConst(AConst { isnull: true, val: None })),
            target(PgNode::AConst(AConst { isnull: false, val: Some(AConstVal::Boolval(true)) })),
            target(PgNode::AConst(AConst { isnull: false, val: Some(AConstVal::Boolval(false)) })),
            target(int_const(-2147483648)),
        ],
        vec![],
        None,
    ));
    let select = translated_select(&p);
    let cols = &select.body.select.columns;
    assert!(matches!(cols[0], ResultColumn::Expr(Expr::Literal(Literal::Null), None)));
    assert!(matches!(&cols[1], ResultColumn::Expr(Expr::Literal(Literal::Numeric(n)), None) if n == "1"));
    assert!(matches!(&cols[2], ResultColumn::Expr(Expr::Literal(Literal::Numeric(n)), None) if n == "0"));
    assert!(matches!(&cols[3], ResultColumn::Expr(Expr::Literal(Literal::Numeric(n)), None) if n == "-2147483648"));
    assert!(select.body.select.from.is_none());
    let bits = parse_result(select_stmt(
        vec![target(PgNode::AConst(AConst { isnull: false, val: Some(AConstVal::Bsval("b101".to_string())) }))],
        vec![],
        None,
    ));
    assert_eq!(error_message(&bits), "Unsupported constant type");
    let empty = parse_result(select_stmt(vec![target(PgNode::AConst(AConst { isnull: false, val: None }))], vec![], None));
    assert_eq!(error_message(&empty), "Empty constant value");
}

#[test]
fn decimal_numerals() {
    assert_eq!(i32_to_decimal(0), "0");
    assert_eq!(i32_to_decimal(7), "7");
    assert_eq!(i32_to_decimal(1234567), "1234567");
    assert_eq!(i32_to_decimal(-45), "-45");
    assert_eq!(i32_to_decimal(i32::MAX), "2147483647");
    assert_eq!(i32_to_decimal(i32::MIN), "-2147483648");
}

#[test]
fn translates_operators_regexes_and_stubs() {
    let cases = vec![
        ("<>", Operator::NotEquals),
        ("!=", Operator::NotEquals),
        ("<=", Operator::LessEquals),
        (">=", Operator::GreaterEquals),
        ("<", Operator::Less),
        ("+", Operator::Add),
        ("-", Operator::Subtract),
        ("*", Operator::Multiply),
        ("/", Operator::Divide),
    ];
    for (name, expected) in cases {
        let p = parse_result(select_stmt(vec![target(op(name, column("a"), int_const(1)))], vec![], None));
        let select = translated_select(&p);
        match &select.body.select.columns[0] {
            ResultColumn::Expr(Expr::Binary(_, o, _), _) => assert_eq!(*o, expected),
            other => panic!("unexpected {other:?}"),
        }
    }
    // Schema-qualified operator: OPERATOR(pg_catalog.~) uses its last name part.
    let regex = PgNode::AExpr(Box::new(AExpr {
        kind: AExprKind::AexprOp,
        name: vec![string_node("pg_catalog"), string_node("~")],
        lexpr: Some(Box::new(column("relname"))),
        rexpr: Some(Box::new(str_const("^t"))),
    }));
    let select = translated_select(&parse_result(select_stmt(vec![target(regex)], vec![], None)));
    assert!(matches!(
        &select.body.select.columns[0],
        ResultColumn::Expr(Expr::Like { not: false, op: LikeOperator::Regexp, .. }, None)
    ));
    let not_regex = op("!~", column("relname"), str_const("^t"));
    let select = translated_select(&parse_result(select_stmt(vec![target(not_regex)], vec![], None)));
    assert!(matches!(
        &select.body.select.columns[0],
        ResultColumn::Expr(Expr::Like { not: true, op: LikeOperator::Regexp, .. }, None)
    ));
    // = ANY(array) is stubbed as 0.
    let any = a_expr(AExprKind::AexprOpAny, "=", column("a"), column("b"));
    let select = translated_select(&parse_result(select_stmt(vec![target(any)], vec![], None)));
    assert!(matches!(
        &select.body.select.columns[0],
        ResultColumn::Expr(Expr::Literal(Literal::Numeric(n)), None) if n == "0"
    ));
    // A subquery is stubbed as NULL; casts and collations are stripped.
    let select = translated_select(&parse_result(select_stmt(
        vec![
            target(PgNode::SubLink),
            target(PgNode::TypeCast(Some(Box::new(column("oid"))))),
            target(PgNode::CollateClause(Some(Box::new(column("relname"))))),
        ],
        vec![],
        None,
    )));
    let cols = &select.body.select.columns;
    assert!(matches!(cols[0], ResultColumn::Expr(Expr::Literal(Literal::Null), None)));
    assert!(matches!(&cols[1], ResultColumn::Expr(Expr::Id(n), None) if n == "oid"));
    assert!(matches!(&cols[2], ResultColumn::Expr(Expr::Id(n), None) if n == "relname"));
}

#[test]
fn translates_not_in_null_tests_and_not() {
    let not_in = in_list(column("a"), vec![int_const(1), int_const(2)], "<>");
    let is_null = PgNode::NullTest(Some(Box::new(column("a"))), NullTestType::IsNull);
    let is_not_null = PgNode::NullTest(Some(Box::new(column("a"))), NullTestType::IsNotNull);
    let not = bool_expr(BoolExprType::NotExpr, vec![column("flag")]);
    let select = translated_select(&parse_result(select_stmt(
        vec![target(not_in), target(is_null), target(is_not_null), target(not)],
        vec![],
        None,
    )));
    let cols = &select.body.select.columns;
    assert!(matches!(&cols[0], ResultColumn::Expr(Expr::InList { not: true, rhs, .. }, None) if rhs.len() == 2));
    assert!(matches!(&cols[1], ResultColumn::Expr(Expr::IsNull(_), None)));
    assert!(matches!(&cols[2], ResultColumn::Expr(Expr::NotNull(_), None)));
    assert!(matches!(&cols[3], ResultColumn::Expr(Expr::Unary(UnaryOperator::Not, _), None)));
}

#[test]
fn and_over_three_arguments_is_left_deep() {
    let p = parse_result(select_stmt(
        vec![star()],
        vec![table("t")],
        Some(bool_expr(BoolExprType::AndExpr, vec![column("a"), column("b"), column("c")])),
    ));
    let select = translated_select(&p);
    match &select.body.select.where_clause {
        Some(Expr::Binary(left, Operator::And, right)) => {
            assert!(matches!(&**right, Expr::Id(n) if n == "c"));
            match &**left {
                Expr::Binary(l, Operator::And, r) => {
                    assert!(matches!(&**l, Expr::Id(n) if n == "a"));
                    assert!(matches!(&**r, Expr::Id(n) if n == "b"));
                },
                other => panic!("unexpected {other:?}"),
            }
        },
        other => panic!("unexpected {other:?}"),
    }
}

#[test]
fn translates_function_calls_and_case() {
    let count_star = PgNode::FuncCall(Box::new(FuncCall {
        funcname: vec![string_node("count")],
        args: vec![],
        agg_star: true,
        agg_distinct: false,
    }));
    let distinct_call = PgNode::FuncCall(Box::new(FuncCall {
        funcname: vec![string_node("pg_catalog"), string_node("format_type")],
        args: vec![column("atttypid"), int_const(0)],
        agg_star: false,
        agg_distinct: true,
    }));
    let case = PgNode::CaseExpr(Box::new(CaseExpr {
        arg: None,
        args: vec![PgNode::CaseWhen(Box::new(CaseWhen {
            expr: Some(Box::new(op("=", column("relkind"), str_const("r")))),
            result: Some(Box::new(str_const("table"))),
        }))],
        defresult: Some(Box::new(str_const("other"))),
    }));
    let select = translated_select(&parse_result(select_stmt(
        vec![target(count_star), target(distinct_call), target(case)],
        vec![table("pg_class")],
        None,
    )));
    let cols = &select.body.select.columns;
    assert!(matches!(&cols[0], ResultColumn::Expr(Expr::FunctionCallStar { name }, None) if name == "count"));
    match &cols[1] {
        ResultColumn::Expr(Expr::FunctionCall { name, distinctness, args }, None) => {
            assert_eq!(name, "format_type");
            assert_eq!(*distinctness, Some(Distinctness::Distinct));
            assert_eq!(args.len(), 2);
        },
        other => panic!("unexpected {other:?}"),
    }
    match &cols[2] {
        ResultColumn::Expr(Expr::Case { base, when_then_pairs, else_expr }, None) => {
            assert!(base.is_none());
            assert_eq!(when_then_pairs.len(), 1);
            assert!(matches!(when_then_pairs[0].0, Expr::Binary(_, Operator::Equals, _)));
            assert!(else_expr.is_some());
        },
        other => panic!("unexpected {other:?}"),
    }
    let bad_case = PgNode::CaseExpr(Box::new(CaseExpr { arg: None, args: vec![column("x")], defresult: None }));
    assert_eq!(
        error_message(&parse_result(select_stmt(vec![target(bad_case)], vec![], None))),
        "Expected CaseWhen node in CASE expression"
    );
}

fn join(kind: PgJoinType, l: PgNode, r: PgNode, quals: Option<PgNode>) -> PgNode {
    PgNode::JoinExpr(Box::new(JoinExpr {
        jointype: kind,
        larg: Some(Box::new(l)),
        rarg: Some(Box::new(r)),
        quals: quals.map(Box::new),
    }))
}

#[test]
fn flattens_join_trees_and_comma_lists() {
    // FROM a JOIN b ON a.id = b.id LEFT JOIN c ON b.id = c.id, d
    let tree = join(
        PgJoinType::JoinLeft,
        join(PgJoinType::JoinInner, table("a"), table("b"), Some(op("=", qualified("a", "id"), qualified("b", "id")))),
        table("c"),
        Some(op("=", qualified("b", "id"), qualified("c", "id"))),
    );
    let p = parse_result(select_stmt(vec![star()], vec![tree, table("d")], None));
    let select = translated_select(&p);
    let from = select.body.select.from.expect("FROM");
    assert!(matches!(&from.select, SelectTable::Table(n, None) if n == "a"));
    assert_eq!(from.joins.len(), 3);
    assert!(matches!(&from.joins[0].table, SelectTable::Table(n, None) if n == "b"));
    assert_eq!(from.joins[0].operator, JoinOperator::TypedJoin(Some(JoinType::Inner)));
    assert!(from.joins[0].constraint.is_some());
    assert!(matches!(&from.joins[1].table, SelectTable::Table(n, None) if n == "c"));
    assert_eq!(from.joins[1].operator, JoinOperator::TypedJoin(Some(JoinType::LeftOuter)));
    assert!(matches!(&from.joins[2].table, SelectTable::Table(n, None) if n == "d"));
    assert_eq!(from.joins[2].operator, JoinOperator::Comma);
    assert!(from.joins[2].constraint.is_none());
    // FULL and RIGHT joins, and a join kind without an equivalent.
    let full = join(PgJoinType::JoinFull, table("a"), table("b"), None);
    let select = translated_select(&parse_result(select_stmt(vec![star()], vec![full], None)));
    let from = select.body.select.from.expect("FROM");
    assert_eq!(from.joins[0].operator, JoinOperator::TypedJoin(Some(JoinType::FullOuter)));
    let right = join(PgJoinType::JoinRight, table("a"), table("b"), None);
    let select = translated_select(&parse_result(select_stmt(vec![star()], vec![right], None)));
    assert_eq!(select.body.select.from.expect("FROM").joins[0].operator, JoinOperator::TypedJoin(Some(JoinType::RightOuter)));
    let semi = join(PgJoinType::JoinSemi, table("a"), table("b"), None);
    let select = translated_select(&parse_result(select_stmt(vec![star()], vec![semi], None)));
    assert_eq!(select.body.select.from.expect("FROM").joins[0].operator, JoinOperator::TypedJoin(None));
    // A missing side is an error.
    let missing = PgNode::JoinExpr(Box::new(JoinExpr {
        jointype: PgJoinType::JoinInner,
        larg: Some(Box::new(table("a"))),
        rarg: None,
        quals: None,
    }));
    assert_eq!(
        error_message(&parse_result(select_stmt(vec![star()], vec![missing], None))),
        "Missing right side of JOIN"
    );
}

fn leaf(name: &str) -> SelectStmt {
    select_stmt(vec![target(column("x"))], vec![table(name)], None)
}

fn set_op(op: SetOperation, all: bool, l: SelectStmt, r: SelectStmt) -> SelectStmt {
    SelectStmt {
        target_list: vec![],
        from_clause: vec![],
        where_clause: None,
        sort_clause: vec![PgNode::SortBy(Box::new(SortBy { node: Some(Box::new(column("x"))), sortby_dir: SortByDir::SortbyAsc }))],
        op,
        all,
        larg: Some(Box::new(l)),
        rarg: Some(Box::new(r)),
    }
}

#[test]
fn flattens_set_operations_and_drops_their_order_by() {
    // (a UNION ALL b) EXCEPT c
    let stmt = set_op(
        SetOperation::SetopExcept,
        false,
        set_op(SetOperation::SetopUnion, true, leaf("a"), leaf("b")),
        leaf("c"),
    );
    let select = translated_select(&parse_result(stmt));
    assert_eq!(table_name(&select.body.select.from), "a");
    assert_eq!(select.body.compounds.len(), 2);
    assert_eq!(select.body.compounds[0].operator, CompoundOperator::UnionAll);
    assert_eq!(table_name(&select.body.compounds[0].select.from), "b");
    assert_eq!(select.body.compounds[1].operator, CompoundOperator::Except);
    assert_eq!(table_name(&select.body.compounds[1].select.from), "c");
    assert!(select.order_by.is_empty());
    let stmt = set_op(SetOperation::SetopIntersect, false, leaf("a"), leaf("b"));
    let select = translated_select(&parse_result(stmt));
    assert_eq!(select.body.compounds[0].operator, CompoundOperator::Intersect);
    let stmt = set_op(SetOperation::SetopUnion, false, leaf("a"), leaf("b"));
    let select = translated_select(&parse_result(stmt));
    assert_eq!(select.body.compounds[0].operator, CompoundOperator::Union);
}

#[test]
fn translates_order_by() {
    let mut stmt = select_stmt(vec![star()], vec![table("t")], None);
    stmt.sort_clause = vec![
        PgNode::SortBy(Box::new(SortBy { node: Some(Box::new(column("a"))), sortby_dir: SortByDir::SortbyDesc })),
        PgNode::SortBy(Box::new(SortBy { node: Some(Box::new(column("b"))), sortby_dir: SortByDir::SortbyDefault })),
        PgNode::SortBy(Box::new(SortBy { node: Some(Box::new(column("c"))), sortby_dir: SortByDir::SortbyAsc })),
    ];
    let select = translated_select(&parse_result(stmt));
    assert_eq!(select.order_by.len(), 3);
    assert_eq!(select.order_by[0].order, Some(SortOrder::Desc));
    assert_eq!(select.order_by[1].order, None);
    assert_eq!(select.order_by[2].order, Some(SortOrder::Asc));
    let mut bad = select_stmt(vec![star()], vec![table("t")], None);
    bad.sort_clause = vec![column("a")];
    assert_eq!(error_message(&parse_result(bad)), "Unsupported ORDER BY clause item: ColumnRef");
}

#[test]
fn reports_each_error() {
    assert_eq!(error_message(&ParseResult { stmts: vec![] }), "No statements found");
    assert_eq!(error_message(&ParseResult { stmts: vec![PgNode::Empty] }), "No statements found");
    assert_eq!(error_message(&ParseResult { stmts: vec![PgNode::InsertStmt] }), "INSERT statements not yet supported");
    assert_eq!(error_message(&ParseResult { stmts: vec![PgNode::UpdateStmt] }), "UPDATE statements not yet supported");
    assert_eq!(error_message(&ParseResult { stmts: vec![PgNode::DeleteStmt] }), "DELETE statements not yet supported");
    assert_eq!(error_message(&ParseResult { stmts: vec![PgNode::CreateStmt] }), "CREATE statements not yet supported");
    assert_eq!(
        error_message(&ParseResult { stmts: vec![PgNode::Empty, PgNode::Other("VariableSetStmt".to_string())] }),
        "Unsupported statement type: VariableSetStmt"
    );
    assert_eq!(error_message(&parse_result(select_stmt(vec![], vec![table("t")], None))), "Empty target list");
    let modulo = op("%", column("a"), int_const(2));
    assert_eq!(error_message(&parse_result(select_stmt(vec![target(modulo)], vec![], None))), "Unsupported operator: %");
    let ilike = a_expr(AExprKind::AexprLike, "~~*", column("a"), str_const("x"));
    assert_eq!(error_message(&parse_result(select_stmt(vec![target(ilike)], vec![], None))), "Unsupported LIKE operator: ~~*");
    let between = a_expr(AExprKind::AexprBetween, "BETWEEN", column("a"), column("b"));
    assert_eq!(
        error_message(&parse_result(select_stmt(vec![target(between)], vec![], None))),
        "Unsupported AExpr kind: AexprBetween"
    );
    let bad_not = bool_expr(BoolExprType::NotExpr, vec![column("a"), column("b")]);
    assert_eq!(
        error_message(&parse_result(select_stmt(vec![target(bad_not)], vec![], None))),
        "NOT expression must have exactly 1 argument"
    );
    let short_and = bool_expr(BoolExprType::AndExpr, vec![column("a")]);
    assert_eq!(
        error_message(&parse_result(select_stmt(vec![target(short_and)], vec![], None))),
        "AND expression must have at least 2 arguments"
    );
    let no_args = bool_expr(BoolExprType::OrExpr, vec![]);
    assert_eq!(
        error_message(&parse_result(select_stmt(vec![target(no_args)], vec![], None))),
        "BoolExpr must have at least 1 argument"
    );
    assert_eq!(
        error_message(&parse_result(select_stmt(vec![target(PgNode::ColumnRef(vec![]))], vec![], None))),
        "Empty column reference"
    );
    assert_eq!(
        error_message(&parse_result(select_stmt(vec![target(op("+", PgNode::AStar, int_const(1)))], vec![], None))),
        "AStar should not be translated as expression"
    );
    let star_in_expr = op("=", PgNode::ColumnRef(vec![PgNode::AStar]), int_const(1));
    assert_eq!(
        error_message(&parse_result(select_stmt(vec![target(star_in_expr)], vec![], None))),
        "AStar should be handled in target list, not as expression"
    );
    assert_eq!(
        error_message(&parse_result(select_stmt(vec![column("a")], vec![], None))),
        "Unsupported target list item"
    );
    assert_eq!(
        error_message(&parse_result(select_stmt(vec![star()], vec![PgNode::SubLink], None))),
        "Unsupported FROM clause type: SubLink"
    );
    assert_eq!(
        error_message(&parse_result(select_stmt(vec![star()], vec![table("a"), PgNode::SubLink], None))),
        "Unsupported FROM item type: SubLink"
    );
    let in_without_list = a_expr(AExprKind::AexprIn, "=", column("a"), int_const(1));
    assert_eq!(
        error_message(&parse_result(select_stmt(vec![target(in_without_list)], vec![], None))),
        "Expected list for IN operator right side"
    );
    assert_eq!(
        error_message(&parse_result(select_stmt(vec![target(PgNode::List(vec![]))], vec![], None))),
        "Unsupported expression type: List"
    );
    // The first error in the SELECT list wins.
    let first = op("%", column("a"), int_const(2));
    let second = PgNode::AConst(AConst { isnull: false, val: None });
    assert_eq!(
        error_message(&parse_result(select_stmt(vec![target(first), target(second)], vec![], None))),
        "Unsupported operator: %"
    );
}

#[test]
fn entries_without_value_are_skipped() {
    let empty = PgNode::ResTarget(Box::new(ResTarget { name: "x".to_string(), val: None }));
    let select = translated_select(&parse_result(select_stmt(vec![empty, target(column("a"))], vec![], None)));
    assert_eq!(select.body.select.columns.len(), 1);
}

#[test]
fn maps_storage_types() {
    assert_eq!(map_postgresql_type("smallint"), "INTEGER");
    assert_eq!(map_postgresql_type("bigserial"), "INTEGER");
    assert_eq!(map_postgresql_type("numeric"), "REAL");
    assert_eq!(map_postgresql_type("double precision"), "REAL");
    assert_eq!(map_postgresql_type("bytea"), "BLOB");
    assert_eq!(map_postgresql_type("timestamptz"), "TEXT");
    assert_eq!(sqlite_type_for_upper("FLOAT8"), "REAL");
    assert_eq!(sqlite_type_for_upper("float8"), "TEXT");
}

#[test]
fn test_postgresql_parser_integration() {
    // SELECT * FROM test_table
    let parse_result = parse_result(select_stmt(vec![star()], vec![table("test_table")], None));
    let ast_result = PostgreSQLTranslator::new().translate(&parse_result);
    assert!(ast_result.is_ok(), "Translator should successfully convert PostgreSQL AST to Turso AST");
}

#[test]
fn test_postgresql_system_table_mapping() {
    // SELECT * FROM pg_tables
    let parse_result = parse_result(select_stmt(vec![star()], vec![table("pg_tables")], None));
    match PostgreSQLTranslator::new().translate(&parse_result) {
        Ok(_ast) => println!("pg_tables query parsed and translated successfully"),
        Err(ParseError::ParseError(e)) => println!("pg_tables translation failed (this may be expected): {}", e),
    }
}

#[test]
fn default_translator_behaves_like_a_new_one() {
    let a = PostgreSQLTranslator::default();
    let b = PostgreSQLTranslator::new();
    assert_eq!(a.map_table_name("Users"), b.map_table_name("Users"));
    assert_eq!(a.map_table_name("information_schema.tables"), b.map_table_name("information_schema.tables"));
}

#[test]
fn constants_translate_to_literals() {
    let c = |val: Option<AConstVal>| AConst { isnull: false, val };
    match translate_const(&c(Some(AConstVal::Sval("it's".to_string())))) {
        Ok(Expr::Literal(Literal::String(q))) => {
            assert_eq!(q, "'it''s'");
            assert_eq!(q[1..q.len() - 1].replace("''", "'"), "it's");
        },
        other => panic!("unexpected {other:?}"),
    }
    assert!(matches!(translate_const(&c(Some(AConstVal::Ival(-42)))), Ok(Expr::Literal(Literal::Numeric(n))) if n == "-42"));
    assert!(matches!(translate_const(&c(Some(AConstVal::Boolval(true)))), Ok(Expr::Literal(Literal::Numeric(n))) if n == "1"));
    assert!(matches!(translate_const(&c(Some(AConstVal::Boolval(false)))), Ok(Expr::Literal(Literal::Numeric(n))) if n == "0"));
    assert!(matches!(translate_const(&AConst { isnull: true, val: None }), Ok(Expr::Literal(Literal::Null))));
    assert!(matches!(translate_const(&c(None)), Err(ParseError::ParseError(m)) if m == "Empty constant value"));
}
