use turso_pg::catalog::{pg_catalog_virtual_tables, CatalogTable};
use turso_pg::catalog::{
    convert_to_postgres_ddl, get_sqlite_ddl, load_table_defs, pg_attribute_rows, pg_class_rows, pg_namespace_rows,
    sqlite_type_to_pg_oid, user_tables_sorted, PgAmTable, PgAttributeTable, PgClassTable, PgNamespaceTable,
    PgRolesTable, PUBLIC_NAMESPACE_OID, USER_TABLE_OID_START,
};
use turso_pg::schema::{BTreeTable, Column, Schema, Table, Type, Value};

fn text(v: &Value) -> String {
    match v {
        Value::Text(s) => s.clone(),
        other => panic!("expected text, got {other:?}"),
    }
}

fn int_of(v: &Value) -> i64 {
    match v {
        Value::Integer(i) => *i,
        other => panic!("expected integer, got {other:?}"),
    }
}

fn add_table(schema: &mut Schema, name: &str, root: i64, columns: Vec<Column>) {
    schema.add_table(name.to_string(), Table::BTree(BTreeTable::new(name.to_string(), root, columns)));
}

fn col(name: &str, ty: Type) -> Column {
    Column::new(name.to_string(), ty, false, None, false)
}

fn pk(name: &str, ty: Type) -> Column {
    Column::new(name.to_string(), ty, true, None, false)
}

fn three_tables() -> Schema {
    let mut schema = Schema::new();
    add_table(&mut schema, "users", 2, vec![pk("id", Type::Integer), col("name", Type::Text)]);
    add_table(&mut schema, "products", 3, vec![col("id", Type::Integer), col("title", Type::Text), col("price", Type::Real)]);
    add_table(
        &mut schema,
        "orders",
        4,
        vec![col("id", Type::Integer), col("user_id", Type::Integer), col("product_id", Type::Integer)],
    );
    schema
}

#[test]
fn test_pg_namespace_query() {
    let rows = pg_namespace_rows();
    let names: Vec<String> = rows.iter().map(|r| text(&r[1])).collect();
    assert!(names.contains(&"pg_catalog".to_string()), "pg_catalog namespace not found");
    assert!(names.contains(&"public".to_string()), "public namespace not found");
    assert!(names.contains(&"information_schema".to_string()), "information_schema namespace not found");
}

#[test]
fn test_pg_class_lists_user_tables() {
    let schema = three_tables();
    let rows = pg_class_rows(&schema);
    let tables: Vec<String> = rows
        .iter()
        .filter(|r| text(&r[16]) == "r" && int_of(&r[2]) == PUBLIC_NAMESPACE_OID)
        .map(|r| text(&r[1]))
        .collect();
    assert!(tables.contains(&"users".to_string()), "users table not found");
    assert!(tables.contains(&"products".to_string()), "products table not found");
    assert!(tables.contains(&"orders".to_string()), "orders table not found");
    assert_eq!(tables.len(), 3, "Expected exactly 3 tables");
}

#[test]
fn test_pg_class_table_details() {
    let mut schema = Schema::new();
    add_table(&mut schema, "test_table", 2, vec![col("id", Type::Integer), col("name", Type::Text), col("value", Type::Real)]);
    let rows = pg_class_rows(&schema);
    let row = rows.iter().find(|r| text(&r[1]) == "test_table").expect("test_table not found in pg_class");
    assert!(int_of(&row[0]) >= 16384, "OID should be >= 16384 for user tables");
    assert_eq!(text(&row[1]), "test_table", "Table name should match");
    assert_eq!(text(&row[16]), "r", "relkind should be 'r' for regular table");
    assert_eq!(int_of(&row[17]), 3, "Table should have 3 columns");
}

#[test]
fn test_pg_class_with_where_constraints() {
    let mut schema = Schema::new();
    add_table(&mut schema, "table1", 2, vec![col("id", Type::Integer)]);
    add_table(&mut schema, "table2", 3, vec![col("id", Type::Integer), col("name", Type::Text)]);
    add_table(&mut schema, "table3", 4, vec![col("id", Type::Integer), col("name", Type::Text), col("value", Type::Real)]);
    let rows = pg_class_rows(&schema);
    assert_eq!(rows.iter().filter(|r| text(&r[16]) == "r").count(), 3, "Should have 3 regular tables");
    assert_eq!(rows.iter().filter(|r| int_of(&r[2]) == 2200).count(), 3, "Should have 3 tables in public schema");
}

#[test]
fn pg_class_lists_tables_in_name_order_with_sequential_oids() {
    let mut schema = three_tables();
    add_table(&mut schema, "sqlite_schema", 1, vec![col("name", Type::Text)]);
    add_table(&mut schema, "json_each", 5, vec![col("value", Type::Text)]);
    add_table(&mut schema, "pg_shadow", 6, vec![col("x", Type::Text)]);
    schema.add_table("vt".to_string(), Table::Virtual("series".to_string()));
    let listing: Vec<String> = user_tables_sorted(&schema).iter().map(|(n, _)| (*n).clone()).collect();
    assert_eq!(listing, vec!["orders", "products", "users"]);
    let rows = pg_class_rows(&schema);
    let names: Vec<String> = rows.iter().map(|r| text(&r[1])).collect();
    assert_eq!(names, vec!["orders", "products", "users"]);
    let oids: Vec<i64> = rows.iter().map(|r| int_of(&r[0])).collect();
    assert_eq!(oids, vec![USER_TABLE_OID_START, USER_TABLE_OID_START + 1, USER_TABLE_OID_START + 2]);
}

#[test]
fn every_attribute_row_belongs_to_a_class_row() {
    let schema = three_tables();
    let classes = pg_class_rows(&schema);
    let attributes = pg_attribute_rows(&schema);
    assert_eq!(attributes.len(), 8);
    for a in &attributes {
        let owner = classes.iter().find(|c| int_of(&c[0]) == int_of(&a[0])).expect("attribute without table");
        assert!(int_of(&a[5]) >= 1 && int_of(&a[5]) <= int_of(&owner[17]));
    }
    // users(id, name) is listed last by name, so it has the third OID.
    let user_cols: Vec<String> =
        attributes.iter().filter(|a| int_of(&a[0]) == USER_TABLE_OID_START + 2).map(|a| text(&a[1])).collect();
    assert_eq!(user_cols, vec!["id", "name"]);
}

#[test]
fn attribute_types_follow_declared_types() {
    assert_eq!(sqlite_type_to_pg_oid("integer"), 23);
    assert_eq!(sqlite_type_to_pg_oid("TEXT"), 25);
    assert_eq!(sqlite_type_to_pg_oid("real"), 701);
    assert_eq!(sqlite_type_to_pg_oid("BLOB"), 17);
    assert_eq!(sqlite_type_to_pg_oid("decimal"), 1700);
    assert_eq!(sqlite_type_to_pg_oid("bool"), 16);
    assert_eq!(sqlite_type_to_pg_oid("geometry"), 25);
}

#[test]
fn catalog_tables_scan_through_cursors() {
    let schema = three_tables();
    let table = PgClassTable::new();
    assert_eq!(table.name(), "pg_class");
    let mut cursor = table.open();
    assert!(cursor.filter(&schema, &[], None, 0).unwrap());
    let mut names = vec![];
    loop {
        names.push(text(&cursor.column(1).unwrap()));
        if !cursor.next().unwrap() {
            break;
        }
    }
    assert_eq!(names, vec!["orders", "products", "users"]);

    let mut ns = PgNamespaceTable::new().open();
    assert!(ns.filter(&[], None, 0).unwrap());
    assert_eq!(int_of(&ns.column(0).unwrap()), 11);

    let mut attrs = PgAttributeTable::new().open();
    assert!(attrs.filter(&schema, &[], None, 0).unwrap());
    assert_eq!(text(&attrs.column(1).unwrap()), "id");

    let mut roles = PgRolesTable::new().open();
    assert!(roles.filter(&[], None, 0).unwrap());
    assert_eq!(text(&roles.column(1).unwrap()), "turso");

    let mut am = PgAmTable::new().open();
    assert!(am.filter(&[], None, 0).unwrap());
    assert_eq!(text(&am.column(1).unwrap()), "heap");
}

#[test]
fn table_definitions_use_postgres_spellings() {
    let schema = three_tables();
    assert_eq!(get_sqlite_ddl(&schema, "users"), "CREATE TABLE users (id INTEGER PRIMARY KEY, name TEXT)");
    assert_eq!(get_sqlite_ddl(&schema, "missing"), "CREATE TABLE missing (...)");
    assert_eq!(
        convert_to_postgres_ddl("CREATE TABLE users (id INTEGER PRIMARY KEY, name TEXT)"),
        "CREATE TABLE users (id SERIAL PRIMARY KEY, name text)"
    );
    assert_eq!(
        convert_to_postgres_ddl("CREATE TABLE t (a INTEGER PRIMARY KEY AUTOINCREMENT, b REAL, c BLOB, d DATETIME) WITHOUT ROWID"),
        "CREATE TABLE t (a SERIAL PRIMARY KEY, b double precision, c bytea, d timestamp)"
    );
    let defs = load_table_defs(&schema);
    assert_eq!(defs.len(), 3);
    assert_eq!(text(&defs[0][0]), "public");
    assert_eq!(text(&defs[0][1]), "users");
    assert_eq!(text(&defs[0][2]), "CREATE TABLE users (id SERIAL PRIMARY KEY, name text)");
    assert_eq!(text(&defs[1][2]), "CREATE TABLE products (id integer, title text, price double precision)");
}

#[test]
fn registers_every_catalog_table() {
    let tables = pg_catalog_virtual_tables();
    let names: Vec<&str> = tables.iter().map(|t| t.name.as_str()).collect();
    assert_eq!(&names[..6], &["pg_class", "pg_namespace", "pg_attribute", "pg_roles", "pg_am", "pg_get_tabledef"]);
    assert!(names.contains(&"pg_policy"));
    assert!(names.contains(&"pg_publication_rel"));
    assert!(matches!(tables[0].table, CatalogTable::Class(_)));
    assert!(matches!(tables[5].table, CatalogTable::GetTableDef(_)));
    for t in &tables[6..] {
        assert!(matches!(t.table, CatalogTable::Empty(_)));
        assert!(t.sql.starts_with(&format!("CREATE TABLE {}", t.name)));
    }
}

#[test]
fn attribute_rows_are_grouped_by_table_in_column_order() {
    let schema = three_tables();
    let classes = pg_class_rows(&schema);
    let attributes = pg_attribute_rows(&schema);
    let mut offset = 0;
    for class in &classes {
        let n = int_of(&class[17]) as usize;
        for j in 0..n {
            let a = &attributes[offset + j];
            assert_eq!(int_of(&a[0]), int_of(&class[0]));
            assert_eq!(int_of(&a[5]), (j + 1) as i64);
        }
        offset += n;
    }
    assert_eq!(offset, attributes.len());
}
