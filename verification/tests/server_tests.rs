use turso_pg::server::{command_tag, command_tag_for_upper, pg_type_for_upper, sqlite_type_to_pg_type, PgType};

#[test]
fn command_tags_report_row_counts_for_dml() {
    let t = command_tag("  insert into t values (1)", 3);
    assert_eq!(t.command, "INSERT");
    assert_eq!(t.oid, Some(0));
    assert_eq!(t.rows, Some(3));
    let t = command_tag("UPDATE t SET a = 1", 2);
    assert_eq!((t.command.as_str(), t.oid, t.rows), ("UPDATE", None, Some(2)));
    let t = command_tag("\tdelete from t", 0);
    assert_eq!((t.command.as_str(), t.oid, t.rows), ("DELETE", None, Some(0)));
}

#[test]
fn command_tags_for_ddl_and_others() {
    assert_eq!(command_tag("create index i on t(a)", 0).command, "CREATE TABLE");
    assert_eq!(command_tag("DROP TABLE t", 0).command, "DROP TABLE");
    assert_eq!(command_tag("alter table t add b", 0).command, "ALTER TABLE");
    let t = command_tag("BEGIN", 5);
    assert_eq!((t.command.as_str(), t.oid, t.rows), ("OK", None, None));
    assert_eq!(command_tag_for_upper("insert", 1).command, "OK");
    assert_eq!(command_tag_for_upper("INSERTION", 1).command, "INSERT");
}

#[test]
fn column_types_on_the_wire() {
    assert_eq!(sqlite_type_to_pg_type("integer"), PgType::Int8);
    assert_eq!(sqlite_type_to_pg_type("Double Precision"), PgType::Float8);
    assert_eq!(sqlite_type_to_pg_type("varchar"), PgType::Text);
    assert_eq!(sqlite_type_to_pg_type("bytea"), PgType::Bytea);
    assert_eq!(sqlite_type_to_pg_type("BOOL"), PgType::Bool);
    assert_eq!(sqlite_type_to_pg_type("VARCHAR(20)"), PgType::Text);
    assert_eq!(pg_type_for_upper("int"), PgType::Text);
    assert_eq!(PgType::Int8.oid(), 20);
    assert_eq!(PgType::Float8.oid(), 701);
    assert_eq!(PgType::Text.oid(), 25);
    assert_eq!(PgType::Bytea.oid(), 17);
    assert_eq!(PgType::Bool.oid(), 16);
}

#[test]
fn command_tags_ignore_unicode_white_space_around_the_query() {
    let t = command_tag("\u{3000}\u{a0}create table t (a)\u{2028} ", 0);
    assert_eq!(t.command, "CREATE TABLE");
    let t = command_tag("\u{85}drop table t", 0);
    assert_eq!(t.command, "DROP TABLE");
}
