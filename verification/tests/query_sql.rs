use specgraphen::query::sql::{
    column_access, looks_like_sql, parse_create_tables, table_access, SqlAccess, TableAccess,
};

#[test]
fn parses_create_table_with_comments() {
    let ddl = r#"
CREATE TABLE user (
    id BIGINT NOT NULL COMMENT 'Primary key',
    email VARCHAR(255) NOT NULL COMMENT 'Mail address',
    created_at TIMESTAMP,
    PRIMARY KEY (id)
);
"#;
    let tables = parse_create_tables(ddl);
    assert_eq!(tables.len(), 1);
    assert_eq!(tables[0].table_name, "user");
    assert_eq!(tables[0].columns.len(), 3);
    assert_eq!(tables[0].columns[0].column_name, "id");
    assert_eq!(tables[0].columns[0].sql_type, "BIGINT");
    assert_eq!(tables[0].columns[0].comment.as_deref(), Some("Primary key"));
    assert_eq!(tables[0].columns[2].comment, None);
}

#[test]
fn classifies_reads_and_writes() {
    let select = "SELECT id, email FROM user WHERE id = ?";
    assert_eq!(column_access(select, "email"), Some(SqlAccess::Read));
    assert_eq!(column_access(select, "id"), Some(SqlAccess::Read));

    let update = "UPDATE user SET email = ? WHERE id = ?";
    assert_eq!(column_access(update, "email"), Some(SqlAccess::Write));
    assert_eq!(column_access(update, "id"), Some(SqlAccess::Read));

    let insert = "INSERT INTO user (id, email) VALUES (?, ?)";
    assert_eq!(column_access(insert, "email"), Some(SqlAccess::Write));
}

#[test]
fn classifies_table_access() {
    assert_eq!(
        table_access("SELECT * FROM user WHERE id = ?", "user"),
        Some(TableAccess::Read)
    );
    assert_eq!(
        table_access("INSERT INTO user (id) VALUES (?)", "user"),
        Some(TableAccess::Create)
    );
    assert_eq!(
        table_access("UPDATE user SET email = ?", "user"),
        Some(TableAccess::Update)
    );
    assert_eq!(
        table_access("DELETE FROM user WHERE id = ?", "user"),
        Some(TableAccess::Delete)
    );
    assert_eq!(table_access("SELECT * FROM orders", "user"), None);
}

#[test]
fn respects_identifier_boundaries_and_non_sql_lines() {
    assert_eq!(
        column_access("SELECT valid FROM user", "id"),
        None,
        "id must not match inside valid"
    );
    assert_eq!(column_access("int id = compute();", "id"), None);
}

fn names_of(source: &str) -> Vec<(String, Vec<String>)> {
    parse_create_tables(source)
        .iter()
        .map(|t| {
            let columns = t.columns.iter().map(|c| format!("{} {}", c.column_name, c.sql_type)).collect();
            (t.table_name.clone(), columns)
        })
        .collect()
}

fn table(name: &str, columns: &[&str]) -> (String, Vec<String>) {
    (name.to_string(), columns.iter().map(|c| c.to_string()).collect())
}

#[test]
fn all_create_table_statements_are_parsed() {
    assert_eq!(
        names_of("CREATE TABLE a (id INT);\nCREATE TABLE b (\n  x INT\n);\n"),
        vec![table("a", &["id INT"]), table("b", &["x INT"])]
    );
    assert_eq!(
        names_of("create table if not exists `a` (id INT, name VARCHAR(20) COMMENT 'a, b (c)'); CREATE TABLE b (x INT);"),
        vec![table("a", &["id INT", "name VARCHAR(20)"]), table("b", &["x INT"])]
    );
    assert_eq!(
        names_of("DROP TABLE a; CREATE TABLE a LIKE z;\nCREATE TABLE b (x INT, -- one, two three\n  y INT);\n"),
        vec![table("a", &[]), table("b", &["x INT", "y INT"])]
    );
    assert_eq!(
        names_of("CREATE TABLE a\n(\n  id INT, n INT,\n  KEY k (id,\n    n DESC),\n  z INT\n) ENGINE=x; CREATE TABLE b (\n y INT"),
        vec![table("a", &["id INT", "n INT", "z INT"]), table("b", &["y INT"])]
    );
    assert_eq!(names_of("INSERT INTO t VALUES ('x; CREATE TABLE b (y INT)');"), vec![]);
}

#[test]
fn a_table_is_accessed_where_it_stands_behind_a_keyword() {
    assert_eq!(table_access("SELECT user.id FROM user", "user"), Some(TableAccess::Read));
    assert_eq!(table_access("user SELECT 1", "user"), None);
    assert_eq!(table_access("SELECT user.id FROM orders", "user"), None);
}

#[test]
fn a_column_is_written_where_it_is_set() {
    assert_eq!(column_access("UPDATE id SET id = 1", "id"), Some(SqlAccess::Write));
    assert_eq!(column_access("UPDATE id SET x = 1 WHERE id = 2", "id"), Some(SqlAccess::Read));
}

#[test]
fn sql_is_told_by_its_keywords() {
    assert!(looks_like_sql("\"select * from user\""));
    assert!(!looks_like_sql("selection = fromage;"));
}
