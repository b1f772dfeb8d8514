use tabulae::duckdb_util::{escape_sql_identifier, escape_sql_literal};
use tabulae::sql::{
    attach_readonly_sql, comment_on_table_sql, drop_table_sql, export_copy_sql,
    layer2_create_table_sql, load_table_sql,
};
use tabulae::Args;

#[test]
fn identifiers_are_double_quoted_and_doubled() {
    assert_eq!(escape_sql_identifier("plain"), "\"plain\"");
    assert_eq!(escape_sql_identifier("a\"b"), "\"a\"\"b\"");
    assert_eq!(escape_sql_identifier(""), "\"\"");
}

#[test]
fn literals_are_single_quoted_and_doubled() {
    assert_eq!(escape_sql_literal("plain"), "'plain'");
    assert_eq!(escape_sql_literal("it's"), "'it''s'");
    assert_eq!(escape_sql_literal(""), "''");
}

#[test]
fn load_statement_is_rendered_exactly() {
    let s = load_table_sql("people", "/tmp/rows.json", "{'id': 'INT64'}");
    assert_eq!(
        s,
        "CREATE OR REPLACE TABLE \"people\" AS FROM read_json('/tmp/rows.json', columns = {'id': 'INT64'})"
    );
}

#[test]
fn comment_statement_is_rendered_exactly() {
    let s = comment_on_table_sql("layer1", "people", "SELECT 'x'");
    assert_eq!(s, "COMMENT ON TABLE layer1.\"people\" IS 'SELECT ''x'''");
}

#[test]
fn drop_statement_is_rendered_exactly() {
    assert_eq!(drop_table_sql("old"), "DROP TABLE IF EXISTS \"old\"");
}

#[test]
fn export_statement_is_rendered_exactly() {
    let s = export_copy_sql("layer1", "people", "dist/people.csv", "FORMAT CSV");
    assert_eq!(
        s,
        "COPY (FROM \"layer1\".\"people\") TO \"dist/people.csv\" (FORMAT CSV)"
    );
}

#[test]
fn layer2_statement_is_rendered_exactly() {
    let s = layer2_create_table_sql("summary", "SELECT count(*) FROM people");
    assert_eq!(
        s,
        "CREATE TABLE layer2.\"summary\" AS SELECT count(*) FROM people"
    );
}

#[test]
fn attach_statement_is_rendered_exactly() {
    assert_eq!(
        attach_readonly_sql("dist/layer1.duckdb"),
        "ATTACH 'dist/layer1.duckdb' (READ_ONLY)"
    );
}

#[test]
fn query_directories_hang_off_the_queries_dir() {
    let args = Args::new("queries".to_string(), "dist".to_string());
    assert_eq!(args.layer1_queries_dir(), "queries/layer1");
    assert_eq!(args.layer2_queries_dir(), "queries/layer2");
}
