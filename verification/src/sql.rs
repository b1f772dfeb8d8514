//! The SQL statements the pipeline hands to its storage engine, built from
//! escaped identifiers and literals.
use vstd::prelude::*;
use crate::duckdb_util::{escape_sql_identifier, escape_sql_literal, quoted};
use vstd::string::StringExecFns;

verus! {

/// The statement that materializes a table from the spilled row objects,
/// fully replacing any prior table of the same name.
pub fn load_table_sql(base_name: &str, jsons_path: &str, columns: &str) -> (r: String)
    ensures
        r@ == "CREATE OR REPLACE TABLE "@ + quoted(base_name@, '"')
            + " AS FROM read_json("@ + quoted(jsons_path@, '\'') + ", columns = "@
            + columns@ + ")"@,
{
    let mut s = String::new();
    StringExecFns::append(&mut s, "CREATE OR REPLACE TABLE ");
    let i = escape_sql_identifier(base_name);
    StringExecFns::append(&mut s, i.as_str());
    StringExecFns::append(&mut s, " AS FROM read_json(");
    let p = escape_sql_literal(jsons_path);
    StringExecFns::append(&mut s, p.as_str());
    StringExecFns::append(&mut s, ", columns = ");
    StringExecFns::append(&mut s, columns);
    StringExecFns::append(&mut s, ")");
    proof {
        assert(s@ =~= "CREATE OR REPLACE TABLE "@ + quoted(base_name@, '"')
            + " AS FROM read_json("@ + quoted(jsons_path@, '\'') + ", columns = "@
            + columns@ + ")"@);
    }
    s
}

/// The statement that attaches the original query text to a table as a
/// comment, so that it can be recovered later.
pub fn comment_on_table_sql(collection: &str, name: &str, query: &str) -> (r: String)
    ensures
        r@ == "COMMENT ON TABLE "@ + collection@ + "."@ + quoted(name@, '"') + " IS "@
            + quoted(query@, '\''),
{
    let mut s = String::new();
    StringExecFns::append(&mut s, "COMMENT ON TABLE ");
    StringExecFns::append(&mut s, collection);
    StringExecFns::append(&mut s, ".");
    let i = escape_sql_identifier(name);
    StringExecFns::append(&mut s, i.as_str());
    StringExecFns::append(&mut s, " IS ");
    let q = escape_sql_literal(query);
    StringExecFns::append(&mut s, q.as_str());
    proof {
        assert(s@ =~= "COMMENT ON TABLE "@ + collection@ + "."@ + quoted(name@, '"') + " IS "@
            + quoted(query@, '\''));
    }
    s
}

/// The statement that drops the materialized table of a deleted query.
pub fn drop_table_sql(name: &str) -> (r: String)
    ensures
        r@ == "DROP TABLE IF EXISTS "@ + quoted(name@, '"'),
{
    let mut s = String::new();
    StringExecFns::append(&mut s, "DROP TABLE IF EXISTS ");
    let i = escape_sql_identifier(name);
    StringExecFns::append(&mut s, i.as_str());
    proof {
        assert(s@ =~= "DROP TABLE IF EXISTS "@ + quoted(name@, '"'));
    }
    s
}

/// The statement that exports one relation to a file in the given format.
pub fn export_copy_sql(database: &str, relation: &str, dest_path: &str, format: &str) -> (r:
    String)
    ensures
        r@ == "COPY (FROM "@ + quoted(database@, '"') + "."@ + quoted(relation@, '"') + ") TO "@
            + quoted(dest_path@, '"') + " ("@ + format@ + ")"@,
{
    let mut s = String::new();
    StringExecFns::append(&mut s, "COPY (FROM ");
    let d = escape_sql_identifier(database);
    StringExecFns::append(&mut s, d.as_str());
    StringExecFns::append(&mut s, ".");
    let rel = escape_sql_identifier(relation);
    StringExecFns::append(&mut s, rel.as_str());
    StringExecFns::append(&mut s, ") TO ");
    let p = escape_sql_identifier(dest_path);
    StringExecFns::append(&mut s, p.as_str());
    StringExecFns::append(&mut s, " (");
    StringExecFns::append(&mut s, format);
    StringExecFns::append(&mut s, ")");
    proof {
        assert(s@ =~= "COPY (FROM "@ + quoted(database@, '"') + "."@ + quoted(relation@, '"')
            + ") TO "@ + quoted(dest_path@, '"') + " ("@ + format@ + ")"@);
    }
    s
}

/// The statement that builds one derived table from its transform query.
pub fn layer2_create_table_sql(name: &str, base_query: &str) -> (r: String)
    ensures
        r@ == "CREATE TABLE layer2."@ + quoted(name@, '"') + " AS "@ + base_query@,
{
    let mut s = String::new();
    StringExecFns::append(&mut s, "CREATE TABLE layer2.");
    let i = escape_sql_identifier(name);
    StringExecFns::append(&mut s, i.as_str());
    StringExecFns::append(&mut s, " AS ");
    StringExecFns::append(&mut s, base_query);
    proof {
        assert(s@ =~= "CREATE TABLE layer2."@ + quoted(name@, '"') + " AS "@ + base_query@);
    }
    s
}

/// The statement that attaches an existing database file read-only.
pub fn attach_readonly_sql(path: &str) -> (r: String)
    ensures
        r@ == "ATTACH "@ + quoted(path@, '\'') + " (READ_ONLY)"@,
{
    let mut s = String::new();
    StringExecFns::append(&mut s, "ATTACH ");
    let p = escape_sql_literal(path);
    StringExecFns::append(&mut s, p.as_str());
    StringExecFns::append(&mut s, " (READ_ONLY)");
    proof {
        assert(s@ =~= "ATTACH "@ + quoted(path@, '\'') + " (READ_ONLY)"@);
    }
    s
}

} // verus!
