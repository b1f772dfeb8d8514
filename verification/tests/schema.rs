use tabulae::sparql_result_to_duckdb::{
    find_consistent_types, num_bindings, read_json_columns_struct, row_to_json,
    xsd_type_to_duckdb_type, Binding, Head, Results, SparqlResults, Value,
};

const XSD_INTEGER: &str = "http://www.w3.org/2001/XMLSchema#integer";
const XSD_DOUBLE: &str = "http://www.w3.org/2001/XMLSchema#double";
const XSD_BOOLEAN: &str = "http://www.w3.org/2001/XMLSchema#boolean";
const XSD_DECIMAL: &str = "http://www.w3.org/2001/XMLSchema#decimal";

fn term(value: &str, datatype: Option<&str>) -> Value {
    Value {
        value_type: "literal".to_string(),
        xml_lang: None,
        datatype: datatype.map(|d| d.to_string()),
        value: value.to_string(),
    }
}

fn page(vars: &[&str], rows: &[&[(&str, Value)]]) -> SparqlResults {
    SparqlResults {
        head: Head { vars: vars.iter().map(|v| v.to_string()).collect() },
        results: Results {
            bindings: rows
                .iter()
                .map(|row| Binding {
                    values: row
                        .iter()
                        .map(|(k, v)| {
                            (k.to_string(), term(&v.value, v.datatype.as_deref()))
                        })
                        .collect(),
                })
                .collect(),
        },
    }
}

fn lookup<'a>(types: &'a [(String, String)], var: &str) -> Option<&'a str> {
    types.iter().find(|(k, _)| k == var).map(|(_, v)| v.as_str())
}

#[test]
fn same_datatype_across_pages_stays_typed() {
    let p1 = page(&["x"], &[&[("x", term("1", Some(XSD_INTEGER)))]]);
    let p2 = page(&["x"], &[&[("x", term("2", Some(XSD_INTEGER)))]]);
    let types = find_consistent_types(&vec![p1, p2]);
    assert_eq!(lookup(&types, "x"), Some(XSD_INTEGER));
    assert_eq!(xsd_type_to_duckdb_type(lookup(&types, "x").unwrap()), "INT64");
}

#[test]
fn conflicting_datatypes_fall_back_to_text() {
    let p1 = page(&["x"], &[&[("x", term("1", Some(XSD_INTEGER)))]]);
    let p2 = page(&["x"], &[&[("x", term("2.5", Some(XSD_DOUBLE)))]]);
    let types = find_consistent_types(&vec![p1, p2]);
    assert_eq!(lookup(&types, "x"), None);
}

#[test]
fn undeclared_datatype_does_not_disturb_a_consistent_one() {
    let p1 = page(&["x"], &[&[("x", term("1", Some(XSD_BOOLEAN)))]]);
    let p2 = page(&["x"], &[&[("x", term("plain", None))]]);
    let types = find_consistent_types(&vec![p1, p2]);
    assert_eq!(lookup(&types, "x"), Some(XSD_BOOLEAN));
}

#[test]
fn never_declared_variable_is_absent() {
    let p1 = page(&["x"], &[&[("x", term("a", None))], &[("x", term("b", None))]]);
    let types = find_consistent_types(&vec![p1]);
    assert_eq!(lookup(&types, "x"), None);
}

#[test]
fn variables_are_tracked_independently() {
    let p1 = page(
        &["x", "y"],
        &[&[
            ("x", term("1", Some(XSD_INTEGER))),
            ("y", term("2.0", Some(XSD_DOUBLE))),
        ]],
    );
    let p2 = page(
        &["x", "y"],
        &[&[
            ("x", term("3", Some(XSD_INTEGER))),
            ("y", term("t", Some(XSD_BOOLEAN))),
        ]],
    );
    let types = find_consistent_types(&vec![p1, p2]);
    assert_eq!(lookup(&types, "x"), Some(XSD_INTEGER));
    assert_eq!(lookup(&types, "y"), None);
}

#[test]
fn unknown_datatypes_map_to_varchar() {
    assert_eq!(xsd_type_to_duckdb_type(XSD_DECIMAL), "VARCHAR");
    assert_eq!(xsd_type_to_duckdb_type(XSD_DOUBLE), "DOUBLE");
    assert_eq!(xsd_type_to_duckdb_type(XSD_BOOLEAN), "BOOLEAN");
    assert_eq!(xsd_type_to_duckdb_type("anything else"), "VARCHAR");
}

#[test]
fn columns_struct_renders_each_declared_variable() {
    let vars = vec!["id".to_string(), "name".to_string()];
    let types = vec![("id".to_string(), XSD_INTEGER.to_string())];
    let s = read_json_columns_struct(&vars, &types);
    assert_eq!(s, "{'id': 'INT64', 'name': 'VARCHAR'}");
}

#[test]
fn columns_struct_of_no_variables_is_empty() {
    let s = read_json_columns_struct(&Vec::new(), &Vec::new());
    assert_eq!(s, "{}");
}

#[test]
fn row_json_carries_values_as_text() {
    let b = Binding {
        values: vec![
            ("id".to_string(), term("1", Some(XSD_INTEGER))),
            ("name".to_string(), term("Ada", None)),
        ],
    };
    assert_eq!(row_to_json(&b), "{\"id\":\"1\",\"name\":\"Ada\"}");
}

#[test]
fn row_json_escapes_special_characters() {
    let b = Binding {
        values: vec![("t".to_string(), term("a\"b\\c\nd\te\u{1}f", None))],
    };
    assert_eq!(row_to_json(&b), "{\"t\":\"a\\\"b\\\\c\\nd\\te\\u0001f\"}");
}

#[test]
fn binding_count_is_the_page_length() {
    let p = page(&["x"], &[&[("x", term("a", None))], &[("x", term("b", None))]]);
    assert_eq!(num_bindings(&p), 2);
}

#[test]
fn columns_follow_the_most_recent_header() {
    let p1 = page(&["x", "y"], &[&[("x", term("a", None))]]);
    let p2 = page(&["x"], &[&[("x", term("b", None))]]);
    let vars = tabulae::sparql_result_to_duckdb::header_vars(&vec![p1, p2]);
    assert_eq!(vars, vec!["x".to_string()]);
}

#[test]
fn no_pages_declare_no_columns() {
    let vars = tabulae::sparql_result_to_duckdb::header_vars(&Vec::new());
    assert!(vars.is_empty());
}
