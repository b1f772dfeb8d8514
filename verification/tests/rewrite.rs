use tabulae::errors::BuildError;
use tabulae::sparql_query_modifier::rewrite_query_limit_offset;

#[test]
fn author_limit_and_offset_are_superseded() {
    // whatever slice the author wrote, the rewritten query requests a
    // bounded slice of the page length at the given offset
    let q = "SELECT ?s WHERE { ?s ?p ?o } LIMIT 7 OFFSET 3";
    let out = rewrite_query_limit_offset(q, 20, 40).unwrap().to_string();
    assert!(out.contains("LIMIT 20"), "{}", out);
    assert!(out.contains("OFFSET 40"), "{}", out);
    assert!(!out.contains("LIMIT 7"), "{}", out);
    assert!(!out.contains("OFFSET 3 "), "{}", out);
}

#[test]
fn plain_projection_is_wrapped_in_a_slice() {
    let q = "SELECT ?s WHERE { ?s ?p ?o }";
    let out = rewrite_query_limit_offset(q, 5, 10).unwrap().to_string();
    assert!(out.contains("LIMIT 5"), "{}", out);
    assert!(out.contains("OFFSET 10"), "{}", out);
}

#[test]
fn distinct_is_wrapped_in_a_slice() {
    let q = "SELECT DISTINCT ?s WHERE { ?s ?p ?o }";
    let out = rewrite_query_limit_offset(q, 5, 10).unwrap().to_string();
    assert!(out.contains("DISTINCT"), "{}", out);
    assert!(out.contains("LIMIT 5"), "{}", out);
    assert!(out.contains("OFFSET 10"), "{}", out);
}

#[test]
fn offset_zero_requests_the_first_page() {
    let q = "SELECT ?s WHERE { ?s ?p ?o }";
    let out = rewrite_query_limit_offset(q, 5, 0).unwrap().to_string();
    assert!(out.contains("LIMIT 5"), "{}", out);
    assert!(!out.contains("OFFSET"), "{}", out);
}

#[test]
fn construct_query_is_rejected_before_any_request() {
    let q = "CONSTRUCT { ?s ?p ?o } WHERE { ?s ?p ?o }";
    let e = rewrite_query_limit_offset(q, 5, 0).unwrap_err();
    assert!(matches!(e, BuildError::UnsupportedQueryShape));
}

#[test]
fn ask_query_is_rejected() {
    let q = "ASK { ?s ?p ?o }";
    let e = rewrite_query_limit_offset(q, 5, 0).unwrap_err();
    assert!(matches!(e, BuildError::UnsupportedQueryShape));
}

#[test]
fn unparsable_text_is_a_parse_error() {
    let q = "THIS IS NOT SPARQL";
    let e = rewrite_query_limit_offset(q, 5, 0).unwrap_err();
    assert!(matches!(e, BuildError::QueryParseError(_)));
}

#[test]
fn rewriting_is_deterministic() {
    let q = "SELECT ?s WHERE { ?s ?p ?o } LIMIT 7";
    let a = rewrite_query_limit_offset(q, 9, 18).unwrap().to_string();
    let b = rewrite_query_limit_offset(q, 9, 18).unwrap().to_string();
    assert_eq!(a, b);
}
