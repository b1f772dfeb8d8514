use tabulae::errors::BuildError;
use tabulae::sparql_query_metadata::extract_query_metadata;

#[test]
fn endpoint_and_paginate_extracted() {
    let q = "# endpoint: http://example.org/sparql\n# paginate: 100\nSELECT * WHERE { ?s ?p ?o }";
    let m = extract_query_metadata(q).unwrap();
    assert_eq!(m.endpoint, "http://example.org/sparql");
    assert_eq!(m.paginate, Some(100));
}

#[test]
fn endpoint_alone_leaves_paginate_unset() {
    let q = "# endpoint: http://example.org/sparql\nSELECT * WHERE { ?s ?p ?o }";
    let m = extract_query_metadata(q).unwrap();
    assert_eq!(m.endpoint, "http://example.org/sparql");
    assert_eq!(m.paginate, None);
}

#[test]
fn keys_match_case_insensitively() {
    let q = "# Endpoint: http://a/\n# PAGINATE: 7\nSELECT * WHERE { }";
    let m = extract_query_metadata(q).unwrap();
    assert_eq!(m.endpoint, "http://a/");
    assert_eq!(m.paginate, Some(7));
}

#[test]
fn later_directives_win() {
    let q = "# endpoint: http://first/\n# endpoint: http://second/\nSELECT * WHERE { }";
    let m = extract_query_metadata(q).unwrap();
    assert_eq!(m.endpoint, "http://second/");
}

#[test]
fn unrecognized_keys_are_ignored() {
    let q = "# author: someone\n# endpoint: http://a/\n# note: free text\nSELECT * WHERE { }";
    let m = extract_query_metadata(q).unwrap();
    assert_eq!(m.endpoint, "http://a/");
    assert_eq!(m.paginate, None);
}

#[test]
fn missing_endpoint_is_an_error() {
    let q = "# paginate: 10\nSELECT * WHERE { ?s ?p ?o }";
    let e = extract_query_metadata(q).unwrap_err();
    assert!(matches!(e, BuildError::MissingEndpoint));
}

#[test]
fn non_integer_page_size_is_an_error() {
    let q = "# endpoint: http://a/\n# paginate: lots\nSELECT * WHERE { }";
    let e = extract_query_metadata(q).unwrap_err();
    assert!(matches!(e, BuildError::InvalidPageSize));
}

#[test]
fn zero_page_size_is_an_error() {
    let q = "# endpoint: http://a/\n# paginate: 0\nSELECT * WHERE { }";
    let e = extract_query_metadata(q).unwrap_err();
    assert!(matches!(e, BuildError::InvalidPageSize));
}

#[test]
fn negative_page_size_is_an_error() {
    let q = "# endpoint: http://a/\n# paginate: -5\nSELECT * WHERE { }";
    let e = extract_query_metadata(q).unwrap_err();
    assert!(matches!(e, BuildError::InvalidPageSize));
}

#[test]
fn huge_page_size_is_an_error() {
    let q = "# endpoint: http://a/\n# paginate: 99999999999999999999999999\nSELECT * WHERE { }";
    let e = extract_query_metadata(q).unwrap_err();
    assert!(matches!(e, BuildError::InvalidPageSize));
}

#[test]
fn bad_page_size_reported_before_missing_endpoint() {
    let q = "# paginate: nope\nSELECT * WHERE { }";
    let e = extract_query_metadata(q).unwrap_err();
    assert!(matches!(e, BuildError::InvalidPageSize));
}

#[test]
fn plus_sign_page_size_accepted() {
    let q = "# endpoint: http://a/\n# paginate: +12\nSELECT * WHERE { }";
    let m = extract_query_metadata(q).unwrap();
    assert_eq!(m.paginate, Some(12));
}

#[test]
fn directive_lines_must_start_with_hash() {
    let q = "endpoint: http://a/\nSELECT * WHERE { }";
    let e = extract_query_metadata(q).unwrap_err();
    assert!(matches!(e, BuildError::MissingEndpoint));
}

#[test]
fn crlf_lines_are_handled() {
    let q = "# endpoint: http://a/\r\n# paginate: 3\r\nSELECT * WHERE { }";
    let m = extract_query_metadata(q).unwrap();
    assert_eq!(m.endpoint, "http://a/");
    assert_eq!(m.paginate, Some(3));
}
