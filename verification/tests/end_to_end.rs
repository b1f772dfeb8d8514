use tabulae::pagination::Fetcher;
use tabulae::sparql_query_metadata::extract_query_metadata;
use tabulae::sparql_query_modifier::rewrite_query_limit_offset;
use tabulae::sparql_result_to_duckdb::{
    find_consistent_types, num_bindings, read_json_columns_struct, row_to_json, Binding, Head,
    Results, SparqlResults, Value,
};

fn text_term(value: &str) -> Value {
    Value {
        value_type: "literal".to_string(),
        xml_lang: None,
        datatype: None,
        value: value.to_string(),
    }
}

fn id_page(ids: &[&str]) -> SparqlResults {
    SparqlResults {
        head: Head { vars: vec!["id".to_string()] },
        results: Results {
            bindings: ids
                .iter()
                .map(|v| Binding { values: vec![("id".to_string(), text_term(v))] })
                .collect(),
        },
    }
}

#[test]
fn paginated_build_of_three_rows() {
    // the query declares its endpoint and a page size of 2; the endpoint
    // answers two bindings, then one: two requests at offsets [0, 2],
    // three bindings in total, and one text-typed column `id`
    let query = "# endpoint: http://example/sparql\n# paginate: 2\nSELECT ?id WHERE { ?id ?p ?o }";

    let meta = extract_query_metadata(query).unwrap();
    assert_eq!(meta.endpoint, "http://example/sparql");
    assert_eq!(meta.paginate, Some(2));

    let mock_responses = [id_page(&["1", "2"]), id_page(&["3"])];
    let page_size = meta.paginate.unwrap();

    let mut fetcher = Fetcher::begin(meta.paginate);
    let mut offsets = Vec::new();
    let mut pages: Vec<SparqlResults> = Vec::new();
    let mut served = mock_responses.into_iter();
    while fetcher.is_fetching() {
        let offset = fetcher.next_offset();
        offsets.push(offset);
        let page_query = rewrite_query_limit_offset(query, page_size, offset)
            .unwrap()
            .to_string();
        assert!(page_query.contains("LIMIT 2"), "{}", page_query);
        if offset > 0 {
            assert!(page_query.contains(&format!("OFFSET {}", offset)), "{}", page_query);
        }
        let response = served.next().expect("no request expected past the short page");
        let count = num_bindings(&response);
        pages.push(response);
        fetcher.on_page(count);
    }

    assert!(fetcher.is_done());
    assert_eq!(offsets, vec![0, 2]);
    assert_eq!(fetcher.num_pages(), 2);
    assert_eq!(fetcher.total_bindings(), 3);

    let types = find_consistent_types(&pages);
    assert!(types.iter().all(|(k, _)| k != "id"));

    let vars = pages.last().unwrap().head.vars.clone();
    let columns = read_json_columns_struct(&vars, &types);
    assert_eq!(columns, "{'id': 'VARCHAR'}");

    let rows: Vec<String> = pages
        .iter()
        .flat_map(|p| p.results.bindings.iter().map(row_to_json))
        .collect();
    assert_eq!(
        rows,
        vec![
            "{\"id\":\"1\"}".to_string(),
            "{\"id\":\"2\"}".to_string(),
            "{\"id\":\"3\"}".to_string(),
        ]
    );
}
