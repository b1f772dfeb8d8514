use tabulae::pagination::Fetcher;

#[test]
fn four_pages_with_short_tail() {
    // page sizes [N, N, N, k] with k < N: exactly 4 requests at offsets
    // [0, N, 2N, 3N], and the reported total is 3N + k
    let n = 10;
    let k = 4;
    let mut f = Fetcher::begin(Some(n));
    let mut offsets = Vec::new();
    for count in [n, n, n, k] {
        assert!(f.is_fetching());
        offsets.push(f.next_offset());
        f.on_page(count);
    }
    assert!(f.is_done());
    assert!(!f.is_fetching());
    assert_eq!(offsets, vec![0, 10, 20, 30]);
    assert_eq!(f.num_pages(), 4);
    assert_eq!(f.total_bindings(), 34);
}

#[test]
fn full_page_keeps_fetching() {
    let mut f = Fetcher::begin(Some(5));
    f.on_page(5);
    assert!(f.is_fetching());
    assert_eq!(f.next_offset(), 5);
}

#[test]
fn oversized_page_keeps_fetching() {
    let mut f = Fetcher::begin(Some(5));
    f.on_page(7);
    assert!(f.is_fetching());
    assert_eq!(f.next_offset(), 7);
}

#[test]
fn short_page_stops() {
    let mut f = Fetcher::begin(Some(5));
    f.on_page(5);
    f.on_page(3);
    assert!(f.is_done());
    assert_eq!(f.total_bindings(), 8);
    assert_eq!(f.num_pages(), 2);
}

#[test]
fn empty_page_stops() {
    let mut f = Fetcher::begin(Some(5));
    f.on_page(5);
    f.on_page(0);
    assert!(f.is_done());
    assert_eq!(f.total_bindings(), 5);
}

#[test]
fn without_pagination_a_single_page_completes() {
    let mut f = Fetcher::begin(None);
    assert!(f.is_fetching());
    assert_eq!(f.next_offset(), 0);
    f.on_page(1000);
    assert!(f.is_done());
    assert_eq!(f.total_bindings(), 1000);
    assert_eq!(f.num_pages(), 1);
}

#[test]
fn transport_error_aborts_with_the_body_verbatim() {
    let mut f = Fetcher::begin(Some(5));
    f.on_page(5);
    let e = f.on_transport_error(502, "upstream fell over".to_string());
    assert!(!f.is_fetching());
    assert!(!f.is_done());
    match e {
        tabulae::errors::BuildError::TransportError { status, body } => {
            assert_eq!(status, 502);
            assert_eq!(body, "upstream fell over");
        }
        other => panic!("unexpected error {:?}", other),
    }
}
