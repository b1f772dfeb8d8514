use tabulae::catalog::Catalog;

fn catalog_with(entries: &[(&str, i64)]) -> Catalog {
    let mut c = Catalog::new();
    for (name, mtime) in entries {
        c.record_success(name.to_string(), format!("query of {}", name), *mtime);
    }
    c
}

#[test]
fn rebuild_true_when_nothing_stored() {
    let c = Catalog::new();
    assert!(c.should_rebuild("q", 100, false));
}

#[test]
fn rebuild_true_when_stored_is_older() {
    let c = catalog_with(&[("q", 50)]);
    assert!(c.should_rebuild("q", 100, false));
}

#[test]
fn rebuild_false_when_stored_is_as_new() {
    let c = catalog_with(&[("q", 100)]);
    assert!(!c.should_rebuild("q", 100, false));
}

#[test]
fn rebuild_false_when_stored_is_newer() {
    let c = catalog_with(&[("q", 150)]);
    assert!(!c.should_rebuild("q", 100, false));
}

#[test]
fn force_always_rebuilds() {
    let c = catalog_with(&[("q", 150)]);
    assert!(c.should_rebuild("q", 100, true));
}

#[test]
fn record_success_upserts() {
    let mut c = catalog_with(&[("q", 50)]);
    c.record_success("q".to_string(), "updated".to_string(), 200);
    assert_eq!(c.get_mtime("q"), Some(200));
    assert_eq!(c.all_query_names().len(), 1);
}

#[test]
fn get_mtime_of_unknown_name_is_none() {
    let c = catalog_with(&[("q", 50)]);
    assert_eq!(c.get_mtime("other"), None);
}

#[test]
fn delete_removes_the_entry() {
    let mut c = catalog_with(&[("a", 1), ("b", 2)]);
    c.delete("a");
    assert_eq!(c.get_mtime("a"), None);
    assert_eq!(c.get_mtime("b"), Some(2));
}

#[test]
fn reconcile_deletes_exactly_the_missing_entry() {
    // stored {a, b, c}, on disk {a, c}: exactly b is deleted, and exactly
    // one cleanup signal for b is emitted
    let mut c = catalog_with(&[("a", 1), ("b", 2), ("c", 3)]);
    let on_disk = vec!["a".to_string(), "c".to_string()];
    let removed = c.reconcile_deleted(&on_disk);
    assert_eq!(removed, vec!["b".to_string()]);
    assert_eq!(c.get_mtime("a"), Some(1));
    assert_eq!(c.get_mtime("b"), None);
    assert_eq!(c.get_mtime("c"), Some(3));
    assert_eq!(c.all_query_names(), vec!["a".to_string(), "c".to_string()]);
}

#[test]
fn reconcile_with_everything_on_disk_removes_nothing() {
    let mut c = catalog_with(&[("a", 1), ("b", 2)]);
    let on_disk = vec!["b".to_string(), "a".to_string()];
    let removed = c.reconcile_deleted(&on_disk);
    assert!(removed.is_empty());
    assert_eq!(c.all_query_names().len(), 2);
}

#[test]
fn reconcile_with_empty_disk_removes_everything() {
    let mut c = catalog_with(&[("a", 1), ("b", 2)]);
    let removed = c.reconcile_deleted(&Vec::new());
    assert_eq!(removed, vec!["a".to_string(), "b".to_string()]);
    assert!(c.all_query_names().is_empty());
}
