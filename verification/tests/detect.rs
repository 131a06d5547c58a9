use dbba::db_diff::{detect_changes, IdMap};

#[test]
fn test_detect_changes_no_changes() {
    let mut before = IdMap::new();
    before.insert("1".to_string(), "{\"id\":1,\"name\":\"John\"}".to_string());

    let mut after = IdMap::new();
    after.insert("1".to_string(), "{\"id\":1,\"name\":\"John\"}".to_string());

    let changes = detect_changes(&before, &after);

    assert_eq!(changes.deleted_ids.len(), 0);
    assert_eq!(changes.added_ids.len(), 0);
    assert_eq!(changes.modified_ids.len(), 0);
    assert!(!changes.has_changes());
}

#[test]
fn test_detect_changes_with_additions() {
    let before = IdMap::new();

    let mut after = IdMap::new();
    after.insert("1".to_string(), "{\"id\":1,\"name\":\"John\"}".to_string());

    let changes = detect_changes(&before, &after);

    assert_eq!(changes.added_ids.len(), 1);
    assert!(changes.added_ids.contains(&"1".to_string()));
    assert!(changes.has_changes());
}

#[test]
fn test_detect_changes_with_deletions() {
    let mut before = IdMap::new();
    before.insert("1".to_string(), "{\"id\":1,\"name\":\"John\"}".to_string());

    let after = IdMap::new();

    let changes = detect_changes(&before, &after);

    assert_eq!(changes.deleted_ids.len(), 1);
    assert!(changes.deleted_ids.contains(&"1".to_string()));
    assert!(changes.has_changes());
}

#[test]
fn test_detect_changes_with_modifications() {
    let mut before = IdMap::new();
    before.insert("1".to_string(), "{\"id\":1,\"name\":\"John\"}".to_string());

    let mut after = IdMap::new();
    after.insert("1".to_string(), "{\"id\":1,\"name\":\"Jane\"}".to_string());

    let changes = detect_changes(&before, &after);

    assert_eq!(changes.modified_ids.len(), 1);
    assert!(changes.modified_ids.contains(&"1".to_string()));
    assert!(changes.has_changes());
}

#[test]
fn test_detect_last_insert_wins() {
    let mut before = IdMap::new();
    before.insert("unknown".to_string(), "first".to_string());
    before.insert("unknown".to_string(), "second".to_string());

    let mut after = IdMap::new();
    after.insert("unknown".to_string(), "second".to_string());

    let changes = detect_changes(&before, &after);
    assert!(!changes.has_changes());
}

#[test]
fn test_detect_disjoint_classes() {
    let mut before = IdMap::new();
    before.insert("1".to_string(), "a".to_string());
    before.insert("2".to_string(), "b".to_string());
    before.insert("3".to_string(), "c".to_string());

    let mut after = IdMap::new();
    after.insert("2".to_string(), "b2".to_string());
    after.insert("3".to_string(), "c".to_string());
    after.insert("4".to_string(), "d".to_string());

    let changes = detect_changes(&before, &after);
    assert_eq!(changes.deleted_ids, vec!["1".to_string()]);
    assert_eq!(changes.added_ids, vec!["4".to_string()]);
    assert_eq!(changes.modified_ids, vec!["2".to_string()]);
    assert!(changes.has_changes());
}

#[test]
fn test_idmap_get() {
    let mut m = IdMap::new();
    m.insert("k".to_string(), "v1".to_string());
    m.insert("k".to_string(), "v2".to_string());
    assert_eq!(m.get("k"), Some(&"v2".to_string()));
    assert_eq!(m.get("missing"), None);
}
