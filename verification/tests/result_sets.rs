use ftl_stats::{RecordEntry, ResultSet};

#[test]
fn new_result_is_empty() {
    let result = ResultSet::new(10);
    assert_eq!(result.total(), 10);
    assert_eq!(result.len(), 0);
    assert_eq!(result.get("example.com"), None);
    assert!(result.entries().is_empty());
}

#[test]
fn insert_then_get() {
    let mut result = ResultSet::new(-3);
    result.insert("example.com".to_string(), 7);
    result.insert("example.net".to_string(), 3);
    assert_eq!(result.total(), -3);
    assert_eq!(result.len(), 2);
    assert_eq!(result.get("example.com"), Some(7));
    assert_eq!(result.get("example.net"), Some(3));
    assert_eq!(result.get("example.org"), None);
    assert_eq!(result.get(""), None);
}

#[test]
fn insert_overwrites() {
    let mut result = ResultSet::new(0);
    result.insert("a".to_string(), 1);
    result.insert("b".to_string(), 2);
    result.insert("a".to_string(), 3);
    assert_eq!(result.len(), 2);
    assert_eq!(result.get("a"), Some(3));
    assert_eq!(result.get("b"), Some(2));
    result.insert("b".to_string(), i32::MIN);
    assert_eq!(result.len(), 2);
    assert_eq!(result.get("b"), Some(i32::MIN));
}

#[test]
fn entries_hold_each_label_once() {
    let mut result = ResultSet::new(0);
    for (label, count) in [("x", 1), ("y", 2), ("x", 3), ("z", 4), ("y", 5)] {
        result.insert(label.to_string(), count);
    }
    let mut entries: Vec<(String, i32)> =
        result.entries().iter().map(|e| (e.label.clone(), e.count)).collect();
    entries.sort();
    assert_eq!(
        entries,
        vec![("x".to_string(), 3), ("y".to_string(), 5), ("z".to_string(), 4)]
    );
}

#[test]
fn empty_label_is_a_label() {
    let mut result = ResultSet::new(1);
    result.insert(String::new(), 9);
    assert_eq!(result.get(""), Some(9));
    assert_eq!(result.len(), 1);
    assert_eq!(result.entries()[0], RecordEntry { label: String::new(), count: 9 });
}
