use jimjam::strmap::StrMap;

#[test]
fn test_insert_then_get() {
    let mut m = StrMap::new();
    assert!(m.is_empty());
    m.insert("k".to_string(), "v1".to_string());
    assert_eq!(m.get("k"), Some(&"v1".to_string()));
    m.insert("k".to_string(), "v2".to_string());
    assert_eq!(m.get("k"), Some(&"v2".to_string()));
    assert_eq!(m.len(), 1);
    m.insert("other".to_string(), "x".to_string());
    assert_eq!(m.get("k"), Some(&"v2".to_string()));
    assert_eq!(m.len(), 2);
    assert!(m.contains_key("other"));
    assert!(!m.contains_key("K"));
    assert_eq!(m.get("missing"), None);
}

#[test]
fn test_from_pairs_later_wins() {
    let m = StrMap::from_pairs(vec![
        ("a".to_string(), "1".to_string()),
        ("b".to_string(), "2".to_string()),
        ("a".to_string(), "3".to_string()),
    ]);
    assert_eq!(m.len(), 2);
    assert_eq!(m.get("a"), Some(&"3".to_string()));
    assert_eq!(m.pair_count(), 2);
    assert_eq!(m.pair_at(0), (&"a".to_string(), &"3".to_string()));
}
