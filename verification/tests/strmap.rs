use unleash_proxy::strmap::StrMap;

#[test]
fn insert_get_remove() {
    let mut m: StrMap<u64> = StrMap::new();
    assert_eq!(m.len(), 0);
    m.insert("a".to_string(), 1);
    m.insert("b".to_string(), 2);
    m.insert("a".to_string(), 3);
    assert_eq!(m.len(), 2);
    assert_eq!(m.get("a"), Some(&3));
    assert_eq!(m.get("b"), Some(&2));
    assert_eq!(m.get("c"), None);
    assert!(m.find("b").is_some());
    assert_eq!(m.remove("a"), Some(3));
    assert_eq!(m.remove("a"), None);
    assert_eq!(m.len(), 1);
    let entries = m.into_entries();
    assert_eq!(entries, vec![("b".to_string(), 2)]);
}

#[test]
fn entries_by_index() {
    let mut m: StrMap<String> = StrMap::new();
    m.insert("x".to_string(), "1".to_string());
    m.insert("y".to_string(), "2".to_string());
    assert_eq!(m.key_at(0), "x");
    assert_eq!(m.value_at(1), "2");
}
