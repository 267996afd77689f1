use sq::map::SortedMap;

#[test]
fn map_insert_then_get() {
    let mut m: SortedMap<String> = SortedMap::new();
    assert!(m.is_empty());
    m.insert("b".to_string(), "2".to_string());
    m.insert("a".to_string(), "1".to_string());
    assert_eq!(m.get("a").map(|s| s.as_str()), Some("1"));
    assert_eq!(m.get("b").map(|s| s.as_str()), Some("2"));
    assert!(m.get("c").is_none());
    assert_eq!(m.len(), 2);
}

#[test]
fn map_insert_replaces() {
    let mut m: SortedMap<String> = SortedMap::new();
    m.insert("k".to_string(), "old".to_string());
    m.insert("k".to_string(), "new".to_string());
    assert_eq!(m.len(), 1);
    assert_eq!(m.get("k").map(|s| s.as_str()), Some("new"));
}

#[test]
fn map_keeps_keys_in_byte_order() {
    let mut m: SortedMap<String> = SortedMap::new();
    for k in ["zeta", "Alpha", "alpha", "é", "a", "ab", "dash-sparql", "dash"] {
        m.insert(k.to_string(), String::new());
    }
    let keys: Vec<&str> = m.entries().iter().map(|(k, _)| k.as_str()).collect();
    let mut sorted = keys.clone();
    sorted.sort();
    assert_eq!(keys, sorted);
    assert_eq!(keys, vec!["Alpha", "a", "ab", "alpha", "dash", "dash-sparql", "zeta", "é"]);
}

#[test]
fn map_extend_prefers_the_other_map() {
    let mut a: SortedMap<String> = SortedMap::new();
    a.insert("x".to_string(), "1".to_string());
    a.insert("y".to_string(), "2".to_string());
    let mut b: SortedMap<String> = SortedMap::new();
    b.insert("y".to_string(), "3".to_string());
    b.insert("z".to_string(), "4".to_string());
    a.extend(b);
    let got: Vec<(String, String)> = a.entries().clone();
    assert_eq!(
        got,
        vec![
            ("x".to_string(), "1".to_string()),
            ("y".to_string(), "3".to_string()),
            ("z".to_string(), "4".to_string())
        ]
    );
}
