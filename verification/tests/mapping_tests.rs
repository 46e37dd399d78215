use request_executor::Mapping;

fn pair(key: &str, value: &str) -> (String, String) {
    (key.to_string(), value.to_string())
}

#[test]
fn new_mapping_is_empty() {
    let mapping = Mapping::new();
    assert_eq!(mapping.len(), 0);
    assert_eq!(mapping.get("a"), None);
    assert!(mapping.entries().is_empty());
}

#[test]
fn insert_replaces_value_and_keeps_position() {
    let mut mapping = Mapping::new();
    mapping.insert("a".to_string(), "1".to_string());
    mapping.insert("b".to_string(), "2".to_string());
    mapping.insert("a".to_string(), "3".to_string());
    assert_eq!(mapping.len(), 2);
    assert_eq!(mapping.get("a"), Some(&"3".to_string()));
    assert_eq!(mapping.get("b"), Some(&"2".to_string()));
    assert_eq!(mapping.get("c"), None);
    assert_eq!(mapping.entries(), &vec![pair("a", "3"), pair("b", "2")]);
}

#[test]
fn insert_appends_new_keys_in_order() {
    let mut mapping = Mapping::new();
    mapping.insert("z".to_string(), "26".to_string());
    mapping.insert("y".to_string(), "25".to_string());
    mapping.insert("x".to_string(), "24".to_string());
    assert_eq!(
        mapping.entries(),
        &vec![pair("z", "26"), pair("y", "25"), pair("x", "24")]
    );
}

#[test]
fn from_pairs_keeps_last_value_of_a_repeated_key() {
    let mapping = Mapping::from_pairs(&vec![
        pair("k", "first"),
        pair("other", "o"),
        pair("k", "second"),
    ]);
    assert_eq!(mapping.len(), 2);
    assert_eq!(mapping.get("k"), Some(&"second".to_string()));
    assert_eq!(mapping.entries(), &vec![pair("k", "second"), pair("other", "o")]);
}

#[test]
fn from_pairs_of_distinct_keys_keeps_them_all() {
    let pairs = vec![pair("a", "1"), pair("b", "2"), pair("c", "3")];
    let mapping = Mapping::from_pairs(&pairs);
    assert_eq!(mapping.entries(), &pairs);
}

#[test]
fn keys_are_compared_exactly() {
    let mut mapping = Mapping::new();
    mapping.insert("Key".to_string(), "upper".to_string());
    mapping.insert("key".to_string(), "lower".to_string());
    mapping.insert("".to_string(), "empty".to_string());
    assert_eq!(mapping.len(), 3);
    assert_eq!(mapping.get("Key"), Some(&"upper".to_string()));
    assert_eq!(mapping.get("key"), Some(&"lower".to_string()));
    assert_eq!(mapping.get(""), Some(&"empty".to_string()));
    assert_eq!(mapping.get("KEY"), None);
}
