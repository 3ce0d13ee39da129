use spark_api::k8s::secret::SecretData;

#[test]
fn a_secret_holds_each_key_once() {
    let mut s = SecretData::new();
    s.insert("A".to_string(), "1".to_string());
    s.insert("B".to_string(), "2".to_string());
    s.insert("A".to_string(), "3".to_string());
    assert_eq!(s.keys(), vec!["A", "B"]);
    assert_eq!(s.get("A").as_deref(), Some("3"));
    assert!(s.remove("A"));
    assert!(!s.remove("A"));
    assert_eq!(s.get("A"), None);
    assert_eq!(s.keys(), vec!["B"]);
}

#[test]
fn keys_come_out_in_increasing_order() {
    let mut s = SecretData::new();
    for k in ["b", "A", "ab", "a", "é", "B"] {
        s.insert(k.to_string(), String::new());
    }
    let mut expected = vec!["b", "A", "ab", "a", "é", "B"];
    expected.sort();
    assert_eq!(s.keys(), expected);
}
