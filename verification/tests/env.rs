use toy_edge_worker::env::Env;

fn pairs(list: &[(&str, &str)]) -> Vec<(String, String)> {
    list.iter().map(|(k, v)| (k.to_string(), v.to_string())).collect()
}

#[test]
fn variables_are_walked_in_order() {
    let env = Env::from_pairs(pairs(&[("b", "1"), ("a", "2"), ("c", "3"), ("b", "4")]));
    assert_eq!(env.to_pairs(), pairs(&[("a", "2"), ("b", "4"), ("c", "3")]));
    assert_eq!(env.get("b"), Some("4"));
    assert_eq!(env.get("d"), None);
}

#[test]
fn order_does_not_depend_on_insertion() {
    let mut one = Env::new();
    one.insert("x".into(), "1".into());
    one.insert("".into(), "2".into());
    let mut two = Env::new();
    two.insert("".into(), "2".into());
    two.insert("x".into(), "0".into());
    two.insert("x".into(), "1".into());
    assert_eq!(one.to_pairs(), two.to_pairs());
    assert!(Env::new().to_pairs().is_empty());
}
