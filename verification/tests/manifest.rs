use moon_dst::manifest::parse_moon_mod;

fn names(list: &[&str]) -> Vec<String> {
    list.iter().map(|s| s.to_string()).collect()
}

fn deps_keys(json: &str) -> Vec<String> {
    let value: serde_json::Value = serde_json::from_str(json).unwrap();
    match value.get("deps") {
        Some(deps) => deps.as_object().unwrap().keys().cloned().collect(),
        None => Vec::new(),
    }
}

#[test]
fn test_parse_moon_mod() {
    let json = r#"{"deps": {"moonbitlang/core": "0.1.0", "moonbitlang/x": "0.2.0"}}"#;

    let deps = parse_moon_mod(deps_keys(json));
    assert_eq!(deps.len(), 2);
    assert!(deps.contains(&"moonbitlang/core".to_string()));
    assert!(deps.contains(&"moonbitlang/x".to_string()));
}

#[test]
fn missing_deps_gives_no_dependencies() {
    assert_eq!(parse_moon_mod(deps_keys(r#"{"name": "m"}"#)), Vec::<String>::new());
    assert_eq!(parse_moon_mod(Vec::new()), Vec::<String>::new());
}

#[test]
fn keys_are_sorted_and_unique() {
    let keys = names(&["y/util", "x/core", "a", "x/core", "B", "y/util", "x/cor"]);
    assert_eq!(parse_moon_mod(keys), names(&["B", "a", "x/cor", "x/core", "y/util"]));
}

#[test]
fn sorting_agrees_with_std() {
    let keys = names(&["z", "é", "b/a", "b.a", "b", "", "日本", "b", "A"]);
    let mut expected = keys.clone();
    expected.sort();
    expected.dedup();
    assert_eq!(parse_moon_mod(keys), expected);
}
