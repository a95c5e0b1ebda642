use query::cli::parse_args;

fn args(items: &[&str]) -> Vec<String> {
    items.iter().map(|s| s.to_string()).collect()
}

#[test]
fn query_is_required() {
    let err = parse_args(&args(&["query"])).unwrap_err();
    assert!(err.starts_with("Error: Query argument is required"));
}

#[test]
fn query_without_variables() {
    let (q, v) = parse_args(&args(&["query", "query { viewer { id } }"])).unwrap();
    assert_eq!(q, "query { viewer { id } }");
    assert!(v.is_none());
}

#[test]
fn variables_are_parsed() {
    let (q, v) = parse_args(&args(&["query", "q", r#"{"first": 10}"#, "extra"])).unwrap();
    assert_eq!(q, "q");
    assert_eq!(v.unwrap()["first"], 10);
}

#[test]
fn invalid_variables_are_reported() {
    let err = parse_args(&args(&["query", "q", "{nope"])).unwrap_err();
    assert!(err.starts_with("Error: Variables must be valid JSON\nReceived: {nope\nParse error: "));
    let description = serde_json::from_str::<serde_json::Value>("{nope").unwrap_err().to_string();
    assert_eq!(
        err,
        format!("Error: Variables must be valid JSON\nReceived: {{nope\nParse error: {}", description)
    );
}
