use sq::json::json_output;

#[test]
fn json_bodies_are_pretty_printed() {
    let out = json_output("{\"head\":{\"vars\":[\"s\"]}}");
    assert_eq!(out.as_deref(), Some("{\n  \"head\": {\n    \"vars\": [\n      \"s\"\n    ]\n  }\n}"));
}

#[test]
fn json_scalars_and_whitespace() {
    assert_eq!(json_output("  true \n").as_deref(), Some("true"));
    assert_eq!(json_output("[1,2]").as_deref(), Some("[\n  1,\n  2\n]"));
}

#[test]
fn non_json_bodies_pass_through() {
    assert_eq!(json_output("<html>oops</html>"), None);
    assert_eq!(json_output(""), None);
    assert_eq!(json_output("{\"a\":1} trailing"), None);
}
