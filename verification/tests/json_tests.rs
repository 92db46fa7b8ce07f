use perplexity_stream::json::JsonValue;

fn text(s: &str) -> JsonValue {
    JsonValue::Text(s.to_string())
}

fn number(s: &str) -> JsonValue {
    JsonValue::Number(s.to_string())
}

fn object(members: Vec<(&str, JsonValue)>) -> JsonValue {
    JsonValue::Object(members.into_iter().map(|(k, v)| (k.to_string(), v)).collect())
}

#[test]
fn parses_scalars() {
    assert_eq!(JsonValue::parse("null"), Some(JsonValue::Null));
    assert_eq!(JsonValue::parse("true"), Some(JsonValue::Bool(true)));
    assert_eq!(JsonValue::parse("false"), Some(JsonValue::Bool(false)));
    assert_eq!(JsonValue::parse("12"), Some(number("12")));
    assert_eq!(JsonValue::parse("-3"), Some(number("-3")));
    assert_eq!(JsonValue::parse("1.5"), Some(number("1.5")));
    assert_eq!(JsonValue::parse("\"hi\""), Some(text("hi")));
    assert_eq!(JsonValue::parse(" \"a\\nb\\u00e9\" "), Some(text("a\nb\u{e9}")));
}

#[test]
fn parses_arrays_and_objects() {
    assert_eq!(JsonValue::parse("[]"), Some(JsonValue::Array(Vec::new())));
    assert_eq!(JsonValue::parse("{}"), Some(object(Vec::new())));
    assert_eq!(
        JsonValue::parse("[1, \"two\", [null], {\"k\": false}]"),
        Some(JsonValue::Array(vec![
            number("1"),
            text("two"),
            JsonValue::Array(vec![JsonValue::Null]),
            object(vec![("k", JsonValue::Bool(false))]),
        ]))
    );
    assert_eq!(
        JsonValue::parse("{\"a\": {\"b\": [\"c\"]}}"),
        Some(object(vec![("a", object(vec![("b", JsonValue::Array(vec![text("c")]))]))]))
    );
}

#[test]
fn rejects_what_is_not_one_document() {
    let bad = [
        "", " ", "{", "}", "[1,]", "{\"a\":}", "{'a': 1}", "nul", "1 2", "{} x", "\"open",
        "{\"a\" 1}",
    ];
    for payload in bad {
        assert_eq!(JsonValue::parse(payload), None, "{:?}", payload);
    }
}

#[test]
fn get_finds_members_of_objects_only() {
    let doc = JsonValue::parse("{\"a\": 1, \"b\": \"x\", \"c\": null}").unwrap();
    assert_eq!(doc.get("a"), Some(&number("1")));
    assert_eq!(doc.get("b"), Some(&text("x")));
    assert_eq!(doc.get("c"), Some(&JsonValue::Null));
    assert_eq!(doc.get("d"), None);
    assert_eq!(doc.get(""), None);
    assert_eq!(doc.get("A"), None);
    assert_eq!(JsonValue::parse("[1]").unwrap().get("0"), None);
    assert_eq!(text("a").get("a"), None);
    assert_eq!(JsonValue::Null.get("a"), None);
}

#[test]
fn get_takes_the_first_member_of_that_key() {
    let doc = object(vec![("k", number("1")), ("other", JsonValue::Null), ("k", number("2"))]);
    assert_eq!(doc.get("k"), Some(&number("1")));
    assert_eq!(doc.get("other"), Some(&JsonValue::Null));
}

#[test]
fn a_repeated_key_parses_to_one_member() {
    let doc = JsonValue::parse("{\"k\": 1, \"k\": 2}").unwrap();
    assert_eq!(doc, object(vec![("k", number("2"))]));
}
