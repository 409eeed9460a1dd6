use json_ls::json::{clone_json, json_pointer, render_json, JsonMember, JsonValue};

fn jt(s: &str) -> JsonValue {
    JsonValue::Text(s.to_string())
}

fn jn(s: &str) -> JsonValue {
    JsonValue::Number(s.to_string())
}

fn jo(members: Vec<(&str, JsonValue)>) -> JsonValue {
    JsonValue::Object(
        members
            .into_iter()
            .map(|(k, v)| JsonMember {
                key: k.to_string(),
                value: v,
            })
            .collect(),
    )
}

#[test]
fn test_render_compact_document() {
    let v = jo(vec![
        ("a", jn("1")),
        ("b", JsonValue::Array(vec![JsonValue::Bool(true), JsonValue::Null])),
        ("c", jt("hi")),
    ]);
    assert_eq!(render_json(&v), "{\"a\":1,\"b\":[true,null],\"c\":\"hi\"}");
}

#[test]
fn test_render_escapes_strings() {
    let v = jt("a\"b\\c\nd\te");
    assert_eq!(render_json(&v), "\"a\\\"b\\\\c\\nd\\te\"");
    let ctrl = jt("\u{1}");
    assert_eq!(render_json(&ctrl), "\"\\u0001\"");
}

#[test]
fn test_render_number_keeps_literal_text() {
    assert_eq!(render_json(&jn("1.25e3")), "1.25e3");
    assert_eq!(render_json(&jn("-0")), "-0");
}

#[test]
fn test_pointer_walks_objects_and_arrays() {
    let v = jo(vec![(
        "items",
        JsonValue::Array(vec![jt("zero"), jo(vec![("x", jn("7"))])]),
    )]);
    assert!(matches!(json_pointer(&v, ""), Some(JsonValue::Object(_))));
    match json_pointer(&v, "/items/0") {
        Some(JsonValue::Text(s)) => assert_eq!(s, "zero"),
        other => panic!("unexpected: {other:?}"),
    }
    match json_pointer(&v, "/items/1/x") {
        Some(JsonValue::Number(s)) => assert_eq!(s, "7"),
        other => panic!("unexpected: {other:?}"),
    }
    assert!(json_pointer(&v, "/missing").is_none());
    assert!(json_pointer(&v, "/items/01").is_none());
    assert!(json_pointer(&v, "no-slash").is_none());
}

#[test]
fn test_pointer_unescapes_tokens() {
    let v = jo(vec![("a/b", jn("1")), ("c~d", jn("2"))]);
    assert!(matches!(
        json_pointer(&v, "/a~1b"),
        Some(JsonValue::Number(_))
    ));
    assert!(matches!(
        json_pointer(&v, "/c~0d"),
        Some(JsonValue::Number(_))
    ));
}

#[test]
fn test_clone_json_is_equivalent() {
    let v = jo(vec![
        ("a", jn("1")),
        ("b", JsonValue::Array(vec![jt("x"), JsonValue::Bool(false)])),
    ]);
    let c = clone_json(&v);
    assert_eq!(render_json(&c), render_json(&v));
}

#[test]
fn test_get_returns_first_member() {
    let v = jo(vec![("k", jn("1"))]);
    assert!(matches!(v.get("k"), Some(JsonValue::Number(_))));
    assert!(v.get("z").is_none());
    assert!(jt("s").get("k").is_none());
}
