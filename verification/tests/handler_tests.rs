use json_ls::completion::{handle_completion, CompletionKind};
use json_ls::hover::handle_hover;
use json_ls::json::{JsonMember, JsonValue};

fn htext(s: &str) -> JsonValue {
    JsonValue::Text(s.to_string())
}

fn hnum(s: &str) -> JsonValue {
    JsonValue::Number(s.to_string())
}

fn hobj(members: Vec<(&str, JsonValue)>) -> JsonValue {
    JsonValue::Object(
        members
            .into_iter()
            .map(|(k, v)| JsonMember {
                key: k.to_string(),
                value: v,
            })
            .collect(),
    )
}

fn sample_schema() -> JsonValue {
    hobj(vec![
        ("type", htext("object")),
        (
            "properties",
            hobj(vec![
                (
                    "name",
                    hobj(vec![
                        ("type", htext("string")),
                        ("description", htext("The name")),
                    ]),
                ),
                (
                    "count",
                    hobj(vec![
                        ("type", htext("integer")),
                        ("description", htext("How many")),
                        ("default", hnum("0")),
                    ]),
                ),
                ("enabled", hobj(vec![("type", htext("boolean"))])),
            ]),
        ),
    ])
}

#[test]
fn test_hover_on_value_renders_markdown() {
    let schema = sample_schema();
    let text = "{ \"$schema\": \"x\", \"name\": \"hello\", \"count\": 42 }";
    // The `42` starts at column 45.
    let md = handle_hover(&schema, text, 0, 45).unwrap();
    assert!(md.contains("How many"), "missing description: {md}");
    assert!(md.contains("**Type:** `integer`"), "missing type: {md}");
    assert!(md.contains("**Default:** `0`"), "missing default: {md}");
}

#[test]
fn test_hover_on_key_uses_field_schema() {
    let schema = sample_schema();
    let text = "{\n  \"name\": \"hello\"\n}";
    let md = handle_hover(&schema, text, 1, 4).unwrap();
    assert!(md.contains("The name"), "missing description: {md}");
    assert!(md.contains("**Type:** `string`"), "missing type: {md}");
}

#[test]
fn test_hover_outside_any_value_is_none() {
    let schema = sample_schema();
    assert!(handle_hover(&schema, "not json", 0, 2).is_none());
}

#[test]
fn test_completion_at_key_start_offers_property_names() {
    let schema = sample_schema();
    // Cursor inside the empty pair of quotes: the opening quote is already
    // in the buffer, so no inserted text begins with one.
    let text = "{ \"$schema\": \"x\", \"\" }";
    let entries = handle_completion(&schema, text, 0, 19).unwrap();
    let labels: Vec<&str> = entries.iter().map(|e| e.label.as_str()).collect();
    assert!(labels.contains(&"name"), "missing name in {labels:?}");
    assert!(labels.contains(&"count"), "missing count in {labels:?}");
    assert!(labels.contains(&"enabled"), "missing enabled in {labels:?}");
    for e in &entries {
        assert_eq!(e.kind, CompletionKind::Field);
        assert!(
            !e.insert_text.starts_with('"'),
            "unexpected quote in {:?}",
            e.insert_text
        );
        assert!(e.insert_text.ends_with("\": "));
    }
}

#[test]
fn test_completion_carries_detail_and_documentation() {
    let schema = sample_schema();
    let text = "{ \"\" }";
    let entries = handle_completion(&schema, text, 0, 3).unwrap();
    let count = entries.iter().find(|e| e.label == "count").unwrap();
    assert_eq!(count.detail.as_deref(), Some("integer"));
    assert_eq!(count.documentation.as_deref(), Some("How many"));
}

#[test]
fn test_completion_for_enum_value() {
    let schema = hobj(vec![(
        "properties",
        hobj(vec![(
            "status",
            hobj(vec![(
                "enum",
                JsonValue::Array(vec![htext("on"), htext("off")]),
            )]),
        )]),
    )]);
    let text = "{ \"status\": \"on\" }";
    // Cursor inside the value string.
    let entries = handle_completion(&schema, text, 0, 14).unwrap();
    let labels: Vec<&str> = entries.iter().map(|e| e.label.as_str()).collect();
    assert_eq!(labels, vec!["\"on\"", "\"off\""]);
    assert!(entries.iter().all(|e| e.kind == CompletionKind::Value));
}

#[test]
fn test_completion_type_snippets() {
    let schema = hobj(vec![(
        "properties",
        hobj(vec![("flag", hobj(vec![("type", htext("boolean"))]))]),
    )]);
    let text = "{ \"flag\": true }";
    let entries = handle_completion(&schema, text, 0, 11).unwrap();
    let labels: Vec<&str> = entries.iter().map(|e| e.label.as_str()).collect();
    assert_eq!(labels, vec!["true", "false"]);
    assert!(entries.iter().all(|e| e.is_snippet));
}

#[test]
fn test_completion_unknown_position_is_none() {
    let schema = sample_schema();
    assert!(handle_completion(&schema, "[]", 0, 1).is_none());
}
