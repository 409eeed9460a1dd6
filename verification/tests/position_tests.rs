use json_ls::position::{position_to_context, PathSegment, PositionContext};

fn ctx(text: &str, line: u32, character: u32) -> PositionContext {
    position_to_context(text, line, character)
}

const DOC: &str = r#"{
  "$schema": "https://example.com/schema.json",
  "name": "hello",
  "count": 42,
  "tags": ["a", "b"],
  "nested": {
    "inner": true
  }
}"#;

#[test]
fn test_cursor_in_key() {
    // "$schema" key is on line 1: `  "$schema": ...`
    // The key starts at column 2 (0-indexed), cursor at col 4 -> inside key
    let result = ctx(DOC, 1, 4);
    assert!(
        matches!(
            result,
            PositionContext::Key { .. } | PositionContext::KeyStart { .. }
        ),
        "Expected Key/KeyStart, got {result:?}"
    );
}

#[test]
fn test_cursor_in_key_includes_key_in_path() {
    // Line 2: `  "name": "hello",`  cursor at col 4 -> inside "name" key
    let result = ctx(DOC, 2, 4);
    assert!(
        matches!(result, PositionContext::Key { ref path } if *path == vec![PathSegment::Key("name".into())]),
        "Expected Key with path [name], got {result:?}"
    );
}

#[test]
fn test_cursor_in_nested_key_includes_full_path() {
    // Line 6: `    "inner": true`  cursor at col 6 -> inside "inner" key
    let result = ctx(DOC, 6, 6);
    assert!(
        matches!(result, PositionContext::Key { ref path } if *path == vec![
            PathSegment::Key("nested".into()),
            PathSegment::Key("inner".into())
        ]),
        "Expected Key with path [nested, inner], got {result:?}"
    );
}

#[test]
fn test_cursor_in_string_value() {
    // Line 2: `  "name": "hello",`
    // Value "hello" starts at column 10; cursor at col 12 -> inside value
    let result = ctx(DOC, 2, 12);
    assert!(
        matches!(result, PositionContext::Value { ref path } if *path == vec![PathSegment::Key("name".into())]),
        "Expected Value at [name], got {result:?}"
    );
}

#[test]
fn test_cursor_in_number_value() {
    // Line 3: `  "count": 42,`
    // "count" value starts at col 11; cursor at col 12 -> inside value
    let result = ctx(DOC, 3, 12);
    assert!(
        matches!(result, PositionContext::Value { ref path } if *path == vec![PathSegment::Key("count".into())]),
        "Expected Value at [count], got {result:?}"
    );
}

#[test]
fn test_cursor_in_nested_value() {
    // Line 6: `    "inner": true`
    let result = ctx(DOC, 6, 14);
    assert!(
        matches!(result, PositionContext::Value { ref path } if *path == vec![
            PathSegment::Key("nested".into()),
            PathSegment::Key("inner".into())
        ]),
        "Expected Value at [nested, inner], got {result:?}"
    );
}

#[test]
fn test_cursor_in_array_item() {
    // Line 4: `  "tags": ["a", "b"],`
    let result = ctx(DOC, 4, 13);
    assert!(
        matches!(result, PositionContext::Value { ref path } if *path == vec![
            PathSegment::Key("tags".into()),
            PathSegment::Index(0)
        ]),
        "Expected Value at [tags, 0], got {result:?}"
    );
}

#[test]
fn test_cursor_between_colon_and_value() {
    // Line 2: `  "name": "hello",`  col 9 (after ':') -> ValueStart at [name]
    let result = ctx(DOC, 2, 9);
    assert!(
        matches!(
            result,
            PositionContext::ValueStart { .. } | PositionContext::Value { .. }
        ),
        "Expected ValueStart or Value, got {result:?}"
    );
}

#[test]
fn test_utf16_offset_with_multibyte() {
    // The emoji occupies 2 UTF-16 code units; cursor at character=10 is on `x`
    let text = "{\n  \"k\": \"\u{1F600}x\"\n}";
    let result = ctx(text, 1, 10);
    assert!(
        matches!(result, PositionContext::Value { .. }),
        "Expected Value context for UTF-16 position, got {result:?}"
    );
}

#[test]
fn test_key_start_at_quote() {
    // Cursor exactly at the opening quote of a key
    let text = "{\n  \"name\": \"v\"\n}";
    let result = ctx(text, 1, 2);
    assert!(
        matches!(
            result,
            PositionContext::KeyStart { .. } | PositionContext::Key { .. }
        ),
        "Expected KeyStart at opening quote, got {result:?}"
    );
}

#[test]
fn test_empty_object() {
    let text = "{}";
    let result = ctx(text, 0, 1);
    // Inside an empty object: nothing to classify, but no panic either.
    let _ = result;
}

#[test]
fn test_path_accessor_returns_segments() {
    let result = ctx(DOC, 2, 4);
    let path = result.path();
    assert_eq!(path, vec![PathSegment::Key("name".into())]);
    let unknown = PositionContext::Unknown;
    assert!(unknown.path().is_empty());
}

#[test]
fn test_cursor_in_second_array_item() {
    // Line 4: `  "tags": ["a", "b"],` -- "b" sits after the comma
    let result = ctx(DOC, 4, 18);
    assert!(
        matches!(result, PositionContext::Value { ref path } if *path == vec![
            PathSegment::Key("tags".into()),
            PathSegment::Index(1)
        ]),
        "Expected Value at [tags, 1], got {result:?}"
    );
}

#[test]
fn test_malformed_left_of_cursor_is_tolerated() {
    // A malformed region to the left does not poison the right.
    let text = "{ ####, \"name\": \"v\" }";
    let result = ctx(text, 0, 17);
    assert!(
        matches!(result, PositionContext::Value { ref path } if *path == vec![PathSegment::Key("name".into())]),
        "Expected Value at [name], got {result:?}"
    );
}

#[test]
fn test_document_not_object_is_unknown() {
    assert!(matches!(ctx("[1, 2]", 0, 1), PositionContext::Unknown));
    assert!(matches!(ctx("", 0, 0), PositionContext::Unknown));
}

#[test]
fn test_position_past_last_line_is_unknown() {
    // Two lines exist; line 3 does not.
    assert!(matches!(ctx("{\n}", 3, 0), PositionContext::Unknown));
}
