use json_ls::diagnostics::{
    byte_offset_to_lsp_pos, instance_path_to_range, syntax_error_diagnostic, try_locate_path,
    validation_diagnostics, ValidationIssue,
};

#[test]
fn test_byte_offset_to_pos_ascii() {
    let text = "ab\ncd";
    assert_eq!(byte_offset_to_lsp_pos(text, 0), (0, 0));
    assert_eq!(byte_offset_to_lsp_pos(text, 2), (0, 2));
    assert_eq!(byte_offset_to_lsp_pos(text, 3), (1, 0));
    assert_eq!(byte_offset_to_lsp_pos(text, 4), (1, 1));
    // Past the end clamps to the end.
    assert_eq!(byte_offset_to_lsp_pos(text, 99), (1, 2));
}

#[test]
fn test_byte_offset_to_pos_utf16() {
    // The emoji takes 4 UTF-8 bytes but 2 UTF-16 units.
    let text = "a\u{1F600}b";
    assert_eq!(byte_offset_to_lsp_pos(text, 1), (0, 1));
    assert_eq!(byte_offset_to_lsp_pos(text, 5), (0, 3));
    assert_eq!(byte_offset_to_lsp_pos(text, 6), (0, 4));
}

#[test]
fn test_try_locate_path_finds_top_level_key() {
    let text = "{\"name\": 1}";
    let range = try_locate_path("/name", text).unwrap();
    assert_eq!(range.start.line, 0);
    assert_eq!(range.start.character, 1);
    assert_eq!(range.end.line, 0);
    // The span covers the quoted key, counted in the needle's bytes.
    assert_eq!(range.end.character, 1 + 6);
}

#[test]
fn test_try_locate_path_nested_pointer_uses_first_segment() {
    let text = "{\n  \"outer\": {\"inner\": 1}\n}";
    let range = try_locate_path("/outer/inner", text).unwrap();
    assert_eq!(range.start.line, 1);
    assert_eq!(range.start.character, 2);
}

#[test]
fn test_try_locate_path_absent_key() {
    assert!(try_locate_path("/missing", "{\"name\": 1}").is_none());
    assert!(try_locate_path("", "{\"name\": 1}").is_none());
}

#[test]
fn test_instance_path_to_range_falls_back_to_document_start() {
    let range = instance_path_to_range("/missing", "{}");
    assert_eq!(range.start.line, 0);
    assert_eq!(range.start.character, 0);
    assert_eq!(range.end.line, 0);
    assert_eq!(range.end.character, 1);
}

#[test]
fn test_syntax_error_diagnostic_shape() {
    let d = syntax_error_diagnostic("{\"a\":\n", 0, 5, "expected value at line 1 column 6");
    assert_eq!(d.severity, 1);
    assert_eq!(d.code, "json-syntax");
    assert_eq!(d.source, "json-ls");
    assert_eq!(
        d.message,
        "JSON syntax error: expected value at line 1 column 6"
    );
    assert_eq!(d.range.start.line, 0);
    assert_eq!(d.range.start.character, 5);
    assert_eq!(d.range.end.character, 6);
}

#[test]
fn test_syntax_error_line_clamped_to_document() {
    // The reported line lies past the document: it is clamped to the last
    // line.
    let d = syntax_error_diagnostic("{}\n", 9, 0, "eof");
    assert_eq!(d.range.start.line, 1);
}

#[test]
fn test_validation_diagnostics_one_per_issue() {
    let text = "{\"count\": \"x\", \"name\": 3}";
    let issues = vec![
        ValidationIssue {
            pointer: String::from("/count"),
            message: String::from("\"x\" is not of type \"integer\""),
        },
        ValidationIssue {
            pointer: String::from("/name"),
            message: String::from("3 is not of type \"string\""),
        },
    ];
    let ds = validation_diagnostics(text, &issues);
    assert_eq!(ds.len(), 2);
    assert_eq!(ds[0].code, "schema-validation");
    assert_eq!(ds[0].source, "json-ls");
    assert_eq!(ds[0].message, "\"x\" is not of type \"integer\"");
    assert_eq!(ds[0].range.start.character, 1);
    assert_eq!(ds[1].message, "3 is not of type \"string\"");
    assert_eq!(ds[1].range.start.character, 15);
}
