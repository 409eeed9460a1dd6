use json_ls::document::{
    extract_schema_url, lsp_pos_to_char_idx, DocError, DocumentStore, LspPosition, LspRange,
    TextChange,
};

#[test]
fn test_extract_schema_url() {
    let text = r#"{
  "$schema": "https://json-schema.org/draft-07/schema",
  "name": "test"
}"#;
    let url = extract_schema_url(text);
    assert_eq!(
        url,
        Some("https://json-schema.org/draft-07/schema".to_owned())
    );
}

#[test]
fn test_extract_schema_url_missing() {
    let text = r#"{ "name": "test" }"#;
    assert!(extract_schema_url(text).is_none());
}

#[test]
fn test_extract_schema_url_empty_is_none() {
    assert!(extract_schema_url(r#"{ "$schema": "" }"#).is_none());
}

#[test]
fn test_lsp_pos_to_char_ascii() {
    let text = String::from("hello\nworld\n");
    let pos = LspPosition {
        line: 1,
        character: 3,
    };
    let idx = lsp_pos_to_char_idx(&text, pos).unwrap();
    // line 1 starts at char 6 ("hello\n"), offset 3 -> char 9
    assert_eq!(idx, 9);
}

#[test]
fn test_lsp_pos_to_char_emoji() {
    // The emoji is 2 UTF-16 code units but 1 char
    let text = String::from("a\u{1F600}b\n");
    let pos = LspPosition {
        line: 0,
        character: 3,
    }; // after emoji
    let idx = lsp_pos_to_char_idx(&text, pos).unwrap();
    assert_eq!(idx, 2);
}

#[test]
fn test_lsp_pos_line_out_of_range() {
    let text = String::from("one line");
    let pos = LspPosition {
        line: 5,
        character: 0,
    };
    assert_eq!(
        lsp_pos_to_char_idx(&text, pos),
        Err(DocError::RangeOutOfBounds)
    );
}

fn range(sl: u32, sc: u32, el: u32, ec: u32) -> LspRange {
    LspRange {
        start: LspPosition {
            line: sl,
            character: sc,
        },
        end: LspPosition {
            line: el,
            character: ec,
        },
    }
}

#[test]
fn test_store_open_and_get() {
    let mut store = DocumentStore::new();
    let uri = String::from("file:///a.json");
    store.open(uri.clone(), 1, String::from(r#"{"$schema": "s", "x": 1}"#));
    assert_eq!(
        store.get_text(&uri),
        Some(String::from(r#"{"$schema": "s", "x": 1}"#))
    );
    assert_eq!(store.get_schema_url(&uri), Some(String::from("s")));
    assert_eq!(store.get_text(&String::from("file:///other")), None);
}

#[test]
fn test_store_update_incremental() {
    let mut store = DocumentStore::new();
    let uri = String::from("file:///b.json");
    store.open(uri.clone(), 1, String::from("{\"a\": 1}"));
    // Replace the `1` (line 0, chars 6..7) with `42`.
    let changes = vec![TextChange {
        range: Some(range(0, 6, 0, 7)),
        text: String::from("42"),
    }];
    store.update(&uri, 2, changes).unwrap();
    assert_eq!(store.get_text(&uri), Some(String::from("{\"a\": 42}")));
}

#[test]
fn test_store_update_full_replacement_matches_incremental() {
    // Applying incremental changes yields the same final text as the
    // equivalent single full-replacement change.
    let mut incremental = DocumentStore::new();
    let mut full = DocumentStore::new();
    let uri = String::from("file:///c.json");
    incremental.open(uri.clone(), 1, String::from("{\"a\": 1, \"b\": 2}"));
    full.open(uri.clone(), 1, String::from("{\"a\": 1, \"b\": 2}"));

    let steps = vec![
        TextChange {
            range: Some(range(0, 6, 0, 7)),
            text: String::from("10"),
        },
        TextChange {
            range: Some(range(0, 15, 0, 16)),
            text: String::from("20"),
        },
    ];
    incremental.update(&uri, 2, steps).unwrap();
    let final_text = incremental.get_text(&uri).unwrap();

    full.update(
        &uri,
        2,
        vec![TextChange {
            range: None,
            text: final_text.clone(),
        }],
    )
    .unwrap();
    assert_eq!(full.get_text(&uri), Some(final_text));
}

#[test]
fn test_store_update_missing_is_not_found() {
    let mut store = DocumentStore::new();
    let r = store.update(&String::from("file:///nope"), 1, vec![]);
    assert_eq!(r, Err(DocError::NotFound));
}

#[test]
fn test_store_update_out_of_bounds_changes_nothing() {
    let mut store = DocumentStore::new();
    let uri = String::from("file:///d.json");
    store.open(uri.clone(), 1, String::from("{}"));
    let r = store.update(
        &uri,
        2,
        vec![TextChange {
            range: Some(range(7, 0, 7, 1)),
            text: String::from("x"),
        }],
    );
    assert_eq!(r, Err(DocError::RangeOutOfBounds));
    assert_eq!(store.get_text(&uri), Some(String::from("{}")));
}

#[test]
fn test_store_update_reextracts_schema_url() {
    let mut store = DocumentStore::new();
    let uri = String::from("file:///e.json");
    store.open(uri.clone(), 1, String::from("{}"));
    assert_eq!(store.get_schema_url(&uri), None);
    store
        .update(
            &uri,
            2,
            vec![TextChange {
                range: None,
                text: String::from(r#"{"$schema": "https://example.com/s.json"}"#),
            }],
        )
        .unwrap();
    assert_eq!(
        store.get_schema_url(&uri),
        Some(String::from("https://example.com/s.json"))
    );
}

#[test]
fn test_store_close_removes() {
    let mut store = DocumentStore::new();
    let uri = String::from("file:///f.json");
    store.open(uri.clone(), 1, String::from("{}"));
    store.close(&uri);
    assert_eq!(store.get_text(&uri), None);
}
