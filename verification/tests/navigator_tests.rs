use json_ls::json::{JsonMember, JsonValue};
use json_ls::navigator::{regex_lite_match, SchemaNode};
use json_ls::position::PathSegment;

fn jtext(s: &str) -> JsonValue {
    JsonValue::Text(s.to_string())
}

fn jnum(s: &str) -> JsonValue {
    JsonValue::Number(s.to_string())
}

fn jobj(members: Vec<(&str, JsonValue)>) -> JsonValue {
    JsonValue::Object(
        members
            .into_iter()
            .map(|(k, v)| JsonMember {
                key: k.to_string(),
                value: v,
            })
            .collect(),
    )
}

fn jarr(items: Vec<JsonValue>) -> JsonValue {
    JsonValue::Array(items)
}

fn type_of(v: &JsonValue) -> Option<&str> {
    match v.get("type") {
        Some(JsonValue::Text(s)) => Some(s.as_str()),
        _ => None,
    }
}

fn make_schema() -> JsonValue {
    jobj(vec![
        ("$schema", jtext("http://json-schema.org/draft-07/schema#")),
        ("type", jtext("object")),
        (
            "properties",
            jobj(vec![
                (
                    "name",
                    jobj(vec![
                        ("type", jtext("string")),
                        ("description", jtext("The name of the thing")),
                    ]),
                ),
                (
                    "count",
                    jobj(vec![
                        ("type", jtext("integer")),
                        ("default", jnum("0")),
                        ("description", jtext("How many")),
                    ]),
                ),
                (
                    "tags",
                    jobj(vec![
                        ("type", jtext("array")),
                        ("items", jobj(vec![("type", jtext("string"))])),
                    ]),
                ),
                (
                    "nested",
                    jobj(vec![
                        ("type", jtext("object")),
                        (
                            "properties",
                            jobj(vec![("inner", jobj(vec![("type", jtext("boolean"))]))]),
                        ),
                    ]),
                ),
            ]),
        ),
    ])
}

#[test]
fn test_navigate_to_property() {
    let schema = make_schema();
    let node = SchemaNode::new(&schema, &schema);

    let path = vec![PathSegment::Key("name".into())];
    let result = node.navigate(&path);
    assert!(result.is_some());
    let result = result.unwrap();
    assert_eq!(type_of(result.schema), Some("string"));
}

#[test]
fn test_navigate_nested() {
    let schema = make_schema();
    let node = SchemaNode::new(&schema, &schema);

    let path = vec![
        PathSegment::Key("nested".into()),
        PathSegment::Key("inner".into()),
    ];
    let result = node.navigate(&path);
    assert!(result.is_some());
    let result = result.unwrap();
    assert_eq!(type_of(result.schema), Some("boolean"));
}

#[test]
fn test_navigate_array_items() {
    let schema = make_schema();
    let node = SchemaNode::new(&schema, &schema);

    let path = vec![PathSegment::Key("tags".into()), PathSegment::Index(0)];
    let result = node.navigate(&path);
    assert!(result.is_some());
    let result = result.unwrap();
    assert_eq!(type_of(result.schema), Some("string"));
}

#[test]
fn test_property_names() {
    let schema = make_schema();
    let node = SchemaNode::new(&schema, &schema);
    let names = node.property_names();
    assert!(names.contains(&"name".to_owned()));
    assert!(names.contains(&"count".to_owned()));
    assert!(names.contains(&"tags".to_owned()));
    assert!(names.contains(&"nested".to_owned()));
}

#[test]
fn test_property_names_sorted_and_deduplicated() {
    let schema = jobj(vec![
        ("properties", jobj(vec![("b", jobj(vec![])), ("a", jobj(vec![]))])),
        (
            "allOf",
            jarr(vec![jobj(vec![(
                "properties",
                jobj(vec![("a", jobj(vec![])), ("c", jobj(vec![]))]),
            )])]),
        ),
    ]);
    let node = SchemaNode::new(&schema, &schema);
    let names = node.property_names();
    assert_eq!(names, vec!["a".to_owned(), "b".to_owned(), "c".to_owned()]);
}

#[test]
fn test_hover_info() {
    let schema = make_schema();
    let node = SchemaNode::new(&schema, &schema);
    let path = vec![PathSegment::Key("count".into())];
    let result = node.navigate(&path).unwrap();
    let info = result.hover_info();
    assert_eq!(info.description.as_deref(), Some("How many"));
    assert_eq!(info.type_info.as_deref(), Some("integer"));
    assert_eq!(info.default.as_deref(), Some("0"));
}

#[test]
fn test_hover_markdown_layout() {
    let schema = make_schema();
    let node = SchemaNode::new(&schema, &schema);
    let path = vec![PathSegment::Key("count".into())];
    let info = node.navigate(&path).unwrap().hover_info();
    let md = info.to_markdown();
    assert_eq!(md, "How many\n\n**Type:** `integer`\n\n**Default:** `0`");
}

#[test]
fn test_ref_resolution() {
    let schema = jobj(vec![
        (
            "definitions",
            jobj(vec![(
                "MyType",
                jobj(vec![
                    ("type", jtext("string")),
                    ("description", jtext("A referenced type")),
                ]),
            )]),
        ),
        ("type", jtext("object")),
        (
            "properties",
            jobj(vec![(
                "value",
                jobj(vec![("$ref", jtext("#/definitions/MyType"))]),
            )]),
        ),
    ]);

    let node = SchemaNode::new(&schema, &schema);
    let path = vec![PathSegment::Key("value".into())];
    let result = node.navigate(&path);
    assert!(result.is_some());
    let result = result.unwrap();
    let info = result.hover_info();
    assert_eq!(info.description.as_deref(), Some("A referenced type"));
}

#[test]
fn test_enum_values() {
    let schema = jobj(vec![
        ("type", jtext("object")),
        (
            "properties",
            jobj(vec![(
                "status",
                jobj(vec![
                    ("type", jtext("string")),
                    (
                        "enum",
                        jarr(vec![jtext("active"), jtext("inactive"), jtext("pending")]),
                    ),
                ]),
            )]),
        ),
    ]);

    let node = SchemaNode::new(&schema, &schema);
    let path = vec![PathSegment::Key("status".into())];
    let result = node.navigate(&path).unwrap();
    let vals = result.enum_values();
    assert_eq!(vals, vec!["\"active\"", "\"inactive\"", "\"pending\""]);
}

#[test]
fn test_cycle_detection() {
    // A schema whose `$ref` points at itself must not navigate forever.
    let schema = jobj(vec![
        ("type", jtext("object")),
        (
            "properties",
            jobj(vec![("child", jobj(vec![("$ref", jtext("#"))]))]),
        ),
    ]);

    let node = SchemaNode::new(&schema, &schema);
    let path = vec![
        PathSegment::Key("child".into()),
        PathSegment::Key("child".into()),
        PathSegment::Key("child".into()),
    ];
    let _ = node.navigate(&path);
}

#[test]
fn test_pattern_properties_anchor_and_substring() {
    assert_eq!(regex_lite_match("^x-", "x-extension"), Ok(true));
    assert_eq!(regex_lite_match("^x-", "not-x-"), Ok(false));
    assert_eq!(regex_lite_match("ern", "pattern"), Ok(true));
    assert_eq!(regex_lite_match("zzz", "pattern"), Ok(false));

    let schema = jobj(vec![(
        "patternProperties",
        jobj(vec![("^x-", jobj(vec![("type", jtext("string"))]))]),
    )]);
    let node = SchemaNode::new(&schema, &schema);
    let path = vec![PathSegment::Key("x-custom".into())];
    let result = node.navigate(&path).unwrap();
    assert_eq!(type_of(result.schema), Some("string"));
}

#[test]
fn test_additional_properties_fallback() {
    let schema = jobj(vec![(
        "additionalProperties",
        jobj(vec![("type", jtext("number"))]),
    )]);
    let node = SchemaNode::new(&schema, &schema);
    let path = vec![PathSegment::Key("anything".into())];
    let result = node.navigate(&path).unwrap();
    assert_eq!(type_of(result.schema), Some("number"));
}

#[test]
fn test_prefix_items_by_index() {
    let schema = jobj(vec![(
        "prefixItems",
        jarr(vec![
            jobj(vec![("type", jtext("string"))]),
            jobj(vec![("type", jtext("integer"))]),
        ]),
    )]);
    let node = SchemaNode::new(&schema, &schema);
    let result = node.navigate(&vec![PathSegment::Index(1)]).unwrap();
    assert_eq!(type_of(result.schema), Some("integer"));
    assert!(node.navigate(&vec![PathSegment::Index(5)]).is_none());
}

#[test]
fn test_combinator_fanout() {
    let schema = jobj(vec![(
        "anyOf",
        jarr(vec![jobj(vec![(
            "properties",
            jobj(vec![("deep", jobj(vec![("type", jtext("boolean"))]))]),
        )])]),
    )]);
    let node = SchemaNode::new(&schema, &schema);
    let result = node.navigate(&vec![PathSegment::Key("deep".into())]).unwrap();
    assert_eq!(type_of(result.schema), Some("boolean"));
}

#[test]
fn test_schema_type_of_node() {
    let schema = make_schema();
    let node = SchemaNode::new(&schema, &schema);
    assert_eq!(node.schema_type(), Some("object".to_string()));
}

#[test]
fn test_navigate_composes_over_split_paths() {
    // Navigating a concatenated path agrees with navigating its two halves
    // one after the other.
    let schema = make_schema();
    let node = SchemaNode::new(&schema, &schema);

    let whole = vec![
        PathSegment::Key("nested".into()),
        PathSegment::Key("inner".into()),
    ];
    let direct = node.navigate(&whole).unwrap();

    let first = node.navigate(&vec![PathSegment::Key("nested".into())]).unwrap();
    let second = first.navigate(&vec![PathSegment::Key("inner".into())]).unwrap();

    assert_eq!(type_of(direct.schema), type_of(second.schema));
    assert_eq!(type_of(second.schema), Some("boolean"));
}
