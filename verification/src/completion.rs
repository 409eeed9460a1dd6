//! The completion handler's core: classify the cursor, then offer property
//! names at a key position and enum values or type snippets at a value
//! position. The surrounding transport hands in the text and the already
//! fetched schema.

use vstd::prelude::*;

verus! {

use vstd::string::StrSliceExecFns;
use vstd::string::StringSliceAdditionalSpecFns;
use vstd::string::StringExecFns;
use crate::json::JsonValue;
use crate::navigator::SchemaNode;
use crate::navigator::spec_navigate;
use crate::navigator::spec_resolved;
use crate::navigator::spec_description;
use crate::navigator::spec_type_info;
use crate::navigator::spec_schema_type;
use crate::navigator::spec_enum_values;
use crate::navigator::spec_prop_names;
use crate::navigator::spec_budget;
use crate::navigator::spec_str_lt;
use crate::navigator::seq_contains_str;
use crate::navigator::strs_view;
use crate::navigator::opt_str_view;
use crate::position::PositionContext;
use crate::position::SpecCtx;
use crate::position::SpecSeg;
use crate::position::PathSegment;
use crate::position::spec_classify;
use crate::position::position_to_context;
use crate::position::segs_view;

/// The kind of a completion item: a property of an object, or a value.
#[derive(Debug, Clone, Copy, PartialEq, Eq, Structural)]
pub enum CompletionKind {
    Field,
    Value,
}

/// One completion item.
#[derive(Debug)]
pub struct CompletionEntry {
    pub label: String,
    pub kind: CompletionKind,
    pub detail: Option<String>,
    pub documentation: Option<String>,
    pub insert_text: String,
    pub is_snippet: bool,
}

/// The node completions start from at a key position: the raw root for the
/// empty path, else the navigated node.
pub open spec fn spec_parent_of(root: JsonValue, path: Seq<SpecSeg>) -> Option<JsonValue> {
    if path.len() == 0 {
        Some(root)
    } else {
        spec_navigate(root, root, path)
    }
}

/// In a key context the final segment is the key being edited: the names on
/// offer are those of its parent.
pub open spec fn spec_parent_path(path: Seq<SpecSeg>) -> Seq<SpecSeg> {
    if path.len() > 0 {
        path.drop_last()
    } else {
        path
    }
}

/// What one property completion must hold: a field item whose insert text is
/// the name, closing quote and colon (with the opening quote only when the
/// cursor sits before one), and whose detail and documentation come from the
/// field's own schema.
pub open spec fn spec_key_entry_ok(
    root: JsonValue,
    parent: JsonValue,
    e: CompletionEntry,
    quote: bool,
) -> bool {
    &&& e.kind is Field
    &&& !e.is_snippet
    &&& e.insert_text@ == (if quote {
        seq!['"']
    } else {
        Seq::<char>::empty()
    }) + e.label@ + "\": "@
    &&& match spec_navigate(root, parent, seq![SpecSeg::Key(e.label@)]) {
        Some(c) => opt_str_view(e.detail) == spec_type_info(spec_resolved(root, c))
            && opt_str_view(e.documentation) == spec_description(spec_resolved(root, c)),
        None => e.detail is None && e.documentation is None,
    }
}

/// What the property completions of a parent node must hold together: one
/// entry per offered name, strictly sorted.
pub open spec fn spec_key_completions_ok(
    root: JsonValue,
    parent: JsonValue,
    es: Seq<CompletionEntry>,
    quote: bool,
) -> bool {
    &&& es.len() > 0
    &&& forall|i: int, j: int| 0 <= i < j < es.len() ==> spec_str_lt(
        (#[trigger] es[i]).label@,
        (#[trigger] es[j]).label@,
    )
    &&& forall|x: Seq<char>|
        (exists|i: int| 0 <= i < es.len() && (#[trigger] es[i]).label@ == x) == seq_contains_str(
            spec_prop_names(root, parent, spec_budget(root, 0)),
            x,
        )
    &&& forall|i: int| 0 <= i < es.len() ==> spec_key_entry_ok(root, parent, #[trigger] es[i], quote)
}

/// What the value completions of a node must hold: its enum values verbatim,
/// or the snippet for its type.
pub open spec fn spec_value_completions_ok(
    root: JsonValue,
    node: JsonValue,
    es: Seq<CompletionEntry>,
) -> bool {
    let vals = spec_enum_values(root, node);
    if vals.len() > 0 {
        &&& es.len() == vals.len()
        &&& forall|i: int| 0 <= i < es.len() ==> {
            let e = #[trigger] es[i];
            e.label@ == vals[i] && e.insert_text@ == vals[i] && e.kind is Value && !e.is_snippet
                && e.detail is None && e.documentation is None
        }
    } else {
        match spec_schema_type(root, node) {
            Some(t) => if t == "boolean"@ {
                es.len() == 2 && spec_snippet_ok(es[0], "true"@, "true"@) && spec_snippet_ok(
                    es[1],
                    "false"@,
                    "false"@,
                )
            } else if t == "null"@ {
                es.len() == 1 && spec_snippet_ok(es[0], "null"@, "null"@)
            } else if t == "array"@ {
                es.len() == 1 && spec_snippet_ok(es[0], "[]"@, "[$1]"@)
            } else if t == "object"@ {
                es.len() == 1 && spec_snippet_ok(es[0], "{}"@, "{$1}"@)
            } else if t == "string"@ {
                es.len() == 1 && spec_snippet_ok(es[0], "\"\""@, "\"$1\""@)
            } else {
                es.len() == 0
            },
            None => es.len() == 0,
        }
    }
}

pub open spec fn spec_snippet_ok(e: CompletionEntry, label: Seq<char>, insert: Seq<char>) -> bool {
    e.label@ == label && e.insert_text@ == insert && e.kind is Value && e.is_snippet && e.detail
        is None && e.documentation is None
}

/// Offer completions for a cursor position against a schema document. The
/// result is absent for an unclassifiable position, a failed navigation, or
/// when there is nothing to offer.
pub fn handle_completion(schema: &JsonValue, text: &str, line: u32, character: u32) -> (r: Option<
    Vec<CompletionEntry>,
>)
    ensures
        ({
            let root = *schema;
            match spec_classify(text.spec_bytes(), line as int, character as int) {
                SpecCtx::Key(path) => spec_key_result_ok(root, spec_parent_path(path), false, r),
                SpecCtx::KeyStart(path) => spec_key_result_ok(root, path, true, r),
                SpecCtx::Value(path) => spec_value_result_ok(root, path, r),
                SpecCtx::ValueStart(path) => spec_value_result_ok(root, path, r),
                SpecCtx::Unknown => r is None,
            }
        }),
{
    let context = position_to_context(text, line, character);
    match context {
        PositionContext::Key { path } => {
            // The final segment is the key under the cursor; names come from
            // its parent.
            let ghost full = path@;
            let mut parent_path = path;
            if parent_path.len() > 0 {
                parent_path.pop();
                proof {
                    assert(segs_view(parent_path@) =~= spec_parent_path(segs_view(full)));
                }
            }
            key_completions(schema, &parent_path, false)
        },
        PositionContext::KeyStart { path } => key_completions(schema, &path, true),
        PositionContext::Value { path } => value_completions_at(schema, &path),
        PositionContext::ValueStart { path } => value_completions_at(schema, &path),
        PositionContext::Unknown => None,
    }
}

pub open spec fn spec_key_result_ok(
    root: JsonValue,
    path: Seq<SpecSeg>,
    quote: bool,
    r: Option<Vec<CompletionEntry>>,
) -> bool {
    match spec_parent_of(root, path) {
        Some(parent) => match r {
            Some(es) => spec_key_completions_ok(root, parent, es@, quote),
            None => !(exists|x: Seq<char>|
                seq_contains_str(spec_prop_names(root, parent, spec_budget(root, 0)), x)),
        },
        None => r is None,
    }
}

pub open spec fn spec_value_result_ok(
    root: JsonValue,
    path: Seq<SpecSeg>,
    r: Option<Vec<CompletionEntry>>,
) -> bool {
    match spec_navigate(root, root, path) {
        Some(node) => match r {
            Some(es) => es@.len() > 0 && spec_value_completions_ok(root, node, es@),
            None => spec_value_completions_ok(root, node, Seq::<CompletionEntry>::empty()),
        },
        None => r is None,
    }
}

fn key_completions(schema: &JsonValue, path: &Vec<PathSegment>, quote: bool) -> (r: Option<Vec<
    CompletionEntry,
>>)
    ensures
        spec_key_result_ok(*schema, segs_view(path@), quote, r),
{
    let root_node = SchemaNode::new(schema, schema);
    let parent: SchemaNode = if path.len() == 0 {
        proof {
            assert(segs_view(path@).len() == 0);
        }
        SchemaNode::new(schema, schema)
    } else {
        match root_node.navigate(path) {
            Some(n) => n,
            None => {
                return None;
            },
        }
    };
    let names = parent.property_names();
    if names.len() == 0 {
        proof {
            assert forall|x: Seq<char>|
                !seq_contains_str(
                    spec_prop_names(*schema, *parent.schema, spec_budget(*schema, 0)),
                    x,
                ) by {
                if seq_contains_str(
                    spec_prop_names(*schema, *parent.schema, spec_budget(*schema, 0)),
                    x,
                ) {
                    assert(seq_contains_str(strs_view(names@), x));
                }
            }
        }
        return None;
    }
    let mut es: Vec<CompletionEntry> = Vec::new();
    let mut i: usize = 0;
    while i < names.len()
        invariant
            i <= names@.len(),
            es@.len() == i,
            forall|k: int| 0 <= k < i ==> (#[trigger] es@[k]).label@ == names@[k]@,
            forall|k: int| 0 <= k < i ==> spec_key_entry_ok(
                *schema,
                *parent.schema,
                #[trigger] es@[k],
                quote,
            ),
            parent.root == schema,
        decreases names@.len() - i,
    {
        let name = names[i].clone();
        let mut seg_path: Vec<PathSegment> = Vec::new();
        seg_path.push(PathSegment::Key(name.clone()));
        proof {
            assert(segs_view(seg_path@) =~= seq![SpecSeg::Key(name@)]);
        }
        let (detail, documentation) = match parent.navigate(&seg_path) {
            Some(child) => {
                let info = child.hover_info();
                (info.type_info, info.description)
            },
            None => (None, None),
        };
        let mut insert_text = if quote {
            String::from_str("\"")
        } else {
            String::new()
        };
        proof {
            reveal_strlit("\"");
        }
        insert_text.append(name.as_str());
        insert_text.append("\": ");
        proof {
            assert(insert_text@ =~= (if quote {
                seq!['"']
            } else {
                Seq::<char>::empty()
            }) + name@ + "\": "@);
        }
        es.push(
            CompletionEntry {
                label: name,
                kind: CompletionKind::Field,
                detail,
                documentation,
                insert_text,
                is_snippet: false,
            },
        );
        i = i + 1;
    }
    proof {
        assert forall|x: Seq<char>|
            (exists|k: int| 0 <= k < es@.len() && (#[trigger] es@[k]).label@ == x)
                == seq_contains_str(
                spec_prop_names(*schema, *parent.schema, spec_budget(*schema, 0)),
                x,
            ) by {
            if exists|k: int| 0 <= k < es@.len() && (#[trigger] es@[k]).label@ == x {
                let k = choose|k: int| 0 <= k < es@.len() && (#[trigger] es@[k]).label@ == x;
                assert(strs_view(names@)[k] == x);
                assert(seq_contains_str(strs_view(names@), x));
            }
            if seq_contains_str(spec_prop_names(*schema, *parent.schema, spec_budget(*schema, 0)), x) {
                assert(seq_contains_str(strs_view(names@), x));
                let k = choose|k: int|
                    0 <= k < strs_view(names@).len() && strs_view(names@)[k] == x;
                assert(names@[k]@ == x);
                assert(es@[k].label@ == x);
            }
        }
    }
    Some(es)
}

fn value_completions_at(schema: &JsonValue, path: &Vec<PathSegment>) -> (r: Option<Vec<
    CompletionEntry,
>>)
    ensures
        spec_value_result_ok(*schema, segs_view(path@), r),
{
    let root_node = SchemaNode::new(schema, schema);
    let node = match root_node.navigate(path) {
        Some(n) => n,
        None => {
            return None;
        },
    };
    let vals = node.enum_values();
    if vals.len() > 0 {
        let mut es: Vec<CompletionEntry> = Vec::new();
        let mut i: usize = 0;
        while i < vals.len()
            invariant
                i <= vals@.len(),
                es@.len() == i,
                forall|k: int| 0 <= k < i ==> {
                    let e = #[trigger] es@[k];
                    e.label@ == vals@[k]@ && e.insert_text@ == vals@[k]@ && e.kind is Value
                        && !e.is_snippet && e.detail is None && e.documentation is None
                },
            decreases vals@.len() - i,
        {
            es.push(
                CompletionEntry {
                    label: vals[i].clone(),
                    kind: CompletionKind::Value,
                    detail: None,
                    documentation: None,
                    insert_text: vals[i].clone(),
                    is_snippet: false,
                },
            );
            i = i + 1;
        }
        proof {
            assert(strs_view(vals@).len() == vals@.len());
        }
        return Some(es);
    }
    let es: Vec<CompletionEntry> = match node.schema_type() {
        Some(t) => {
            if t == String::from_str("boolean") {
                let mut v = Vec::new();
                v.push(make_snippet("true", "true"));
                v.push(make_snippet("false", "false"));
                v
            } else if t == String::from_str("null") {
                let mut v = Vec::new();
                v.push(make_snippet("null", "null"));
                v
            } else if t == String::from_str("array") {
                let mut v = Vec::new();
                v.push(make_snippet("[]", "[$1]"));
                v
            } else if t == String::from_str("object") {
                let mut v = Vec::new();
                v.push(make_snippet("{}", "{$1}"));
                v
            } else if t == String::from_str("string") {
                let mut v = Vec::new();
                v.push(make_snippet("\"\"", "\"$1\""));
                v
            } else {
                Vec::new()
            }
        },
        None => Vec::new(),
    };
    proof {
        assert(strs_view(vals@).len() == 0);
    }
    if es.len() == 0 {
        return None;
    }
    Some(es)
}

fn make_snippet(label: &str, insert_text: &str) -> (e: CompletionEntry)
    ensures
        e.label@ == label@,
        e.insert_text@ == insert_text@,
        e.kind is Value,
        e.is_snippet,
        e.detail is None,
        e.documentation is None,
{
    CompletionEntry {
        label: String::from_str(label),
        kind: CompletionKind::Value,
        detail: None,
        documentation: None,
        insert_text: String::from_str(insert_text),
        is_snippet: true,
    }
}

} // verus!
