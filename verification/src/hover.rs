//! The hover handler's core: classify the cursor, navigate the schema, and
//! render the hover markdown. The surrounding transport hands in the text and
//! the already fetched schema and sends the markdown back.

use vstd::prelude::*;

verus! {

use vstd::string::StrSliceExecFns;
use vstd::string::StringSliceAdditionalSpecFns;
use crate::json::JsonValue;
use crate::navigator::SchemaNode;
use crate::navigator::spec_navigate;
use crate::navigator::spec_resolved;
use crate::navigator::spec_description;
use crate::navigator::spec_type_info;
use crate::navigator::spec_default_text;
use crate::navigator::spec_enum_of;
use crate::navigator::spec_examples;
use crate::navigator::spec_markdown_fields;
use crate::position::PositionContext;
use crate::position::SpecCtx;
use crate::position::spec_classify;
use crate::position::position_to_context;

/// The markdown of the node a path names, empty when the node offers
/// nothing to show.
pub open spec fn spec_node_markdown(root: JsonValue, node: JsonValue) -> Seq<char> {
    let res = spec_resolved(root, node);
    spec_markdown_fields(
        spec_description(res),
        spec_type_info(res),
        spec_default_text(res),
        spec_enum_of(res),
        spec_examples(res),
    )
}

/// The hover markdown for a cursor: only a key or value context names a
/// schema node; an empty rendering yields no hover.
pub open spec fn spec_hover_markdown(
    root: JsonValue,
    s: Seq<u8>,
    line: int,
    character: int,
) -> Option<Seq<char>> {
    match spec_classify(s, line, character) {
        SpecCtx::Key(path) => spec_hover_of_path(root, path),
        SpecCtx::Value(path) => spec_hover_of_path(root, path),
        _ => None,
    }
}

pub open spec fn spec_hover_of_path(root: JsonValue, path: Seq<crate::position::SpecSeg>) -> Option<
    Seq<char>,
> {
    match spec_navigate(root, root, path) {
        Some(node) => {
            let md = spec_node_markdown(root, node);
            if md.len() == 0 {
                None
            } else {
                Some(md)
            }
        },
        None => None,
    }
}

/// Render the hover for a cursor position against a schema document.
pub fn handle_hover(schema: &JsonValue, text: &str, line: u32, character: u32) -> (r: Option<
    String,
>)
    ensures
        match r {
            Some(md) => spec_hover_markdown(*schema, text.spec_bytes(), line as int, character as int)
                == Some(md@),
            None => spec_hover_markdown(
                *schema,
                text.spec_bytes(),
                line as int,
                character as int,
            ) is None,
        },
{
    let context = position_to_context(text, line, character);
    let path = match context {
        PositionContext::Key { path } => path,
        PositionContext::Value { path } => path,
        _ => {
            return None;
        },
    };
    let root_node = SchemaNode::new(schema, schema);
    let node = match root_node.navigate(&path) {
        Some(n) => n,
        None => {
            return None;
        },
    };
    let info = node.hover_info();
    let markdown = info.to_markdown();
    if markdown.as_str().unicode_len() == 0 {
        return None;
    }
    Some(markdown)
}

} // verus!
