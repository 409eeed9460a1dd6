//! Core of a JSON language server: a tolerant position classifier, a schema
//! navigator, a document store, a schema cache model and a diagnostics
//! scheduler model, with machine-checked contracts.

pub mod completion;
pub mod config;
pub mod diagnostics;
pub mod document;
pub mod hover;
pub mod json;
pub mod navigator;
pub mod position;
pub mod schema_cache;
pub mod scheduler;

use vstd::prelude::*;

verus! {

} // verus!
