//! Semantic core of an editor service for a plain-text task-list notation:
//! the line index and position mapping, the syntax model, the contextual
//! diagnostic rules, cursor resolution and completion, and the document cache.
use vstd::prelude::*;

pub mod text_index;
pub mod position;
pub mod document;
pub mod syntax;
pub mod calendar;
pub mod model;
pub mod diagnostics;
pub mod completion;
pub mod cache;
pub mod format;
pub mod equivalence;

verus! {

/// The version of this library.
pub fn version() -> (r: String)
    ensures
        r@ == "0.1.0"@,
{
    String::from_str("0.1.0")
}

} // verus!
