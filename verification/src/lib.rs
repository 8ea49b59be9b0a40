//! HTML element extraction: a document model, a tolerant HTML parser, a CSS
//! selector parser, a tree matcher, and a serializer for matched elements.

use vstd::prelude::*;

pub mod dom;
pub mod engine;
pub mod html;
pub mod matcher;
pub mod render;
pub mod selector;
pub mod text;

verus! {

/// Paths are used as given on the platforms served here: no separator
/// rewriting takes place.
pub fn normalize_path(path: &str) -> (r: String)
    ensures
        r@ == path@,
{
    path.to_owned()
}

} // verus!
