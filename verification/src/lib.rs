//! Structural type-schema inference for JSON-like documents.
//!
//! Given one decoded document tree, the crate infers a [`UnionType`]
//! describing every position of the document (which primitive kinds were
//! observed, the accumulated object shape, the union of array element
//! types) and renders the result as a deterministic, de-duplicated list of
//! record declarations with hierarchy-encoding identifiers.

use vstd::prelude::*;

pub mod infer;
pub mod laws;
pub mod model;
pub mod order;
pub mod render;
pub mod types;

pub use infer::{value_to_type, Value};
pub use model::TypeModel;
pub use render::{print_object_type, print_object_types, to_ident, to_struct_ident,
    union_type_string};
pub use types::{ObjectType, UnionType};

verus! {

/// Analyze one decoded document: infer the type of every position and
/// render the record declarations, in pre-order, under the root
/// identifier `root`.
pub fn analyze(root: &Value) -> (r: Vec<String>)
    ensures
        render::strings_model(r@) == render::decls_of("root"@, infer::infer_model(*root)),
{
    let root_type = value_to_type(root);
    print_object_types("root", &root_type)
}

} // verus!
