//! Errors surfaced by module resolution and area generation.

use vstd::prelude::*;

verus! {

/// A fatal failure: construction or generation stops and nothing partial is
/// handed to the caller.
#[derive(Debug, Clone, PartialEq, Eq)]
pub enum GenError {
    /// A parameter object referenced a named entity that the owning module
    /// cannot resolve.  `kind` labels the table that was searched (for
    /// example "WallKind"), `id` is the reference that failed.
    UnresolvedReference { kind: String, id: String },
    /// The maze's room and corridor constraints could not be satisfied
    /// within the bounded number of internal attempts.
    GenerationFailed,
    /// A parameter or dimension was structurally unusable (an empty grid, a
    /// weight table whose total cannot be represented).
    InvalidData,
    /// A lookup by id found nothing.
    NotFound,
}

impl GenError {
    /// True for the unresolved-reference variant with exactly this kind
    /// label and id.
    pub open spec fn spec_is_unresolved(&self, kind: Seq<char>, id: Seq<char>) -> bool {
        match self {
            GenError::UnresolvedReference { kind: k, id: i } => k@ == kind && i@ == id,
            _ => false,
        }
    }
}

} // verus!
