//! Errors of the denormalizer and of the renderer.
use vstd::prelude::*;

verus! {

/// What is wrong with a field of the nested input shape.
#[derive(PartialEq, Eq, Structural, Clone, Copy, Debug)]
pub enum ShapeProblem {
    /// No column of that name.
    Missing,
    /// The column has another kind than the shape asks for.
    WrongKind,
    /// The column's values do not cover the batch's rows.
    BadLength,
}

#[derive(Debug)]
pub enum CoreError {
    /// A field of the nested input shape, named by its dotted path, is absent
    /// or malformed.
    SchemaMismatch { field: String, problem: ShapeProblem },
    /// A column kind that has no text rendering, named by its type.
    UnsupportedType { kind: String },
}

} // verus!
