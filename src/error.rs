//! Errors of catalog loading, schema parsing and model fetching.
use vstd::prelude::*;

verus! {

/// A document that does not have the expected shape.
#[derive(Debug, Clone, PartialEq, Eq)]
pub enum ParseError {
    /// A repository identifier without the `.` that separates its prefix.
    MalformedRepoName,
    /// A model document without its top-level key.
    EmptyDocument,
    /// A model document whose structure is not that of a schema.
    UnexpectedShape(String),
}

/// Why a model could not be had.
#[derive(Debug, Clone, PartialEq, Eq)]
pub enum FetchError {
    /// The document could not be retrieved.
    Transport(String),
    /// The document was retrieved but could not be read.
    Parse(ParseError),
}

} // verus!
