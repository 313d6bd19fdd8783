use vstd::prelude::*;

verus! {

/// The ways in which loading, parsing and rendering content can fail.
#[derive(Debug, Clone, PartialEq, Eq)]
pub enum ContentError {
    /// The file's extension or format does not match a renderer.
    UnsupportedFormat(String),
    /// The header holds none of its fields.
    InvalidHeader,
    /// A header opened with a comment marker that is never closed; holds the file path.
    MissingCommentTerminator(String),
    /// The header's date does not follow `YYYY-MM-DD HH:MM:SS[.fff]`; holds the file path.
    InvalidDate(String),
    /// A `<!--` in the body has no matching `-->`.
    UnterminatedComment,
}

} // verus!
