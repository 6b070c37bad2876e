//! The ways in which loading or saving a record fails.
use vstd::prelude::*;

verus! {

/// An error of the file system, carried through unchanged.
#[verifier::external_type_specification]
#[verifier::external_body]
pub struct ExIoError(std::io::Error);

/// An error of the JSON encoder or decoder, carried through unchanged.
#[verifier::external_type_specification]
#[verifier::external_body]
pub struct ExJsonError(serde_json::Error);

/// Why loading or saving a record failed.
pub enum DataFileError {
    /// A file system operation failed.
    Io(std::io::Error),
    /// No file existed yet: one holding the default record was written in its
    /// place, and the caller asked to be told rather than to get that record.
    NewEmptyFileCreated,
    /// The text is not the JSON encoding of a record, or a record could not be
    /// encoded.
    Serde(serde_json::Error),
}

} // verus!
