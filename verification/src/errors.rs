//! Error kinds surfaced by the library.

use serde_json::Error as JsonError;
use vstd::prelude::*;
use vstd::std_specs::convert::FromSpecImpl;
use vstd::string::StringExecFns;

verus! {

/// Failures of value validation.
#[derive(Debug, Clone, Copy, PartialEq, Eq, Structural)]
pub enum ValidationError {
    /// The value is malformed (empty tag, weight out of range).
    InvalidValue,
    /// A bounded string is longer than its limit.
    ValueTooLong,
    /// The identifier is the greatest one and has no successor.
    CannotIncrementUuid,
}

impl ValidationError {
    /// The text shown for this error.
    pub open spec fn message_spec(self) -> Seq<char> {
        match self {
            ValidationError::InvalidValue => "invalid value"@,
            ValidationError::ValueTooLong => "value too long"@,
            ValidationError::CannotIncrementUuid => "could not increment the UUID"@,
        }
    }

    /// Renders the error as text.
    pub fn message(&self) -> (text: String)
        ensures
            text@ == self.message_spec(),
    {
        match self {
            ValidationError::InvalidValue => "invalid value".to_owned(),
            ValidationError::ValueTooLong => "value too long".to_owned(),
            ValidationError::CannotIncrementUuid => "could not increment the UUID".to_owned(),
        }
    }
}

/// `serde_json::Error`: what reading or writing JSON fails with.
#[verifier::external_type_specification]
#[verifier::external_body]
pub struct ExJsonError(JsonError);

/// The text that a JSON error shows: what went wrong, followed by the line
/// and column where the error has them.
pub uninterp spec fn json_error_text(inner: JsonError) -> Seq<char>;

/// The `Display` of `serde_json::Error`, through `to_string`.
#[verifier::external_body]
fn json_text(inner: &JsonError) -> (text: String)
    ensures
        text@ == json_error_text(*inner),
{
    inner.to_string()
}

/// Failures of the datastore.
#[derive(Debug)]
pub enum Error {
    /// JSON could not be read or written.
    Json { inner: JsonError },
    /// A freshly generated identifier is already in use.
    UuidTaken,
    /// An operation names a vertex that does not exist.
    VertexNotFound,
    /// An operation names an edge that does not exist.
    EdgeNotFound,
    /// A metadata key that was read has no value.
    MetadataNotFound,
    /// A value is malformed.
    InvalidValue,
    /// A bounded string is longer than its limit.
    ValueTooLong,
    /// The greatest identifier has no successor.
    CannotIncrementUuid,
    /// The connection string names a datastore that is not available.
    UnsupportedScheme,
    /// The datastore cannot perform the operation.
    Unsupported,
}

impl From<JsonError> for Error {
    fn from(err: JsonError) -> (made: Error) {
        Error::Json { inner: err }
    }
}

impl FromSpecImpl<JsonError> for Error {
    open spec fn obeys_from_spec() -> bool {
        true
    }

    open spec fn from_spec(err: JsonError) -> Error {
        Error::Json { inner: err }
    }
}

impl From<ValidationError> for Error {
    fn from(err: ValidationError) -> (made: Error) {
        match err {
            ValidationError::InvalidValue => Error::InvalidValue,
            ValidationError::ValueTooLong => Error::ValueTooLong,
            ValidationError::CannotIncrementUuid => Error::CannotIncrementUuid,
        }
    }
}

impl FromSpecImpl<ValidationError> for Error {
    open spec fn obeys_from_spec() -> bool {
        true
    }

    open spec fn from_spec(err: ValidationError) -> Error {
        match err {
            ValidationError::InvalidValue => Error::InvalidValue,
            ValidationError::ValueTooLong => Error::ValueTooLong,
            ValidationError::CannotIncrementUuid => Error::CannotIncrementUuid,
        }
    }
}

impl Error {
    /// The text shown for this error.
    pub open spec fn message_spec(self) -> Seq<char> {
        match self {
            Error::Json { inner } => "json error: "@ + json_error_text(inner),
            Error::UuidTaken => "UUID already taken"@,
            Error::VertexNotFound => "vertex does not exist"@,
            Error::EdgeNotFound => "edge does not exist"@,
            Error::MetadataNotFound => "metadata does not exist"@,
            Error::InvalidValue => "invalid value"@,
            Error::ValueTooLong => "value too long"@,
            Error::CannotIncrementUuid => "could not increment the UUID"@,
            Error::UnsupportedScheme => "unsupported datastore scheme"@,
            Error::Unsupported => "unsupported operation"@,
        }
    }

    /// Renders the error as text.
    pub fn message(&self) -> (text: String)
        ensures
            text@ == self.message_spec(),
    {
        match self {
            Error::Json { inner } => {
                let detail = json_text(inner);
                "json error: ".to_owned().concat(detail.as_str())
            },
            Error::UuidTaken => "UUID already taken".to_owned(),
            Error::VertexNotFound => "vertex does not exist".to_owned(),
            Error::EdgeNotFound => "edge does not exist".to_owned(),
            Error::MetadataNotFound => "metadata does not exist".to_owned(),
            Error::InvalidValue => "invalid value".to_owned(),
            Error::ValueTooLong => "value too long".to_owned(),
            Error::CannotIncrementUuid => "could not increment the UUID".to_owned(),
            Error::UnsupportedScheme => "unsupported datastore scheme".to_owned(),
            Error::Unsupported => "unsupported operation".to_owned(),
        }
    }
}

} // verus!
