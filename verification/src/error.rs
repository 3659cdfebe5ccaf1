//! Crate-wide error taxonomy.

use vstd::prelude::*;

verus! {

/// Result alias used by every fallible operation of the crate.
pub type ParsleyResult<T> = Result<T, ParsleyError>;

/// Why a decode or encode operation failed.
///
/// The variant tells the caller which layer went wrong: the payload's own
/// syntax, the base schema, the extension schema, or a value that the output
/// encoding cannot represent.  The carried string is the diagnostic detail.
#[derive(Debug, PartialEq, Eq)]
pub enum ParsleyError {
    /// The input is not syntactically valid JSON.
    MalformedPayload(String),
    /// The payload is valid JSON but violates the base schema's required
    /// shape (a required field is missing or mistyped).
    BaseSchemaInvalid(String),
    /// An extension-schema field is present in the payload but ill-typed.
    ExtensionSchemaInvalid(String),
    /// A value has no representation in the output encoding, such as a
    /// required duration that is absent at encode time.
    UnencodableField(String),
    /// A Docker-artifact failure reported by a surrounding workflow.
    Docker(crate::docker::error::Error),
}

} // verus!
