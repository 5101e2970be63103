//! The ways a decode can fail. Encoding a well-formed value never fails.

use vstd::prelude::*;

verus! {

/// Why a piece of wire text was rejected. Unknown extra object keys are
/// never an error; unknown tokens for the closed enum sets always are.
#[derive(Clone, Copy, Debug, PartialEq, Eq, Structural)]
pub enum DecodeError {
    /// The input is not valid JSON at all.
    MalformedJson,
    /// The `type` field names none of the recognized message kinds.
    UnknownMessageType,
    /// A required key for the recognized kind is absent.
    MissingRequiredField,
    /// A key for the recognized kind holds the wrong kind of JSON value.
    WrongFieldKind,
    /// A metric's `type` names neither recognized metric kind.
    UnknownMetricType,
    /// A catalog, stream or metadata field has the wrong kind of value.
    SchemaViolation,
}

} // verus!
