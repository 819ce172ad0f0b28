use vstd::prelude::*;

verus! {

/// Why a fetched response could not be turned into data.
#[derive(Clone, Copy, Debug, PartialEq, Eq, Structural)]
pub enum DataError {
    /// A timestamp is not RFC 3339, or names a leap second.
    MalformedTimestamp,
    /// A reading lacks its timestamp, temperature or humidity.
    MissingField,
    /// The body is not JSON of the expected shape.
    DecodeError,
    /// The server could not be reached or did not answer.
    TransportError,
}

} // verus!
