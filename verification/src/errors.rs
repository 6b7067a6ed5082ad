//! The closed error taxonomy of the fetch boundary.

use vstd::prelude::*;

verus! {

/// Why a fetch produced no height this tick. Every absence of a signal
/// is attributable to exactly one of these reasons; none of them ever
/// escapes a tick.
#[derive(Clone, Copy, Debug, PartialEq, Eq, Structural)]
pub enum FetchError {
    /// The network call itself failed.
    Transport,
    /// The endpoint answered, but not successfully or not with
    /// structured data.
    Response,
    /// The expected field or collection is missing or empty.
    DataShape,
    /// A value was present but could not be read as a height.
    ValueParse,
    /// A required credential was absent.
    Configuration,
}

/// What a response body's structure offered, as the JSON reader saw it:
/// either not parseable at all, or parseable but without the expected
/// field in the expected place.
#[derive(Clone, Copy, Debug, PartialEq, Eq, Structural)]
pub enum JsonShapeError {
    NotJson,
    MissingField,
}

} // verus!
