//! The head fetcher's parsing rules.
//!
//! The node provider answers the block-number query with a JSON body
//! whose `result` field holds a `0x`-prefixed hexadecimal block number.
//! Only that shape is accepted; anything else is a classified failure,
//! never a panic and never a silent coercion.

use vstd::prelude::*;

use crate::codec::{from_hex_str, hex_seq_value, is_hex_literal};
use crate::errors::{FetchError, JsonShapeError};
use crate::height::{height_limit, Height};

verus! {

/// What the node provider's response body holds: the string under its
/// `result` field, or the way its structure fell short. A function of
/// the body text alone.
pub uninterp spec fn head_field_of(body: Seq<char>) -> Result<Seq<char>, JsonShapeError>;

/// Relies on serde_json::from_str and serde_json::Value::{get, as_str}:
/// parses the body and reads the string under its `result` key; a
/// missing key and a non-string value are both a missing field.
#[verifier::external_body]
fn extract_head_field(body: &str) -> (r: Result<String, JsonShapeError>)
    ensures
        match r {
            Ok(s) => head_field_of(body@) == Ok::<Seq<char>, JsonShapeError>(s@),
            Err(e) => head_field_of(body@) == Err::<Seq<char>, JsonShapeError>(e),
        },
{
    let v: serde_json::Value = match serde_json::from_str(body) {
        Ok(v) => v,
        Err(_) => return Err(JsonShapeError::NotJson),
    };
    match v.get("result").and_then(|f| f.as_str()) {
        Some(s) => Ok(s.to_string()),
        None => Err(JsonShapeError::MissingField),
    }
}

/// Parses one node-provider response body into the tick's network head.
///
/// Fails with `Response` when the body is not structured data, with
/// `DataShape` when no `result` string field is present, and with
/// `ValueParse` when the field is not a `0x`-prefixed hexadecimal
/// literal whose value fits in 256 bits.
pub fn parse_head_response(body: &str) -> (r: Result<Height, FetchError>)
    ensures
        match head_field_of(body@) {
            Err(JsonShapeError::NotJson) => r == Err::<Height, FetchError>(FetchError::Response),
            Err(JsonShapeError::MissingField) => r == Err::<Height, FetchError>(
                FetchError::DataShape,
            ),
            Ok(field) => if is_hex_literal(field) && hex_seq_value(field.skip(2))
                < height_limit() {
                r matches Ok(h) && h.as_int() == hex_seq_value(field.skip(2))
            } else {
                r == Err::<Height, FetchError>(FetchError::ValueParse)
            },
        },
{
    match extract_head_field(body) {
        Err(JsonShapeError::NotJson) => Err(FetchError::Response),
        Err(JsonShapeError::MissingField) => Err(FetchError::DataShape),
        Ok(field) => match from_hex_str(field.as_str()) {
            Some(h) => Ok(h),
            None => Err(FetchError::ValueParse),
        },
    }
}

} // verus!
