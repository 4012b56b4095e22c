//! The JSON codec, on the value type of the `simd_json` crate.

use vstd::prelude::*;
use crate::codec::CodecError;

verus! {

/// `simd_json::OwnedValue`, the value type of the `simd_json` crate; nothing
/// inside it is visible here.
#[verifier::external_type_specification]
#[verifier::external_body]
pub struct ExOwnedValue(simd_json::OwnedValue);

/// Whether `simd_json` takes the bytes for a JSON text.
pub uninterp spec fn json_parses(data: Seq<u8>) -> bool;

/// `simd_json::to_owned_value`: the value that the bytes hold as JSON;
/// nothing where the parser fails. Whether it fails depends on the bytes
/// alone. The value does not: a record in it is a map with a hasher of its
/// own, so two readings of the same text can walk a large record in different
/// orders. Nothing is said of the value.
#[verifier::external_body]
pub(crate) fn parse(data: Vec<u8>) -> (r: Option<simd_json::OwnedValue>)
    ensures
        r.is_some() == json_parses(data@),
{
    let mut data = data;
    simd_json::to_owned_value(&mut data).ok()
}

/// `Writable::encode` of `simd_json`: the value written as JSON text. The
/// order in which the fields of a large record are written is not fixed, so
/// the text is not said. It is never empty: the writer puts out at least a
/// literal, a digit, a pair of quotes or a pair of brackets for every value.
#[verifier::external_body]
pub(crate) fn write(data: &simd_json::OwnedValue) -> (r: Vec<u8>)
    ensures
        r@.len() > 0,
{
    simd_json::prelude::Writable::encode(data).into_bytes()
}

/// The JSON codec.
#[derive(Clone, Copy, Debug, PartialEq, Eq)]
pub struct JSON {}

impl JSON {
    /// Reads one JSON text. Every text is a message, so the result is never
    /// `None`; bytes that are no JSON text are malformed. The value is what
    /// `simd_json` read; this contract says when there is one, not what it
    /// holds.
    pub fn decode(&mut self, data: Vec<u8>, ingest_ns: u64) -> (r: Result<
        Option<simd_json::OwnedValue>,
        CodecError,
    >)
        ensures
            match r {
                Ok(Some(_)) => json_parses(data@),
                Ok(None) => false,
                Err(e) => !json_parses(data@) && e == CodecError::Malformed,
            },
    {
        match parse(data) {
            Some(v) => Ok(Some(v)),
            None => Err(CodecError::Malformed),
        }
    }

    /// Writes a value as JSON text. Every value can be written, and the
    /// text is what `simd_json` writes for it, which is never empty.
    pub fn encode(&self, data: &simd_json::OwnedValue) -> (r: Result<Vec<u8>, CodecError>)
        ensures
            match r {
                Ok(text) => text@.len() > 0,
                Err(_) => false,
            },
    {
        Ok(write(data))
    }
}

} // verus!
