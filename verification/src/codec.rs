//! Codecs turn the bytes of a message into a value and back.

pub mod json;

use vstd::prelude::*;
use crate::value::Value;

verus! {

/// Why a codec cannot read or write a message.
#[derive(Clone, Copy, Debug, PartialEq, Eq, Structural)]
pub enum CodecError {
    /// The bytes are not a message of the codec's format.
    Malformed,
    /// The value cannot be written in the codec's format.
    Unrepresentable,
}

/// A wire format.
pub trait Codec {
    /// Reads one message. `None` says that the bytes hold no message.
    fn decode(&mut self, data: Vec<u8>, ingest_ns: u64) -> Result<Option<Value>, CodecError>;

    /// Writes one value.
    fn encode(&self, data: &Value) -> Result<Vec<u8>, CodecError>;
}

} // verus!
