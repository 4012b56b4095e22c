//! What a sink does with the events that reach it.

pub mod stdout;

use vstd::prelude::*;
use crate::codec::{Codec, CodecError};
use crate::event::Event;

verus! {

/// What a sink asks for after it took an event or a signal: bytes to write,
/// one chunk for each value, and feedback to send back, if any.
#[derive(Debug, PartialEq, Eq)]
pub struct SinkReply {
    pub chunks: Vec<Vec<u8>>,
    pub insights: Option<Vec<Event>>,
}

/// A sink.
pub trait Sink {
    /// Takes an event from the port `input`.
    fn on_event<C: Codec + ?Sized>(&mut self, input: &str, codec: &C, event: Event) -> Result<
        SinkReply,
        CodecError,
    >;

    /// Makes ready, with the postprocessors of these names.
    fn init(&mut self, postprocessors: &Vec<String>);

    /// The name of the codec that the sink uses unless told otherwise.
    fn default_codec(&self) -> &str;

    /// Takes a signal.
    fn on_signal(&mut self, signal: Event) -> Result<SinkReply, CodecError>;

    /// Whether the sink tells the sources when it cannot keep up.
    fn is_active(&self) -> bool;

    /// Whether events count as delivered as soon as the sink has taken them.
    fn auto_ack(&self) -> bool;
}

} // verus!
