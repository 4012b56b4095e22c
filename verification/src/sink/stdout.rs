//! The sink that writes events to the standard output.

use vstd::prelude::*;
use vstd::utf8::valid_utf8;
use crate::codec::{Codec, CodecError};
use crate::event::Event;
use crate::sink::{Sink, SinkReply};
use crate::text::{debug_bytes, is_utf8, show_bytes};
use crate::value::Value;

verus! {

/// The sink that writes to the standard output.
#[derive(Debug, PartialEq, Eq)]
pub struct StdOut {
    /// The names of the postprocessors that the sink was made ready with.
    pub postprocessors: Vec<String>,
}

/// What is written for the encoded value `raw`: the bytes themselves if they
/// are text, else the list of the bytes as `{:?}` shows it.
pub open spec fn rendered(raw: Seq<u8>) -> Seq<u8> {
    if valid_utf8(raw) {
        raw
    } else {
        debug_bytes(raw)
    }
}

/// The values that an event carries: those of its array if it is a batch,
/// else the one that it is.
pub open spec fn values_of(event: Event) -> Seq<Value> {
    match event.value {
        Value::Array(items) => if event.is_batch {
            items@
        } else {
            seq![event.value]
        },
        _ => seq![event.value],
    }
}

/// The codec gave `raw` for the value `v`, and `chunk` is what is written for
/// it.
pub open spec fn written<C: Codec + ?Sized>(codec: &C, v: Value, chunk: Seq<u8>) -> bool {
    exists|raw: Vec<u8>| #[trigger]
        call_ensures(C::encode, (codec, &v), Ok::<Vec<u8>, CodecError>(raw)) && chunk == rendered(
            raw@,
        )
}

/// What the sink answers for the values `values`, if it is `r`. It answers
/// with the chunks if the codec encoded every value: one chunk for each
/// value, in order, each what is written for what the codec gave. It answers
/// with an error if the codec gave that error for a value after it had
/// encoded the values before it.
pub open spec fn answered<C: Codec + ?Sized>(codec: &C, values: Seq<Value>, r: Result<SinkReply, CodecError>) -> bool {
    match r {
        Ok(reply) => {
            &&& reply.insights.is_none()
            &&& reply.chunks@.len() == values.len()
            &&& forall|i: int|
                0 <= i < values.len() ==> written(codec, values[i], (#[trigger] reply.chunks@[i])@)
        },
        Err(e) => exists|i: int|
            0 <= i < values.len() && #[trigger] call_ensures(
                C::encode,
                (codec, &values[i]),
                Err::<Vec<u8>, CodecError>(e),
            ) && forall|j: int| 0 <= j < i ==> encoded(codec, #[trigger] values[j]),
    }
}

/// The codec encoded the value `v`.
pub open spec fn encoded<C: Codec + ?Sized>(codec: &C, v: Value) -> bool {
    exists|raw: Vec<u8>| #[trigger]
        call_ensures(C::encode, (codec, &v), Ok::<Vec<u8>, CodecError>(raw))
}

impl StdOut {
    /// The sink; it takes no configuration.
    pub fn from_config(config: &Option<Value>) -> (r: StdOut)
        ensures
            r.postprocessors@.len() == 0,
    {
        StdOut { postprocessors: Vec::new() }
    }

    /// What is written for one encoded value.
    pub fn render(raw: Vec<u8>) -> (r: Vec<u8>)
        ensures
            r@ == rendered(raw@),
    {
        if is_utf8(&raw) {
            raw
        } else {
            show_bytes(&raw)
        }
    }
}

impl Sink for StdOut {
    /// Encodes each value of the event, in order, and returns what is to be
    /// written for it. The first value that the codec cannot encode ends the
    /// event with the codec's error, and nothing is written for the event.
    fn on_event<C: Codec + ?Sized>(&mut self, input: &str, codec: &C, event: Event) -> (r: Result<
        SinkReply,
        CodecError,
    >)
        ensures
            *final(self) == *old(self),
            answered(codec, values_of(event), r),
    {
        let mut chunks: Vec<Vec<u8>> = Vec::new();
        match &event.value {
            Value::Array(items) => {
                if event.is_batch {
                    let mut i: usize = 0;
                    while i < items.len()
                        invariant
                            i <= items.len(),
                            chunks@.len() == i,
                            values_of(event) == items@,
                            forall|j: int|
                                0 <= j < i ==> written(codec, items@[j], (#[trigger] chunks@[j])@),
                        decreases items.len() - i,
                    {
                        match codec.encode(&items[i]) {
                            Ok(raw) => {
                                let chunk = StdOut::render(raw);
                                assert(written(codec, items@[i as int], chunk@));
                                chunks.push(chunk);
                            },
                            Err(e) => {
                                assert forall|j: int| 0 <= j < i implies encoded(
                                    codec,
                                    #[trigger] items@[j],
                                ) by {
                                    assert(written(codec, items@[j], chunks@[j]@));
                                }
                                return Err(e);
                            },
                        }
                        i += 1;
                    }
                    return Ok(SinkReply { chunks, insights: None });
                }
            },
            _ => {},
        }
        let ghost values = values_of(event);
        assert(values =~= seq![event.value]);
        match codec.encode(&event.value) {
            Ok(raw) => {
                let chunk = StdOut::render(raw);
                assert(written(codec, event.value, chunk@));
                chunks.push(chunk);
                let r = Ok(SinkReply { chunks, insights: None });
                assert(answered(codec, values, r)) by {
                    assert(values[0] == event.value);
                    assert(chunks@[0]@ == chunk@);
                }
                r
            },
            Err(e) => {
                assert(answered(codec, values, Err::<SinkReply, CodecError>(e))) by {
                    assert(call_ensures(
                        C::encode,
                        (codec, &values[0]),
                        Err::<Vec<u8>, CodecError>(e),
                    ));
                }
                Err(e)
            },
        }
    }

    fn init(&mut self, postprocessors: &Vec<String>)
        ensures
            final(self).postprocessors@.len() == postprocessors@.len(),
            forall|i: int|
                0 <= i < postprocessors@.len() ==> (#[trigger] final(self).postprocessors@[i])@
                    == postprocessors@[i]@,
    {
        let mut names: Vec<String> = Vec::new();
        let mut i: usize = 0;
        while i < postprocessors.len()
            invariant
                i <= postprocessors.len(),
                names@.len() == i,
                forall|j: int| 0 <= j < i ==> (#[trigger] names@[j])@ == postprocessors@[j]@,
            decreases postprocessors.len() - i,
        {
            names.push(postprocessors[i].clone());
            i += 1;
        }
        self.postprocessors = names;
    }

    fn default_codec(&self) -> (r: &str)
        ensures
            r@ == "json"@,
    {
        "json"
    }

    /// Signals are of no concern to this sink.
    fn on_signal(&mut self, signal: Event) -> (r: Result<SinkReply, CodecError>)
        ensures
            *final(self) == *old(self),
            r matches Ok(reply) && reply.chunks@.len() == 0 && reply.insights.is_none(),
    {
        Ok(SinkReply { chunks: Vec::new(), insights: None })
    }

    fn is_active(&self) -> (r: bool)
        ensures
            r,
    {
        true
    }

    fn auto_ack(&self) -> (r: bool)
        ensures
            r,
    {
        true
    }
}

} // verus!
