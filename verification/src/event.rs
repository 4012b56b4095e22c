//! Events: what pipelines process and hand on.

use vstd::prelude::*;
use crate::url::{Address, TremorUrl};
use crate::value::{Data, Value};

verus! {

/// What an event is for.
#[derive(Clone, Copy, Debug, PartialEq, Eq, Structural)]
pub enum EventKind {
    /// Data on its way from a source to a sink.
    Normal,
    /// The periodic signal that drives time-based operators.
    Tick,
    /// Feedback on its way from a sink back to the sources.
    Insight,
}

/// An event as data.
pub struct EventData {
    pub id: nat,
    pub value: Data,
    pub meta: Data,
    pub ingest_ns: nat,
    pub origin_uri: Option<Address>,
    pub kind: EventKind,
    pub is_batch: bool,
}

/// An event: a value with its metadata, and where and when it came in.
#[derive(Debug, PartialEq, Eq)]
pub struct Event {
    pub id: u64,
    pub value: Value,
    pub meta: Value,
    pub ingest_ns: u64,
    pub origin_uri: Option<TremorUrl>,
    pub kind: EventKind,
    pub is_batch: bool,
}

impl View for Event {
    type V = EventData;

    open spec fn view(&self) -> EventData {
        EventData {
            id: self.id as nat,
            value: self.value@,
            meta: self.meta@,
            ingest_ns: self.ingest_ns as nat,
            origin_uri: match self.origin_uri {
                Some(u) => Some(u@),
                None => None,
            },
            kind: self.kind,
            is_batch: self.is_batch,
        }
    }
}

impl Clone for Event {
    fn clone(&self) -> (r: Self)
        ensures
            r@ == self@,
    {
        Event {
            id: self.id,
            value: self.value.clone(),
            meta: self.meta.clone(),
            ingest_ns: self.ingest_ns,
            origin_uri: match &self.origin_uri {
                Some(u) => Some(u.clone()),
                None => None,
            },
            kind: self.kind,
            is_batch: self.is_batch,
        }
    }
}

/// An event on a port: one that a graph or an operator put out there, or one
/// that waits at an operator's input.
pub struct Emitted {
    pub port: Seq<char>,
    pub event: EventData,
}

/// What a run of events on ports holds.
pub open spec fn emitted(eventset: Seq<(String, Event)>) -> Seq<Emitted> {
    Seq::new(eventset.len(), |i: int| Emitted { port: eventset[i].0@, event: eventset[i].1@ })
}

/// What a run of events holds.
pub open spec fn event_views(events: Seq<Event>) -> Seq<EventData> {
    Seq::new(events.len(), |i: int| events[i]@)
}

impl EventData {
    /// Whether the metadata carries the flag `name` set to true.
    pub open spec fn flag(self, name: Seq<char>) -> bool {
        match self.meta.field(name) {
            Some(v) => v.as_bool() == Some(true),
            None => false,
        }
    }
}

impl Event {
    /// The tick signal taken at `ingest_ns`: no value, empty metadata.
    pub fn tick(ingest_ns: u64) -> (r: Event)
        ensures
            r@ == (EventData {
                id: 0,
                value: Data::Null,
                meta: Data::Object(Seq::empty()),
                ingest_ns: ingest_ns as nat,
                origin_uri: None,
                kind: EventKind::Tick,
                is_batch: false,
            }),
    {
        Event {
            id: 0,
            value: Value::null(),
            meta: Value::object(),
            ingest_ns,
            origin_uri: None,
            kind: EventKind::Tick,
            is_batch: false,
        }
    }

    /// Whether the metadata carries the flag `name` set to true.
    pub fn flag(&self, name: &str) -> (r: bool)
        ensures
            r == self@.flag(name@),
    {
        match self.meta.get(name) {
            Some(v) => match v.as_bool() {
                Some(b) => b,
                None => false,
            },
            None => false,
        }
    }
}

} // verus!
