//! A sink together with the record of the calls that were made on it.

use vstd::prelude::*;
use crate::codec::Codec;
use crate::event::Event;
use crate::offramp::{Offramp, SinkCall};
use crate::table::{texts, Addr};
use crate::url::TremorUrl;

verus! {

/// A sink that is served by a manager. Every call on the sink goes through
/// this wrapper, which notes it: `calls` is the record of the calls that were
/// made, oldest first, each with its arguments and, for a removal, with what
/// the sink answered. The record can only grow, and only by a call.
pub struct Served<O: Offramp> {
    sink: O,
    made: Ghost<Seq<SinkCall>>,
}

impl<O: Offramp> Served<O> {
    /// The calls made on the sink so far.
    pub closed spec fn calls(&self) -> Seq<SinkCall> {
        self.made@
    }

    /// The sink, with no call made on it yet.
    pub fn new(sink: O) -> (r: Self)
        ensures
            r.calls() == Seq::<SinkCall>::empty(),
    {
        Served { sink, made: Ghost(Seq::empty()) }
    }

    /// The sink itself.
    pub closed spec fn inner(&self) -> O {
        self.sink
    }

    /// The sink itself, to look at.
    pub fn sink(&self) -> (r: &O)
        ensures
            *r == self.inner(),
    {
        &self.sink
    }

    /// Calls `start` on the sink.
    pub fn start<C: Codec>(&mut self, codec: &C, postprocessors: &Vec<String>)
        ensures
            final(self).calls() == old(self).calls().push(
                SinkCall::Start { postprocessors: texts(postprocessors@) },
            ),
    {
        self.sink.start(codec, postprocessors);
        self.made = Ghost(
            self.made@.push(SinkCall::Start { postprocessors: texts(postprocessors@) }),
        );
    }

    /// Calls `on_event` on the sink.
    pub fn on_event<C: Codec>(&mut self, codec: &C, input: String, event: Event)
        ensures
            final(self).calls() == old(self).calls().push(
                SinkCall::Event { input: input@, event: event@ },
            ),
    {
        let ghost call = SinkCall::Event { input: input@, event: event@ };
        self.sink.on_event(codec, input, event);
        self.made = Ghost(self.made@.push(call));
    }

    /// Calls `add_pipeline` on the sink.
    pub fn add_pipeline(&mut self, id: TremorUrl, addr: Addr)
        ensures
            final(self).calls() == old(self).calls().push(SinkCall::Add { id: id@, addr: addr@ }),
    {
        let ghost call = SinkCall::Add { id: id@, addr: addr@ };
        self.sink.add_pipeline(id, addr);
        self.made = Ghost(self.made@.push(call));
    }

    /// Calls `remove_pipeline` on the sink and returns what the sink answers.
    pub fn remove_pipeline(&mut self, id: TremorUrl) -> (done: bool)
        ensures
            final(self).calls() == old(self).calls().push(SinkCall::Remove { id: id@, done }),
    {
        let ghost of = id@;
        let done = self.sink.remove_pipeline(id);
        self.made = Ghost(self.made@.push(SinkCall::Remove { id: of, done }));
        done
    }
}

} // verus!
