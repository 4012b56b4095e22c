//! Sinks: the kinds that the engine knows by name, the messages that a sink
//! takes, and what its manager does with them.

pub mod served;

use vstd::prelude::*;
use crate::codec::Codec;
use crate::event::{Event, EventData};
use crate::offramp::served::Served;
use crate::table::{texts, Addr, AddrView, ChannelId};
use crate::url::{Address, ServantId, TremorUrl};
use crate::value::str_eq;

verus! {

/// The kinds of sink that can be asked for by name.
#[derive(Clone, Copy, Debug, PartialEq, Eq, Structural)]
pub enum OfframpKind {
    Blackhole,
    Debug,
    Elastic,
    File,
    Gcs,
    Gpub,
    Kafka,
    Rest,
    StdOut,
    StdErr,
    Tcp,
    Udp,
}

/// Why a sink cannot be made.
#[derive(Debug, PartialEq, Eq)]
pub enum OfframpError {
    /// No kind of sink has this name.
    NotKnown(String),
}

/// The kind of sink that `name` names, if it names one.
pub open spec fn kind_named(name: Seq<char>) -> Option<OfframpKind> {
    if name == "blackhole"@ {
        Some(OfframpKind::Blackhole)
    } else if name == "debug"@ {
        Some(OfframpKind::Debug)
    } else if name == "elastic"@ {
        Some(OfframpKind::Elastic)
    } else if name == "file"@ {
        Some(OfframpKind::File)
    } else if name == "gcs"@ {
        Some(OfframpKind::Gcs)
    } else if name == "gpub"@ {
        Some(OfframpKind::Gpub)
    } else if name == "kafka"@ {
        Some(OfframpKind::Kafka)
    } else if name == "rest"@ {
        Some(OfframpKind::Rest)
    } else if name == "stdout"@ {
        Some(OfframpKind::StdOut)
    } else if name == "stderr"@ {
        Some(OfframpKind::StdErr)
    } else if name == "tcp"@ {
        Some(OfframpKind::Tcp)
    } else if name == "udp"@ {
        Some(OfframpKind::Udp)
    } else {
        None
    }
}

/// Finds the kind of sink called `name`.
pub fn lookup(name: String) -> (r: Result<OfframpKind, OfframpError>)
    ensures
        match r {
            Ok(kind) => kind_named(name@) == Some(kind),
            Err(OfframpError::NotKnown(n)) => kind_named(name@).is_none() && n@ == name@,
        },
{
    let n = name.as_str();
    if str_eq(n, "blackhole") {
        Ok(OfframpKind::Blackhole)
    } else if str_eq(n, "debug") {
        Ok(OfframpKind::Debug)
    } else if str_eq(n, "elastic") {
        Ok(OfframpKind::Elastic)
    } else if str_eq(n, "file") {
        Ok(OfframpKind::File)
    } else if str_eq(n, "gcs") {
        Ok(OfframpKind::Gcs)
    } else if str_eq(n, "gpub") {
        Ok(OfframpKind::Gpub)
    } else if str_eq(n, "kafka") {
        Ok(OfframpKind::Kafka)
    } else if str_eq(n, "rest") {
        Ok(OfframpKind::Rest)
    } else if str_eq(n, "stdout") {
        Ok(OfframpKind::StdOut)
    } else if str_eq(n, "stderr") {
        Ok(OfframpKind::StdErr)
    } else if str_eq(n, "tcp") {
        Ok(OfframpKind::Tcp)
    } else if str_eq(n, "udp") {
        Ok(OfframpKind::Udp)
    } else {
        Err(OfframpError::NotKnown(name))
    }
}

/// A message to a sink.
#[derive(Debug, PartialEq, Eq)]
pub enum OfframpMsg {
    /// An event, from the port `input`.
    Event { event: Event, input: String },
    /// A signal from a pipeline.
    Signal(Event),
    /// A pipeline now feeds the sink.
    Connect { id: TremorUrl, addr: Addr },
    /// A pipeline no longer feeds the sink; `tx` is where the answer goes.
    Disconnect { id: TremorUrl, tx: ChannelId },
}

/// The channel on which a sink takes its messages.
pub type OfframpAddr = ChannelId;

/// One call made on a sink, as data.
pub enum SinkCall {
    Start { postprocessors: Seq<Seq<char>> },
    Event { input: Seq<char>, event: EventData },
    Add { id: Address, addr: AddrView },
    /// A removal, with what the sink answered.
    Remove { id: Address, done: bool },
}

/// What a sink does. The manager calls these in the order in which the
/// messages come in.
pub trait Offramp {
    fn start(&mut self, codec: &dyn Codec, postprocessors: &Vec<String>);

    fn on_event(&mut self, codec: &dyn Codec, input: String, event: Event);

    fn default_codec(&self) -> &str;

    fn add_pipeline(&mut self, id: TremorUrl, addr: Addr);

    /// Whether the sink has no pipeline left after this one is taken away.
    fn remove_pipeline(&mut self, id: TremorUrl) -> bool;
}

/// The manager of the sinks.
#[derive(Debug, PartialEq, Eq)]
pub struct Manager {
    /// How many messages a sink's channel holds before senders wait.
    pub qsize: usize,
}

impl Default for Manager {
    fn default() -> (r: Manager)
        ensures
            r.qsize == 0,
    {
        Manager { qsize: 0 }
    }
}

/// A request for a new sink.
pub struct CreateOfframp {
    pub id: ServantId,
    pub kind: OfframpKind,
    pub codec: String,
    pub postprocessors: Vec<String>,
}

impl CreateOfframp {
    /// The request as it is shown: `StartOfframp(` and the sink's address and
    /// `)`.
    pub fn to_string(&self) -> (r: String)
        ensures
            r@ == "StartOfframp("@ + self.id@.text() + ")"@,
    {
        let mut r = "StartOfframp(".to_string();
        r.append(self.id.to_string().as_str());
        r.append(")");
        r
    }
}

/// The answer that is owed for a message: to a `Disconnect`, on the channel
/// that it names, whether the sink is done.
#[derive(Clone, Copy, Debug, PartialEq, Eq)]
pub struct Reply {
    pub to: ChannelId,
    pub done: bool,
}

/// The calls that a sink has seen after the manager handed it `msg`, and the
/// answer `r` that the manager gives: an event reaches `on_event` and a
/// connection `add_pipeline`, each with what the message holds; a
/// disconnection reaches `remove_pipeline` and is answered, on the channel
/// that the message names, with what the sink returned; a signal is not
/// handed on.
pub open spec fn handed(before: Seq<SinkCall>, msg: OfframpMsg, after: Seq<SinkCall>, r: Option<Reply>) -> bool {
    match msg {
        OfframpMsg::Event { event, input } => r.is_none() && after == before.push(
            SinkCall::Event { input: input@, event: event@ },
        ),
        OfframpMsg::Signal(_) => r.is_none() && after == before,
        OfframpMsg::Connect { id, addr } => r.is_none() && after == before.push(
            SinkCall::Add { id: id@, addr: addr@ },
        ),
        OfframpMsg::Disconnect { id, tx } => r matches Some(reply) && reply.to == tx && after
            == before.push(SinkCall::Remove { id: id@, done: reply.done }),
    }
}

/// Whether a sink is in service: it was started first, and once only.
pub open spec fn in_service(calls: Seq<SinkCall>) -> bool {
    &&& calls.len() > 0
    &&& calls[0] is Start
    &&& forall|i: int| 0 < i < calls.len() ==> !((#[trigger] calls[i]) is Start)
}

impl Manager {
    /// Makes a sink ready: `start` is called on it once, with the codec and
    /// the postprocessors of the request. The result is the number of
    /// messages that the sink's channel is to hold. A sink that has seen no
    /// call yet is in service afterwards.
    pub fn start<O: Offramp, C: Codec>(
        &self,
        offramp: &mut Served<O>,
        codec: &C,
        postprocessors: &Vec<String>,
    ) -> (r: usize)
        ensures
            r == self.qsize,
            final(offramp).calls() == old(offramp).calls().push(
                SinkCall::Start { postprocessors: texts(postprocessors@) },
            ),
            old(offramp).calls().len() == 0 ==> in_service(final(offramp).calls()),
    {
        offramp.start(codec, postprocessors);
        self.qsize
    }

    /// Hands one message to a sink and returns the answer that is owed for it.
    /// The sink is never started again: one that is in service stays so.
    pub fn handle<O: Offramp, C: Codec>(&self, offramp: &mut Served<O>, codec: &C, msg: OfframpMsg) -> (r:
        Option<Reply>)
        ensures
            handed(old(offramp).calls(), msg, final(offramp).calls(), r),
            in_service(old(offramp).calls()) ==> in_service(final(offramp).calls()),
    {
        match msg {
            OfframpMsg::Event { event, input } => {
                offramp.on_event(codec, input, event);
                None
            },
            OfframpMsg::Signal(_) => None,
            OfframpMsg::Connect { id, addr } => {
                offramp.add_pipeline(id, addr);
                None
            },
            OfframpMsg::Disconnect { id, tx } => {
                let done = offramp.remove_pipeline(id);
                Some(Reply { to: tx, done })
            },
        }
    }
}

} // verus!
