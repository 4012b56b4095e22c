//! The executable graph: operators in topological order, joined by edges from
//! a named output port of one to a named input port of a later one.

use vstd::prelude::*;
use crate::errors::ErrorKind;
use crate::event::{emitted, event_views, Emitted, Event, EventData, EventKind};
use crate::interpreter::{ContView, EventContext};
use crate::script::{AggrType, Return, Script};
use crate::value::{Data, Value};

verus! {

/// What a node of the graph does with what reaches it.
#[derive(Debug, PartialEq, Eq)]
pub enum Operator {
    /// An entry of the graph, named by its node's id.
    Input,
    /// An exit of the graph: what reaches it leaves the graph on the port named by
    /// its node's id.
    Output,
    /// Hands every event on unchanged.
    Passthrough,
    /// A circuit breaker. Feedback that reports an error opens it for `timeout`
    /// nanoseconds, counted from the feedback's time: until `next` events go to
    /// the port `overflow` instead of `out`. The feedback that opens it is marked
    /// as a trigger for the sources; the first tick after `next` closes it again
    /// and sends the sources a restore.
    Backpressure { timeout: u64, next: u64, triggered: bool },
    /// Runs a script on every event, with a state that the script can read
    /// and change and that lasts from one event to the next. What the script
    /// emits goes to the port that it names, or to `out`; an event on which the
    /// script fails goes to the port `err`, marked with the kind of the error.
    Script { script: Script, state: Value },
}

/// An operator as data.
pub enum OperatorView {
    Input,
    Output,
    Passthrough,
    Backpressure { timeout: u64, next: u64, triggered: bool },
    Script { script: Script, state: Data },
}

impl View for Operator {
    type V = OperatorView;

    open spec fn view(&self) -> OperatorView {
        match self {
            Operator::Input => OperatorView::Input,
            Operator::Output => OperatorView::Output,
            Operator::Passthrough => OperatorView::Passthrough,
            Operator::Backpressure { timeout, next, triggered } => OperatorView::Backpressure {
                timeout: *timeout,
                next: *next,
                triggered: *triggered,
            },
            Operator::Script { script, state } => OperatorView::Script {
                script: *script,
                state: state@,
            },
        }
    }
}

/// An edge: what the node puts out on `port` reaches the input `input` of the
/// node at `to`.
#[derive(Debug, PartialEq, Eq)]
pub struct Edge {
    pub port: String,
    pub to: usize,
    pub input: String,
}

/// An edge as data.
pub struct EdgeView {
    pub port: Seq<char>,
    pub to: int,
    pub input: Seq<char>,
}

/// A node: an operator, its name, and the edges that leave it.
#[derive(Debug, PartialEq, Eq)]
pub struct Node {
    pub id: String,
    pub op: Operator,
    pub edges: Vec<Edge>,
}

/// A node as data.
pub struct NodeView {
    pub id: Seq<char>,
    pub op: OperatorView,
    pub edges: Seq<EdgeView>,
}

/// A graph as data.
pub struct GraphView {
    pub id: Seq<char>,
    pub nodes: Seq<NodeView>,
}

impl View for Edge {
    type V = EdgeView;

    open spec fn view(&self) -> EdgeView {
        EdgeView { port: self.port@, to: self.to as int, input: self.input@ }
    }
}

pub open spec fn edge_views(edges: Seq<Edge>) -> Seq<EdgeView> {
    Seq::new(edges.len(), |i: int| edges[i]@)
}

impl View for Node {
    type V = NodeView;

    open spec fn view(&self) -> NodeView {
        NodeView { id: self.id@, op: self.op@, edges: edge_views(self.edges@) }
    }
}

pub open spec fn node_views(nodes: Seq<Node>) -> Seq<NodeView> {
    Seq::new(nodes.len(), |i: int| nodes[i]@)
}

/// What waits at each node's input.
pub open spec fn inbox_views(inboxes: Seq<Vec<(String, Event)>>) -> Seq<Seq<Emitted>> {
    Seq::new(inboxes.len(), |i: int| emitted(inboxes[i]@))
}

/// The port on which operators put out what they let through.
pub open spec fn out_port() -> Seq<char> {
    "out"@
}

/// The port on which an open circuit breaker puts out what it holds back.
pub open spec fn overflow_port() -> Seq<char> {
    "overflow"@
}

/// The port on which a script operator puts out the events that its script
/// fails on.
pub open spec fn err_port() -> Seq<char> {
    "err"@
}

/// The name of an error kind, as events carry it.
pub open spec fn kind_label(kind: ErrorKind) -> Seq<char> {
    match kind {
        ErrorKind::InvalidUnary(_, _) => "InvalidUnary"@,
        ErrorKind::InvalidBinary(_, _, _) => "InvalidBinary"@,
        ErrorKind::TypeError(_, _) => "TypeError"@,
        ErrorKind::NoClauseHit => "NoClauseHit"@,
        ErrorKind::RecursionLimit => "RecursionLimit"@,
        ErrorKind::BadAccess => "BadAccess"@,
        ErrorKind::UnsetLocal => "UnsetLocal"@,
        ErrorKind::InvalidConst => "InvalidConst"@,
        ErrorKind::BadArguments => "BadArguments"@,
        ErrorKind::NoLocals => "NoLocals"@,
        ErrorKind::NoConsts => "NoConsts"@,
        ErrorKind::DoubleDefinition => "DoubleDefinition"@,
        ErrorKind::NotConstant => "NotConstant"@,
        ErrorKind::PatchKeyExists => "PatchKeyExists"@,
        ErrorKind::UpdateKeyMissing => "UpdateKeyMissing"@,
        ErrorKind::MergeTypeConflict(_) => "MergeTypeConflict"@,
    }
}

/// The name of an error kind, as events carry it.
pub fn error_label(kind: ErrorKind) -> (r: &'static str)
    ensures
        r@ == kind_label(kind),
{
    match kind {
        ErrorKind::InvalidUnary(_, _) => "InvalidUnary",
        ErrorKind::InvalidBinary(_, _, _) => "InvalidBinary",
        ErrorKind::TypeError(_, _) => "TypeError",
        ErrorKind::NoClauseHit => "NoClauseHit",
        ErrorKind::RecursionLimit => "RecursionLimit",
        ErrorKind::BadAccess => "BadAccess",
        ErrorKind::UnsetLocal => "UnsetLocal",
        ErrorKind::InvalidConst => "InvalidConst",
        ErrorKind::BadArguments => "BadArguments",
        ErrorKind::NoLocals => "NoLocals",
        ErrorKind::NoConsts => "NoConsts",
        ErrorKind::DoubleDefinition => "DoubleDefinition",
        ErrorKind::NotConstant => "NotConstant",
        ErrorKind::PatchKeyExists => "PatchKeyExists",
        ErrorKind::UpdateKeyMissing => "UpdateKeyMissing",
        ErrorKind::MergeTypeConflict(_) => "MergeTypeConflict",
    }
}

/// The port that a script sends to: the one that it names, else `out`.
pub open spec fn port_or_out(port: Option<Seq<char>>) -> Seq<char> {
    match port {
        Some(p) => p,
        None => out_port(),
    }
}

/// What a script operator puts out for the event `input` after its script ran
/// and left `ran`.
pub open spec fn script_output(input: EventData, ran: crate::interpreter::Ran) -> Seq<Emitted> {
    match ran.out {
        Ok(ContView::Drop) => Seq::empty(),
        Ok(ContView::Cont(v)) => seq![
            Emitted {
                port: out_port(),
                event: EventData { value: v, meta: ran.cx.meta, ..input },
            },
        ],
        Ok(ContView::Emit(v, port)) => seq![
            Emitted {
                port: port_or_out(port),
                event: EventData { value: v, meta: ran.cx.meta, ..input },
            },
        ],
        Ok(ContView::EmitEvent(port)) => seq![
            Emitted {
                port: port_or_out(port),
                event: EventData { value: ran.cx.event, meta: ran.cx.meta, ..input },
            },
        ],
        Err(e) => seq![
            Emitted {
                port: err_port(),
                event: EventData {
                    value: ran.cx.event,
                    meta: ran.cx.meta.with_field("error"@, Data::String(kind_label(e.kind))),
                    ..input
                },
            },
        ],
    }
}

/// The port on which an entry of the graph takes what is enqueued.
pub open spec fn in_port() -> Seq<char> {
    "in"@
}

/// An operator after it took something, and what it put out.
pub struct Stepped {
    pub op: OperatorView,
    pub out: Seq<Emitted>,
}

/// An operator after it took a signal, and the feedback it raised.
pub struct Signalled {
    pub op: OperatorView,
    pub insights: Seq<EventData>,
}

/// An operator after feedback passed it, and the feedback as it leaves.
pub struct Reflected {
    pub op: OperatorView,
    pub insight: EventData,
}

/// The feedback that tells the sources to take data in again.
pub open spec fn restore_insight(ingest_ns: nat) -> EventData {
    EventData {
        id: 0,
        value: Data::Null,
        meta: Data::Object(Seq::empty()).with_field("restore"@, Data::Bool(true)),
        ingest_ns,
        origin_uri: None,
        kind: EventKind::Insight,
        is_batch: false,
    }
}

impl OperatorView {
    /// What the operator does with an event at one of its inputs.
    pub open spec fn on_event(self, input: Emitted) -> Stepped {
        match self {
            OperatorView::Backpressure { next, .. } => Stepped {
                op: self,
                out: seq![
                    Emitted {
                        port: if input.event.ingest_ns >= next {
                            out_port()
                        } else {
                            overflow_port()
                        },
                        event: input.event,
                    },
                ],
            },
            OperatorView::Script { script, state } => {
                let ran = script.outcome(
                    input.event.ingest_ns as u64,
                    input.event.value,
                    state,
                    input.event.meta,
                );
                Stepped {
                    op: OperatorView::Script { script, state: ran.cx.state },
                    out: script_output(input.event, ran),
                }
            },
            _ => Stepped { op: self, out: seq![Emitted { port: out_port(), event: input.event }] },
        }
    }

    /// What the operator does with a signal.
    pub open spec fn on_signal(self, signal: EventData) -> Signalled {
        match self {
            OperatorView::Backpressure { timeout, next, triggered } => {
                if triggered && signal.ingest_ns >= next {
                    Signalled {
                        op: OperatorView::Backpressure { timeout, next, triggered: false },
                        insights: seq![restore_insight(signal.ingest_ns)],
                    }
                } else {
                    Signalled { op: self, insights: Seq::empty() }
                }
            },
            _ => Signalled { op: self, insights: Seq::empty() },
        }
    }

    /// What the operator does with feedback on its way back to the sources.
    pub open spec fn on_contraflow(self, insight: EventData) -> Reflected {
        match self {
            OperatorView::Backpressure { timeout, next, triggered } => {
                if insight.meta.field("error"@).is_some() {
                    let until = if insight.ingest_ns + timeout > u64::MAX {
                        u64::MAX
                    } else {
                        (insight.ingest_ns + timeout) as u64
                    };
                    Reflected {
                        op: OperatorView::Backpressure { timeout, next: until, triggered: true },
                        insight: if triggered {
                            insight
                        } else {
                            EventData {
                                meta: insight.meta.with_field("trigger"@, Data::Bool(true)),
                                ..insight
                            }
                        },
                    }
                } else {
                    Reflected { op: self, insight }
                }
            },
            _ => Reflected { op: self, insight },
        }
    }
}

impl Operator {
    /// Takes an event at the input `port` and appends to `produced` what the
    /// operator puts out for it.
    pub fn event(&mut self, port: String, event: Event, produced: &mut Vec<(String, Event)>)
        ensures
            final(self)@ == old(self)@.on_event(Emitted { port: port@, event: event@ }).op,
            emitted(final(produced)@) == emitted(old(produced)@) + old(self)@.on_event(
                Emitted { port: port@, event: event@ },
            ).out,
    {
        let ghost before = emitted(produced@);
        let ghost ev = event@;
        match self {
            Operator::Script { script, state } => {
                let Event { id, value, meta, ingest_ns, origin_uri, kind, is_batch } = event;
                let mut value = value;
                let mut meta = meta;
                let context = EventContext { at: ingest_ns, origin_uri: None };
                let ghost ran = script.outcome(ingest_ns, value@, state@, meta@);
                let r = script.run(&context, AggrType::Emit, &mut value, state, &mut meta);
                match r {
                    Ok(Return::Drop) => {
                        assert(emitted(produced@) =~= before + script_output(ev, ran));
                    },
                    Ok(Return::Emit { value: v, port: to }) => {
                        let to = match to {
                            Some(p) => p,
                            None => "out".to_string(),
                        };
                        let out = Event { id, value: v, meta, ingest_ns, origin_uri, kind, is_batch };
                        produced.push((to, out));
                        assert(emitted(produced@) =~= before + script_output(ev, ran));
                    },
                    Ok(Return::EmitEvent { port: to }) => {
                        let to = match to {
                            Some(p) => p,
                            None => "out".to_string(),
                        };
                        let out = Event { id, value, meta, ingest_ns, origin_uri, kind, is_batch };
                        produced.push((to, out));
                        assert(emitted(produced@) =~= before + script_output(ev, ran));
                    },
                    Err(e) => {
                        meta.insert("error".to_string(), Value::string(error_label(e.kind)));
                        let out = Event { id, value, meta, ingest_ns, origin_uri, kind, is_batch };
                        produced.push(("err".to_string(), out));
                        assert(emitted(produced@) =~= before + script_output(ev, ran));
                    },
                }
            },
            Operator::Backpressure { next, .. } => {
                let to = if event.ingest_ns >= *next {
                    "out"
                } else {
                    "overflow"
                };
                produced.push((to.to_string(), event));
                assert(emitted(produced@) =~= before + seq![Emitted { port: to@, event: ev }]);
            },
            _ => {
                produced.push(("out".to_string(), event));
                assert(emitted(produced@) =~= before + seq![Emitted { port: "out"@, event: ev }]);
            },
        }
    }

    /// Takes a signal and returns the feedback that the operator raises for it.
    pub fn signal(&mut self, signal: &Event) -> (insights: Vec<Event>)
        ensures
            final(self)@ == old(self)@.on_signal(signal@).op,
            event_views(insights@) == old(self)@.on_signal(signal@).insights,
    {
        let mut insights: Vec<Event> = Vec::new();
        match self {
            Operator::Backpressure { timeout, next, triggered } => {
                if *triggered && signal.ingest_ns >= *next {
                    *triggered = false;
                    let mut meta = Value::object();
                    meta.insert("restore".to_string(), Value::Bool(true));
                    let insight = Event {
                        id: 0,
                        value: Value::null(),
                        meta,
                        ingest_ns: signal.ingest_ns,
                        origin_uri: None,
                        kind: EventKind::Insight,
                        is_batch: false,
                    };
                    insights.push(insight);
                    assert(event_views(insights@) =~= seq![restore_insight(signal@.ingest_ns)]);
                    return insights;
                }
            },
            _ => {},
        }
        assert(event_views(insights@) =~= Seq::<EventData>::empty());
        insights
    }

    /// Lets feedback pass on its way back to the sources.
    pub fn contraflow(&mut self, insight: Event) -> (r: Event)
        ensures
            final(self)@ == old(self)@.on_contraflow(insight@).op,
            r@ == old(self)@.on_contraflow(insight@).insight,
    {
        match self {
            Operator::Backpressure { timeout, next, triggered } => {
                if insight.meta.get("error").is_some() {
                    let until = match insight.ingest_ns.checked_add(*timeout) {
                        Some(t) => t,
                        None => u64::MAX,
                    };
                    let was = *triggered;
                    *next = until;
                    *triggered = true;
                    if was {
                        insight
                    } else {
                        let mut insight = insight;
                        insight.meta.insert("trigger".to_string(), Value::Bool(true));
                        insight
                    }
                } else {
                    insight
                }
            },
            _ => insight,
        }
    }
}

/// Why a graph cannot be built or cannot take an event.
#[derive(Clone, Copy, Debug, PartialEq, Eq)]
pub enum GraphError {
    /// An edge leads to a node that does not come later in the graph.
    NotForward,
    /// The graph has no entry of that name.
    UnknownInput,
}

/// Every edge leads to a later node of the graph, so that no event can come
/// round to a node that it has passed.
pub open spec fn forward(nodes: Seq<NodeView>) -> bool {
    forall|i: int, j: int|
        0 <= i < nodes.len() && 0 <= j < nodes[i].edges.len() ==> i < (#[trigger] nodes[i].edges[j]).to
            < nodes.len()
}

/// The first entry of the graph called `port`, from `from` on.
pub open spec fn input_node(nodes: Seq<NodeView>, port: Seq<char>, from: int) -> Option<int>
    decreases nodes.len() - from,
{
    if from < 0 || from >= nodes.len() {
        None
    } else if nodes[from].op is Input && nodes[from].id == port {
        Some(from)
    } else {
        input_node(nodes, port, from + 1)
    }
}

/// The operator after it took the events of `inbox` in turn, and all that it
/// put out for them.
pub open spec fn run_node(op: OperatorView, inbox: Seq<Emitted>) -> Stepped
    decreases inbox.len(),
{
    if inbox.len() == 0 {
        Stepped { op, out: Seq::empty() }
    } else {
        let before = run_node(op, inbox.drop_last());
        let last = before.op.on_event(inbox.last());
        Stepped { op: last.op, out: before.out + last.out }
    }
}

/// The inboxes after `p` went down every edge that leaves its port, in the
/// edges' order.
pub open spec fn post_one(edges: Seq<EdgeView>, p: Emitted, inboxes: Seq<Seq<Emitted>>) -> Seq<
    Seq<Emitted>,
>
    decreases edges.len(),
{
    if edges.len() == 0 {
        inboxes
    } else {
        let before = post_one(edges.drop_last(), p, inboxes);
        let e = edges.last();
        if e.port == p.port && 0 <= e.to < before.len() {
            before.update(e.to, before[e.to].push(Emitted { port: e.input, event: p.event }))
        } else {
            before
        }
    }
}

/// The inboxes after everything in `produced` went down the edges, in turn.
pub open spec fn post(edges: Seq<EdgeView>, produced: Seq<Emitted>, inboxes: Seq<Seq<Emitted>>) -> Seq<
    Seq<Emitted>,
>
    decreases produced.len(),
{
    if produced.len() == 0 {
        inboxes
    } else {
        post_one(edges, produced.last(), post(edges, produced.drop_last(), inboxes))
    }
}

/// The events of `produced` as they leave the graph on the port `port`.
pub open spec fn leaving(port: Seq<char>, produced: Seq<Emitted>) -> Seq<Emitted> {
    Seq::new(produced.len(), |i: int| Emitted { port, event: produced[i].event })
}

/// A graph at work: its nodes, what waits at each node's input, and what has
/// left the graph.
pub struct Flow {
    pub nodes: Seq<NodeView>,
    pub inboxes: Seq<Seq<Emitted>>,
    pub out: Seq<Emitted>,
}

/// One node at work: it takes what waits at its input; what it puts out goes
/// down its edges and, if the node is an exit, leaves the graph.
pub open spec fn work(f: Flow, at: int) -> Flow {
    let node = f.nodes[at];
    let done = run_node(node.op, f.inboxes[at]);
    Flow {
        nodes: f.nodes.update(at, NodeView { op: done.op, ..node }),
        inboxes: post(node.edges, done.out, f.inboxes.update(at, Seq::empty())),
        out: if node.op is Output {
            f.out + leaving(node.id, done.out)
        } else {
            f.out
        },
    }
}

/// The nodes from `from` on at work, each in its turn.
pub open spec fn sweep(f: Flow, from: int) -> Flow
    decreases f.nodes.len() - from,
{
    if from < 0 || from >= f.nodes.len() || f.inboxes.len() != f.nodes.len() {
        f
    } else {
        let next = work(f, from);
        if next.nodes.len() == f.nodes.len() {
            sweep(next, from + 1)
        } else {
            f
        }
    }
}

/// Nothing waits anywhere but `event` at the input `in` of the node at `at`.
pub open spec fn entering(len: nat, at: int, event: EventData) -> Seq<Seq<Emitted>> {
    Seq::new(
        len,
        |i: int|
            if i == at {
                seq![Emitted { port: in_port(), event }]
            } else {
                Seq::empty()
            },
    )
}

/// The nodes after each took the signal, in the graph's order, and the
/// feedback that they raised, in that order. `upto` nodes have taken it.
pub open spec fn signalled(nodes: Seq<NodeView>, signal: EventData, upto: int) -> (Seq<NodeView>, Seq<EventData>)
    decreases upto,
{
    if upto <= 0 || upto > nodes.len() {
        (nodes, Seq::empty())
    } else {
        let before = signalled(nodes, signal, upto - 1);
        let node = before.0[upto - 1];
        let s = node.op.on_signal(signal);
        (before.0.update(upto - 1, NodeView { op: s.op, ..node }), before.1 + s.insights)
    }
}

/// The events that leave the graph because of a signal, each on its port. None
/// of the operators that the graph knows puts out an event for a signal.
pub open spec fn signal_output(nodes: Seq<NodeView>, signal: EventData) -> Seq<Emitted> {
    Seq::empty()
}

/// The nodes and the feedback after the feedback passed the nodes from the
/// last one back to the one at `downto`.
pub open spec fn reflected(nodes: Seq<NodeView>, insight: EventData, downto: int) -> (Seq<NodeView>, EventData)
    decreases nodes.len() - downto,
{
    if downto < 0 || downto >= nodes.len() {
        (nodes, insight)
    } else {
        let after = reflected(nodes, insight, downto + 1);
        let node = after.0[downto];
        let r = node.op.on_contraflow(after.1);
        (after.0.update(downto, NodeView { op: r.op, ..node }), r.insight)
    }
}

/// A compiled graph of operators.
pub struct ExecutableGraph {
    id: String,
    nodes: Vec<Node>,
}

impl View for ExecutableGraph {
    type V = GraphView;

    closed spec fn view(&self) -> GraphView {
        GraphView { id: self.id@, nodes: node_views(self.nodes@) }
    }
}

/// Whether every edge of `edges` leads to a node after `at` and before `len`.
fn edges_forward(edges: &Vec<Edge>, at: usize, len: usize) -> (r: bool)
    ensures
        r == (forall|j: int| 0 <= j < edges@.len() ==> at < (#[trigger] edge_views(edges@)[j]).to < len),
{
    let mut j: usize = 0;
    while j < edges.len()
        invariant
            j <= edges.len(),
            forall|u: int| 0 <= u < j ==> at < (#[trigger] edge_views(edges@)[u]).to < len,
        decreases edges.len() - j,
    {
        if !(at < edges[j].to && edges[j].to < len) {
            assert(!(at < edge_views(edges@)[j as int].to < len));
            return false;
        }
        j += 1;
    }
    true
}

/// Sends `event` down every edge of `edges` that leaves `port`.
fn post_event(edges: &Vec<Edge>, port: &String, event: Event, inboxes: &mut Vec<Vec<(String, Event)>>)
    ensures
        final(inboxes)@.len() == old(inboxes)@.len(),
        inbox_views(final(inboxes)@) == post_one(
            edge_views(edges@),
            Emitted { port: port@, event: event@ },
            inbox_views(old(inboxes)@),
        ),
{
    let ghost p = Emitted { port: port@, event: event@ };
    let ghost start = inbox_views(inboxes@);
    let mut j: usize = 0;
    assert(edge_views(edges@).take(0) =~= Seq::<EdgeView>::empty());
    while j < edges.len()
        invariant
            j <= edges.len(),
            p == (Emitted { port: port@, event: event@ }),
            inboxes@.len() == start.len(),
            inbox_views(inboxes@) == post_one(edge_views(edges@).take(j as int), p, start),
        decreases edges.len() - j,
    {
        let ghost before = inbox_views(inboxes@);
        let ghost upto = edge_views(edges@).take(j + 1);
        assert(upto.drop_last() =~= edge_views(edges@).take(j as int));
        assert(upto.last() == edges@[j as int]@);
        let e = &edges[j];
        if e.port == *port && e.to < inboxes.len() {
            inboxes[e.to].push((e.input.clone(), event.clone()));
            assert(inbox_views(inboxes@) =~= before.update(
                e.to as int,
                before[e.to as int].push(Emitted { port: e.input@, event: event@ }),
            )) by {
                assert forall|i: int| 0 <= i < inboxes@.len() implies inbox_views(inboxes@)[i]
                    =~= before.update(
                    e.to as int,
                    before[e.to as int].push(Emitted { port: e.input@, event: event@ }),
                )[i] by {}
            }
        }
        j += 1;
    }
    assert(edge_views(edges@).take(j as int) =~= edge_views(edges@));
}

/// Sends everything in `produced` down the edges, in turn.
fn post_all(edges: &Vec<Edge>, produced: Vec<(String, Event)>, inboxes: &mut Vec<Vec<(String, Event)>>)
    ensures
        final(inboxes)@.len() == old(inboxes)@.len(),
        inbox_views(final(inboxes)@) == post(
            edge_views(edges@),
            emitted(produced@),
            inbox_views(old(inboxes)@),
        ),
{
    let ghost start = inbox_views(inboxes@);
    let ghost all = emitted(produced@);
    assert(all.take(0) =~= Seq::<Emitted>::empty());
    for item in it: produced
        invariant
            all == emitted(it.seq()),
            inboxes@.len() == start.len(),
            inbox_views(inboxes@) == post(edge_views(edges@), all.take(it.index() as int), start),
    {
        let ghost i = it.index() as int;
        assert(all.take(i + 1).drop_last() =~= all.take(i));
        assert(all.take(i + 1).last() == (Emitted { port: item.0@, event: item.1@ }));
        let (port, event) = item;
        post_event(edges, &port, event, inboxes);
    }
    assert(all.take(all.len() as int) =~= all);
}

/// Lets `op` take the events of `inbox` in turn and returns what it put out.
fn run_inbox(op: &mut Operator, inbox: Vec<(String, Event)>) -> (produced: Vec<(String, Event)>)
    ensures
        final(op)@ == run_node(old(op)@, emitted(inbox@)).op,
        emitted(produced@) == run_node(old(op)@, emitted(inbox@)).out,
{
    let ghost all = emitted(inbox@);
    let ghost op0 = op@;
    let mut produced: Vec<(String, Event)> = Vec::new();
    assert(all.take(0) =~= Seq::<Emitted>::empty());
    assert(emitted(produced@) =~= Seq::<Emitted>::empty());
    for item in it: inbox
        invariant
            all == emitted(it.seq()),
            op@ == run_node(op0, all.take(it.index() as int)).op,
            emitted(produced@) == run_node(op0, all.take(it.index() as int)).out,
    {
        let ghost i = it.index() as int;
        assert(all.take(i + 1).drop_last() =~= all.take(i));
        assert(all.take(i + 1).last() == (Emitted { port: item.0@, event: item.1@ }));
        let (port, event) = item;
        op.event(port, event, &mut produced);
    }
    assert(all.take(all.len() as int) =~= all);
    produced
}

/// Appends to `out` the events of `produced` under the port `port`.
fn collect(port: &String, produced: &Vec<(String, Event)>, out: &mut Vec<(String, Event)>)
    ensures
        emitted(final(out)@) == emitted(old(out)@) + leaving(port@, emitted(produced@)),
{
    let ghost start = emitted(out@);
    let mut i: usize = 0;
    while i < produced.len()
        invariant
            i <= produced.len(),
            emitted(out@) == start + leaving(port@, emitted(produced@)).take(i as int),
        decreases produced.len() - i,
    {
        let ghost before = emitted(out@);
        out.push((port.clone(), produced[i].1.clone()));
        assert(emitted(out@) =~= before.push(leaving(port@, emitted(produced@))[i as int]));
        assert(start + leaving(port@, emitted(produced@)).take(i + 1) =~= (start + leaving(
            port@,
            emitted(produced@),
        ).take(i as int)).push(leaving(port@, emitted(produced@))[i as int]));
        i += 1;
    }
    assert(leaving(port@, emitted(produced@)).take(i as int) =~= leaving(port@, emitted(produced@)));
}

impl ExecutableGraph {
    #[verifier::type_invariant]
    spec fn inv(self) -> bool {
        forward(node_views(self.nodes@))
    }

    /// The graph called `id` with these nodes. The nodes must stand in an
    /// order in which every edge leads forward.
    pub fn new(id: String, nodes: Vec<Node>) -> (r: Result<ExecutableGraph, GraphError>)
        ensures
            match r {
                Ok(g) => forward(node_views(nodes@)) && g@ == (GraphView {
                    id: id@,
                    nodes: node_views(nodes@),
                }),
                Err(e) => !forward(node_views(nodes@)) && e == GraphError::NotForward,
            },
    {
        let mut i: usize = 0;
        while i < nodes.len()
            invariant
                i <= nodes.len(),
                forall|u: int, j: int|
                    0 <= u < i && 0 <= j < node_views(nodes@)[u].edges.len() ==> u < (
                    #[trigger] node_views(nodes@)[u].edges[j]).to < nodes@.len(),
            decreases nodes.len() - i,
        {
            if !edges_forward(&nodes[i].edges, i, nodes.len()) {
                assert(node_views(nodes@)[i as int].edges == edge_views(nodes@[i as int].edges@));
                return Err(GraphError::NotForward);
            }
            assert(node_views(nodes@)[i as int].edges == edge_views(nodes@[i as int].edges@));
            i += 1;
        }
        Ok(ExecutableGraph { id, nodes })
    }

    /// The graph's name.
    pub fn id(&self) -> (r: &String)
        ensures
            r@ == self@.id,
    {
        &self.id
    }

    /// The first entry of the graph called `port`.
    fn find_input(nodes: &Vec<Node>, port: &str) -> (r: Option<usize>)
        ensures
            match r {
                Some(i) => input_node(node_views(nodes@), port@, 0) == Some(i as int) && i < nodes@.len(),
                None => input_node(node_views(nodes@), port@, 0).is_none(),
            },
    {
        let mut i: usize = 0;
        while i < nodes.len()
            invariant
                i <= nodes.len(),
                input_node(node_views(nodes@), port@, 0) == input_node(
                    node_views(nodes@),
                    port@,
                    i as int,
                ),
            decreases nodes.len() - i,
        {
            let is_input = match nodes[i].op {
                Operator::Input => true,
                _ => false,
            };
            if is_input && crate::value::str_eq(nodes[i].id.as_str(), port) {
                return Some(i);
            }
            i += 1;
        }
        None
    }

    /// Pushes `event` into the entry `input_port` and on through the graph.
    /// What reaches an exit is appended to `out_events` under the exit's name.
    pub fn enqueue(&mut self, input_port: &str, event: Event, out_events: &mut Vec<(String, Event)>) -> (r:
        Result<(), GraphError>)
        ensures
            final(self)@.id == old(self)@.id,
            match input_node(old(self)@.nodes, input_port@, 0) {
                None => r == Err::<(), GraphError>(GraphError::UnknownInput) && final(self)@ == old(
                    self,
                )@ && emitted(final(out_events)@) == emitted(old(out_events)@),
                Some(at) => {
                    let flow = sweep(
                        Flow {
                            nodes: old(self)@.nodes,
                            inboxes: entering(old(self)@.nodes.len(), at, event@),
                            out: emitted(old(out_events)@),
                        },
                        at,
                    );
                    r == Ok::<(), GraphError>(()) && final(self)@.nodes == flow.nodes && emitted(
                        final(out_events)@,
                    ) == flow.out
                },
            },
    {
        proof {
            use_type_invariant(&*self);
        }
        let at = match Self::find_input(&self.nodes, input_port) {
            Some(i) => i,
            None => {
                return Err(GraphError::UnknownInput);
            },
        };
        let mut taken = ExecutableGraph { id: String::new(), nodes: Vec::new() };
        std::mem::swap(self, &mut taken);
        let ExecutableGraph { id, nodes } = taken;
        let mut nodes = nodes;
        let n = nodes.len();
        let ghost first = node_views(nodes@);
        let mut inboxes: Vec<Vec<(String, Event)>> = Vec::new();
        let mut i: usize = 0;
        while i < n
            invariant
                i <= n,
                inboxes@.len() == i,
                forall|u: int| 0 <= u < i ==> (#[trigger] inboxes@[u])@.len() == 0,
            decreases n - i,
        {
            inboxes.push(Vec::new());
            i += 1;
        }
        let ghost ev = event@;
        inboxes[at].push(("in".to_string(), event));
        assert(inbox_views(inboxes@) =~= entering(n as nat, at as int, ev)) by {
            assert forall|u: int| 0 <= u < n implies inbox_views(inboxes@)[u] =~= entering(
                n as nat,
                at as int,
                ev,
            )[u] by {}
        }
        let ghost goal = sweep(
            Flow { nodes: first, inboxes: entering(n as nat, at as int, ev), out: emitted(out_events@) },
            at as int,
        );
        let mut idx: usize = at;
        while idx < n
            invariant
                at <= idx <= n,
                nodes@.len() == n,
                inboxes@.len() == n,
                first.len() == n,
                forward(first),
                forall|u: int|
                    0 <= u < n ==> (#[trigger] node_views(nodes@)[u]).edges == first[u].edges,
                goal == sweep(
                    Flow {
                        nodes: node_views(nodes@),
                        inboxes: inbox_views(inboxes@),
                        out: emitted(out_events@),
                    },
                    idx as int,
                ),
            decreases n - idx,
        {
            let ghost f = Flow {
                nodes: node_views(nodes@),
                inboxes: inbox_views(inboxes@),
                out: emitted(out_events@),
            };
            let ghost node = f.nodes[idx as int];
            let mut inbox: Vec<(String, Event)> = Vec::new();
            std::mem::swap(&mut inboxes[idx], &mut inbox);
            assert(inbox_views(inboxes@) =~= f.inboxes.update(idx as int, Seq::empty())) by {
                assert forall|u: int| 0 <= u < n implies inbox_views(inboxes@)[u] =~= f.inboxes.update(
                    idx as int,
                    Seq::empty(),
                )[u] by {}
            }
            let is_output = match nodes[idx].op {
                Operator::Output => true,
                _ => false,
            };
            let produced = run_inbox(&mut nodes[idx].op, inbox);
            assert(node_views(nodes@) =~= f.nodes.update(
                idx as int,
                NodeView { op: run_node(node.op, f.inboxes[idx as int]).op, ..node },
            ));
            if is_output {
                collect(&nodes[idx].id, &produced, out_events);
            }
            post_all(&nodes[idx].edges, produced, &mut inboxes);
            assert(Flow {
                nodes: node_views(nodes@),
                inboxes: inbox_views(inboxes@),
                out: emitted(out_events@),
            } == work(f, idx as int));
            idx += 1;
        }
        proof {
            assert forall|u: int, j: int|
                0 <= u < n && 0 <= j < node_views(nodes@)[u].edges.len() implies u < (
            #[trigger] node_views(nodes@)[u].edges[j]).to < n by {
                assert(node_views(nodes@)[u].edges == first[u].edges);
                assert(u < first[u].edges[j].to < n);
            }
        }
        *self = ExecutableGraph { id, nodes };
        Ok(())
    }

    /// Hands a signal to every operator, in the graph's order, and returns the
    /// feedback that they raise. What the operators put out for the signal is
    /// appended to `out_events`.
    pub fn enqueue_signal(&mut self, signal: Event, out_events: &mut Vec<(String, Event)>) -> (insights: Vec<
        Event,
    >)
        ensures
            final(self)@.id == old(self)@.id,
            final(self)@.nodes == signalled(
                old(self)@.nodes,
                signal@,
                old(self)@.nodes.len() as int,
            ).0,
            event_views(insights@) == signalled(
                old(self)@.nodes,
                signal@,
                old(self)@.nodes.len() as int,
            ).1,
            emitted(final(out_events)@) == emitted(old(out_events)@) + signal_output(
                old(self)@.nodes,
                signal@,
            ),
    {
        proof {
            use_type_invariant(&*self);
            assert(emitted(out_events@) + signal_output(self@.nodes, signal@) =~= emitted(
                out_events@,
            ));
        }
        let mut taken = ExecutableGraph { id: String::new(), nodes: Vec::new() };
        std::mem::swap(self, &mut taken);
        let ExecutableGraph { id, nodes } = taken;
        let mut nodes = nodes;
        let n = nodes.len();
        let ghost first = node_views(nodes@);
        let mut insights: Vec<Event> = Vec::new();
        assert(event_views(insights@) =~= Seq::<EventData>::empty());
        let mut i: usize = 0;
        while i < n
            invariant
                i <= n,
                nodes@.len() == n,
                first.len() == n,
                forward(first),
                forall|u: int|
                    0 <= u < n ==> (#[trigger] node_views(nodes@)[u]).edges == first[u].edges,
                node_views(nodes@) == signalled(first, signal@, i as int).0,
                event_views(insights@) == signalled(first, signal@, i as int).1,
            decreases n - i,
        {
            let ghost before = node_views(nodes@);
            let ghost seen = event_views(insights@);
            let more = Operator::signal(&mut nodes[i].op, &signal);
            assert(node_views(nodes@) =~= before.update(
                i as int,
                NodeView { op: before[i as int].op.on_signal(signal@).op, ..before[i as int] },
            ));
            let ghost extra = event_views(more@);
            for e in it: more
                invariant
                    extra == event_views(it.seq()),
                    event_views(insights@) == seen + extra.take(it.index() as int),
            {
                let ghost sofar = event_views(insights@);
                insights.push(e);
                assert(event_views(insights@) =~= sofar.push(e@));
                assert(seen + extra.take(it.index() + 1) =~= (seen + extra.take(
                    it.index() as int,
                )).push(e@));
            }
            assert(extra.take(extra.len() as int) =~= extra);
            i += 1;
        }
        proof {
            assert forall|u: int, j: int|
                0 <= u < n && 0 <= j < node_views(nodes@)[u].edges.len() implies u < (
            #[trigger] node_views(nodes@)[u].edges[j]).to < n by {
                assert(node_views(nodes@)[u].edges == first[u].edges);
                assert(u < first[u].edges[j].to < n);
            }
        }
        *self = ExecutableGraph { id, nodes };
        insights
    }

    /// Lets feedback pass every operator, from the last back to the first, and
    /// returns it as it leaves the graph.
    pub fn contraflow(&mut self, insight: Event) -> (r: Event)
        ensures
            final(self)@.id == old(self)@.id,
            final(self)@.nodes == reflected(old(self)@.nodes, insight@, 0).0,
            r@ == reflected(old(self)@.nodes, insight@, 0).1,
    {
        proof {
            use_type_invariant(&*self);
        }
        let mut taken = ExecutableGraph { id: String::new(), nodes: Vec::new() };
        std::mem::swap(self, &mut taken);
        let ExecutableGraph { id, nodes } = taken;
        let mut nodes = nodes;
        let n = nodes.len();
        let ghost first = node_views(nodes@);
        let ghost sent = insight@;
        let mut insight = insight;
        let mut i: usize = n;
        while i > 0
            invariant
                i <= n,
                nodes@.len() == n,
                first.len() == n,
                forward(first),
                forall|u: int|
                    0 <= u < n ==> (#[trigger] node_views(nodes@)[u]).edges == first[u].edges,
                node_views(nodes@) == reflected(first, sent, i as int).0,
                insight@ == reflected(first, sent, i as int).1,
            decreases i,
        {
            i -= 1;
            let ghost before = node_views(nodes@);
            let ghost passing = insight@;
            insight = Operator::contraflow(&mut nodes[i].op, insight);
            assert(node_views(nodes@) =~= before.update(
                i as int,
                NodeView { op: before[i as int].op.on_contraflow(passing).op, ..before[i as int] },
            ));
        }
        proof {
            assert forall|u: int, j: int|
                0 <= u < n && 0 <= j < node_views(nodes@)[u].edges.len() implies u < (
            #[trigger] node_views(nodes@)[u].edges[j]).to < n by {
                assert(node_views(nodes@)[u].edges == first[u].edges);
                assert(u < first[u].edges[j].to < n);
            }
        }
        *self = ExecutableGraph { id, nodes };
        insight
    }
}

} // verus!
