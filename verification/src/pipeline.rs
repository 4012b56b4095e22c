//! The pipeline actor: one graph, a routing table from its output ports to
//! what is connected there, and the sources that want its feedback. The actor
//! takes one message at a time and answers with the messages that the
//! transport has to send for it.

use vstd::prelude::*;
use crate::event::{emitted, event_views, Emitted, Event, EventData};
use crate::graph::{
    entering, input_node, reflected, signal_output, signalled, sweep, ExecutableGraph, Flow,
    GraphError, GraphView, Node, NodeView,
};
use crate::table::{
    onramps, onramps_entries, onramps_insert, onramps_new, onramps_remove, route_views, routes,
    routes_get, routes_insert, routes_keys, routes_new, routes_remove, texts, Addr, AddrView,
    ChannelId, Dest, DestView, Onramps, Route, RouteView, Routes,
};
use crate::url::{Address, ServantId, TremorUrl};

verus! {

/// A message that the transport has to send for a pipeline, or a delivery that
/// cannot be made.
#[derive(Debug, PartialEq, Eq)]
pub enum Action {
    /// Hand `event` to the input `input` of `to`.
    Event { to: Dest, input: String, event: Event },
    /// Hand the signal to `to`.
    Signal { to: Dest, signal: Event },
    /// Tell the source `id` to stop taking data in.
    Trigger { id: TremorUrl, addr: ChannelId },
    /// Tell the source `id` to take data in again.
    Restore { id: TremorUrl, addr: ChannelId },
    /// The destination `id` names no port, so nothing can be handed to it.
    Undeliverable { id: TremorUrl },
    /// The graph did not take an event; the event is dropped.
    Rejected { error: GraphError },
}

/// An action as data.
pub enum ActionView {
    Event { to: DestView, input: Seq<char>, event: EventData },
    Signal { to: DestView, signal: EventData },
    Trigger { id: Address, addr: ChannelId },
    Restore { id: Address, addr: ChannelId },
    Undeliverable { id: Address },
    Rejected { error: GraphError },
}

impl View for Action {
    type V = ActionView;

    open spec fn view(&self) -> ActionView {
        match self {
            Action::Event { to, input, event } => ActionView::Event {
                to: to@,
                input: input@,
                event: event@,
            },
            Action::Signal { to, signal } => ActionView::Signal { to: to@, signal: signal@ },
            Action::Trigger { id, addr } => ActionView::Trigger { id: id@, addr: *addr },
            Action::Restore { id, addr } => ActionView::Restore { id: id@, addr: *addr },
            Action::Undeliverable { id } => ActionView::Undeliverable { id: id@ },
            Action::Rejected { error } => ActionView::Rejected { error: *error },
        }
    }
}

/// What a run of actions holds.
pub open spec fn action_views(acts: Seq<Action>) -> Seq<ActionView> {
    Seq::new(acts.len(), |i: int| acts[i]@)
}

/// The routing table as data: the entries of each port, in connection order.
pub open spec fn table(m: Routes) -> Map<Seq<char>, Seq<RouteView>> {
    routes(m).map_values(|list: Seq<Route>| route_views(list))
}

/// What is done with `event` for one routing entry: it goes to the input that
/// the entry's address names, and cannot be delivered if it names none.
pub open spec fn delivery(route: RouteView, event: EventData) -> ActionView {
    match route.id.port {
        Some(input) => ActionView::Event { to: route.dest, input, event },
        None => ActionView::Undeliverable { id: route.id },
    }
}

/// What is done with `event` for the entries of its port, in their order.
pub open spec fn fan_out(list: Seq<RouteView>, event: EventData) -> Seq<ActionView> {
    Seq::new(list.len(), |i: int| delivery(list[i], event))
}

/// What is done with one put-out event: it fans out to the entries of its
/// port, and goes nowhere if nothing is connected there.
pub open spec fn plan_event(e: Emitted, table: Map<Seq<char>, Seq<RouteView>>) -> Seq<ActionView> {
    if table.contains_key(e.port) {
        fan_out(table[e.port], e.event)
    } else {
        Seq::empty()
    }
}

/// What is done with a run of put-out events: each in turn.
pub open spec fn plan_events(events: Seq<Emitted>, table: Map<Seq<char>, Seq<RouteView>>) -> Seq<
    ActionView,
>
    decreases events.len(),
{
    if events.len() == 0 {
        Seq::empty()
    } else {
        plan_events(events.drop_last(), table) + plan_event(events.last(), table)
    }
}

/// `d` is connected to some port under an address other than `own`.
pub open spec fn connected_elsewhere(
    table: Map<Seq<char>, Seq<RouteView>>,
    own: Address,
    d: DestView,
) -> bool {
    exists|port: Seq<char>, j: int|
        table.contains_key(port) && 0 <= j < table[port].len() && #[trigger] table[port][j].dest
            == d && table[port][j].id != own
}

/// `acts` hands `signal` once to each destination that is connected under an
/// address other than `own`, and does nothing else.
pub open spec fn signals_each_once(
    acts: Seq<ActionView>,
    table: Map<Seq<char>, Seq<RouteView>>,
    own: Address,
    signal: EventData,
) -> bool {
    &&& forall|i: int|
        0 <= i < acts.len() ==> (#[trigger] acts[i] matches ActionView::Signal { to, signal: s }
            && s == signal && connected_elsewhere(table, own, to))
    &&& forall|i: int, j: int|
        0 <= i < j < acts.len() ==> (#[trigger] acts[i])->Signal_to != (#[trigger] acts[j])->Signal_to
    &&& forall|d: DestView| #[trigger]
        connected_elsewhere(table, own, d) ==> exists|i: int|
            0 <= i < acts.len() && #[trigger] acts[i] == (ActionView::Signal { to: d, signal })
}

/// The control message for one source.
pub open spec fn control(trigger: bool, id: Address, addr: ChannelId) -> ActionView {
    if trigger {
        ActionView::Trigger { id, addr }
    } else {
        ActionView::Restore { id, addr }
    }
}

/// The source that a control message is for.
pub open spec fn control_id(a: ActionView) -> Address {
    match a {
        ActionView::Trigger { id, .. } => id,
        ActionView::Restore { id, .. } => id,
        ActionView::Undeliverable { id } => id,
        _ => arbitrary(),
    }
}

/// `acts` holds one control message of the given kind for each connected
/// source, on that source's channel, and nothing else.
pub open spec fn sources_each_once(
    acts: Seq<ActionView>,
    sources: Map<Address, ChannelId>,
    trigger: bool,
) -> bool {
    &&& forall|i: int|
        0 <= i < acts.len() ==> sources.contains_key(control_id(#[trigger] acts[i])) && acts[i]
            == control(trigger, control_id(acts[i]), sources[control_id(acts[i])])
    &&& forall|i: int, j: int|
        0 <= i < j < acts.len() ==> control_id(#[trigger] acts[i]) != control_id(#[trigger] acts[j])
    &&& forall|id: Address| #[trigger]
        sources.contains_key(id) ==> exists|i: int|
            0 <= i < acts.len() && control_id(#[trigger] acts[i]) == id
}

impl Dest {
    /// The message that hands `event` to the input `input` of this
    /// destination.
    pub fn send_event(&self, input: String, event: Event) -> (r: Action)
        ensures
            r@ == (ActionView::Event { to: self@, input: input@, event: event@ }),
    {
        Action::Event { to: self.clone(), input, event }
    }

    /// The message that hands `signal` to this destination.
    pub fn send_signal(&self, signal: Event) -> (r: Action)
        ensures
            r@ == (ActionView::Signal { to: self@, signal: signal@ }),
    {
        Action::Signal { to: self.clone(), signal }
    }
}

/// What is done with `event` for one routing entry.
fn deliver(route: &Route, event: Event) -> (r: Action)
    ensures
        r@ == delivery(route@, event@),
{
    match route.id.instance_port() {
        Some(input) => route.dest.send_event(input.to_string(), event),
        None => Action::Undeliverable { id: route.id.clone() },
    }
}

/// Appends to `acts` what is done with `event` for the entries of `list`. Each
/// entry but the last gets a copy of the event; the last gets the event itself.
fn fan_out_to(list: &Vec<Route>, event: Event, acts: &mut Vec<Action>)
    ensures
        action_views(final(acts)@) == action_views(old(acts)@) + fan_out(route_views(list@), event@),
{
    let ghost before = action_views(acts@);
    let ghost ev = event@;
    let n = list.len();
    if n == 0 {
        assert(action_views(acts@) =~= before + fan_out(route_views(list@), ev));
        return ;
    }
    let mut j: usize = 0;
    while j < n - 1
        invariant
            n == list.len(),
            n >= 1,
            j <= n - 1,
            event@ == ev,
            action_views(acts@) == before + fan_out(route_views(list@), ev).take(j as int),
        decreases n - 1 - j,
    {
        let ghost so_far = action_views(acts@);
        let a = deliver(&list[j], event.clone());
        acts.push(a);
        assert(action_views(acts@) =~= so_far.push(a@));
        assert(fan_out(route_views(list@), ev).take(j + 1) =~= fan_out(route_views(list@), ev).take(
            j as int,
        ).push(a@));
        assert(before + fan_out(route_views(list@), ev).take(j as int).push(a@) =~= (before
            + fan_out(route_views(list@), ev).take(j as int)).push(a@));
        j += 1;
    }
    let ghost so_far = action_views(acts@);
    let a = deliver(&list[n - 1], event);
    acts.push(a);
    assert(action_views(acts@) =~= so_far.push(a@));
    assert(fan_out(route_views(list@), ev) =~= fan_out(route_views(list@), ev).take(n - 1).push(a@));
    assert(before + fan_out(route_views(list@), ev).take(n - 1).push(a@) =~= (before + fan_out(
        route_views(list@),
        ev,
    ).take(n - 1)).push(a@));
}

/// Routes the events that a graph put out: each event, in turn, to every
/// destination connected to its port, in connection order. Empties `eventset`.
pub fn send_events(eventset: &mut Vec<(String, Event)>, dests: &Routes) -> (acts: Vec<Action>)
    ensures
        final(eventset)@.len() == 0,
        action_views(acts@) == plan_events(emitted(old(eventset)@), table(*dests)),
{
    let mut taken: Vec<(String, Event)> = Vec::new();
    std::mem::swap(eventset, &mut taken);
    let ghost all = emitted(taken@);
    let ghost tbl = table(*dests);
    let mut acts: Vec<Action> = Vec::new();
    let mut rest: Vec<(String, Event)> = Vec::new();
    // The events are taken off the end, so turn the run round first.
    while taken.len() > 0
        invariant
            emitted(taken@) + emitted(rest@).reverse() == all,
        decreases taken.len(),
    {
        let ghost t0 = emitted(taken@);
        let ghost r0 = emitted(rest@);
        let e = taken.pop().unwrap();
        rest.push(e);
        assert(emitted(taken@) + emitted(rest@).reverse() =~= t0 + r0.reverse());
    }
    assert(emitted(rest@).reverse() =~= all);
    assert(action_views(acts@) =~= plan_events(all.take(0), tbl));
    let ghost total = rest@.len();
    while rest.len() > 0
        invariant
            total == all.len(),
            rest@.len() <= total,
            tbl == table(*dests),
            emitted(rest@).reverse() == all.skip(total - rest@.len()),
            action_views(acts@) == plan_events(all.take(total - rest@.len()), tbl),
        decreases rest.len(),
    {
        let ghost done = total - rest@.len();
        let ghost r0 = emitted(rest@);
        let (output, event) = rest.pop().unwrap();
        let ghost e = Emitted { port: output@, event: event@ };
        assert(r0.last() == e);
        assert(r0.reverse()[0] == e);
        assert(all[done] == e);
        assert forall|k: int| 0 <= k < rest@.len() implies emitted(rest@).reverse()[k] == all.skip(
            done + 1,
        )[k] by {
            assert(emitted(rest@).reverse()[k] == r0.reverse()[k + 1]);
            assert(r0.reverse()[k + 1] == all.skip(done)[k + 1]);
        }
        assert(emitted(rest@).reverse() =~= all.skip(done + 1));
        assert(all.take(done + 1).drop_last() =~= all.take(done));
        assert(all.take(done + 1).last() == e);
        match routes_get(dests, output.as_str()) {
            Some(list) => {
                assert(tbl[output@] == route_views(list@));
                fan_out_to(list, event, &mut acts);
            },
            None => {
                assert(action_views(acts@) + Seq::<ActionView>::empty() =~= action_views(acts@));
            },
        }
    }
    assert(all.take(total as int) =~= all);
    acts
}

/// What a run of destinations holds.
pub open spec fn dest_views(targets: Seq<Dest>) -> Seq<DestView> {
    Seq::new(targets.len(), |i: int| targets[i]@)
}

/// Whether `d` is among `targets`.
fn is_target(targets: &Vec<Dest>, d: &Dest) -> (r: bool)
    ensures
        r == dest_views(targets@).contains(d@),
{
    let mut t: usize = 0;
    while t < targets.len()
        invariant
            t <= targets.len(),
            forall|u: int| 0 <= u < t ==> dest_views(targets@)[u] != d@,
        decreases targets.len() - t,
    {
        if targets[t].equals(d) {
            assert(dest_views(targets@)[t as int] == d@);
            return true;
        }
        t += 1;
    }
    false
}

/// Every entry of the ports `ports[..upto]`, and of the first `within`
/// entries of `ports[upto]`, that stands under another address than `own` has
/// its destination among `targets`.
spec fn covered(
    table: Map<Seq<char>, Seq<RouteView>>,
    own: Address,
    ports: Seq<Seq<char>>,
    upto: int,
    within: int,
    targets: Seq<DestView>,
) -> bool {
    forall|k: int, j: int|
        #![trigger table[ports[k]][j]]
        0 <= k <= upto && k < ports.len() && table.contains_key(ports[k]) && 0 <= j
            < table[ports[k]].len() && (k < upto || j < within) && table[ports[k]][j].id != own
            ==> targets.contains(table[ports[k]][j].dest)
}

/// One signal message for each of `targets`. Each but the last gets a copy of
/// the signal; the last gets the signal itself.
fn signal_all(targets: &Vec<Dest>, signal: Event) -> (acts: Vec<Action>)
    ensures
        acts@.len() == targets@.len(),
        forall|i: int|
            0 <= i < acts@.len() ==> (#[trigger] acts@[i])@ == (ActionView::Signal {
                to: targets@[i]@,
                signal: signal@,
            }),
{
    let mut acts: Vec<Action> = Vec::new();
    let n = targets.len();
    if n == 0 {
        return acts;
    }
    let mut i: usize = 0;
    while i < n - 1
        invariant
            n == targets.len(),
            n >= 1,
            i <= n - 1,
            acts@.len() == i,
            forall|u: int|
                0 <= u < i ==> (#[trigger] acts@[u])@ == (ActionView::Signal {
                    to: targets@[u]@,
                    signal: signal@,
                }),
        decreases n - 1 - i,
    {
        acts.push(targets[i].send_signal(signal.clone()));
        i += 1;
    }
    acts.push(targets[n - 1].send_signal(signal));
    acts
}

/// Hands a signal on: once to each destination that is connected to any port
/// under an address other than `own_id`. A destination connected several times
/// gets the signal once; one connected only under the pipeline's own address
/// gets none, so that a signal does not come back round a feedback edge.
pub fn send_signal(own_id: &TremorUrl, signal: Event, dests: &Routes) -> (acts: Vec<Action>)
    ensures
        signals_each_once(action_views(acts@), table(*dests), own_id@, signal@),
{
    let ghost tbl = table(*dests);
    let ghost own = own_id@;
    let keys = routes_keys(dests);
    let ghost ports = texts(keys@);
    let mut targets: Vec<Dest> = Vec::new();
    let mut k: usize = 0;
    while k < keys.len()
        invariant
            k <= keys.len(),
            tbl == table(*dests),
            own == own_id@,
            ports == texts(keys@),
            dest_views(targets@).no_duplicates(),
            forall|t: int|
                0 <= t < targets@.len() ==> connected_elsewhere(
                    tbl,
                    own,
                    #[trigger] dest_views(targets@)[t],
                ),
            covered(tbl, own, ports, k as int, 0, dest_views(targets@)),
        decreases keys.len() - k,
    {
        match routes_get(dests, keys[k].as_str()) {
            Some(list) => {
                assert(tbl[ports[k as int]] == route_views(list@));
                let mut j: usize = 0;
                while j < list.len()
                    invariant
                        j <= list.len(),
                        k < keys.len(),
                        ports == texts(keys@),
                        own == own_id@,
                        tbl.contains_key(ports[k as int]),
                        tbl[ports[k as int]] == route_views(list@),
                        dest_views(targets@).no_duplicates(),
                        forall|t: int|
                            0 <= t < targets@.len() ==> connected_elsewhere(
                                tbl,
                                own,
                                #[trigger] dest_views(targets@)[t],
                            ),
                        covered(tbl, own, ports, k as int, j as int, dest_views(targets@)),
                    decreases list.len() - j,
                {
                    let route = &list[j];
                    let ghost before = dest_views(targets@);
                    if !route.id.equals(own_id) && !is_target(&targets, &route.dest) {
                        targets.push(route.dest.clone());
                        assert(dest_views(targets@) =~= before.push(route.dest@));
                        assert(tbl[ports[k as int]][j as int].dest == route.dest@);
                        assert forall|u: int| 0 <= u < before.len() implies before.push(
                            route.dest@,
                        ).contains(#[trigger] before[u]) by {
                            assert(before.push(route.dest@)[u] == before[u]);
                        }
                        assert(before.push(route.dest@)[before.len() as int] == route.dest@);
                    }
                    assert(forall|d: DestView|
                        before.contains(d) ==> #[trigger] dest_views(targets@).contains(d)) by {
                        assert forall|d: DestView| before.contains(d) implies #[trigger] dest_views(
                            targets@,
                        ).contains(d) by {
                            let u = choose|u: int| 0 <= u < before.len() && before[u] == d;
                            assert(dest_views(targets@)[u] == d);
                        }
                    }
                    assert(tbl[ports[k as int]][j as int].id != own ==> dest_views(
                        targets@,
                    ).contains(tbl[ports[k as int]][j as int].dest));
                    j += 1;
                }
            },
            None => {},
        }
        k += 1;
    }
    let acts = signal_all(&targets, signal);
    proof {
        let views = action_views(acts@);
        assert forall|d: DestView| #[trigger] connected_elsewhere(tbl, own, d) implies exists|i: int|
            0 <= i < views.len() && #[trigger] views[i] == (ActionView::Signal {
                to: d,
                signal: signal@,
            }) by {
            let (port, j) = choose|port: Seq<char>, j: int|
                tbl.contains_key(port) && 0 <= j < tbl[port].len() && #[trigger] tbl[port][j].dest
                    == d && tbl[port][j].id != own;
            assert(ports.to_set().contains(port));
            let kk = choose|kk: int| 0 <= kk < ports.len() && ports[kk] == port;
            assert(dest_views(targets@).contains(tbl[ports[kk]][j].dest));
            let t = choose|t: int| 0 <= t < targets@.len() && dest_views(targets@)[t] == d;
            assert(views[t] == (ActionView::Signal { to: d, signal: signal@ }));
        }
        assert forall|i: int, j: int| 0 <= i < j < views.len() implies (#[trigger] views[i])->Signal_to
            != (#[trigger] views[j])->Signal_to by {
            assert(dest_views(targets@)[i] != dest_views(targets@)[j]);
        }
        assert forall|i: int| 0 <= i < views.len() implies (#[trigger] views[i] matches ActionView::Signal {
            to,
            signal: s,
        } && s == signal@ && connected_elsewhere(tbl, own, to)) by {
            assert(connected_elsewhere(tbl, own, dest_views(targets@)[i]));
        }
    }
    acts
}

/// One control message for each connected source: `Trigger` if `trigger`,
/// `Restore` if not.
pub fn notify_sources(sources: &Onramps, trigger: bool) -> (acts: Vec<Action>)
    ensures
        sources_each_once(action_views(acts@), onramps(*sources), trigger),
{
    let entries = onramps_entries(sources);
    let mut acts: Vec<Action> = Vec::new();
    let mut i: usize = 0;
    while i < entries.len()
        invariant
            i <= entries.len(),
            acts@.len() == i,
            forall|u: int|
                0 <= u < i ==> (#[trigger] acts@[u])@ == control(
                    trigger,
                    entries@[u].id@,
                    entries@[u].addr,
                ),
        decreases entries.len() - i,
    {
        let id = entries[i].id.clone();
        let addr = entries[i].addr;
        if trigger {
            acts.push(Action::Trigger { id, addr });
        } else {
            acts.push(Action::Restore { id, addr });
        }
        i += 1;
    }
    proof {
        let views = action_views(acts@);
        let ids = crate::table::onramp_ids(entries@);
        assert forall|i: int| 0 <= i < views.len() implies control_id(#[trigger] views[i]) == ids[i] by {}
        assert forall|id: Address| #[trigger] onramps(*sources).contains_key(id) implies exists|i: int|
            0 <= i < views.len() && control_id(#[trigger] views[i]) == id by {
            assert(ids.to_set().contains(id));
            let u = choose|u: int| 0 <= u < ids.len() && ids[u] == id;
            assert(control_id(views[u]) == id);
        }
        assert forall|i: int| 0 <= i < views.len() implies onramps(*sources).contains_key(
            control_id(#[trigger] views[i]),
        ) && views[i] == control(
            trigger,
            control_id(views[i]),
            onramps(*sources)[control_id(views[i])],
        ) by {
            assert(ids.to_set().contains(ids[i]));
            assert(entries@[i].id@ == ids[i]);
        }
        assert forall|i: int, j: int| 0 <= i < j < views.len() implies control_id(
            #[trigger] views[i],
        ) != control_id(#[trigger] views[j]) by {
            assert(ids[i] != ids[j]);
        }
    }
    acts
}

/// What the sources are told for feedback that left the graph as `insight`:
/// to stop if it carries `trigger`, else to go on if it carries `restore`, else
/// nothing.
pub open spec fn insight_actions(
    insight: EventData,
    sources: Map<Address, ChannelId>,
    acts: Seq<ActionView>,
) -> bool {
    if insight.flag("trigger"@) {
        sources_each_once(acts, sources, true)
    } else if insight.flag("restore"@) {
        sources_each_once(acts, sources, false)
    } else {
        acts.len() == 0
    }
}

/// Sends feedback back through the graph and tells the sources what it asks
/// for when it leaves: every connected source gets one `Trigger` if the
/// feedback carries `trigger`, one `Restore` if it carries `restore` and no
/// `trigger`.
pub fn handle_insight(insight: Event, pipeline: &mut ExecutableGraph, onramps: &Onramps) -> (acts: Vec<
    Action,
>)
    ensures
        final(pipeline)@.id == old(pipeline)@.id,
        final(pipeline)@.nodes == reflected(old(pipeline)@.nodes, insight@, 0).0,
        insight_actions(
            reflected(old(pipeline)@.nodes, insight@, 0).1,
            crate::table::onramps(*onramps),
            action_views(acts@),
        ),
{
    let insight = pipeline.contraflow(insight);
    if insight.flag("trigger") {
        notify_sources(onramps, true)
    } else if insight.flag("restore") {
        notify_sources(onramps, false)
    } else {
        Vec::new()
    }
}

/// Where a pipeline stands in its life.
#[derive(Clone, Copy, Debug, PartialEq, Eq, Structural)]
pub enum Lifecycle {
    Starting,
    Running,
    Stopped,
}

/// A message to a pipeline.
#[derive(Debug, PartialEq, Eq)]
pub enum Msg {
    /// An event for the entry `input` of the graph.
    Event { event: Event, input: String },
    /// Connect a sink to an output port, under the sink's address.
    ConnectOfframp(String, TremorUrl, ChannelId),
    /// Register a source for feedback.
    ConnectOnramp(TremorUrl, ChannelId),
    /// Connect another pipeline to an output port, under that pipeline's address.
    ConnectPipeline(String, TremorUrl, Addr),
    /// Take the destination with this address off an output port.
    DisconnectOutput(String, TremorUrl),
    /// Forget a source.
    DisconnectInput(TremorUrl),
    /// A signal, such as the periodic tick.
    Signal(Event),
    /// Feedback from downstream.
    Insight(Event),
    /// End the pipeline.
    Stop,
}

/// A message as data.
pub enum MsgView {
    Event { event: EventData, input: Seq<char> },
    Connect { port: Seq<char>, route: RouteView },
    ConnectOnramp { id: Address, addr: ChannelId },
    DisconnectOutput { port: Seq<char>, id: Address },
    DisconnectInput { id: Address },
    Signal(EventData),
    Insight(EventData),
    Stop,
}

impl View for Msg {
    type V = MsgView;

    open spec fn view(&self) -> MsgView {
        match self {
            Msg::Event { event, input } => MsgView::Event { event: event@, input: input@ },
            Msg::ConnectOfframp(port, id, addr) => MsgView::Connect {
                port: port@,
                route: RouteView { id: id@, dest: DestView::Offramp(*addr) },
            },
            Msg::ConnectOnramp(id, addr) => MsgView::ConnectOnramp { id: id@, addr: *addr },
            Msg::ConnectPipeline(port, id, addr) => MsgView::Connect {
                port: port@,
                route: RouteView { id: id@, dest: DestView::Pipeline(addr@) },
            },
            Msg::DisconnectOutput(port, id) => MsgView::DisconnectOutput { port: port@, id: id@ },
            Msg::DisconnectInput(id) => MsgView::DisconnectInput { id: id@ },
            Msg::Signal(e) => MsgView::Signal(e@),
            Msg::Insight(e) => MsgView::Insight(e@),
            Msg::Stop => MsgView::Stop,
        }
    }
}

/// The entries of `list` that do not stand under the address `id`, in their
/// order.
pub open spec fn without(list: Seq<RouteView>, id: Address) -> Seq<RouteView>
    decreases list.len(),
{
    if list.len() == 0 {
        Seq::empty()
    } else if list.last().id == id {
        without(list.drop_last(), id)
    } else {
        without(list.drop_last(), id).push(list.last())
    }
}

/// The table with `route` added at the end of the entries of `port`.
pub open spec fn connected(
    table: Map<Seq<char>, Seq<RouteView>>,
    port: Seq<char>,
    route: RouteView,
) -> Map<Seq<char>, Seq<RouteView>> {
    if table.contains_key(port) {
        table.insert(port, table[port].push(route))
    } else {
        table.insert(port, seq![route])
    }
}

/// The table without the entries of `port` that stand under the address `id`;
/// a port that has no entry left leaves the table.
pub open spec fn disconnected(
    table: Map<Seq<char>, Seq<RouteView>>,
    port: Seq<char>,
    id: Address,
) -> Map<Seq<char>, Seq<RouteView>> {
    if !table.contains_key(port) {
        table
    } else if without(table[port], id).len() == 0 {
        table.remove(port)
    } else {
        table.insert(port, without(table[port], id))
    }
}

/// A pipeline as data.
pub struct PipelineView {
    pub id: Address,
    pub graph: GraphView,
    pub table: Map<Seq<char>, Seq<RouteView>>,
    pub sources: Map<Address, ChannelId>,
    pub state: Lifecycle,
}

/// The runs of `groups` one after the other.
pub open spec fn joined(groups: Seq<Seq<ActionView>>) -> Seq<ActionView>
    decreases groups.len(),
{
    if groups.len() == 0 {
        Seq::empty()
    } else {
        joined(groups.drop_last()) + groups.last()
    }
}

/// The graph's nodes after the first `upto` of `insights` went back through
/// them, one after the other.
pub open spec fn after_insights(nodes: Seq<NodeView>, insights: Seq<EventData>, upto: int) -> Seq<NodeView>
    decreases upto,
{
    if upto <= 0 || upto > insights.len() {
        nodes
    } else {
        reflected(after_insights(nodes, insights, upto - 1), insights[upto - 1], 0).0
    }
}

/// `groups` holds, for each of `insights` in turn, what the sources are told
/// when it has gone back through the graph.
pub open spec fn feedback_rounds(
    nodes: Seq<NodeView>,
    insights: Seq<EventData>,
    sources: Map<Address, ChannelId>,
    groups: Seq<Seq<ActionView>>,
) -> bool {
    &&& groups.len() == insights.len()
    &&& forall|i: int|
        0 <= i < insights.len() ==> insight_actions(
            reflected(after_insights(nodes, insights, i), insights[i], 0).1,
            sources,
            #[trigger] groups[i],
        )
}

/// What a running pipeline `pre` does with `msg`: the pipeline `post` that it
/// becomes, and the actions `acts` that it asks for.
pub open spec fn reacts(pre: PipelineView, msg: MsgView, post: PipelineView, acts: Seq<ActionView>) -> bool {
    &&& post.id == pre.id
    &&& post.graph.id == pre.graph.id
    &&& match msg {
        MsgView::Event { event, input } => {
            &&& post.table == pre.table
            &&& post.sources == pre.sources
            &&& post.state == pre.state
            &&& match input_node(pre.graph.nodes, input, 0) {
                None => post.graph == pre.graph && acts == seq![
                    ActionView::Rejected { error: GraphError::UnknownInput },
                ],
                Some(at) => {
                    let flow = sweep(
                        Flow {
                            nodes: pre.graph.nodes,
                            inboxes: entering(pre.graph.nodes.len(), at, event),
                            out: Seq::empty(),
                        },
                        at,
                    );
                    post.graph.nodes == flow.nodes && acts == plan_events(flow.out, pre.table)
                },
            }
        },
        MsgView::Signal(signal) => {
            let s = signalled(pre.graph.nodes, signal, pre.graph.nodes.len() as int);
            &&& post.table == pre.table
            &&& post.sources == pre.sources
            &&& post.state == pre.state
            &&& post.graph.nodes == after_insights(s.0, s.1, s.1.len() as int)
            &&& exists|forwards: Seq<ActionView>, groups: Seq<Seq<ActionView>>|
                #![trigger feedback_rounds(s.0, s.1, pre.sources, groups), signals_each_once(forwards, pre.table, pre.id, signal)]
                acts == forwards + joined(groups) + plan_events(
                    signal_output(pre.graph.nodes, signal),
                    pre.table,
                ) && signals_each_once(forwards, pre.table, pre.id, signal) && feedback_rounds(
                    s.0,
                    s.1,
                    pre.sources,
                    groups,
                )
        },
        MsgView::Insight(insight) => {
            &&& post.table == pre.table
            &&& post.sources == pre.sources
            &&& post.state == pre.state
            &&& post.graph.nodes == reflected(pre.graph.nodes, insight, 0).0
            &&& insight_actions(reflected(pre.graph.nodes, insight, 0).1, pre.sources, acts)
        },
        MsgView::Connect { port, route } => {
            &&& post.table == connected(pre.table, port, route)
            &&& post.sources == pre.sources
            &&& post.state == pre.state
            &&& post.graph == pre.graph
            &&& acts.len() == 0
        },
        MsgView::ConnectOnramp { id, addr } => {
            &&& post.table == pre.table
            &&& post.sources == pre.sources.insert(id, addr)
            &&& post.state == pre.state
            &&& post.graph == pre.graph
            &&& acts.len() == 0
        },
        MsgView::DisconnectOutput { port, id } => {
            &&& post.table == disconnected(pre.table, port, id)
            &&& post.sources == pre.sources
            &&& post.state == pre.state
            &&& post.graph == pre.graph
            &&& acts.len() == 0
        },
        MsgView::DisconnectInput { id } => {
            &&& post.table == pre.table
            &&& post.sources == pre.sources.remove(id)
            &&& post.state == pre.state
            &&& post.graph == pre.graph
            &&& acts.len() == 0
        },
        MsgView::Stop => {
            &&& post.table == pre.table
            &&& post.sources == pre.sources
            &&& post.state == Lifecycle::Stopped
            &&& post.graph == pre.graph
            &&& acts.len() == 0
        },
    }
}

/// A pipeline: the state that its actor owns.
pub struct Pipeline {
    id: ServantId,
    graph: ExecutableGraph,
    dests: Routes,
    onramps: Onramps,
    state: Lifecycle,
}

impl View for Pipeline {
    type V = PipelineView;

    closed spec fn view(&self) -> PipelineView {
        PipelineView {
            id: self.id@,
            graph: self.graph@,
            table: table(self.dests),
            sources: onramps(self.onramps),
            state: self.state,
        }
    }
}

/// Adds `route` at the end of the entries of `port`.
fn connect(dests: &mut Routes, port: String, route: Route)
    ensures
        table(*final(dests)) == connected(table(*old(dests)), port@, route@),
{
    let ghost before = table(*dests);
    let mut list = match routes_remove(dests, port.as_str()) {
        Some(list) => list,
        None => Vec::new(),
    };
    let ghost had = route_views(list@);
    assert(before.contains_key(port@) ==> had == before[port@]);
    assert(!before.contains_key(port@) ==> had =~= Seq::<RouteView>::empty());
    list.push(route);
    assert(route_views(list@) =~= had.push(route@));
    assert(!before.contains_key(port@) ==> route_views(list@) =~= seq![route@]);
    routes_insert(dests, port, list);
    assert(table(*dests).dom() =~= connected(before, port@, route@).dom());
    assert forall|k: Seq<char>| table(*dests).contains_key(k) implies #[trigger] table(*dests)[k]
        == connected(before, port@, route@)[k] by {
        if k != port@ {
            assert(table(*dests)[k] == before[k]);
        }
    }
    assert(table(*dests) =~= connected(before, port@, route@));
}

/// Takes the entries under the address `id` off the port `port`, and the port
/// off the table if nothing is left on it.
fn disconnect(dests: &mut Routes, port: String, id: &TremorUrl)
    ensures
        table(*final(dests)) == disconnected(table(*old(dests)), port@, id@),
{
    let ghost before = table(*dests);
    match routes_remove(dests, port.as_str()) {
        None => {
            assert(table(*dests) =~= before);
        },
        Some(list) => {
            let ghost all = route_views(list@);
            let mut kept: Vec<Route> = Vec::new();
            assert(all.take(0) =~= Seq::<RouteView>::empty());
            assert(route_views(kept@) =~= Seq::<RouteView>::empty());
            for route in it: list
                invariant
                    all == route_views(it.seq()),
                    route_views(kept@) == without(all.take(it.index() as int), id@),
            {
                let ghost i = it.index() as int;
                let ghost sofar = route_views(kept@);
                assert(all.take(i + 1).drop_last() =~= all.take(i));
                assert(all.take(i + 1).last() == route@);
                if !route.id.equals(id) {
                    kept.push(route);
                    assert(route_views(kept@) =~= sofar.push(route@));
                }
            }
            assert(all.take(all.len() as int) =~= all);
            if kept.len() == 0 {
                assert(table(*dests) =~= disconnected(before, port@, id@));
            } else {
                routes_insert(dests, port, kept);
                assert(table(*dests) =~= disconnected(before, port@, id@));
            }
        },
    }
}

impl Pipeline {
    /// A pipeline that runs `graph` under the address `id`, with nothing
    /// connected to it yet.
    pub fn new(id: ServantId, graph: ExecutableGraph) -> (r: Pipeline)
        ensures
            r@ == (PipelineView {
                id: id@,
                graph: graph@,
                table: Map::empty(),
                sources: Map::empty(),
                state: Lifecycle::Starting,
            }),
    {
        let dests = routes_new();
        let onramps = onramps_new();
        assert(table(dests) =~= Map::empty());
        Pipeline { id, graph, dests, onramps, state: Lifecycle::Starting }
    }

    /// Where the pipeline stands in its life.
    pub fn state(&self) -> (r: Lifecycle)
        ensures
            r == self@.state,
    {
        self.state
    }

    /// The step from starting to running; a pipeline that is past starting
    /// stays as it is.
    pub fn start(&mut self)
        ensures
            final(self)@ == (PipelineView {
                state: if old(self)@.state == Lifecycle::Starting {
                    Lifecycle::Running
                } else {
                    old(self)@.state
                },
                ..old(self)@
            }),
    {
        match self.state {
            Lifecycle::Starting => {
                self.state = Lifecycle::Running;
            },
            _ => {},
        }
    }

    /// Takes one message. A running pipeline does what `reacts` says and
    /// returns the actions that it asks for, in the order in which they are to
    /// be carried out; a pipeline that is not running leaves the message
    /// unread.
    pub fn handle(&mut self, msg: Msg) -> (acts: Vec<Action>)
        ensures
            old(self)@.state == Lifecycle::Running ==> reacts(
                old(self)@,
                msg@,
                final(self)@,
                action_views(acts@),
            ),
            old(self)@.state != Lifecycle::Running ==> final(self)@ == old(self)@ && acts@.len() == 0,
    {
        match self.state {
            Lifecycle::Running => {},
            _ => {
                return Vec::new();
            },
        }
        match msg {
            Msg::Event { event, input } => {
                let mut eventset: Vec<(String, Event)> = Vec::new();
                assert(emitted(eventset@) =~= Seq::<Emitted>::empty());
                match self.graph.enqueue(input.as_str(), event, &mut eventset) {
                    Ok(()) => send_events(&mut eventset, &self.dests),
                    Err(error) => {
                        let mut acts: Vec<Action> = Vec::new();
                        acts.push(Action::Rejected { error });
                        assert(action_views(acts@) =~= seq![
                            ActionView::Rejected { error: GraphError::UnknownInput },
                        ]);
                        acts
                    },
                }
            },
            Msg::Signal(signal) => {
                let mut eventset: Vec<(String, Event)> = Vec::new();
                let ghost pre = self@;
                let ghost sig = signal@;
                let ghost s = signalled(pre.graph.nodes, sig, pre.graph.nodes.len() as int);
                assert(emitted(eventset@) =~= Seq::<Emitted>::empty());
                let insights = self.graph.enqueue_signal(signal.clone(), &mut eventset);
                assert(emitted(eventset@) =~= signal_output(pre.graph.nodes, sig));
                let mut acts = send_signal(&self.id, signal, &self.dests);
                let ghost forwards = action_views(acts@);
                let ghost mut groups: Seq<Seq<ActionView>> = Seq::empty();
                let ghost all = event_views(insights@);
                assert(forwards + joined(groups) =~= forwards);
                for insight in it: insights
                    invariant
                        all == event_views(it.seq()),
                        all == s.1,
                        self@.id == pre.id,
                        self@.graph.id == pre.graph.id,
                        self@.table == pre.table,
                        self@.sources == pre.sources,
                        self@.state == pre.state,
                        self@.graph.nodes == after_insights(s.0, all, it.index() as int),
                        groups.len() == it.index(),
                        action_views(acts@) == forwards + joined(groups),
                        forall|i: int|
                            0 <= i < it.index() ==> insight_actions(
                                reflected(after_insights(s.0, all, i), all[i], 0).1,
                                pre.sources,
                                #[trigger] groups[i],
                            ),
                {
                    let ghost sofar = action_views(acts@);
                    let ghost old_groups = groups;
                    let more = handle_insight(insight, &mut self.graph, &self.onramps);
                    let ghost group = action_views(more@);
                    proof {
                        groups = groups.push(group);
                        assert(groups.drop_last() =~= old_groups);
                    }
                    for a in jt: more
                        invariant
                            group == action_views(jt.seq()),
                            action_views(acts@) == sofar + group.take(jt.index() as int),
                    {
                        let ghost now = action_views(acts@);
                        acts.push(a);
                        assert(action_views(acts@) =~= now.push(a@));
                        assert(sofar + group.take(jt.index() + 1) =~= (sofar + group.take(
                            jt.index() as int,
                        )).push(a@));
                    }
                    assert(group.take(group.len() as int) =~= group);
                    assert(forwards + joined(old_groups) + group =~= forwards + (joined(old_groups)
                        + group));
                }
                let ghost before_events = action_views(acts@);
                let routed = send_events(&mut eventset, &self.dests);
                let ghost tail = action_views(routed@);
                for a in jt: routed
                    invariant
                        tail == action_views(jt.seq()),
                        action_views(acts@) == before_events + tail.take(jt.index() as int),
                {
                    let ghost now = action_views(acts@);
                    acts.push(a);
                    assert(action_views(acts@) =~= now.push(a@));
                    assert(before_events + tail.take(jt.index() + 1) =~= (before_events + tail.take(
                        jt.index() as int,
                    )).push(a@));
                }
                proof {
                    assert(tail.take(tail.len() as int) =~= tail);
                    assert(feedback_rounds(s.0, s.1, pre.sources, groups));
                    assert(signals_each_once(forwards, pre.table, pre.id, sig));
                    assert(tail == plan_events(signal_output(pre.graph.nodes, sig), pre.table));
                }
                acts
            },
            Msg::Insight(insight) => handle_insight(insight, &mut self.graph, &self.onramps),
            Msg::ConnectOfframp(output, offramp_id, offramp) => {
                connect(&mut self.dests, output, Route { id: offramp_id, dest: Dest::Offramp(offramp) });
                Vec::new()
            },
            Msg::ConnectPipeline(output, pipeline_id, pipeline) => {
                connect(
                    &mut self.dests,
                    output,
                    Route { id: pipeline_id, dest: Dest::Pipeline(pipeline) },
                );
                Vec::new()
            },
            Msg::ConnectOnramp(onramp_id, onramp) => {
                onramps_insert(&mut self.onramps, onramp_id, onramp);
                Vec::new()
            },
            Msg::DisconnectOutput(output, to_delete) => {
                disconnect(&mut self.dests, output, &to_delete);
                Vec::new()
            },
            Msg::DisconnectInput(onramp_id) => {
                onramps_remove(&mut self.onramps, &onramp_id);
                Vec::new()
            },
            Msg::Stop => {
                self.state = Lifecycle::Stopped;
                Vec::new()
            },
        }
    }
}

/// Fan-out: an event put out on a port goes to every destination connected to
/// that port, in connection order, and each of them gets the same event. The
/// destination at `i` gets it on the input that its address names.
pub proof fn fan_out_reaches_every_destination(
    e: Emitted,
    table: Map<Seq<char>, Seq<RouteView>>,
    i: int,
)
    requires
        table.contains_key(e.port),
        0 <= i < table[e.port].len(),
    ensures
        plan_events(seq![e], table).len() == table[e.port].len(),
        plan_events(seq![e], table)[i] == delivery(table[e.port][i], e.event),
        table[e.port][i].id.port is Some ==> plan_events(seq![e], table)[i] == (ActionView::Event {
            to: table[e.port][i].dest,
            input: table[e.port][i].id.port->0,
            event: e.event,
        }),
{
    assert(seq![e].drop_last() =~= Seq::<Emitted>::empty());
    assert(seq![e].last() == e);
    assert(plan_events(seq![e].drop_last(), table) =~= Seq::<ActionView>::empty());
    assert(plan_events(seq![e], table) =~= plan_event(e, table));
}

/// Ports are kept apart: whatever is done for a run of put-out events is done
/// for one of these events and one destination connected to that event's own
/// port. So nothing that leaves the graph on one port reaches a destination
/// that is connected to another port only.
pub proof fn delivery_stays_on_its_port(
    events: Seq<Emitted>,
    table: Map<Seq<char>, Seq<RouteView>>,
    i: int,
)
    requires
        0 <= i < plan_events(events, table).len(),
    ensures
        exists|k: int, j: int|
            0 <= k < events.len() && table.contains_key(events[k].port) && 0 <= j
                < table[events[k].port].len() && plan_events(events, table)[i] == delivery(
                #[trigger] table[events[k].port][j],
                events[k].event,
            ),
    decreases events.len(),
{
    if events.len() > 0 {
        let head = plan_events(events.drop_last(), table);
        let last = events.last();
        if i < head.len() {
            delivery_stays_on_its_port(events.drop_last(), table, i);
            let (k, j) = choose|k: int, j: int|
                0 <= k < events.drop_last().len() && table.contains_key(events.drop_last()[k].port)
                    && 0 <= j < table[events.drop_last()[k].port].len() && head[i] == delivery(
                    #[trigger] table[events.drop_last()[k].port][j],
                    events.drop_last()[k].event,
                );
            assert(events[k] == events.drop_last()[k]);
            assert(plan_events(events, table)[i] == delivery(
                table[events[k].port][j],
                events[k].event,
            ));
        } else {
            let k = events.len() - 1;
            let j = i - head.len();
            assert(plan_events(events, table)[i] == delivery(
                table[events[k].port][j],
                events[k].event,
            ));
        }
    }
}

/// Signals do not come back round: a forwarded signal reaches each
/// destination that is connected under an address other than the pipeline's
/// own exactly once, and no destination that is connected under the
/// pipeline's own address only.
pub proof fn signal_reaches_others_once(
    acts: Seq<ActionView>,
    table: Map<Seq<char>, Seq<RouteView>>,
    own: Address,
    signal: EventData,
    d: DestView,
)
    requires
        signals_each_once(acts, table, own, signal),
    ensures
        connected_elsewhere(table, own, d) ==> exists|i: int|
            0 <= i < acts.len() && #[trigger] acts[i] == (ActionView::Signal { to: d, signal })
                && forall|j: int|
                0 <= j < acts.len() && j != i ==> (#[trigger] acts[j])->Signal_to != d,
        !connected_elsewhere(table, own, d) ==> forall|i: int|
            0 <= i < acts.len() ==> (#[trigger] acts[i])->Signal_to != d,
{
    if connected_elsewhere(table, own, d) {
        let i = choose|i: int|
            0 <= i < acts.len() && #[trigger] acts[i] == (ActionView::Signal { to: d, signal });
        assert forall|j: int| 0 <= j < acts.len() && j != i implies (#[trigger] acts[j])->Signal_to
            != d by {
            if j < i {
                assert(acts[j]->Signal_to != acts[i]->Signal_to);
            } else {
                assert(acts[i]->Signal_to != acts[j]->Signal_to);
            }
        }
    } else {
        assert forall|i: int| 0 <= i < acts.len() implies (#[trigger] acts[i])->Signal_to != d by {
            assert(acts[i] matches ActionView::Signal { to, signal: s } && connected_elsewhere(
                table,
                own,
                to,
            ));
        }
    }
}

/// The circuit breaker reaches every source once: of what the sources are
/// told for one piece of feedback, exactly one message is for the connected
/// source `id`. It is a `Trigger` if the feedback carries `trigger`, and a
/// `Restore` if it carries `restore` and no `trigger`; feedback that carries
/// neither tells the sources nothing.
pub proof fn feedback_reaches_each_source_once(
    insight: EventData,
    sources: Map<Address, ChannelId>,
    acts: Seq<ActionView>,
    id: Address,
)
    requires
        insight_actions(insight, sources, acts),
        sources.contains_key(id),
    ensures
        insight.flag("trigger"@) ==> exists|i: int|
            0 <= i < acts.len() && #[trigger] acts[i] == (ActionView::Trigger {
                id,
                addr: sources[id],
            }) && forall|j: int|
                0 <= j < acts.len() && j != i ==> control_id(#[trigger] acts[j]) != id,
        !insight.flag("trigger"@) && insight.flag("restore"@) ==> exists|i: int|
            0 <= i < acts.len() && #[trigger] acts[i] == (ActionView::Restore {
                id,
                addr: sources[id],
            }) && forall|j: int|
                0 <= j < acts.len() && j != i ==> control_id(#[trigger] acts[j]) != id,
        !insight.flag("trigger"@) && !insight.flag("restore"@) ==> acts.len() == 0,
        forall|i: int|
            0 <= i < acts.len() ==> ((#[trigger] acts[i]) is Trigger <==> insight.flag("trigger"@)),
{
    if insight.flag("trigger"@) || insight.flag("restore"@) {
        let trigger = insight.flag("trigger"@);
        assert(sources_each_once(acts, sources, trigger));
        let i = choose|i: int| 0 <= i < acts.len() && control_id(#[trigger] acts[i]) == id;
        assert(acts[i] == control(trigger, id, sources[id]));
        assert forall|j: int| 0 <= j < acts.len() && j != i implies control_id(#[trigger] acts[j])
            != id by {
            if j < i {
                assert(control_id(acts[j]) != control_id(acts[i]));
            } else {
                assert(control_id(acts[i]) != control_id(acts[j]));
            }
        }
        assert forall|k: int| 0 <= k < acts.len() implies ((#[trigger] acts[k]) is Trigger
            <==> trigger) by {
            assert(acts[k] == control(trigger, control_id(acts[k]), sources[control_id(acts[k])]));
        }
    }
}

/// How long the tick generator waits between two ticks, in milliseconds.
pub const TICK_MS: u64 = 1000;

/// A request for a new pipeline: the nodes of its graph, in an order in which
/// every edge leads forward, and the address that it is to have.
pub struct Create {
    pub config: Vec<Node>,
    pub id: ServantId,
}

/// A message to the manager of the pipelines.
pub enum ManagerMsg {
    /// End the manager.
    Stop,
    /// Make a pipeline and answer on the given channel.
    Create(ChannelId, Create),
}

/// What the manager does for a message.
pub enum ManagerStep {
    /// The manager ends.
    Stopped,
    /// The answer to a request is due on the channel `reply_to`: the new
    /// pipeline with its address, or why it could not be made.
    Answer { reply_to: ChannelId, result: Result<(Addr, Pipeline), GraphError> },
}

/// The manager of the pipelines.
#[derive(Debug, PartialEq, Eq)]
pub struct Manager {
    qsize: usize,
}

impl Default for Manager {
    fn default() -> (r: Manager)
        ensures
            r.queue_size() == 0,
    {
        Manager { qsize: 0 }
    }
}

/// What a new pipeline is, for the request `req` and the channel `addr` that
/// the transport made for it: it runs the graph of the request's nodes, named
/// by the address without its port, and nothing is connected to it yet.
pub open spec fn created(req: Create, addr: ChannelId, a: Addr, p: Pipeline) -> bool {
    &&& a@ == (AddrView { addr, id: req.id@ })
    &&& p@ == (PipelineView {
        id: req.id@,
        graph: GraphView {
            id: req.id@.instance_only().text(),
            nodes: crate::graph::node_views(req.config@),
        },
        table: Map::empty(),
        sources: Map::empty(),
        state: Lifecycle::Running,
    })
}

impl Manager {
    /// A manager whose pipelines take `qsize` messages into their channel
    /// before senders have to wait.
    pub fn new(qsize: usize) -> (r: Manager)
        ensures
            r.queue_size() == qsize,
    {
        Manager { qsize }
    }

    /// How many messages a pipeline's channel holds.
    pub closed spec fn queue_size(&self) -> usize {
        self.qsize
    }

    /// How many messages a pipeline's channel holds.
    pub fn qsize(&self) -> (r: usize)
        ensures
            r == self.queue_size(),
    {
        self.qsize
    }

    /// Makes the pipeline that `req` asks for, running, with the channel
    /// `addr` as its address. It fails if an edge of the graph does not lead
    /// forward.
    pub fn start_pipeline(&self, req: Create, addr: ChannelId) -> (r: Result<(Addr, Pipeline), GraphError>)
        ensures
            match r {
                Ok((a, p)) => crate::graph::forward(crate::graph::node_views(req.config@))
                    && created(req, addr, a, p),
                Err(e) => !crate::graph::forward(crate::graph::node_views(req.config@)) && e
                    == GraphError::NotForward,
            },
    {
        let Create { config, id } = req;
        let mut pid = id.clone();
        pid.trim_to_instance();
        let graph = match ExecutableGraph::new(pid.to_string(), config) {
            Ok(g) => g,
            Err(e) => {
                return Err(e);
            },
        };
        let mut pipeline = Pipeline::new(id.clone(), graph);
        pipeline.start();
        Ok((Addr { id, addr }, pipeline))
    }

    /// What the manager does for one message from its channel, or for the end
    /// of the channel: it ends on `Stop` and when the channel is closed, and
    /// answers a request with the pipeline that it made. `addr` is the channel
    /// that the transport made for a new pipeline.
    pub fn serve(&self, msg: Option<ManagerMsg>, addr: ChannelId) -> (r: ManagerStep)
        ensures
            match msg {
                None => r is Stopped,
                Some(ManagerMsg::Stop) => r is Stopped,
                Some(ManagerMsg::Create(reply, req)) => r matches ManagerStep::Answer {
                    reply_to,
                    result,
                } && reply_to == reply && match result {
                    Ok((a, p)) => crate::graph::forward(crate::graph::node_views(req.config@))
                        && created(req, addr, a, p),
                    Err(e) => !crate::graph::forward(crate::graph::node_views(req.config@)) && e
                        == GraphError::NotForward,
                },
            },
    {
        match msg {
            None => ManagerStep::Stopped,
            Some(ManagerMsg::Stop) => ManagerStep::Stopped,
            Some(ManagerMsg::Create(reply_to, create)) => ManagerStep::Answer {
                reply_to,
                result: self.start_pipeline(create, addr),
            },
        }
    }
}

} // verus!
