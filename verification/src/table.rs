//! The two tables a pipeline keeps: where each output port leads, and which
//! sources feed it. Both are maps of the `halfbrown` crate; this module states
//! what the pipeline relies on of them.

use vstd::prelude::*;
use crate::url::{Address, TremorUrl};

verus! {

/// Names one inbound channel of a running part. The transport keeps the
/// channel itself; the engine only says where a message goes.
#[derive(Clone, Copy, Debug, PartialEq, Eq, Hash, Structural)]
pub struct ChannelId(pub u64);

/// The address of a running pipeline.
#[derive(Debug, PartialEq, Eq)]
pub struct Addr {
    pub addr: ChannelId,
    pub id: TremorUrl,
}

/// A pipeline's address as data.
pub struct AddrView {
    pub addr: ChannelId,
    pub id: Address,
}

/// Where a pipeline's output can go.
#[derive(Debug, PartialEq, Eq)]
pub enum Dest {
    Offramp(ChannelId),
    Pipeline(Addr),
}

/// A destination as data.
pub enum DestView {
    Offramp(ChannelId),
    Pipeline(AddrView),
}

/// One entry of a port's routing list: the destination's address, whose port
/// names the input that it takes events on, and the destination itself.
#[derive(Debug, PartialEq, Eq)]
pub struct Route {
    pub id: TremorUrl,
    pub dest: Dest,
}

/// A routing entry as data.
pub struct RouteView {
    pub id: Address,
    pub dest: DestView,
}

impl View for Addr {
    type V = AddrView;

    open spec fn view(&self) -> AddrView {
        AddrView { addr: self.addr, id: self.id@ }
    }
}

impl View for Dest {
    type V = DestView;

    open spec fn view(&self) -> DestView {
        match self {
            Dest::Offramp(c) => DestView::Offramp(*c),
            Dest::Pipeline(a) => DestView::Pipeline(a@),
        }
    }
}

impl View for Route {
    type V = RouteView;

    open spec fn view(&self) -> RouteView {
        RouteView { id: self.id@, dest: self.dest@ }
    }
}

impl Clone for Addr {
    fn clone(&self) -> (r: Self)
        ensures
            r@ == self@,
    {
        Addr { addr: self.addr, id: self.id.clone() }
    }
}

impl Clone for Dest {
    fn clone(&self) -> (r: Self)
        ensures
            r@ == self@,
    {
        match self {
            Dest::Offramp(c) => Dest::Offramp(*c),
            Dest::Pipeline(a) => Dest::Pipeline(a.clone()),
        }
    }
}

impl Addr {
    /// The address as it is shown: `Pipeline(` and the pipeline's address and
    /// `)`.
    pub fn to_string(&self) -> (r: String)
        ensures
            r@ == "Pipeline("@ + self.id@.text() + ")"@,
    {
        let mut r = "Pipeline(".to_string();
        r.append(self.id.to_string().as_str());
        r.append(")");
        r
    }
}

impl Dest {
    /// Whether two destinations are the same channel under the same address.
    pub fn equals(&self, other: &Dest) -> (r: bool)
        ensures
            r == (self@ == other@),
    {
        match (self, other) {
            (Dest::Offramp(a), Dest::Offramp(b)) => a.0 == b.0,
            (Dest::Pipeline(a), Dest::Pipeline(b)) => a.addr.0 == b.addr.0 && a.id.equals(&b.id),
            _ => false,
        }
    }
}

/// What a run of routing entries holds.
pub open spec fn route_views(routes: Seq<Route>) -> Seq<RouteView> {
    Seq::new(routes.len(), |i: int| routes[i]@)
}

/// `halfbrown::SizedHashMap`, the map type of the `halfbrown` crate; nothing
/// inside it is visible here.
#[verifier::external_type_specification]
#[verifier::external_body]
#[verifier::reject_recursive_types(K)]
#[verifier::reject_recursive_types(V)]
#[verifier::reject_recursive_types(S)]
pub struct ExSizedHashMap<K, V, S, const N: usize>(halfbrown::SizedHashMap<K, V, S, N>);

/// `halfbrown::DefaultHashBuilder`, the hasher that the maps are made with;
/// nothing inside it is visible here.
#[verifier::external_type_specification]
#[verifier::external_body]
pub struct ExDefaultHashBuilder(halfbrown::DefaultHashBuilder);

/// From the name of an output port to the destinations connected to it, in the
/// order in which they were connected.
pub type Routes = halfbrown::HashMap<String, Vec<Route>>;

/// From the address of a connected source to its channel.
pub type Onramps = halfbrown::HashMap<TremorUrl, ChannelId>;

/// The routing lists that the map holds, by port name.
pub uninterp spec fn routes(m: Routes) -> Map<Seq<char>, Seq<Route>>;

/// The channels that the map holds, by source address.
pub uninterp spec fn onramps(m: Onramps) -> Map<Address, ChannelId>;

pub open spec fn no_routes() -> Map<Seq<char>, Seq<Route>> {
    Map::empty()
}

pub open spec fn no_onramps() -> Map<Address, ChannelId> {
    Map::empty()
}

/// The texts of a run of strings.
pub open spec fn texts(names: Seq<String>) -> Seq<Seq<char>> {
    Seq::new(names.len(), |i: int| names[i]@)
}

/// A source with its channel, as the table hands it out.
#[derive(Debug, PartialEq, Eq)]
pub struct Onramp {
    pub id: TremorUrl,
    pub addr: ChannelId,
}

/// The addresses of a run of sources.
pub open spec fn onramp_ids(sources: Seq<Onramp>) -> Seq<Address> {
    Seq::new(sources.len(), |i: int| sources[i].id@)
}

/// `halfbrown::HashMap::new`: a map that holds nothing.
#[verifier::external_body]
pub(crate) fn routes_new() -> (m: Routes)
    ensures
        routes(m) == no_routes(),
{
    halfbrown::HashMap::new()
}

/// `halfbrown::HashMap::get`: the list stored under `port`, if there is one.
#[verifier::external_body]
pub(crate) fn routes_get<'a>(m: &'a Routes, port: &str) -> (r: Option<&'a Vec<Route>>)
    ensures
        match r {
            Some(list) => routes(*m).contains_key(port@) && list@ == routes(*m)[port@],
            None => !routes(*m).contains_key(port@),
        },
{
    m.get(port)
}

/// `halfbrown::HashMap::insert`: stores `list` under `port` in place of what
/// was there, and leaves the other ports as they are.
#[verifier::external_body]
pub(crate) fn routes_insert(m: &mut Routes, port: String, list: Vec<Route>)
    ensures
        routes(*final(m)) == routes(*old(m)).insert(port@, list@),
{
    m.insert(port, list);
}

/// `halfbrown::HashMap::remove`: takes out and returns the list stored under
/// `port`, if there is one, and leaves the other ports as they are.
#[verifier::external_body]
pub(crate) fn routes_remove(m: &mut Routes, port: &str) -> (r: Option<Vec<Route>>)
    ensures
        routes(*final(m)) == routes(*old(m)).remove(port@),
        match r {
            Some(list) => routes(*old(m)).contains_key(port@) && list@ == routes(*old(m))[port@],
            None => !routes(*old(m)).contains_key(port@),
        },
{
    m.remove(port)
}

/// `halfbrown::HashMap::keys`: every port that has a list, each once, in the
/// order in which the map walks them.
#[verifier::external_body]
pub(crate) fn routes_keys(m: &Routes) -> (r: Vec<String>)
    ensures
        texts(r@).no_duplicates(),
        texts(r@).to_set() == routes(*m).dom(),
{
    m.keys().cloned().collect()
}

/// `halfbrown::HashMap::new`: a map that holds nothing.
#[verifier::external_body]
pub(crate) fn onramps_new() -> (m: Onramps)
    ensures
        onramps(m) == no_onramps(),
{
    halfbrown::HashMap::new()
}

/// `halfbrown::HashMap::insert`: stores `addr` under `id` in place of what was
/// there, and leaves the other sources as they are.
#[verifier::external_body]
pub(crate) fn onramps_insert(m: &mut Onramps, id: TremorUrl, addr: ChannelId)
    ensures
        onramps(*final(m)) == onramps(*old(m)).insert(id@, addr),
{
    m.insert(id, addr);
}

/// `halfbrown::HashMap::remove`: takes out what is stored under `id`, and
/// leaves the other sources as they are.
#[verifier::external_body]
pub(crate) fn onramps_remove(m: &mut Onramps, id: &TremorUrl)
    ensures
        onramps(*final(m)) == onramps(*old(m)).remove(id@),
{
    m.remove(id);
}

/// `halfbrown::HashMap::iter`: every source with its channel, each once, in
/// the order in which the map walks them.
#[verifier::external_body]
pub(crate) fn onramps_entries(m: &Onramps) -> (r: Vec<Onramp>)
    ensures
        onramp_ids(r@).no_duplicates(),
        onramp_ids(r@).to_set() == onramps(*m).dom(),
        forall|i: int| 0 <= i < r@.len() ==> onramps(*m)[(#[trigger] r@[i]).id@] == r@[i].addr,
{
    m.iter().map(|(id, addr)| Onramp { id: id.clone(), addr: *addr }).collect()
}

} // verus!
