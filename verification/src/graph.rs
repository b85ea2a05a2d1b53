//! The network graph: which nodes a channel joins.
use crate::decode::{Content, DecodeFailure};
use crate::node::NodeId;
use lightning::io::Cursor;
use lightning::ln::msgs::DecodeError;
use lightning::routing::gossip::NetworkGraph;
use lightning::util::logger::{Logger, Record};
use lightning::util::ser::ReadableArgs;
use std::collections::BTreeMap;
use vstd::prelude::*;
use vstd::string::StringExecFns;

verus! {

/// A record that is to be logged.
#[verifier::external_type_specification]
#[verifier::external_body]
pub struct ExRecord<'a>(Record<'a>);

/// A logger that writes nothing.
#[derive(Clone, Copy, Debug)]
pub struct NoopLogger;

impl Logger for NoopLogger {
    fn log(&self, _record: Record<'_>) {
    }
}

/// A channel of the network. For each direction it has the time of the latest update, if there
/// was any.
#[derive(Clone, Copy, Debug)]
pub struct GraphChannel {
    pub node_one: NodeId,
    pub node_two: NodeId,
    pub capacity_sats: Option<u64>,
    pub one_to_two: Option<u32>,
    pub two_to_one: Option<u32>,
}

/// The channels of a network by their short-channel-ids, and how many nodes it has.
#[derive(Debug)]
pub struct NetworkGraphSnapshot {
    pub node_count: usize,
    pub channels: BTreeMap<u64, GraphChannel>,
}

/// The number of nodes and the channels of the network graph that bytes encode.
pub uninterp spec fn decoded_graph(bytes: Seq<u8>) -> Result<
    (nat, Map<u64, GraphChannel>),
    DecodeError,
>;

/// Whether these are the entries of a map, each of them once, in any order.
pub open spec fn lists_entries<V>(entries: Seq<(u64, V)>, m: Map<u64, V>) -> bool {
    &&& forall|i: int, j: int|
        0 <= i < j < entries.len() ==> (#[trigger] entries[i]).0 != (#[trigger] entries[j]).0
    &&& forall|i: int|
        0 <= i < entries.len() ==> m.contains_key((#[trigger] entries[i]).0) && m[entries[i].0]
            == entries[i].1
    &&& forall|k: u64| #[trigger]
        m.contains_key(k) ==> exists|i: int|
            0 <= i < entries.len() && (#[trigger] entries[i]).0 == k
}

/// Calls `ReadableArgs::read` of `lightning::routing::gossip::NetworkGraph`, and on the graph
/// `ReadOnlyNetworkGraph::nodes` and `ReadOnlyNetworkGraph::channels`. Whether reading succeeds,
/// with which nodes and channels, and with which error, depends on the bytes alone, and is what
/// `decoded_graph` names. The channels come in any order, and none comes twice.
#[verifier::external_body]
fn read_graph(bytes: &Vec<u8>) -> (r: Result<(usize, Vec<(u64, GraphChannel)>), DecodeError>)
    ensures
        match r {
            Ok((node_count, channels)) => {
                &&& decoded_graph(bytes@) matches Ok(graph)
                &&& node_count == graph.0
                &&& lists_entries(channels@, graph.1)
            },
            Err(e) => decoded_graph(bytes@) matches Err(cause) && cause == e,
        },
{
    let graph: NetworkGraph<&NoopLogger> =
        ReadableArgs::read(&mut Cursor::new(bytes), &NoopLogger)?;
    let graph = graph.read_only();
    let channels = graph.channels().unordered_iter().map(|(scid, channel)| (*scid, GraphChannel {
        node_one: NodeId { bytes: *channel.node_one.as_array() },
        node_two: NodeId { bytes: *channel.node_two.as_array() },
        capacity_sats: channel.capacity_sats,
        one_to_two: channel.one_to_two.as_ref().map(|update| update.last_update),
        two_to_one: channel.two_to_one.as_ref().map(|update| update.last_update),
    })).collect();
    Ok((graph.nodes().len(), channels))
}

/// Reads the bytes of a network graph.
pub fn read_network_graph(path: &str, bytes: &Vec<u8>) -> (r: Result<
    NetworkGraphSnapshot,
    DecodeFailure,
>)
    ensures
        match decoded_graph(bytes@) {
            Ok(graph) => {
                &&& r matches Ok(snapshot)
                &&& snapshot.node_count == graph.0
                &&& snapshot.channels@ == graph.1
            },
            Err(cause) => {
                &&& r matches Err(failure)
                &&& failure.is(Content::NetworkGraph, path@, cause)
            },
        },
{
    match read_graph(bytes) {
        Ok((node_count, entries)) => Ok(
            NetworkGraphSnapshot { node_count, channels: map_of(&entries) },
        ),
        Err(cause) => Err(
            DecodeFailure { content: Content::NetworkGraph, path: String::from_str(path), cause },
        ),
    }
}

/// Puts channels into a map.
fn map_of(entries: &Vec<(u64, GraphChannel)>) -> (r: BTreeMap<u64, GraphChannel>)
    ensures
        forall|m: Map<u64, GraphChannel>| lists_entries(entries@, m) ==> r@ == m,
{
    let mut channels: BTreeMap<u64, GraphChannel> = BTreeMap::new();
    let mut i: usize = 0;
    while i < entries.len()
        invariant
            i <= entries@.len(),
            forall|m: Map<u64, GraphChannel>| #[trigger]
                lists_entries(entries@, m) ==> {
                    &&& forall|k: u64| #[trigger]
                        channels@.contains_key(k) ==> m.contains_key(k) && channels@[k] == m[k]
                    &&& forall|j: int|
                        0 <= j < i ==> channels@.contains_key((#[trigger] entries@[j]).0)
                },
        decreases entries@.len() - i,
    {
        let (scid, channel) = entries[i];
        channels.insert(scid, channel);
        i = i + 1;
    }
    assert forall|m: Map<u64, GraphChannel>| lists_entries(entries@, m) implies channels@ == m by {
        assert(channels@ =~= m);
    }
    channels
}

} // verus!
