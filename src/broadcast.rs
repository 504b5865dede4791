//! The broadcast service: its wire messages and the gossip engine that keeps
//! a node's state, refining the state machine of `gossip_model`.

use vstd::prelude::*;
use vstd::std_specs::hash::spec_hash_keys_iter;
use vstd::std_specs::iter::IteratorSpec;
use vstd::string::StringExecFns;

use std::collections::HashSet;

use crate::envelope::{
    is_reply_to, CooperativeNode, Event, Initialize, MaelstromResponse, NetworkEntityId, Node,
    ResponseBody,
};
use crate::gossip_model::{
    acknowledge, batched, fresh_peer, initial_state, merge_batch, merge_news, pending, receipt_of, seal, seen,
    sends_to, set_topology, step, tick, unacknowledged_below, GossipState, Input, PeerModel,
};

verus! {

broadcast use vstd::seq_lib::lemma_seq_contains_after_push, vstd::std_specs::hash::group_hash_axioms;

/// The payload of `read_ok`: every value the node has seen.
pub struct RPCRead {
    pub messages: Vec<usize>,
}

/// The payload of `topology`: for each node id, its neighbors.
pub struct Topology {
    pub topology: Vec<(NetworkEntityId, Vec<NetworkEntityId>)>,
}

/// The messages of the broadcast service.
pub enum BroadcastServiceDefinition {
    Broadcast { message: usize },
    BroadcastOk,
    Read,
    ReadOk(RPCRead),
    Topology(Topology),
    TopologyOk,
    Gossip { news: Vec<GossipMessage> },
    GossipReceipt { receipt: Vec<usize> },
}

/// One batch carried by a `gossip` message: its id and its values.
pub struct GossipMessage {
    pub id: usize,
    pub payload: HashSet<usize>,
}

impl GossipMessage {
    /// The batch as an id and a set of values.
    pub open spec fn spec_batch(self) -> (usize, Set<usize>) {
        (self.id, self.payload@)
    }
}

/// The batches of a `gossip` message as ids and sets of values.
pub open spec fn news_view(news: Seq<GossipMessage>) -> Seq<(usize, Set<usize>)> {
    news.map_values(|m: GossipMessage| m.spec_batch())
}

/// Node ids as character sequences.
pub open spec fn names(ids: Seq<NetworkEntityId>) -> Seq<Seq<char>> {
    ids.map_values(|s: NetworkEntityId| s@)
}

/// The neighbors that `entries` gives for `id`: those of the first entry
/// for `id`, if there is one.
pub open spec fn neighborhood(entries: Seq<(NetworkEntityId, Vec<NetworkEntityId>)>, id: Seq<char>) -> Option<Seq<Seq<char>>>
    decreases entries.len(),
{
    if entries.len() == 0 {
        None
    } else if entries[0].0@ == id {
        Some(names(entries[0].1@))
    } else {
        neighborhood(entries.drop_first(), id)
    }
}

/// Why a node refuses an inbound message.
pub enum GossipError {
    /// A reply-only kind (`broadcast_ok`, `read_ok`, `topology_ok`) came in.
    UnexpectedReply,
    /// A topology that does not list this node.
    MissingSelf,
    /// Gossip or a receipt from a node that no topology made a neighbor.
    UnknownPeer,
}

impl GossipError {
    /// The description of the error.
    pub open spec fn text(self) -> Seq<char> {
        match self {
            GossipError::UnexpectedReply => "received a reply-only message as a request"@,
            GossipError::MissingSelf => "the topology has no entry for this node"@,
            GossipError::UnknownPeer => "message from a node that is not a neighbor"@,
        }
    }

    /// A description of the error.
    pub fn message(&self) -> (r: String)
        ensures
            r@ == self.text(),
    {
        let text = match self {
            GossipError::UnexpectedReply => "received a reply-only message as a request",
            GossipError::MissingSelf => "the topology has no entry for this node",
            GossipError::UnknownPeer => "message from a node that is not a neighbor",
        };
        String::from_str(text)
    }
}

impl Topology {
    /// The neighbors listed for `node_id`, or `None` when the map has no
    /// entry for it.
    pub fn neighborhood_of(&self, node_id: &NetworkEntityId) -> (r: Option<Vec<NetworkEntityId>>)
        ensures
            match r {
                Some(v) => neighborhood(self.topology@, node_id@) == Some(names(v@)),
                None => neighborhood(self.topology@, node_id@) is None,
            },
    {
        let mut i: usize = 0;
        assert(self.topology@.skip(0) =~= self.topology@);
        while i < self.topology.len()
            invariant
                i <= self.topology.len(),
                neighborhood(self.topology@, node_id@) == neighborhood(self.topology@.skip(i as int), node_id@),
            decreases self.topology.len() - i,
        {
            assert(self.topology@.skip(i as int).drop_first() =~= self.topology@.skip(i + 1));
            if self.topology[i].0 == *node_id {
                return Some(clone_ids(&self.topology[i].1));
            }
            i += 1;
        }
        None
    }
}

/// A copy of a list of node ids.
fn clone_ids(ids: &Vec<NetworkEntityId>) -> (r: Vec<NetworkEntityId>)
    ensures
        r@ == ids@,
{
    let mut r: Vec<NetworkEntityId> = Vec::new();
    let mut i: usize = 0;
    while i < ids.len()
        invariant
            i <= ids.len(),
            r@ == ids@.take(i as int),
        decreases ids.len() - i,
    {
        r.push(ids[i].clone());
        i += 1;
        assert(r@ =~= ids@.take(i as int));
    }
    assert(ids@.take(ids.len() as int) =~= ids@);
    r
}

/// Whether `x` occurs in `v`.
fn contains_value(v: &Vec<usize>, x: usize) -> (r: bool)
    ensures
        r == v@.contains(x),
{
    let mut i: usize = 0;
    while i < v.len()
        invariant
            i <= v.len(),
            forall|k: int| 0 <= k < i ==> v@[k] != x,
        decreases v.len() - i,
    {
        if v[i] == x {
            return true;
        }
        i += 1;
    }
    false
}

/// Adds `x` to `v` unless it is there already.
fn insert_value(v: &mut Vec<usize>, x: usize)
    requires
        old(v)@.no_duplicates(),
    ensures
        final(v)@.no_duplicates(),
        forall|y: usize| #[trigger] final(v)@.contains(y) <==> old(v)@.contains(y) || y == x,
{
    if !contains_value(v, x) {
        v.push(x);
        assert(v@ == old(v)@.push(x));
    }
}

/// The values of a set, each once.
fn set_to_vec(s: &HashSet<usize>) -> (r: Vec<usize>)
    ensures
        r@.to_set() == s@,
        r@.no_duplicates(),
{
    let mut r: Vec<usize> = Vec::new();
    let ghost all = spec_hash_keys_iter(s).remaining().unref();
    for k in it: s.iter()
        invariant
            it.seq().unref() == all,
            all.to_set() == s@,
            all.no_duplicates(),
            r@ == all.take(it.index() as int),
    {
        r.push(*k);
        assert(r@ =~= all.take(it.index() + 1));
    }
    assert(all.take(all.len() as int) =~= all);
    r
}

/// A copy of a set.
fn copy_set(s: &HashSet<usize>) -> (r: HashSet<usize>)
    ensures
        r@ == s@,
{
    let vals = set_to_vec(s);
    let mut r: HashSet<usize> = HashSet::new();
    let mut j: usize = 0;
    assert(vals@.take(0).to_set() =~= Set::<usize>::empty());
    while j < vals.len()
        invariant
            j <= vals.len(),
            r@ == vals@.take(j as int).to_set(),
        decreases vals.len() - j,
    {
        r.insert(vals[j]);
        assert(vals@.take(j + 1) =~= vals@.take(j as int).push(vals@[j as int]));
        assert(r@ =~= vals@.take(j + 1).to_set());
        j += 1;
    }
    assert(vals@.take(j as int) =~= vals@);
    r
}

/// `news` carries, in order, the batches `ids` of `batches`.
pub open spec fn carries(news: Seq<GossipMessage>, ids: Seq<usize>, batches: Seq<Set<usize>>) -> bool {
    &&& news.len() == ids.len()
    &&& forall|j: int|
        0 <= j < news.len() ==> {
            &&& (#[trigger] news[j]).id == ids[j]
            &&& news[j].payload@ == batches[ids[j] as int]
        }
}

/// `m` is a one-way `gossip` message from `from` to `to` that carries the
/// batches `ids` of `batches`.
pub open spec fn is_gossip(
    m: MaelstromResponse<BroadcastServiceDefinition>,
    from: Seq<char>,
    to: Seq<char>,
    ids: Seq<usize>,
    batches: Seq<Set<usize>>,
) -> bool {
    &&& m.src@ == from
    &&& m.dest@ == to
    &&& m.body.in_reply_to is None
    &&& m.body.msg_id is None
    &&& m.body.response_type matches BroadcastServiceDefinition::Gossip { news } && carries(news@, ids, batches)
}

/// `out` is, message for message, the gossip `sends` from `from`.
pub open spec fn sends_match(
    out: Seq<MaelstromResponse<BroadcastServiceDefinition>>,
    from: Seq<char>,
    sends: Seq<(Seq<char>, Seq<usize>)>,
    batches: Seq<Set<usize>>,
) -> bool {
    &&& out.len() == sends.len()
    &&& forall|j: int| 0 <= j < out.len() ==> is_gossip(#[trigger] out[j], from, sends[j].0, sends[j].1, batches)
}

/// The input that `evt` is to the state machine of a node named `node_id`.
pub open spec fn input_of(evt: Event<BroadcastServiceDefinition>, node_id: Seq<char>) -> Input {
    match evt {
        Event::GossipEvent => Input::Tick,
        Event::IOEvent(msg) => match msg.body.data {
            BroadcastServiceDefinition::Broadcast { message } => Input::Broadcast(message),
            BroadcastServiceDefinition::Read => Input::Read,
            BroadcastServiceDefinition::Topology(t) => Input::Topology(neighborhood(t.topology@, node_id)),
            BroadcastServiceDefinition::Gossip { news } => Input::Gossip(msg.src@, news_view(news@)),
            BroadcastServiceDefinition::GossipReceipt { receipt } => Input::Receipt(msg.src@, receipt@),
            _ => Input::Reply,
        },
    }
}

/// `t` is a `read_ok` listing each value of `values` once.
pub open spec fn is_read_reply(t: BroadcastServiceDefinition, values: Set<usize>) -> bool {
    t matches BroadcastServiceDefinition::ReadOk(read) && read.messages@.no_duplicates() && read.messages@.to_set() == values
}

/// `t` is a `gossip_receipt` listing `ids`.
pub open spec fn is_receipt(t: BroadcastServiceDefinition, ids: Seq<usize>) -> bool {
    t matches BroadcastServiceDefinition::GossipReceipt { receipt } && receipt@ == ids
}

/// The error with which a node in state `s`, named `node_id`, refuses
/// `evt`, or `None` when it accepts it: a reply-only kind, a topology
/// without `node_id`, or gossip or a receipt from a node it has no record of.
pub open spec fn refusal(s: GossipState, node_id: Seq<char>, evt: Event<BroadcastServiceDefinition>) -> Option<GossipError> {
    match evt {
        Event::GossipEvent => None,
        Event::IOEvent(msg) => match msg.body.data {
            BroadcastServiceDefinition::Broadcast { .. } => None,
            BroadcastServiceDefinition::Read => None,
            BroadcastServiceDefinition::Topology(t) => if neighborhood(t.topology@, node_id) is None {
                Some(GossipError::MissingSelf)
            } else {
                None
            },
            BroadcastServiceDefinition::Gossip { .. } => if s.peers.contains_key(msg.src@) {
                None
            } else {
                Some(GossipError::UnknownPeer)
            },
            BroadcastServiceDefinition::GossipReceipt { .. } => if s.peers.contains_key(msg.src@) {
                None
            } else {
                Some(GossipError::UnknownPeer)
            },
            _ => Some(GossipError::UnexpectedReply),
        },
    }
}

/// `out` is what a node in state `s`, named `node_id`, sends for an accepted
/// `evt`, with `local_msg_id` as the id of a reply: a tick's gossip; one
/// reply to `broadcast` (`broadcast_ok`), `read` (`read_ok` listing each seen
/// value once) and `topology` (`topology_ok`); one one-way receipt listing
/// every batch id of a `gossip`; nothing for a `gossip_receipt`.
pub open spec fn answered(
    s: GossipState,
    node_id: Seq<char>,
    evt: Event<BroadcastServiceDefinition>,
    local_msg_id: usize,
    out: Seq<MaelstromResponse<BroadcastServiceDefinition>>,
) -> bool {
    match evt {
        Event::GossipEvent => sends_match(out, node_id, tick(s).1, tick(s).0.batches),
        Event::IOEvent(msg) => match msg.body.data {
            BroadcastServiceDefinition::Broadcast { .. } => {
                &&& out.len() == 1
                &&& is_reply_to(out[0], node_id, msg.src@, msg.body.msg_id, local_msg_id)
                &&& out[0].body.response_type == BroadcastServiceDefinition::BroadcastOk
            },
            BroadcastServiceDefinition::Read => {
                &&& out.len() == 1
                &&& is_reply_to(out[0], node_id, msg.src@, msg.body.msg_id, local_msg_id)
                &&& is_read_reply(out[0].body.response_type, seen(s))
            },
            BroadcastServiceDefinition::Topology(_) => {
                &&& out.len() == 1
                &&& is_reply_to(out[0], node_id, msg.src@, msg.body.msg_id, local_msg_id)
                &&& out[0].body.response_type == BroadcastServiceDefinition::TopologyOk
            },
            BroadcastServiceDefinition::Gossip { news } => {
                &&& out.len() == 1
                &&& out[0].src@ == node_id
                &&& out[0].dest@ == msg.src@
                &&& out[0].body.in_reply_to is None
                &&& out[0].body.msg_id is None
                &&& is_receipt(out[0].body.response_type, receipt_of(news_view(news@)))
            },
            BroadcastServiceDefinition::GossipReceipt { .. } => out.len() == 0,
            _ => false,
        },
    }
}

/// A message that carries the batches `ids` of `batches` delivers, to the
/// state machine, exactly those batches.
pub proof fn lemma_carried_news(news: Seq<GossipMessage>, ids: Seq<usize>, batches: Seq<Set<usize>>)
    requires
        carries(news, ids, batches),
    ensures
        news_view(news) == ids.map_values(|id: usize| (id, batches[id as int])),
{
    assert(news_view(news) =~= ids.map_values(|id: usize| (id, batches[id as int])));
}

/// What this node holds of one neighbor.
struct PeerRecord {
    node: NetworkEntityId,
    received: HashSet<usize>,
    acknowledged: HashSet<usize>,
}

impl PeerRecord {
    closed spec fn model(self) -> PeerModel {
        PeerModel { received: self.received@, acknowledged: self.acknowledged@ }
    }
}

/// `records` holds one record per node id, `peers` holds the same records
/// keyed by node id, and every neighbor has one.
spec fn records_wf(records: Seq<PeerRecord>, peers: Map<Seq<char>, PeerModel>, neighbors: Seq<NetworkEntityId>) -> bool {
    &&& forall|i: int, j: int|
        0 <= i < records.len() && 0 <= j < records.len() && i != j
            ==> (#[trigger] records[i]).node@ != (#[trigger] records[j]).node@
    &&& forall|k: Seq<char>|
        #[trigger] peers.contains_key(k) ==> exists|i: int| 0 <= i < records.len() && (#[trigger] records[i]).node@ == k
    &&& forall|i: int|
        0 <= i < records.len() ==> {
            &&& peers.contains_key((#[trigger] records[i]).node@)
            &&& peers[records[i].node@] == records[i].model()
        }
    &&& forall|j: int| 0 <= j < neighbors.len() ==> peers.contains_key((#[trigger] neighbors[j])@)
}

/// Replacing the record at position `p` by one for the same node, and the
/// keyed entry with it, keeps `records_wf`.
proof fn lemma_record_replaced(
    records: Seq<PeerRecord>,
    peers: Map<Seq<char>, PeerModel>,
    new_records: Seq<PeerRecord>,
    neighbors: Seq<NetworkEntityId>,
    p: int,
)
    requires
        records_wf(records, peers, neighbors),
        0 <= p < records.len(),
        new_records.len() == records.len(),
        new_records[p].node@ == records[p].node@,
        forall|i: int| 0 <= i < records.len() && i != p ==> new_records[i] == records[i],
    ensures
        records_wf(new_records, peers.insert(records[p].node@, new_records[p].model()), neighbors),
{
    let name = records[p].node@;
    let peers2 = peers.insert(name, new_records[p].model());
    assert forall|i: int, j: int|
        0 <= i < new_records.len() && 0 <= j < new_records.len() && i != j
        implies (#[trigger] new_records[i]).node@ != (#[trigger] new_records[j]).node@ by {
        assert(records[i].node@ == new_records[i].node@);
        assert(records[j].node@ == new_records[j].node@);
    }
    assert forall|i: int| 0 <= i < new_records.len() implies {
        &&& peers2.contains_key((#[trigger] new_records[i]).node@)
        &&& peers2[new_records[i].node@] == new_records[i].model()
    } by {
        if i != p {
            assert(records[i] == new_records[i]);
        }
    }
    assert forall|k: Seq<char>| #[trigger] peers2.contains_key(k) implies exists|i: int|
        0 <= i < new_records.len() && (#[trigger] new_records[i]).node@ == k by {
        if k != name {
            let i = choose|i: int| 0 <= i < records.len() && (#[trigger] records[i]).node@ == k;
            assert(new_records[i].node@ == k);
        } else {
            assert(new_records[p].node@ == k);
        }
    }
}

/// A node of the broadcast service.
pub struct BroadcastServiceNode {
    init: Initialize,
    /// Values accepted but not yet sealed into a batch.
    current_new_message_state: HashSet<usize>,
    /// Sealed batches; the batch with id `i` is at index `i`.
    message_batches: Vec<HashSet<usize>>,
    /// One record per known neighbor, at most one per node id.
    peer_records: Vec<PeerRecord>,
    /// The records of `peer_records` keyed by node id.
    peers: Ghost<Map<Seq<char>, PeerModel>>,
    neighbors: Vec<NetworkEntityId>,
}

impl View for BroadcastServiceNode {
    type V = GossipState;

    closed spec fn view(&self) -> GossipState {
        GossipState {
            uncommitted: self.current_new_message_state@,
            batches: self.message_batches@.map_values(|b: HashSet<usize>| b@),
            peers: self.peers@,
            neighbors: names(self.neighbors@),
        }
    }
}

impl BroadcastServiceNode {
    /// The node's invariant.
    pub closed spec fn wf(&self) -> bool {
        &&& records_wf(self.peer_records@, self.peers@, self.neighbors@)
    }

    /// The id the handshake gave this node.
    pub open spec fn node_id(&self) -> Seq<char> {
        self.init_record().node_id@
    }

    /// Whether `value` is in the uncommitted set or in some batch.
    pub fn has_seen(&self, value: usize) -> (r: bool)
        requires
            self.wf(),
        ensures
            r == seen(self@).contains(value),
    {
        let mut i: usize = 0;
        while i < self.message_batches.len()
            invariant
                i <= self.message_batches.len(),
                forall|k: int| 0 <= k < i ==> !(#[trigger] self.message_batches@[k])@.contains(value),
            decreases self.message_batches.len() - i,
        {
            if self.message_batches[i].contains(&value) {
                assert(self@.batches[i as int].contains(value));
                return true;
            }
            i += 1;
        }
        let r = self.current_new_message_state.contains(&value);
        proof {
            if batched(self@.batches).contains(value) {
                let k = choose|k: int| 0 <= k < self@.batches.len() && #[trigger] self@.batches[k].contains(value);
                assert(self.message_batches@[k]@.contains(value));
            }
        }
        r
    }

    /// Every value this node has seen, each once: those of the batches, then
    /// the uncommitted ones.
    pub fn all_messages(&self) -> (r: Vec<usize>)
        requires
            self.wf(),
        ensures
            r@.no_duplicates(),
            r@.to_set() == seen(self@),
    {
        let mut out: Vec<usize> = Vec::new();
        let mut i: usize = 0;
        while i < self.message_batches.len()
            invariant
                i <= self.message_batches.len(),
                out@.no_duplicates(),
                forall|v: usize|
                    out@.contains(v) <==> exists|k: int| 0 <= k < i && (#[trigger] self.message_batches@[k])@.contains(v),
            decreases self.message_batches.len() - i,
        {
            let batch = set_to_vec(&self.message_batches[i]);
            let mut j: usize = 0;
            while j < batch.len()
                invariant
                    i < self.message_batches.len(),
                    batch@.to_set() == self.message_batches@[i as int]@,
                    j <= batch.len(),
                    out@.no_duplicates(),
                    forall|v: usize|
                        out@.contains(v) <==> (exists|k: int| 0 <= k < i && (#[trigger] self.message_batches@[k])@.contains(v))
                            || batch@.take(j as int).contains(v),
                decreases batch.len() - j,
            {
                insert_value(&mut out, batch[j]);
                assert(batch@.take(j + 1) =~= batch@.take(j as int).push(batch@[j as int]));
                j += 1;
            }
            assert(batch@.take(j as int) =~= batch@);
            proof {
                assert forall|v: usize|
                    out@.contains(v) <==> exists|k: int| 0 <= k < i + 1 && (#[trigger] self.message_batches@[k])@.contains(v) by {
                    if batch@.contains(v) {
                        assert(batch@.to_set().contains(v));
                        assert(self.message_batches@[i as int]@.contains(v));
                    }
                    if self.message_batches@[i as int]@.contains(v) {
                        assert(batch@.to_set().contains(v));
                    }
                    if exists|k: int| 0 <= k < i + 1 && (#[trigger] self.message_batches@[k])@.contains(v) {
                        let k = choose|k: int| 0 <= k < i + 1 && (#[trigger] self.message_batches@[k])@.contains(v);
                        if k < i {
                            assert(exists|k: int| 0 <= k < i && (#[trigger] self.message_batches@[k])@.contains(v));
                        }
                    }
                }
            }
            i += 1;
        }
        let current = set_to_vec(&self.current_new_message_state);
        let mut j: usize = 0;
        while j < current.len()
            invariant
                i == self.message_batches.len(),
                current@.to_set() == self.current_new_message_state@,
                j <= current.len(),
                out@.no_duplicates(),
                forall|v: usize|
                    out@.contains(v) <==> (exists|k: int| 0 <= k < i && (#[trigger] self.message_batches@[k])@.contains(v))
                        || current@.take(j as int).contains(v),
            decreases current.len() - j,
        {
            insert_value(&mut out, current[j]);
            assert(current@.take(j + 1) =~= current@.take(j as int).push(current@[j as int]));
            j += 1;
        }
        assert(current@.take(j as int) =~= current@);
        proof {
            assert forall|v: usize| out@.to_set().contains(v) == seen(self@).contains(v) by {
                assert(current@.contains(v) == current@.to_set().contains(v));
                if batched(self@.batches).contains(v) {
                    let k = choose|k: int| 0 <= k < self@.batches.len() && #[trigger] self@.batches[k].contains(v);
                    assert(self.message_batches@[k]@.contains(v));
                }
                if exists|k: int| 0 <= k < i && (#[trigger] self.message_batches@[k])@.contains(v) {
                    let k = choose|k: int| 0 <= k < i && (#[trigger] self.message_batches@[k])@.contains(v);
                    assert(self@.batches[k].contains(v));
                }
            }
            assert(out@.to_set() =~= seen(self@));
        }
        out
    }

    /// The position of `node`'s record, if it has one.
    fn peer_index(&self, node: &NetworkEntityId) -> (r: Option<usize>)
        requires
            self.wf(),
        ensures
            r is None <==> !self@.peers.contains_key(node@),
            r matches Some(p) ==> p < self.peer_records.len() && self.peer_records@[p as int].node@ == node@,
    {
        let mut i: usize = 0;
        while i < self.peer_records.len()
            invariant
                self.wf(),
                i <= self.peer_records.len(),
                forall|k: int| 0 <= k < i ==> (#[trigger] self.peer_records@[k]).node@ != node@,
            decreases self.peer_records.len() - i,
        {
            if self.peer_records[i].node == *node {
                assert(self.peers@.contains_key(self.peer_records@[i as int].node@));
                return Some(i);
            }
            i += 1;
        }
        None
    }

    /// `Broadcast(value)`: the value joins the uncommitted set.
    pub fn broadcast(&mut self, value: usize)
        requires
            old(self).wf(),
        ensures
            final(self).wf(),
            final(self).node_id() == old(self).node_id(),
            final(self)@ == crate::gossip_model::broadcast(old(self)@, value),
    {
        self.current_new_message_state.insert(value);
        assert(self.peer_records == old(self).peer_records);
        assert(self@.uncommitted =~= old(self)@.uncommitted.insert(value));
        assert(self@ == crate::gossip_model::broadcast(old(self)@, value));
    }

    /// Seals a non-empty uncommitted set into the next batch.
    fn seal(&mut self)
        requires
            old(self).wf(),
        ensures
            final(self).wf(),
            final(self).node_id() == old(self).node_id(),
            final(self)@ == seal(old(self)@),
    {
        if !self.current_new_message_state.is_empty() {
            let mut batch: HashSet<usize> = HashSet::new();
            std::mem::swap(&mut batch, &mut self.current_new_message_state);
            self.message_batches.push(batch);
            assert(self@.uncommitted =~= Set::<usize>::empty());
            assert(self@.batches =~= old(self)@.batches.push(old(self)@.uncommitted));
        } else {
            assert(old(self)@.uncommitted =~= Set::<usize>::empty());
        }
    }

    /// Seals the uncommitted set, then returns every batch that `node` has
    /// not acknowledged, by ascending id.
    pub fn get_unknown(&mut self, node: &NetworkEntityId) -> (r: Vec<GossipMessage>)
        requires
            old(self).wf(),
            old(self)@.peers.contains_key(node@),
        ensures
            final(self).wf(),
            final(self).node_id() == old(self).node_id(),
            final(self)@ == seal(old(self)@),
            carries(r@, pending(final(self)@, node@), final(self)@.batches),
    {
        self.seal();
        let p = match self.peer_index(node) {
            Some(p) => p,
            None => {
                return Vec::new();
            },
        };
        let ghost acked = self@.peers[node@].acknowledged;
        let mut out: Vec<GossipMessage> = Vec::new();
        let mut b: usize = 0;
        while b < self.message_batches.len()
            invariant
                self.wf(),
                p < self.peer_records.len(),
                self.peer_records@[p as int].node@ == node@,
                acked == self@.peers[node@].acknowledged,
                b <= self.message_batches.len(),
                carries(out@, unacknowledged_below(acked, b as nat), self@.batches),
            decreases self.message_batches.len() - b,
        {
            if !self.peer_records[p].acknowledged.contains(&b) {
                let payload = copy_set(&self.message_batches[b]);
                out.push(GossipMessage { id: b, payload });
            }
            b += 1;
        }
        out
    }

    /// Records that batch `id` of the neighbor at position `p` was merged.
    fn note_received(&mut self, p: usize, id: usize)
        requires
            old(self).wf(),
            p < old(self).peer_records.len(),
        ensures
            final(self).wf(),
            final(self).node_id() == old(self).node_id(),
            final(self).peer_records.len() == old(self).peer_records.len(),
            final(self).peer_records@[p as int].node@ == old(self).peer_records@[p as int].node@,
            final(self)@ == ({
                let name = old(self).peer_records@[p as int].node@;
                let peer = old(self)@.peers[name];
                GossipState {
                    peers: old(self)@.peers.insert(name, PeerModel { received: peer.received.insert(id), ..peer }),
                    ..old(self)@
                }
            }),
    {
        let ghost name = self.peer_records@[p as int].node@;
        let ghost peer = self@.peers[name];
        self.peer_records[p].received.insert(id);
        self.peers = Ghost(self.peers@.insert(name, PeerModel { received: peer.received.insert(id), ..peer }));
        proof {
            lemma_record_replaced(old(self).peer_records@, old(self).peers@, self.peer_records@, self.neighbors@, p as int);
        }
    }

    /// Records that the neighbor at position `p` acknowledged batch `id`.
    fn note_acknowledged(&mut self, p: usize, id: usize)
        requires
            old(self).wf(),
            p < old(self).peer_records.len(),
        ensures
            final(self).wf(),
            final(self).node_id() == old(self).node_id(),
            final(self).peer_records.len() == old(self).peer_records.len(),
            final(self).peer_records@[p as int].node@ == old(self).peer_records@[p as int].node@,
            final(self)@ == ({
                let name = old(self).peer_records@[p as int].node@;
                let peer = old(self)@.peers[name];
                GossipState {
                    peers: old(self)@.peers.insert(name, PeerModel { acknowledged: peer.acknowledged.insert(id), ..peer }),
                    ..old(self)@
                }
            }),
    {
        let ghost name = self.peer_records@[p as int].node@;
        let ghost peer = self@.peers[name];
        self.peer_records[p].acknowledged.insert(id);
        self.peers = Ghost(self.peers@.insert(name, PeerModel { acknowledged: peer.acknowledged.insert(id), ..peer }));
        proof {
            lemma_record_replaced(old(self).peer_records@, old(self).peers@, self.peer_records@, self.neighbors@, p as int);
        }
    }

    /// Gives `node` an empty record, creating one if needed.
    fn reset_peer(&mut self, node: &NetworkEntityId)
        requires
            old(self).wf(),
        ensures
            final(self).wf(),
            final(self).node_id() == old(self).node_id(),
            final(self)@ == (GossipState { peers: old(self)@.peers.insert(node@, fresh_peer()), ..old(self)@ }),
    {
        let ghost name = node@;
        match self.peer_index(node) {
            Some(p) => {
                self.peer_records[p].received = HashSet::new();
                self.peer_records[p].acknowledged = HashSet::new();
                assert(self.peer_records@[p as int].model() == fresh_peer());
                self.peers = Ghost(self.peers@.insert(name, fresh_peer()));
                proof {
                    lemma_record_replaced(old(self).peer_records@, old(self).peers@, self.peer_records@, self.neighbors@, p as int);
                }
            },
            None => {
                let record = PeerRecord { node: node.clone(), received: HashSet::new(), acknowledged: HashSet::new() };
                assert(record.model() == fresh_peer());
                self.peer_records.push(record);
                self.peers = Ghost(self.peers@.insert(name, fresh_peer()));
                let ghost last = self.peer_records.len() - 1;
                assert forall|i: int| 0 <= i < self.peer_records.len() implies {
                    &&& self.peers@.contains_key((#[trigger] self.peer_records@[i]).node@)
                    &&& self.peers@[self.peer_records@[i].node@] == self.peer_records@[i].model()
                } by {
                    if i != last {
                        assert(old(self).peer_records@[i] == self.peer_records@[i]);
                        assert(old(self).peers@.contains_key(old(self).peer_records@[i].node@));
                    }
                }
                assert forall|i: int, j: int|
                    0 <= i < self.peer_records.len() && 0 <= j < self.peer_records.len() && i != j
                    implies (#[trigger] self.peer_records@[i]).node@ != (#[trigger] self.peer_records@[j]).node@ by {
                    if i != last && j != last {
                        assert(old(self).peer_records@[i] == self.peer_records@[i]);
                        assert(old(self).peer_records@[j] == self.peer_records@[j]);
                    } else if i == last {
                        assert(old(self).peers@.contains_key(old(self).peer_records@[j].node@));
                    } else {
                        assert(old(self).peers@.contains_key(old(self).peer_records@[i].node@));
                    }
                }
                assert forall|k: Seq<char>| #[trigger] self.peers@.contains_key(k) implies exists|i: int|
                    0 <= i < self.peer_records.len() && (#[trigger] self.peer_records@[i]).node@ == k by {
                    if k != name {
                        let i = choose|i: int| 0 <= i < old(self).peer_records.len() && (#[trigger] old(self).peer_records@[i]).node@ == k;
                        assert(self.peer_records@[i].node@ == k);
                    } else {
                        assert(self.peer_records@[last].node@ == k);
                    }
                }
            },
        }
        assert(self@.peers =~= old(self)@.peers.insert(node@, fresh_peer()));
    }

    /// `Topology`: looks up this node's neighbors; each gets an empty record
    /// and they become the neighbor list. A topology without an entry for
    /// this node is refused and changes nothing.
    pub fn set_topology(&mut self, topology: &Topology) -> (r: Result<(), GossipError>)
        requires
            old(self).wf(),
        ensures
            final(self).wf(),
            final(self).node_id() == old(self).node_id(),
            match r {
                Ok(()) => neighborhood(topology.topology@, old(self).node_id()) matches Some(nbs)
                    && final(self)@ == set_topology(old(self)@, nbs),
                Err(e) => e is MissingSelf && neighborhood(topology.topology@, old(self).node_id()) is None
                    && final(self)@ == old(self)@,
            },
    {
        let nbs = match topology.neighborhood_of(&self.init.node_id) {
            Some(v) => v,
            None => {
                return Err(GossipError::MissingSelf);
            },
        };
        let ghost ns = names(nbs@);
        let mut k: usize = 0;
        assert(ns.take(0) =~= Seq::<Seq<char>>::empty());
        assert(old(self)@.peers.union_prefer_right(
            Map::new(|n: Seq<char>| ns.take(0).contains(n), |n: Seq<char>| fresh_peer()),
        ) =~= old(self)@.peers);
        while k < nbs.len()
            invariant
                self.wf(),
                self.node_id() == old(self).node_id(),
                k <= nbs.len(),
                ns == names(nbs@),
                self@ == (GossipState {
                    peers: old(self)@.peers.union_prefer_right(
                        Map::new(|n: Seq<char>| ns.take(k as int).contains(n), |n: Seq<char>| fresh_peer()),
                    ),
                    ..old(self)@
                }),
            decreases nbs.len() - k,
        {
            let ghost before = self@.peers;
            self.reset_peer(&nbs[k]);
            assert(ns.take(k + 1) =~= ns.take(k as int).push(nbs@[k as int]@));
            assert(self@.peers =~= old(self)@.peers.union_prefer_right(
                Map::new(|n: Seq<char>| ns.take(k + 1).contains(n), |n: Seq<char>| fresh_peer()),
            ));
            k += 1;
        }
        assert(ns.take(k as int) =~= ns);
        self.neighbors = nbs;
        assert forall|j: int| 0 <= j < self.neighbors.len() implies self.peers@.contains_key((#[trigger] self.neighbors@[j])@) by {
            assert(ns[j] == self.neighbors@[j]@);
        }
        assert(self@ =~= set_topology(old(self)@, ns));
        Ok(())
    }

    /// Adds the values of `payload` not yet seen to the uncommitted set.
    fn merge_values(&mut self, values: &HashSet<usize>)
        requires
            old(self).wf(),
        ensures
            final(self).wf(),
            final(self).node_id() == old(self).node_id(),
            final(self).peer_records == old(self).peer_records,
            final(self)@ == (GossipState {
                uncommitted: old(self)@.uncommitted.union(values@.difference(seen(old(self)@))),
                ..old(self)@
            }),
    {
        let ghost s0 = self@;
        let payload = set_to_vec(values);
        let mut j: usize = 0;
        assert(payload@.take(0).to_set() =~= Set::<usize>::empty());
        assert(s0.uncommitted.union(payload@.take(0).to_set().difference(seen(s0))) =~= s0.uncommitted);
        while j < payload.len()
            invariant
                self.wf(),
                self.node_id() == old(self).node_id(),
                self.peer_records == old(self).peer_records,
                s0 == old(self)@,
                j <= payload.len(),
                self@ == (GossipState {
                    uncommitted: s0.uncommitted.union(payload@.take(j as int).to_set().difference(seen(s0))),
                    ..s0
                }),
            decreases payload.len() - j,
        {
            let v = payload[j];
            let ghost prev = self@;
            assert(prev.batches == s0.batches);
            let fresh = !self.has_seen(v);
            if fresh {
                self.current_new_message_state.insert(v);
            }
            assert(payload@.take(j + 1) =~= payload@.take(j as int).push(v));
            let ghost target = s0.uncommitted.union(payload@.take(j + 1).to_set().difference(seen(s0)));
            assert(prev.uncommitted == s0.uncommitted.union(payload@.take(j as int).to_set().difference(seen(s0))));
            assert(fresh == !seen(prev).contains(v));
            assert forall|x: usize| self@.uncommitted.contains(x) == target.contains(x) by {
                assert(payload@.take(j + 1).contains(x) == (payload@.take(j as int).contains(x) || x == v));
                assert(payload@.take(j + 1).to_set().contains(x) == payload@.take(j + 1).contains(x));
                assert(payload@.take(j as int).to_set().contains(x) == payload@.take(j as int).contains(x));
                if x != v {
                    assert(self@.uncommitted.contains(x) == prev.uncommitted.contains(x));
                } else if fresh {
                    assert(self@.uncommitted.contains(x));
                    assert(!seen(s0).contains(v));
                } else {
                    assert(self@.uncommitted.contains(x) == prev.uncommitted.contains(x));
                    if !seen(s0).contains(v) {
                        assert(!batched(s0.batches).contains(v));
                        assert(prev.uncommitted.contains(v));
                    }
                }
            }
            assert(self@.uncommitted =~= target);
            j += 1;
        }
        assert(payload@.take(j as int) =~= payload@);
        assert(payload@.to_set() == values@);
    }

    /// `Gossip` from `src`: merges each batch not yet merged from `src` and
    /// returns the receipt, the ids of all batches of `news` in order. Gossip
    /// from a node that is no neighbor is refused and changes nothing.
    pub fn merge_gossip(&mut self, src: &NetworkEntityId, news: &Vec<GossipMessage>) -> (r: Result<Vec<usize>, GossipError>)
        requires
            old(self).wf(),
        ensures
            final(self).wf(),
            final(self).node_id() == old(self).node_id(),
            match r {
                Ok(receipt) => old(self)@.peers.contains_key(src@)
                    && receipt@ == receipt_of(news_view(news@))
                    && final(self)@ == merge_news(old(self)@, src@, news_view(news@)),
                Err(e) => e is UnknownPeer && !old(self)@.peers.contains_key(src@) && final(self)@ == old(self)@,
            },
    {
        let p = match self.peer_index(src) {
            Some(p) => p,
            None => {
                return Err(GossipError::UnknownPeer);
            },
        };
        let ghost nv = news_view(news@);
        let mut receipt: Vec<usize> = Vec::new();
        let mut i: usize = 0;
        while i < news.len()
            invariant
                self.wf(),
                self.node_id() == old(self).node_id(),
                p < self.peer_records.len(),
                self.peer_records@[p as int].node@ == src@,
                nv == news_view(news@),
                i <= news.len(),
                receipt@ == receipt_of(nv.take(i as int)),
                self@ == merge_news(old(self)@, src@, nv.take(i as int)),
            decreases news.len() - i,
        {
            let batch = &news[i];
            let ghost s = self@;
            receipt.push(batch.id);
            if !self.peer_records[p].received.contains(&batch.id) {
                self.merge_values(&batch.payload);
                self.note_received(p, batch.id);
            }
            assert(nv.take(i + 1).drop_last() =~= nv.take(i as int));
            assert(nv.take(i + 1).last() == batch.spec_batch());
            assert(self@ == merge_batch(s, src@, batch.id, batch.payload@));
            assert(receipt@ =~= receipt_of(nv.take(i + 1)));
            i += 1;
        }
        assert(nv.take(i as int) =~= nv);
        Ok(receipt)
    }

    /// `GossipReceipt` from `src`: the ids join `src`'s acknowledged record.
    /// A receipt from a node that is no neighbor is refused and changes
    /// nothing.
    pub fn acknowledge_receipt(&mut self, src: &NetworkEntityId, receipt: &Vec<usize>) -> (r: Result<(), GossipError>)
        requires
            old(self).wf(),
        ensures
            final(self).wf(),
            final(self).node_id() == old(self).node_id(),
            match r {
                Ok(()) => old(self)@.peers.contains_key(src@) && final(self)@ == acknowledge(old(self)@, src@, receipt@),
                Err(e) => e is UnknownPeer && !old(self)@.peers.contains_key(src@) && final(self)@ == old(self)@,
            },
    {
        let p = match self.peer_index(src) {
            Some(p) => p,
            None => {
                return Err(GossipError::UnknownPeer);
            },
        };
        let mut i: usize = 0;
        assert(receipt@.take(0).to_set() =~= Set::<usize>::empty());
        assert(old(self)@.peers[src@].acknowledged.union(Set::empty()) =~= old(self)@.peers[src@].acknowledged);
        assert(old(self)@.peers.insert(src@, old(self)@.peers[src@]) =~= old(self)@.peers);
        while i < receipt.len()
            invariant
                self.wf(),
                self.node_id() == old(self).node_id(),
                p < self.peer_records.len(),
                self.peer_records@[p as int].node@ == src@,
                old(self)@.peers.contains_key(src@),
                i <= receipt.len(),
                self@ == acknowledge(old(self)@, src@, receipt@.take(i as int)),
            decreases receipt.len() - i,
        {
            let ghost prev = self@;
            self.note_acknowledged(p, receipt[i]);
            let ghost x = receipt@[i as int];
            let ghost old_peer = old(self)@.peers[src@];
            assert(receipt@.take(i + 1) =~= receipt@.take(i as int).push(x));
            assert(receipt@.take(i + 1).to_set() =~= receipt@.take(i as int).to_set().insert(x));
            assert(prev.peers[src@].acknowledged.insert(x) =~= old_peer.acknowledged.union(receipt@.take(i + 1).to_set()));
            assert(self@.peers[src@] == (PeerModel {
                acknowledged: old_peer.acknowledged.union(receipt@.take(i + 1).to_set()),
                ..old_peer
            }));
            assert(self@.peers =~= acknowledge(old(self)@, src@, receipt@.take(i + 1)).peers);
            i += 1;
        }
        assert(receipt@.take(i as int) =~= receipt@);
        Ok(())
    }

    /// `Tick`: seals the uncommitted set, then builds one `gossip` message
    /// for every neighbor with batches it has not acknowledged, carrying
    /// exactly those batches.
    pub fn tick(&mut self) -> (r: Vec<MaelstromResponse<BroadcastServiceDefinition>>)
        requires
            old(self).wf(),
        ensures
            final(self).wf(),
            final(self).node_id() == old(self).node_id(),
            final(self)@ == tick(old(self)@).0,
            sends_match(r@, old(self).node_id(), tick(old(self)@).1, final(self)@.batches),
    {
        self.seal();
        let ghost t = self@;
        assert(t.neighbors.len() == self.neighbors.len());
        let mut out: Vec<MaelstromResponse<BroadcastServiceDefinition>> = Vec::new();
        let mut k: usize = 0;
        while k < self.neighbors.len()
            invariant
                self.wf(),
                self.node_id() == old(self).node_id(),
                t == seal(old(self)@),
                self@ == t,
                t.neighbors.len() == self.neighbors.len(),
                k <= self.neighbors.len(),
                sends_match(out@, old(self).node_id(), sends_to(t, t.neighbors.take(k as int)), t.batches),
            decreases self.neighbors.len() - k,
        {
            let n = self.neighbors[k].clone();
            assert(t.neighbors[k as int] == n@);
            let news = self.get_unknown(&n);
            assert(self@.neighbors.len() == self.neighbors@.len());
            assert(t.neighbors.take(k + 1).drop_last() =~= t.neighbors.take(k as int));
            if news.len() > 0 {
                let m = MaelstromResponse {
                    src: self.init.node_id.clone(),
                    dest: n,
                    body: ResponseBody::uni_dir(BroadcastServiceDefinition::Gossip { news }),
                };
                out.push(m);
                assert(out@.last() == m);
            }
            k += 1;
        }
        assert(t.neighbors.take(k as int) =~= t.neighbors);
        out
    }

    /// A node before its handshake: no id, nothing seen, no neighbors.
    pub fn new() -> (r: BroadcastServiceNode)
        ensures
            r.wf(),
            r@ == initial_state(),
            r.node_id().len() == 0,
            r.init_record().node_ids@.len() == 0,
    {
        let r = BroadcastServiceNode {
            init: Initialize::empty(),
            current_new_message_state: HashSet::new(),
            message_batches: Vec::new(),
            peer_records: Vec::new(),
            peers: Ghost(Map::empty()),
            neighbors: Vec::new(),
        };
        assert(r@.uncommitted =~= Set::<usize>::empty());
        assert(r@.batches =~= Seq::<Set<usize>>::empty());
        assert(r@.neighbors =~= Seq::<Seq<char>>::empty());
        r
    }

    /// A reply from this node to `dest` that refers to `in_reply_to`.
    fn reply(&self, dest: NetworkEntityId, in_reply_to: Option<usize>, local_msg_id: usize, response_type: BroadcastServiceDefinition) -> (r: MaelstromResponse<BroadcastServiceDefinition>)
        ensures
            is_reply_to(r, self.node_id(), dest@, in_reply_to, local_msg_id),
            r.body.response_type == response_type,
    {
        MaelstromResponse {
            src: self.init.node_id.clone(),
            dest,
            body: ResponseBody { in_reply_to, msg_id: Some(local_msg_id), response_type },
        }
    }

    /// Handles one event and returns the messages to send. Replies to
    /// requests carry `local_msg_id`; receipts and gossip are one-way.
    pub fn handle_event(&mut self, evt: Event<BroadcastServiceDefinition>, local_msg_id: usize) -> (r: Result<Vec<MaelstromResponse<BroadcastServiceDefinition>>, GossipError>)
        requires
            old(self).wf(),
        ensures
            final(self).wf(),
            final(self).node_id() == old(self).node_id(),
            final(self)@ == step(old(self)@, input_of(evt, old(self).node_id())),
            r is Err ==> final(self)@ == old(self)@,
            match r {
                Ok(out) => refusal(old(self)@, old(self).node_id(), evt) is None
                    && answered(old(self)@, old(self).node_id(), evt, local_msg_id, out@),
                Err(e) => refusal(old(self)@, old(self).node_id(), evt) == Some(e),
            },
    {
        match evt {
            Event::GossipEvent => Ok(self.tick()),
            Event::IOEvent(msg) => {
                let src = msg.src;
                let in_reply_to = msg.body.msg_id;
                match msg.body.data {
                    BroadcastServiceDefinition::Broadcast { message } => {
                        self.broadcast(message);
                        let m = self.reply(src, in_reply_to, local_msg_id, BroadcastServiceDefinition::BroadcastOk);
                        Ok(vec![m])
                    },
                    BroadcastServiceDefinition::Read => {
                        let messages = self.all_messages();
                        let m = self.reply(src, in_reply_to, local_msg_id, BroadcastServiceDefinition::ReadOk(RPCRead { messages }));
                        Ok(vec![m])
                    },
                    BroadcastServiceDefinition::Topology(t) => {
                        match self.set_topology(&t) {
                            Ok(()) => {
                                let m = self.reply(src, in_reply_to, local_msg_id, BroadcastServiceDefinition::TopologyOk);
                                Ok(vec![m])
                            },
                            Err(e) => Err(e),
                        }
                    },
                    BroadcastServiceDefinition::Gossip { news } => {
                        match self.merge_gossip(&src, &news) {
                            Ok(receipt) => {
                                let m = MaelstromResponse {
                                    src: self.init.node_id.clone(),
                                    dest: src,
                                    body: ResponseBody::uni_dir(BroadcastServiceDefinition::GossipReceipt { receipt }),
                                };
                                Ok(vec![m])
                            },
                            Err(e) => Err(e),
                        }
                    },
                    BroadcastServiceDefinition::GossipReceipt { receipt } => {
                        match self.acknowledge_receipt(&src, &receipt) {
                            Ok(()) => Ok(Vec::new()),
                            Err(e) => Err(e),
                        }
                    },
                    BroadcastServiceDefinition::BroadcastOk
                    | BroadcastServiceDefinition::ReadOk(_)
                    | BroadcastServiceDefinition::TopologyOk => Err(GossipError::UnexpectedReply),
                }
            },
        }
    }
}

impl Node<BroadcastServiceDefinition> for BroadcastServiceNode {
    open spec fn inv(&self) -> bool {
        self.wf()
    }

    closed spec fn init_record(&self) -> Initialize {
        self.init
    }

    /// Stores the handshake record; the gossip state is untouched.
    fn init(&mut self, init: Initialize)
        ensures
            final(self)@ == old(self)@,
            final(self).node_id() == init.node_id@,
    {
        self.init = init;
    }

    fn get_init(&self) -> (r: &Initialize) {
        &self.init
    }

    /// A broadcast node is driven through `process_event`: a lone request
    /// is refused.
    fn process_message(&mut self, msg: crate::envelope::MaelstromRequest<BroadcastServiceDefinition>, local_msg_id: usize) -> (r: Result<MaelstromResponse<BroadcastServiceDefinition>, String>)
        ensures
            r is Err,
            final(self)@ == old(self)@,
            final(self).node_id() == old(self).node_id(),
    {
        proof {
            reveal_strlit("the broadcast service handles events, not single requests");
        }
        Err(String::from_str("the broadcast service handles events, not single requests"))
    }
}

impl CooperativeNode<BroadcastServiceDefinition> for BroadcastServiceNode {
    /// `handle_event`, with a refusal given as its text.
    fn process_event(&mut self, msg: Event<BroadcastServiceDefinition>, local_msg_id: usize) -> (r: Result<Vec<MaelstromResponse<BroadcastServiceDefinition>>, String>)
        ensures
            final(self).node_id() == old(self).node_id(),
            final(self)@ == step(old(self)@, input_of(msg, old(self).node_id())),
            r is Err ==> final(self)@ == old(self)@,
            match r {
                Ok(out) => refusal(old(self)@, old(self).node_id(), msg) is None
                    && answered(old(self)@, old(self).node_id(), msg, local_msg_id, out@),
                Err(text) => refusal(old(self)@, old(self).node_id(), msg) matches Some(e) && text@ == e.text(),
            },
    {
        match self.handle_event(msg, local_msg_id) {
            Ok(out) => Ok(out),
            Err(e) => Err(e.message()),
        }
    }
}

} // verus!
