//! The gossip broadcast protocol as a state machine over mathematical values.
//!
//! A node holds a set of uncommitted values, a sequence of sealed batches (a
//! batch's id is its position), and for every known neighbor the ids of that
//! neighbor's batches merged here and the ids of this node's batches that the
//! neighbor has acknowledged.

use vstd::prelude::*;

verus! {

/// What a node remembers of one neighbor.
pub struct PeerModel {
    /// Ids of batches originated by the neighbor that were already merged.
    pub received: Set<usize>,
    /// Ids of this node's batches that the neighbor confirmed receiving.
    pub acknowledged: Set<usize>,
}

/// The record of a neighbor right after `Topology` named it.
pub open spec fn fresh_peer() -> PeerModel {
    PeerModel { received: Set::empty(), acknowledged: Set::empty() }
}

/// The whole gossip state of a node.
pub struct GossipState {
    /// Values accepted but not yet sealed into a batch.
    pub uncommitted: Set<usize>,
    /// Sealed batches; the batch with id `i` is `batches[i]`.
    pub batches: Seq<Set<usize>>,
    /// Per-neighbor records, keyed by node id.
    pub peers: Map<Seq<char>, PeerModel>,
    /// The neighbors gossiped with, in the order the topology gave them.
    pub neighbors: Seq<Seq<char>>,
}

/// The state of a node that has seen nothing and knows no neighbor.
pub open spec fn initial_state() -> GossipState {
    GossipState {
        uncommitted: Set::empty(),
        batches: Seq::empty(),
        peers: Map::empty(),
        neighbors: Seq::empty(),
    }
}

/// Every value held by some batch.
pub open spec fn batched(batches: Seq<Set<usize>>) -> Set<usize> {
    Set::new(|v: usize| exists|i: int| 0 <= i < batches.len() && #[trigger] batches[i].contains(v))
}

/// The values a node has seen: the uncommitted ones and those of every batch.
pub open spec fn seen(s: GossipState) -> Set<usize> {
    s.uncommitted.union(batched(s.batches))
}

/// `Broadcast(value)`: the value joins the uncommitted set.
pub open spec fn broadcast(s: GossipState, value: usize) -> GossipState {
    GossipState { uncommitted: s.uncommitted.insert(value), ..s }
}

/// `Topology`: the neighbor list is replaced and each listed neighbor gets an
/// empty record.
pub open spec fn set_topology(s: GossipState, neighbors: Seq<Seq<char>>) -> GossipState {
    GossipState {
        peers: s.peers.union_prefer_right(
            Map::new(|k: Seq<char>| neighbors.contains(k), |k: Seq<char>| fresh_peer()),
        ),
        neighbors,
        ..s
    }
}

/// Merging one batch `(id, values)` sent by `src`: a batch id already merged
/// from `src` changes nothing; otherwise the values not yet seen join the
/// uncommitted set and the id is recorded.
pub open spec fn merge_batch(s: GossipState, src: Seq<char>, id: usize, values: Set<usize>) -> GossipState {
    let peer = s.peers[src];
    if peer.received.contains(id) {
        s
    } else {
        GossipState {
            uncommitted: s.uncommitted.union(values.difference(seen(s))),
            peers: s.peers.insert(src, PeerModel { received: peer.received.insert(id), ..peer }),
            ..s
        }
    }
}

/// Merging the batches of one `Gossip` message from `src`, in order.
pub open spec fn merge_news(s: GossipState, src: Seq<char>, news: Seq<(usize, Set<usize>)>) -> GossipState
    decreases news.len(),
{
    if news.len() == 0 {
        s
    } else {
        let last = news.last();
        merge_batch(merge_news(s, src, news.drop_last()), src, last.0, last.1)
    }
}

/// The receipt for a `Gossip` message: every batch id it carried, in order.
pub open spec fn receipt_of(news: Seq<(usize, Set<usize>)>) -> Seq<usize> {
    news.map_values(|b: (usize, Set<usize>)| b.0)
}

/// `GossipReceipt` from `src`: the ids join `src`'s acknowledged record.
pub open spec fn acknowledge(s: GossipState, src: Seq<char>, ids: Seq<usize>) -> GossipState {
    let peer = s.peers[src];
    GossipState {
        peers: s.peers.insert(src, PeerModel { acknowledged: peer.acknowledged.union(ids.to_set()), ..peer }),
        ..s
    }
}

/// Sealing: a non-empty uncommitted set becomes the next batch.
pub open spec fn seal(s: GossipState) -> GossipState {
    if s.uncommitted == Set::<usize>::empty() {
        s
    } else {
        GossipState { uncommitted: Set::empty(), batches: s.batches.push(s.uncommitted), ..s }
    }
}

/// The batch ids below `count` that are not in `acked`, ascending.
pub open spec fn unacknowledged_below(acked: Set<usize>, count: nat) -> Seq<usize>
    decreases count,
{
    if count == 0 {
        Seq::empty()
    } else {
        let id = count - 1;
        let rest = unacknowledged_below(acked, (count - 1) as nat);
        if id > usize::MAX || acked.contains(id as usize) {
            rest
        } else {
            rest.push(id as usize)
        }
    }
}

/// The ids of this node's batches that neighbor `n` has not acknowledged.
pub open spec fn pending(s: GossipState, n: Seq<char>) -> Seq<usize> {
    unacknowledged_below(s.peers[n].acknowledged, s.batches.len())
}

/// The gossip a tick sends to the neighbors in `ns`, in order: to each one
/// with pending batches, the ids of those batches.
pub open spec fn sends_to(s: GossipState, ns: Seq<Seq<char>>) -> Seq<(Seq<char>, Seq<usize>)>
    decreases ns.len(),
{
    if ns.len() == 0 {
        Seq::empty()
    } else {
        let rest = sends_to(s, ns.drop_last());
        let ids = pending(s, ns.last());
        if ids.len() == 0 {
            rest
        } else {
            rest.push((ns.last(), ids))
        }
    }
}

/// `Tick`: seal, then send every neighbor its pending batches.
pub open spec fn tick(s: GossipState) -> (GossipState, Seq<(Seq<char>, Seq<usize>)>) {
    let t = seal(s);
    (t, sends_to(t, t.neighbors))
}

/// One input of a node, as the state machine sees it.
pub enum Input {
    Broadcast(usize),
    Read,
    /// A topology, given by the neighbors it lists for this node; `None`
    /// when it has no entry for this node.
    Topology(Option<Seq<Seq<char>>>),
    Gossip(Seq<char>, Seq<(usize, Set<usize>)>),
    Receipt(Seq<char>, Seq<usize>),
    /// A reply-only kind received as a request.
    Reply,
    Tick,
}

/// The state after one input. Refused inputs (a topology without this
/// node, gossip or a receipt from a node that is no neighbor, a reply kind)
/// change nothing.
pub open spec fn step(s: GossipState, input: Input) -> GossipState {
    match input {
        Input::Broadcast(v) => broadcast(s, v),
        Input::Read => s,
        Input::Topology(found) => match found {
            Some(nbs) => set_topology(s, nbs),
            None => s,
        },
        Input::Gossip(src, news) => if s.peers.contains_key(src) {
            merge_news(s, src, news)
        } else {
            s
        },
        Input::Receipt(src, ids) => if s.peers.contains_key(src) {
            acknowledge(s, src, ids)
        } else {
            s
        },
        Input::Reply => s,
        Input::Tick => tick(s).0,
    }
}

/// The gossip that one input makes the node send: a tick's, or nothing.
pub open spec fn sent(s: GossipState, input: Input) -> Seq<(Seq<char>, Seq<usize>)> {
    match input {
        Input::Tick => tick(s).1,
        _ => Seq::empty(),
    }
}

/// The state after a sequence of inputs.
pub open spec fn run(s: GossipState, inputs: Seq<Input>) -> GossipState
    decreases inputs.len(),
{
    if inputs.len() == 0 {
        s
    } else {
        step(run(s, inputs.drop_last()), inputs.last())
    }
}

/// What the `i`-th of `inputs` sends, applied after the ones before it.
pub open spec fn sent_at(s: GossipState, inputs: Seq<Input>, i: int) -> Seq<(Seq<char>, Seq<usize>)> {
    sent(run(s, inputs.take(i)), inputs[i])
}

/// The batches `ids` of `s` as a `gossip` message carries them.
pub open spec fn news_for(s: GossipState, ids: Seq<usize>) -> Seq<(usize, Set<usize>)> {
    ids.map_values(|id: usize| (id, s.batches[id as int]))
}

} // verus!
