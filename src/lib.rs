//! A Maelstrom-style cluster node: request/response envelopes, a gossip
//! broadcast engine with per-neighbor acknowledgment tracking, and the small
//! echo and unique-id services, all specified and verified with Verus.
//!
//! `gossip_model` states the protocol as a state machine over mathematical
//! values; `broadcast` is the executable node, proved to follow it step for
//! step; `laws` and `cluster` prove what the protocol guarantees, for one
//! node and for a cluster of nodes exchanging gossip.

pub mod broadcast;
pub mod cluster;
pub mod echo;
pub mod envelope;
pub mod gossip_model;
pub mod laws;
pub mod unique_ids;

pub use broadcast::{
    BroadcastServiceDefinition, BroadcastServiceNode, GossipError, GossipMessage, RPCRead, Topology,
};
pub use echo::{EchoServiceDefinition, EchoServiceNode};
pub use envelope::{
    answer_init, init_response, CooperativeNode, Event, Initialize, MaelstromRequest,
    MaelstromResponse, MaelstromService, MessageIds, NetworkEntityId, Node, RequestBody,
    ResponseBody,
};
pub use unique_ids::{Id, UniqueIdGenerationDefinition, UniqueIdServiceNode};
