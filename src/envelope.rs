//! Message envelopes shared by every service: `{src, dest, body}` with the
//! correlation ids `msg_id` and `in_reply_to`.

use vstd::prelude::*;

verus! {

/// Name of a participant of the cluster (a node or a client).
pub type NetworkEntityId = String;

/// The handshake payload: this node's id and the ids of every participant.
pub struct Initialize {
    pub node_id: NetworkEntityId,
    pub node_ids: Vec<NetworkEntityId>,
}

impl Initialize {
    /// An empty handshake record, the state of a node before `init`.
    pub fn empty() -> (r: Initialize)
        ensures
            r.node_id@.len() == 0,
            r.node_ids@.len() == 0,
    {
        Initialize { node_id: String::new(), node_ids: Vec::new() }
    }
}

/// The body of an inbound message: the service payload and an optional id.
pub struct RequestBody<ServiceRequestType> {
    pub data: ServiceRequestType,
    pub msg_id: Option<usize>,
}

impl<ServiceRequestType> RequestBody<ServiceRequestType> {
    /// Turns a request body into the body of its reply: the reply refers to
    /// the request's id and carries the same payload.
    pub fn into_response(self, msg_id: Option<usize>) -> (r: ResponseBody<ServiceRequestType>)
        ensures
            r.in_reply_to == self.msg_id,
            r.msg_id == msg_id,
            r.response_type == self.data,
    {
        ResponseBody { in_reply_to: self.msg_id, msg_id: msg_id, response_type: self.data }
    }
}

/// An inbound message.
pub struct MaelstromRequest<ServiceRequestType> {
    pub src: NetworkEntityId,
    pub dest: NetworkEntityId,
    pub body: RequestBody<ServiceRequestType>,
}

impl<ServiceRequestType> MaelstromRequest<ServiceRequestType> {
    /// The reply to this message: addressed back to its sender, from its
    /// destination, correlated with its id.
    pub fn into_reply(self, msg_id: Option<usize>) -> (r: MaelstromResponse<ServiceRequestType>)
        ensures
            r.src == self.dest,
            r.dest == self.src,
            r.body.in_reply_to == self.body.msg_id,
            r.body.msg_id == msg_id,
            r.body.response_type == self.body.data,
    {
        MaelstromResponse { src: self.dest, dest: self.src, body: self.body.into_response(msg_id) }
    }
}

/// The body of an outbound message.
pub struct ResponseBody<ServiceResponseType> {
    pub in_reply_to: Option<usize>,
    pub msg_id: Option<usize>,
    pub response_type: ServiceResponseType,
}

impl<ServiceResponseType> ResponseBody<ServiceResponseType> {
    /// A body that answers no request and expects no answer.
    pub fn uni_dir(response_type: ServiceResponseType) -> (r: ResponseBody<ServiceResponseType>)
        ensures
            r.in_reply_to is None,
            r.msg_id is None,
            r.response_type == response_type,
    {
        ResponseBody { in_reply_to: None, msg_id: None, response_type }
    }
}

/// An outbound message.
pub struct MaelstromResponse<ServiceType> {
    pub src: NetworkEntityId,
    pub dest: NetworkEntityId,
    pub body: ResponseBody<ServiceType>,
}

/// `m` answers a request with id `req_id` from `req_src`: it goes from `from`
/// back to `req_src`, refers to `req_id` and carries `msg_id` as its own id.
pub open spec fn is_reply_to<S>(m: MaelstromResponse<S>, from: Seq<char>, req_src: Seq<char>, req_id: Option<usize>, msg_id: usize) -> bool {
    &&& m.src@ == from
    &&& m.dest@ == req_src
    &&& m.body.in_reply_to == req_id
    &&& m.body.msg_id == Some(msg_id)
}

/// The reply kinds of the handshake.
pub enum MaelstromService {
    InitOk,
}

/// The `init_ok` reply, with id `msg_id`, to the `init` request `in_reply_to`.
pub fn init_response(in_reply_to: usize, msg_id: usize, src: String, dest: String) -> (r: MaelstromResponse<MaelstromService>)
    ensures
        r.src == src,
        r.dest == dest,
        r.body.in_reply_to == Some(in_reply_to),
        r.body.msg_id == Some(msg_id),
        r.body.response_type == MaelstromService::InitOk,
{
    MaelstromResponse {
        src: src,
        dest: dest,
        body: ResponseBody { msg_id: Some(msg_id), response_type: MaelstromService::InitOk, in_reply_to: Some(in_reply_to) },
    }
}

/// The id of the `init_ok` reply; later messages are numbered after it.
pub const INIT_OK_ID: usize = 1;

/// Answers the handshake: the node's identity and the `init_ok` reply (id
/// 1, from the request's destination back to its sender). A request without
/// an id cannot be answered: `None`.
pub fn answer_init(req: MaelstromRequest<Initialize>) -> (r: Option<(Initialize, MaelstromResponse<MaelstromService>)>)
    ensures
        match r {
            Some((init, reply)) => {
                &&& req.body.msg_id is Some
                &&& init == req.body.data
                &&& reply.src == req.dest
                &&& reply.dest == req.src
                &&& reply.body.in_reply_to == req.body.msg_id
                &&& reply.body.msg_id == Some(INIT_OK_ID)
                &&& reply.body.response_type == MaelstromService::InitOk
            },
            None => req.body.msg_id is None,
        },
{
    match req.body.msg_id {
        Some(id) => Some((req.body.data, init_response(id, INIT_OK_ID, req.dest, req.src))),
        None => None,
    }
}

/// Hands out the ids of outbound messages: increasing, starting after the
/// `init_ok` reply.
pub struct MessageIds {
    next: usize,
}

impl MessageIds {
    /// The id the next call of `next_id` hands out.
    pub closed spec fn upcoming(&self) -> usize {
        self.next
    }

    pub fn new() -> (r: MessageIds)
        ensures
            r.upcoming() == INIT_OK_ID + 1,
    {
        MessageIds { next: INIT_OK_ID + 1 }
    }

    /// The next id, or `None` once every id below `usize::MAX` was used.
    pub fn next_id(&mut self) -> (r: Option<usize>)
        ensures
            old(self).upcoming() < usize::MAX ==> r == Some(old(self).upcoming()) && final(self).upcoming() == old(self).upcoming() + 1,
            old(self).upcoming() == usize::MAX ==> r is None && final(self).upcoming() == old(self).upcoming(),
    {
        if self.next < usize::MAX {
            let id = self.next;
            self.next = self.next + 1;
            Some(id)
        } else {
            None
        }
    }
}

/// A node that answers requests one at a time.
pub trait Node<ServiceType>: Sized {
    /// The node's invariant.
    spec fn inv(&self) -> bool;

    /// The handshake record the node holds.
    spec fn init_record(&self) -> Initialize;

    /// Stores the handshake record.
    fn init(&mut self, init: Initialize)
        requires
            old(self).inv(),
        ensures
            final(self).inv(),
            final(self).init_record() == init;

    fn get_init(&self) -> (r: &Initialize)
        ensures
            *r == self.init_record();

    /// Whether the handshake gave this node a non-empty id.
    fn is_initialized(&self) -> (r: bool)
        ensures
            r == (self.init_record().node_id@.len() > 0),
    {
        let init = self.get_init();
        let blank = Initialize::empty();
        assert(init.node_id@.len() == 0 ==> init.node_id@ =~= blank.node_id@);
        !(blank.node_id == init.node_id)
    }

    /// Handles one request with `local_msg_id` as the id of its reply.
    fn process_message(&mut self, msg: MaelstromRequest<ServiceType>, local_msg_id: usize) -> (r: Result<MaelstromResponse<ServiceType>, String>)
        requires
            old(self).inv(),
        ensures
            final(self).inv();
}

/// What drives a cooperative node: an inbound message or a timer tick.
pub enum Event<ServiceType> {
    IOEvent(MaelstromRequest<ServiceType>),
    GossipEvent,
}

/// A node that also acts on timer ticks and may send any number of messages
/// per event.
pub trait CooperativeNode<ServiceType>: Node<ServiceType> {
    /// Handles one event; `local_msg_id` is the id of a reply, if one is due.
    fn process_event(&mut self, msg: Event<ServiceType>, local_msg_id: usize) -> (r: Result<Vec<MaelstromResponse<ServiceType>>, String>)
        requires
            old(self).inv(),
        ensures
            final(self).inv();
}

} // verus!
