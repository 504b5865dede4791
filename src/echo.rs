//! The echo service: every `echo` request is answered with its own text.

use vstd::prelude::*;
use vstd::string::StringExecFns;

use crate::envelope::{is_reply_to, Initialize, MaelstromRequest, MaelstromResponse, Node, ResponseBody};

verus! {

/// The messages of the echo service.
pub enum EchoServiceDefinition {
    Echo { echo: String },
    EchoOk { echo: String },
}

/// The `Debug` form of a text: quoted, with quotes, backslashes and control
/// characters escaped.
pub uninterp spec fn debug_of(s: Seq<char>) -> Seq<char>;

/// Relies on std's `Debug` for `str` (`{:?}`): the result depends on the
/// text alone.
#[verifier::external_body]
fn debug_text(s: &str) -> (r: String)
    ensures
        r@ == debug_of(s@),
{
    format!("{:?}", s)
}

/// The refusal of an `echo_ok` request whose text has the debug form
/// `debug`: the request's own debug form after "Should not receive".
pub open spec fn refusal_from(debug: Seq<char>) -> Seq<char> {
    "Should not receive EchoOk { echo: "@ + debug + " }"@
}

/// The refusal of an `echo_ok` request carrying `echo`.
pub open spec fn refusal_text(echo: Seq<char>) -> Seq<char> {
    refusal_from(debug_of(echo))
}

/// Words the refusal of an `echo_ok` request from the debug form of its
/// text.
pub fn refusal_for_debug(debug: &str) -> (r: String)
    ensures
        r@ == refusal_from(debug@),
{
    let mut text = String::from_str("Should not receive EchoOk { echo: ");
    text.append(debug);
    text.append(" }");
    text
}

/// A node of the echo service.
pub struct EchoServiceNode {
    init: Initialize,
}

impl EchoServiceNode {
    /// A node before its handshake.
    pub fn new() -> (r: EchoServiceNode)
        ensures
            r.init_record().node_id@.len() == 0,
            r.init_record().node_ids@.len() == 0,
    {
        EchoServiceNode { init: Initialize::empty() }
    }

    /// Answers `echo` with `echo_ok` carrying the same text, as a reply with
    /// id `msg_id`; an `echo_ok` request is refused.
    pub fn handle_request(&mut self, msg: MaelstromRequest<EchoServiceDefinition>, msg_id: usize) -> (r: Result<MaelstromResponse<EchoServiceDefinition>, String>)
        ensures
            final(self).init_record() == old(self).init_record(),
            match msg.body.data {
                EchoServiceDefinition::Echo { echo } => r matches Ok(m)
                    && is_reply_to(m, old(self).init_record().node_id@, msg.src@, msg.body.msg_id, msg_id)
                    && m.body.response_type == (EchoServiceDefinition::EchoOk { echo }),
                EchoServiceDefinition::EchoOk { echo } => r matches Err(text) && text@ == refusal_text(echo@),
            },
    {
        match msg.body.data {
            EchoServiceDefinition::Echo { echo } => Ok(MaelstromResponse {
                src: self.init.node_id.clone(),
                dest: msg.src,
                body: ResponseBody {
                    msg_id: Some(msg_id),
                    response_type: EchoServiceDefinition::EchoOk { echo: echo },
                    in_reply_to: msg.body.msg_id,
                },
            }),
            EchoServiceDefinition::EchoOk { echo } => {
                let debug = debug_text(echo.as_str());
                Err(refusal_for_debug(debug.as_str()))
            },
        }
    }
}

impl Node<EchoServiceDefinition> for EchoServiceNode {
    open spec fn inv(&self) -> bool {
        true
    }

    closed spec fn init_record(&self) -> Initialize {
        self.init
    }

    fn init(&mut self, init: Initialize)
        ensures
            final(self).init_record() == init,
    {
        self.init = init;
    }

    fn get_init(&self) -> (r: &Initialize) {
        &self.init
    }

    fn process_message(&mut self, msg: MaelstromRequest<EchoServiceDefinition>, local_msg_id: usize) -> (r: Result<MaelstromResponse<EchoServiceDefinition>, String>)
        ensures
            final(self).init_record() == old(self).init_record(),
            match msg.body.data {
                EchoServiceDefinition::Echo { echo } => r matches Ok(m)
                    && is_reply_to(m, old(self).init_record().node_id@, msg.src@, msg.body.msg_id, local_msg_id)
                    && m.body.response_type == (EchoServiceDefinition::EchoOk { echo }),
                EchoServiceDefinition::EchoOk { echo } => r matches Err(text) && text@ == refusal_text(echo@),
            },
    {
        self.handle_request(msg, local_msg_id)
    }
}

} // verus!
