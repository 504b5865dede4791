//! The unique-id service: ids made of the node's id, `@`, and the time in
//! microseconds since the Unix epoch in upper-case hexadecimal.

use vstd::prelude::*;
use vstd::string::StringExecFns;

use crate::envelope::{is_reply_to, Initialize, MaelstromRequest, MaelstromResponse, Node, ResponseBody};

verus! {

/// A generated id.
pub struct Id<T> {
    pub id: T,
}

/// The messages of the unique-id service.
pub enum UniqueIdGenerationDefinition<T> {
    Generate,
    GenerateOk(Id<T>),
}

/// The upper-case hexadecimal digit for `d`, below 16.
pub open spec fn hex_digit(d: nat) -> char {
    seq!['0', '1', '2', '3', '4', '5', '6', '7', '8', '9', 'A', 'B', 'C', 'D', 'E', 'F'][d as int]
}

/// `n` in upper-case hexadecimal, without leading zeros ("0" for zero).
pub open spec fn upper_hex(n: nat) -> Seq<char>
    decreases n,
{
    if n < 16 {
        seq![hex_digit(n)]
    } else {
        upper_hex(n / 16).push(hex_digit(n % 16))
    }
}

/// The id that a node named `node_id` hands out at time `micros`.
pub open spec fn id_text(node_id: Seq<char>, micros: nat) -> Seq<char> {
    node_id + seq!['@'] + upper_hex(micros)
}

/// Relies on `std::time::SystemTime::elapsed` from the Unix epoch, read in
/// microseconds: `None` when the clock stands before the epoch. Nothing is
/// known of the value, which depends on the time.
#[verifier::external_body]
fn micros_since_epoch() -> (r: Option<u128>) {
    std::time::UNIX_EPOCH.elapsed().ok().map(|d| d.as_micros())
}

/// The upper-case hexadecimal digit for `d`.
fn hex_digit_str(d: u128) -> (r: &'static str)
    requires
        d < 16,
    ensures
        r@ == seq![hex_digit(d as nat)],
{
    proof {
        reveal_strlit("0");
        reveal_strlit("1");
        reveal_strlit("2");
        reveal_strlit("3");
        reveal_strlit("4");
        reveal_strlit("5");
        reveal_strlit("6");
        reveal_strlit("7");
        reveal_strlit("8");
        reveal_strlit("9");
        reveal_strlit("A");
        reveal_strlit("B");
        reveal_strlit("C");
        reveal_strlit("D");
        reveal_strlit("E");
        reveal_strlit("F");
    }
    let r = if d == 0 {
        "0"
    } else if d == 1 {
        "1"
    } else if d == 2 {
        "2"
    } else if d == 3 {
        "3"
    } else if d == 4 {
        "4"
    } else if d == 5 {
        "5"
    } else if d == 6 {
        "6"
    } else if d == 7 {
        "7"
    } else if d == 8 {
        "8"
    } else if d == 9 {
        "9"
    } else if d == 10 {
        "A"
    } else if d == 11 {
        "B"
    } else if d == 12 {
        "C"
    } else if d == 13 {
        "D"
    } else if d == 14 {
        "E"
    } else {
        "F"
    };
    assert(r@ =~= seq![hex_digit(d as nat)]);
    r
}

/// Appends `n` in upper-case hexadecimal to `text`.
fn append_upper_hex(text: &mut String, n: u128)
    ensures
        final(text)@ == old(text)@ + upper_hex(n as nat),
    decreases n,
{
    if n >= 16 {
        append_upper_hex(text, n / 16);
    }
    text.append(hex_digit_str(n % 16));
    assert(final(text)@ =~= old(text)@ + upper_hex(n as nat));
}

/// A node of the unique-id service.
pub struct UniqueIdServiceNode {
    init: Initialize,
}

impl UniqueIdServiceNode {
    /// A node before its handshake.
    pub fn new() -> (r: UniqueIdServiceNode)
        ensures
            r.init_record().node_id@.len() == 0,
            r.init_record().node_ids@.len() == 0,
    {
        UniqueIdServiceNode { init: Initialize::empty() }
    }

    /// The id for `node_id` at time `micros`: `node_id@HEX`.
    pub fn id_at(node_id: &str, micros: u128) -> (r: Id<String>)
        ensures
            r.id@ == id_text(node_id@, micros as nat),
    {
        let mut text = String::from_str(node_id);
        proof {
            reveal_strlit("@");
        }
        text.append("@");
        append_upper_hex(&mut text, micros);
        Id { id: text }
    }

    /// An id for `node_id` at the current time (zero when the clock stands
    /// before the Unix epoch).
    pub fn generate_id(node_id: &str) -> (r: Id<String>)
        ensures
            exists|micros: nat| r.id@ == id_text(node_id@, micros),
    {
        let micros = match micros_since_epoch() {
            Some(m) => m,
            None => 0,
        };
        UniqueIdServiceNode::id_at(node_id, micros)
    }
}

impl Node<UniqueIdGenerationDefinition<String>> for UniqueIdServiceNode {
    open spec fn inv(&self) -> bool {
        true
    }

    closed spec fn init_record(&self) -> Initialize {
        self.init
    }

    fn init(&mut self, init: Initialize)
        ensures
            final(self).init_record() == init,
    {
        self.init = init;
    }

    fn get_init(&self) -> (r: &Initialize) {
        &self.init
    }

    fn process_message(&mut self, msg: MaelstromRequest<UniqueIdGenerationDefinition<String>>, local_msg_id: usize) -> (r: Result<MaelstromResponse<UniqueIdGenerationDefinition<String>>, String>)
        ensures
            final(self).init_record() == old(self).init_record(),
            match msg.body.data {
                UniqueIdGenerationDefinition::Generate => r matches Ok(m)
                    && is_reply_to(m, old(self).init_record().node_id@, msg.src@, msg.body.msg_id, local_msg_id)
                    && is_generated_id(m.body.response_type, old(self).init_record().node_id@),
                UniqueIdGenerationDefinition::GenerateOk(Id { id }) => r matches Err(text) && text@ == refusal_text(id@),
            },
    {
        self.handle_request(msg, local_msg_id)
    }
}

impl UniqueIdServiceNode {
    /// Answers `generate` with `generate_ok` carrying a fresh id, as a reply
    /// with id `local_msg_id`; a `generate_ok` request is refused.
    pub fn handle_request(&mut self, msg: MaelstromRequest<UniqueIdGenerationDefinition<String>>, local_msg_id: usize) -> (r: Result<MaelstromResponse<UniqueIdGenerationDefinition<String>>, String>)
        ensures
            final(self).init_record() == old(self).init_record(),
            match msg.body.data {
                UniqueIdGenerationDefinition::Generate => r matches Ok(m)
                    && is_reply_to(m, old(self).init_record().node_id@, msg.src@, msg.body.msg_id, local_msg_id)
                    && is_generated_id(m.body.response_type, old(self).init_record().node_id@),
                UniqueIdGenerationDefinition::GenerateOk(Id { id }) => r matches Err(text) && text@ == refusal_text(id@),
            },
    {
        match msg.body.data {
            UniqueIdGenerationDefinition::Generate => {
                let id = UniqueIdServiceNode::generate_id(self.init.node_id.as_str());
                Ok(MaelstromResponse {
                    src: self.init.node_id.clone(),
                    dest: msg.src,
                    body: ResponseBody {
                        msg_id: Some(local_msg_id),
                        response_type: UniqueIdGenerationDefinition::GenerateOk(id),
                        in_reply_to: msg.body.msg_id,
                    },
                })
            },
            UniqueIdGenerationDefinition::GenerateOk(Id { id }) => {
                let mut text = String::from_str("We have been sent a GenerateOk response - we are not taking requests at this time ");
                text.append(id.as_str());
                Err(text)
            },
        }
    }
}

/// The refusal of a `generate_ok` request carrying `id`.
pub open spec fn refusal_text(id: Seq<char>) -> Seq<char> {
    "We have been sent a GenerateOk response - we are not taking requests at this time "@ + id
}

/// `t` is a `generate_ok` carrying an id of the node `node_id`.
pub open spec fn is_generated_id(t: UniqueIdGenerationDefinition<String>, node_id: Seq<char>) -> bool {
    t matches UniqueIdGenerationDefinition::GenerateOk(id) && exists|micros: nat| id.id@ == id_text(node_id, micros)
}

} // verus!
