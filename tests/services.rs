use virvelvind::{
    answer_init, init_response, EchoServiceDefinition, EchoServiceNode, Id, Initialize,
    MaelstromRequest, MaelstromService, MessageIds, Node, RequestBody, ResponseBody,
    UniqueIdGenerationDefinition, UniqueIdServiceNode,
};

fn s(x: &str) -> String {
    x.to_string()
}

fn init_for(id: &str) -> Initialize {
    Initialize { node_id: s(id), node_ids: vec![s(id), s("n2")] }
}

#[test]
fn echo_answers_with_the_same_text() {
    let mut node = EchoServiceNode::new();
    node.init(init_for("n1"));
    let msg = MaelstromRequest {
        src: s("c1"),
        dest: s("n1"),
        body: RequestBody { data: EchoServiceDefinition::Echo { echo: s("hello there") }, msg_id: Some(4) },
    };
    let reply = node.process_message(msg, 2).ok().unwrap();
    assert_eq!(reply.src, "n1");
    assert_eq!(reply.dest, "c1");
    assert_eq!(reply.body.in_reply_to, Some(4));
    assert_eq!(reply.body.msg_id, Some(2));
    match reply.body.response_type {
        EchoServiceDefinition::EchoOk { echo } => assert_eq!(echo, "hello there"),
        _ => panic!("expected echo_ok"),
    }
}

#[test]
fn echo_refuses_echo_ok() {
    let mut node = EchoServiceNode::new();
    node.init(init_for("n1"));
    let msg = MaelstromRequest {
        src: s("c1"),
        dest: s("n1"),
        body: RequestBody { data: EchoServiceDefinition::EchoOk { echo: s("x") }, msg_id: None },
    };
    assert_eq!(node.handle_request(msg, 2).err().unwrap(), "Should not receive EchoOk { echo: \"x\" }");
}

#[test]
fn echo_refusal_escapes_like_debug() {
    let mut node = EchoServiceNode::new();
    node.init(init_for("n1"));
    for text in ["\"", "a\\b", "line\nbreak"] {
        let msg = MaelstromRequest {
            src: s("c1"),
            dest: s("n1"),
            body: RequestBody { data: EchoServiceDefinition::EchoOk { echo: s(text) }, msg_id: None },
        };
        let expected = format!("Should not receive EchoOk {{ echo: {:?} }}", text);
        assert_eq!(node.handle_request(msg, 2).err().unwrap(), expected);
    }
    assert_eq!(
        node.handle_request(
            MaelstromRequest {
                src: s("c1"),
                dest: s("n1"),
                body: RequestBody { data: EchoServiceDefinition::EchoOk { echo: s("\"") }, msg_id: None },
            },
            3
        )
        .err()
        .unwrap(),
        "Should not receive EchoOk { echo: \"\\\"\" }"
    );
}

#[test]
fn refusal_for_debug_wraps_the_debug_form() {
    assert_eq!(virvelvind::echo::refusal_for_debug("\"q\""), "Should not receive EchoOk { echo: \"q\" }");
}

#[test]
fn id_at_appends_the_time_in_upper_hex() {
    assert_eq!(UniqueIdServiceNode::id_at("n1", 255).id, "n1@FF");
    assert_eq!(UniqueIdServiceNode::id_at("n1", 0).id, "n1@0");
    assert_eq!(UniqueIdServiceNode::id_at("n3", 0x1A2B3C).id, "n3@1A2B3C");
    assert_eq!(UniqueIdServiceNode::id_at("", 16).id, "@10");
    assert_eq!(UniqueIdServiceNode::id_at("n2", u128::MAX).id, format!("n2@{:X}", u128::MAX));
    assert_eq!(UniqueIdServiceNode::id_at("n2", 0xABCDEF0123456789).id, "n2@ABCDEF0123456789");
}

#[test]
fn generate_id_is_node_id_at_hex_time() {
    let Id { id } = UniqueIdServiceNode::generate_id("n7");
    let (node, hex) = id.split_once('@').unwrap();
    assert_eq!(node, "n7");
    assert!(!hex.is_empty());
    assert!(hex.chars().all(|c| c.is_ascii_digit() || ('A'..='F').contains(&c)));
    assert!(!hex.starts_with('0'));
    assert!(u128::from_str_radix(hex, 16).unwrap() > 0);
}

#[test]
fn generate_request_gets_an_id_of_this_node() {
    let mut node = UniqueIdServiceNode::new();
    assert!(!node.is_initialized());
    node.init(init_for("n2"));
    assert!(node.is_initialized());
    let msg = MaelstromRequest {
        src: s("c3"),
        dest: s("n2"),
        body: RequestBody { data: UniqueIdGenerationDefinition::Generate, msg_id: Some(8) },
    };
    let reply = node.process_message(msg, 9).ok().unwrap();
    assert_eq!(reply.src, "n2");
    assert_eq!(reply.dest, "c3");
    assert_eq!(reply.body.in_reply_to, Some(8));
    assert_eq!(reply.body.msg_id, Some(9));
    match reply.body.response_type {
        UniqueIdGenerationDefinition::GenerateOk(Id { id }) => assert!(id.starts_with("n2@")),
        _ => panic!("expected generate_ok"),
    }
}

#[test]
fn generate_ok_request_is_refused() {
    let mut node = UniqueIdServiceNode::new();
    node.init(init_for("n2"));
    let msg = MaelstromRequest {
        src: s("c3"),
        dest: s("n2"),
        body: RequestBody { data: UniqueIdGenerationDefinition::GenerateOk(Id { id: s("n1@5") }), msg_id: Some(1) },
    };
    let err = node.process_message(msg, 2).err().unwrap();
    assert_eq!(err, "We have been sent a GenerateOk response - we are not taking requests at this time n1@5");
}

#[test]
fn into_reply_swaps_the_ends_and_correlates() {
    let msg = MaelstromRequest { src: s("c1"), dest: s("n1"), body: RequestBody { data: 17u32, msg_id: Some(3) } };
    let reply = msg.into_reply(Some(6));
    assert_eq!(reply.src, "n1");
    assert_eq!(reply.dest, "c1");
    assert_eq!(reply.body.in_reply_to, Some(3));
    assert_eq!(reply.body.msg_id, Some(6));
    assert_eq!(reply.body.response_type, 17);
}

#[test]
fn into_response_keeps_the_payload() {
    let body = RequestBody { data: "payload", msg_id: None };
    let r = body.into_response(Some(1));
    assert_eq!(r.in_reply_to, None);
    assert_eq!(r.msg_id, Some(1));
    assert_eq!(r.response_type, "payload");
}

#[test]
fn uni_dir_has_no_correlation() {
    let r = ResponseBody::uni_dir(5u8);
    assert_eq!(r.in_reply_to, None);
    assert_eq!(r.msg_id, None);
    assert_eq!(r.response_type, 5);
}

#[test]
fn handshake_is_answered_with_init_ok() {
    let req = MaelstromRequest { src: s("c0"), dest: s("n1"), body: RequestBody { data: init_for("n1"), msg_id: Some(12) } };
    let (init, reply) = answer_init(req).unwrap();
    assert_eq!(init.node_id, "n1");
    assert_eq!(init.node_ids, vec![s("n1"), s("n2")]);
    assert_eq!(reply.src, "n1");
    assert_eq!(reply.dest, "c0");
    assert_eq!(reply.body.in_reply_to, Some(12));
    assert_eq!(reply.body.msg_id, Some(1));
    assert!(matches!(reply.body.response_type, MaelstromService::InitOk));
}

#[test]
fn handshake_without_id_is_refused() {
    let req = MaelstromRequest { src: s("c0"), dest: s("n1"), body: RequestBody { data: init_for("n1"), msg_id: None } };
    assert!(answer_init(req).is_none());
}

#[test]
fn init_response_is_built_from_its_parts() {
    let r = init_response(4, 1, s("n1"), s("c0"));
    assert_eq!(r.src, "n1");
    assert_eq!(r.dest, "c0");
    assert_eq!(r.body.in_reply_to, Some(4));
    assert_eq!(r.body.msg_id, Some(1));
}

#[test]
fn message_ids_start_after_init_ok_and_increase() {
    let mut ids = MessageIds::new();
    assert_eq!(ids.next_id(), Some(2));
    assert_eq!(ids.next_id(), Some(3));
    assert_eq!(ids.next_id(), Some(4));
}

#[test]
fn empty_handshake_record_is_not_initialized() {
    let mut node = EchoServiceNode::new();
    assert!(!node.is_initialized());
    node.init(Initialize::empty());
    assert!(!node.is_initialized());
    node.init(init_for("n1"));
    assert!(node.is_initialized());
    assert_eq!(node.get_init().node_id, "n1");
}
