use std::collections::HashSet;

use virvelvind::{
    BroadcastServiceDefinition, BroadcastServiceNode, CooperativeNode, Event, GossipError,
    GossipMessage, Initialize, MaelstromRequest, MaelstromResponse, Node, RequestBody, Topology,
};

fn s(x: &str) -> String {
    x.to_string()
}

fn node_named(id: &str, all: &[&str]) -> BroadcastServiceNode {
    let mut node = BroadcastServiceNode::new();
    node.init(Initialize { node_id: s(id), node_ids: all.iter().map(|n| s(n)).collect() });
    node
}

fn request(src: &str, dest: &str, msg_id: Option<usize>, data: BroadcastServiceDefinition) -> Event<BroadcastServiceDefinition> {
    Event::IOEvent(MaelstromRequest { src: s(src), dest: s(dest), body: RequestBody { data, msg_id } })
}

fn topology(entries: &[(&str, &[&str])]) -> BroadcastServiceDefinition {
    BroadcastServiceDefinition::Topology(Topology {
        topology: entries.iter().map(|(n, nbs)| (s(n), nbs.iter().map(|x| s(x)).collect())).collect(),
    })
}

fn gossip(batches: &[(usize, &[usize])]) -> BroadcastServiceDefinition {
    BroadcastServiceDefinition::Gossip {
        news: batches.iter().map(|(id, vals)| GossipMessage { id: *id, payload: vals.iter().copied().collect() }).collect(),
    }
}

fn sorted(mut v: Vec<usize>) -> Vec<usize> {
    v.sort();
    v
}

fn read(node: &BroadcastServiceNode) -> Vec<usize> {
    sorted(node.all_messages())
}

/// A node `n1` whose neighbors are `nbs`.
fn with_neighbors(nbs: &[&str]) -> BroadcastServiceNode {
    let mut node = node_named("n1", &["n1", "n2", "n3"]);
    let out = node.handle_event(request("c1", "n1", Some(1), topology(&[("n1", nbs), ("n2", &["n1"])])), 10).ok().unwrap();
    assert_eq!(out.len(), 1);
    node
}

/// The batches of a gossip message, as (id, sorted payload).
fn batches_of(m: &MaelstromResponse<BroadcastServiceDefinition>) -> Vec<(usize, Vec<usize>)> {
    match &m.body.response_type {
        BroadcastServiceDefinition::Gossip { news } => news.iter().map(|b| (b.id, sorted(b.payload.iter().copied().collect()))).collect(),
        _ => panic!("not a gossip message"),
    }
}

fn tick(node: &mut BroadcastServiceNode) -> Vec<MaelstromResponse<BroadcastServiceDefinition>> {
    node.handle_event(Event::GossipEvent, 0).ok().unwrap()
}

#[test]
fn broadcast_then_tick_sends_one_batch_to_each_neighbor() {
    let mut node = with_neighbors(&["n2", "n3"]);
    let out = node.handle_event(request("c1", "n1", Some(2), BroadcastServiceDefinition::Broadcast { message: 5 }), 11).ok().unwrap();
    assert_eq!(out.len(), 1);
    assert!(matches!(out[0].body.response_type, BroadcastServiceDefinition::BroadcastOk));
    assert_eq!(out[0].dest, "c1");
    assert_eq!(out[0].src, "n1");
    assert_eq!(out[0].body.in_reply_to, Some(2));
    assert_eq!(out[0].body.msg_id, Some(11));
    node.handle_event(request("c1", "n1", Some(3), BroadcastServiceDefinition::Broadcast { message: 9 }), 12).ok().unwrap();
    assert_eq!(read(&node), vec![5, 9]);

    let sent = tick(&mut node);
    assert_eq!(sent.len(), 2);
    assert_eq!(sent[0].dest, "n2");
    assert_eq!(sent[1].dest, "n3");
    for m in &sent {
        assert_eq!(m.src, "n1");
        assert_eq!(m.body.in_reply_to, None);
        assert_eq!(m.body.msg_id, None);
        let batches = batches_of(m);
        assert_eq!(batches.len(), 1);
        assert_eq!(batches[0].1, vec![5, 9]);
    }
    assert_eq!(read(&node), vec![5, 9]);
}

#[test]
fn repeated_gossip_is_acknowledged_but_merged_once() {
    let mut node = with_neighbors(&["n2"]);
    for _ in 0..2 {
        let out = node.handle_event(request("n2", "n1", None, gossip(&[(7, &[5, 9])])), 20).ok().unwrap();
        assert_eq!(out.len(), 1);
        assert_eq!(out[0].dest, "n2");
        assert_eq!(out[0].body.in_reply_to, None);
        assert_eq!(out[0].body.msg_id, None);
        match &out[0].body.response_type {
            BroadcastServiceDefinition::GossipReceipt { receipt } => assert_eq!(receipt, &vec![7]),
            _ => panic!("expected a receipt"),
        }
    }
    assert_eq!(node.all_messages().len(), 2);
    assert_eq!(read(&node), vec![5, 9]);
    let sent = tick(&mut node);
    assert_eq!(sent.len(), 1);
    assert_eq!(batches_of(&sent[0]), vec![(0, vec![5, 9])]);
}

#[test]
fn merging_twice_equals_merging_once() {
    let mut once = with_neighbors(&["n2"]);
    let mut twice = with_neighbors(&["n2"]);
    once.handle_event(request("c1", "n1", Some(1), BroadcastServiceDefinition::Broadcast { message: 1 }), 3).ok().unwrap();
    twice.handle_event(request("c1", "n1", Some(1), BroadcastServiceDefinition::Broadcast { message: 1 }), 3).ok().unwrap();
    let news: &[(usize, &[usize])] = &[(3, &[1, 2]), (4, &[2, 3])];
    once.handle_event(request("n2", "n1", None, gossip(news)), 4).ok().unwrap();
    twice.handle_event(request("n2", "n1", None, gossip(news)), 4).ok().unwrap();
    twice.handle_event(request("n2", "n1", None, gossip(news)), 5).ok().unwrap();
    assert_eq!(read(&once), read(&twice));
    assert_eq!(read(&once), vec![1, 2, 3]);
    let a: Vec<_> = tick(&mut once).iter().map(batches_of).collect();
    let b: Vec<_> = tick(&mut twice).iter().map(batches_of).collect();
    assert_eq!(a, b);
    assert_eq!(a, vec![vec![(0, vec![1, 2, 3])]]);
}

#[test]
fn read_lists_each_value_once() {
    let mut node = with_neighbors(&["n2"]);
    for v in [4, 4, 8] {
        node.handle_event(request("c1", "n1", Some(1), BroadcastServiceDefinition::Broadcast { message: v }), 2).ok().unwrap();
    }
    tick(&mut node);
    node.handle_event(request("c1", "n1", Some(1), BroadcastServiceDefinition::Broadcast { message: 4 }), 2).ok().unwrap();
    node.handle_event(request("n2", "n1", None, gossip(&[(0, &[8, 15, 15])])), 3).ok().unwrap();
    let out = node.handle_event(request("c1", "n1", Some(9), BroadcastServiceDefinition::Read), 30).ok().unwrap();
    assert_eq!(out.len(), 1);
    assert_eq!(out[0].body.in_reply_to, Some(9));
    assert_eq!(out[0].body.msg_id, Some(30));
    match &out[0].body.response_type {
        BroadcastServiceDefinition::ReadOk(r) => assert_eq!(sorted(r.messages.clone()), vec![4, 8, 15]),
        _ => panic!("expected read_ok"),
    }
}

#[test]
fn acknowledged_batch_is_not_resent() {
    let mut node = with_neighbors(&["n2", "n3"]);
    node.handle_event(request("c1", "n1", Some(1), BroadcastServiceDefinition::Broadcast { message: 1 }), 2).ok().unwrap();
    tick(&mut node);
    node.handle_event(request("c1", "n1", Some(1), BroadcastServiceDefinition::Broadcast { message: 2 }), 2).ok().unwrap();
    tick(&mut node);
    let out = node
        .handle_event(request("n2", "n1", None, BroadcastServiceDefinition::GossipReceipt { receipt: vec![0] }), 3)
        .ok()
        .unwrap();
    assert!(out.is_empty());
    let sent = tick(&mut node);
    assert_eq!(sent.len(), 2);
    assert_eq!(sent[0].dest, "n2");
    assert_eq!(batches_of(&sent[0]), vec![(1, vec![2])]);
    assert_eq!(sent[1].dest, "n3");
    assert_eq!(batches_of(&sent[1]), vec![(0, vec![1]), (1, vec![2])]);

    node.handle_event(request("n2", "n1", None, BroadcastServiceDefinition::GossipReceipt { receipt: vec![1] }), 4).ok().unwrap();
    let sent = tick(&mut node);
    assert_eq!(sent.len(), 1);
    assert_eq!(sent[0].dest, "n3");
}

#[test]
fn unacknowledged_batch_is_resent_every_tick() {
    let mut node = with_neighbors(&["n2"]);
    node.handle_event(request("c1", "n1", Some(1), BroadcastServiceDefinition::Broadcast { message: 6 }), 2).ok().unwrap();
    for round in 0..4 {
        let sent = tick(&mut node);
        assert_eq!(sent.len(), 1, "round {round}");
        assert_eq!(batches_of(&sent[0]), vec![(0, vec![6])]);
    }
    node.handle_event(request("n2", "n1", None, BroadcastServiceDefinition::GossipReceipt { receipt: vec![0] }), 3).ok().unwrap();
    assert!(tick(&mut node).is_empty());
}

#[test]
fn nothing_to_send_sends_nothing() {
    let mut node = with_neighbors(&["n2", "n3"]);
    assert!(tick(&mut node).is_empty());
    assert!(read(&node).is_empty());
}

#[test]
fn topology_without_this_node_is_refused() {
    let mut node = node_named("n1", &["n1", "n2"]);
    let r = node.handle_event(request("c1", "n1", Some(1), topology(&[("n2", &["n3"]), ("n3", &["n2"])])), 2);
    assert!(matches!(r, Err(GossipError::MissingSelf)));
    let r = node.handle_event(request("n2", "n1", None, gossip(&[(0, &[1])])), 3);
    assert!(matches!(r, Err(GossipError::UnknownPeer)));
    assert!(read(&node).is_empty());
}

#[test]
fn topology_reply_is_correlated() {
    let mut node = node_named("n1", &["n1", "n2"]);
    let out = node.handle_event(request("c9", "n1", Some(44), topology(&[("n1", &["n2"])])), 45).ok().unwrap();
    assert_eq!(out.len(), 1);
    assert!(matches!(out[0].body.response_type, BroadcastServiceDefinition::TopologyOk));
    assert_eq!(out[0].dest, "c9");
    assert_eq!(out[0].body.in_reply_to, Some(44));
    assert_eq!(out[0].body.msg_id, Some(45));
}

#[test]
fn reply_kinds_are_refused_as_requests() {
    let mut node = with_neighbors(&["n2"]);
    for data in [
        BroadcastServiceDefinition::BroadcastOk,
        BroadcastServiceDefinition::TopologyOk,
        BroadcastServiceDefinition::ReadOk(virvelvind::RPCRead { messages: vec![1] }),
    ] {
        let r = node.handle_event(request("n2", "n1", Some(1), data), 2);
        assert!(matches!(r, Err(GossipError::UnexpectedReply)));
    }
    assert!(read(&node).is_empty());
}

#[test]
fn gossip_and_receipts_from_strangers_are_refused() {
    let mut node = with_neighbors(&["n2"]);
    let r = node.handle_event(request("n9", "n1", None, gossip(&[(0, &[1])])), 2);
    assert!(matches!(r, Err(GossipError::UnknownPeer)));
    let r = node.handle_event(request("n9", "n1", None, BroadcastServiceDefinition::GossipReceipt { receipt: vec![0] }), 2);
    assert!(matches!(r, Err(GossipError::UnknownPeer)));
    assert!(read(&node).is_empty());
}

#[test]
fn error_messages_are_not_empty() {
    for e in [GossipError::UnexpectedReply, GossipError::MissingSelf, GossipError::UnknownPeer] {
        assert!(!e.message().is_empty());
    }
}

#[test]
fn process_event_reports_errors_as_text() {
    let mut node = node_named("n1", &["n1"]);
    let r = node.process_event(request("n2", "n1", None, BroadcastServiceDefinition::GossipReceipt { receipt: vec![] }), 1);
    assert_eq!(r.err().unwrap(), GossipError::UnknownPeer.message());
    let r = node.process_event(request("c1", "n1", Some(1), BroadcastServiceDefinition::Broadcast { message: 3 }), 2);
    assert_eq!(r.ok().unwrap().len(), 1);
    assert!(node.has_seen(3));
    assert!(!node.has_seen(4));
}

#[test]
fn has_seen_covers_batches_and_uncommitted_values() {
    let mut node = with_neighbors(&["n2"]);
    node.broadcast(1);
    tick(&mut node);
    node.broadcast(2);
    assert!(node.has_seen(1));
    assert!(node.has_seen(2));
    assert!(!node.has_seen(3));
}

#[test]
fn get_unknown_seals_and_lists_unacknowledged_batches() {
    let mut node = with_neighbors(&["n2"]);
    node.broadcast(1);
    node.broadcast(2);
    let news = node.get_unknown(&s("n2"));
    assert_eq!(news.len(), 1);
    assert_eq!(news[0].id, 0);
    assert_eq!(sorted(news[0].payload.iter().copied().collect()), vec![1, 2]);
    node.acknowledge_receipt(&s("n2"), &vec![0]).ok().unwrap();
    assert!(node.get_unknown(&s("n2")).is_empty());
}

#[test]
fn merge_gossip_returns_every_batch_id_in_order() {
    let mut node = with_neighbors(&["n2"]);
    let news = vec![
        GossipMessage { id: 5, payload: HashSet::from([1]) },
        GossipMessage { id: 2, payload: HashSet::new() },
        GossipMessage { id: 5, payload: HashSet::from([7]) },
    ];
    let receipt = node.merge_gossip(&s("n2"), &news).ok().unwrap();
    assert_eq!(receipt, vec![5, 2, 5]);
    // the second batch with id 5 was already merged from n2
    assert_eq!(read(&node), vec![1]);
}

#[test]
fn neighborhood_of_finds_the_listed_neighbors() {
    let t = Topology { topology: vec![(s("n1"), vec![s("n2"), s("n3")]), (s("n2"), vec![s("n1")])] };
    assert_eq!(t.neighborhood_of(&s("n1")), Some(vec![s("n2"), s("n3")]));
    assert_eq!(t.neighborhood_of(&s("n2")), Some(vec![s("n1")]));
    assert_eq!(t.neighborhood_of(&s("n4")), None);
}

#[test]
fn broadcast_node_refuses_lone_requests() {
    let mut node = node_named("n1", &["n1"]);
    let msg = MaelstromRequest { src: s("c1"), dest: s("n1"), body: RequestBody { data: BroadcastServiceDefinition::Read, msg_id: Some(1) } };
    assert!(node.process_message(msg, 2).is_err());
    assert!(node.is_initialized());
    assert!(!BroadcastServiceNode::new().is_initialized());
}

/// Delivers every message to the node it is addressed to, and what they send
/// back in turn, until nothing is left in flight.
fn deliver(nodes: &mut [BroadcastServiceNode], names: &[&str], mut in_flight: Vec<MaelstromResponse<BroadcastServiceDefinition>>) {
    while let Some(m) = in_flight.pop() {
        let to = names.iter().position(|n| *n == m.dest).unwrap();
        let evt = Event::IOEvent(MaelstromRequest {
            src: m.src,
            dest: m.dest,
            body: RequestBody { data: m.body.response_type, msg_id: m.body.msg_id },
        });
        let out = nodes[to].handle_event(evt, 100).ok().unwrap();
        in_flight.extend(out);
    }
}

#[test]
fn values_spread_around_a_ring() {
    let names = ["n0", "n1", "n2", "n3", "n4"];
    let mut nodes: Vec<BroadcastServiceNode> = names.iter().map(|n| node_named(n, &names)).collect();
    let ring: Vec<(String, Vec<String>)> = (0..5)
        .map(|i| (s(names[i]), vec![s(names[(i + 4) % 5]), s(names[(i + 1) % 5])]))
        .collect();
    for node in nodes.iter_mut() {
        let t = BroadcastServiceDefinition::Topology(Topology { topology: ring.clone() });
        node.handle_event(request("c", "n", Some(1), t), 2).ok().unwrap();
    }
    nodes[0].broadcast(42);
    nodes[3].broadcast(7);
    // the diameter of a ring of five is two: two rounds of ticks suffice
    for _ in 0..2 {
        for i in 0..5 {
            let sent = tick(&mut nodes[i]);
            deliver(&mut nodes, &names, sent);
        }
    }
    for node in &nodes {
        assert_eq!(read(node), vec![7, 42]);
    }
    // once every batch is acknowledged, the network falls quiet
    let mut rounds = 0;
    loop {
        let mut any = false;
        for i in 0..5 {
            let sent = tick(&mut nodes[i]);
            any = any || !sent.is_empty();
            deliver(&mut nodes, &names, sent);
        }
        if !any {
            break;
        }
        rounds += 1;
        assert!(rounds < 10, "gossip never settled");
    }
    for node in &nodes {
        assert_eq!(read(node), vec![7, 42]);
    }
}

#[test]
fn process_event_follows_the_broadcast_scenario() {
    let mut node = BroadcastServiceNode::new();
    node.init(Initialize { node_id: s("n1"), node_ids: vec![s("n1"), s("n2"), s("n3")] });
    let out = node.process_event(request("c1", "n1", Some(1), topology(&[("n1", &["n2", "n3"])])), 2).ok().unwrap();
    assert!(matches!(out[0].body.response_type, BroadcastServiceDefinition::TopologyOk));
    node.process_event(request("c1", "n1", Some(2), BroadcastServiceDefinition::Broadcast { message: 5 }), 3).ok().unwrap();
    node.process_event(request("c1", "n1", Some(3), BroadcastServiceDefinition::Broadcast { message: 9 }), 4).ok().unwrap();
    let out = node.process_event(request("c1", "n1", Some(4), BroadcastServiceDefinition::Read), 5).ok().unwrap();
    match &out[0].body.response_type {
        BroadcastServiceDefinition::ReadOk(r) => assert_eq!(sorted(r.messages.clone()), vec![5, 9]),
        _ => panic!("expected read_ok"),
    }
    let sent = node.process_event(Event::GossipEvent, 6).ok().unwrap();
    assert_eq!(sent.len(), 2);
    assert_eq!(batches_of(&sent[0]), batches_of(&sent[1]));
    assert_eq!(batches_of(&sent[0]).len(), 1);
    assert_eq!(batches_of(&sent[0])[0].1, vec![5, 9]);
    let r = node.process_event(request("c1", "n1", Some(5), topology(&[("n2", &["n3"])])), 7);
    assert_eq!(r.err().unwrap(), GossipError::MissingSelf.message());
}

#[test]
fn init_keeps_the_gossip_state() {
    let mut node = with_neighbors(&["n2"]);
    node.broadcast(3);
    node.init(Initialize { node_id: s("n1"), node_ids: vec![] });
    assert_eq!(read(&node), vec![3]);
    assert_eq!(node.get_init().node_id, "n1");
}
