use std::collections::HashSet;

use gossip_glomers::echo::{Echo, EchoOk};
use gossip_glomers::init::{Init, InitOk};
use gossip_glomers::message::broadcast::{Broadcast, BroadcastOk};
use gossip_glomers::message::generate::{generate_id, Generate, GenerateOk};
use gossip_glomers::message::gossip::{Gossip, GossipOk};
use gossip_glomers::message::read::{Read, ReadOk};
use gossip_glomers::message::topology::{Topology, TopologyOk};
use gossip_glomers::{
    ActorError, Body, Event, EventGossip, GlommerMessage, GlommerPayload, GossipState, MyActor,
};

fn message(src: &str, dest: &str, msg_id: Option<usize>, payload: GlommerPayload) -> GlommerMessage {
    GlommerMessage {
        src: src.to_string(),
        dest: dest.to_string(),
        body: Body { msg_id, in_reply_to: None, payload },
    }
}

fn set(values: &[usize]) -> HashSet<usize> {
    values.iter().copied().collect()
}

fn names(values: &[&str]) -> Vec<String> {
    values.iter().map(|s| s.to_string()).collect()
}

/// A node named `n1` among `n1`, `n2`, `n3`, after answering its init.
fn started_node() -> MyActor {
    let mut node = MyActor::default();
    let out = node
        .handle_message(message(
            "c0",
            "n1",
            Some(1),
            GlommerPayload::Init(Init { node_id: "n1".to_string(), node_ids: names(&["n1", "n2", "n3"]) }),
        ))
        .unwrap();
    assert_eq!(out.len(), 1);
    node
}

/// A node `n1` whose neighbours are `n2` and `n3`.
fn node_with_neighbours() -> MyActor {
    let mut node = started_node();
    let layout = vec![
        ("n1".to_string(), names(&["n2", "n3"])),
        ("n2".to_string(), names(&["n1"])),
        ("n3".to_string(), names(&["n1"])),
    ];
    node.handle_message(message("c0", "n1", Some(2), GlommerPayload::Topology(Topology { topology: layout })))
        .unwrap();
    node
}

fn read_values(node: &mut MyActor) -> Vec<usize> {
    let out = node.handle_message(message("c1", "n1", Some(99), GlommerPayload::Read(Read))).unwrap();
    assert_eq!(out.len(), 1);
    match &out[0].body.payload {
        GlommerPayload::ReadOk(r) => r.messages.clone(),
        other => panic!("unexpected answer {:?}", other),
    }
}

#[test]
fn default_node_is_fresh() {
    let node = MyActor::default();
    assert_eq!(node.next_id(), 1);
    assert_eq!(node.node_id(), "");
    assert!(node.node_ids().is_empty());
    assert!(node.messages().is_empty());
    assert!(node.topology().is_empty());
    assert!(node.gossip_state().neighberhood.is_empty());
    assert_eq!(node.gossip_state().awaiting_count(), 0);
}

#[test]
fn init_names_the_node_and_acknowledges() {
    let mut node = MyActor::default();
    let out = node
        .handle_message(message(
            "c0",
            "n1",
            Some(7),
            GlommerPayload::Init(Init { node_id: "n1".to_string(), node_ids: names(&["n1", "n2"]) }),
        ))
        .unwrap();
    assert_eq!(node.node_id(), "n1");
    assert_eq!(node.node_ids(), &names(&["n1", "n2"]));
    assert_eq!(node.next_id(), 2);
    assert_eq!(
        out,
        vec![GlommerMessage {
            src: "n1".to_string(),
            dest: "c0".to_string(),
            body: Body { msg_id: Some(1), in_reply_to: Some(7), payload: GlommerPayload::InitOk(InitOk) },
        }]
    );
}

#[test]
fn echo_sends_the_text_back() {
    let mut node = started_node();
    let out = node
        .handle_message(message("c1", "n1", Some(3), GlommerPayload::Echo(Echo { echo: "Please echo 35".to_string() })))
        .unwrap();
    assert_eq!(
        out,
        vec![GlommerMessage {
            src: "n1".to_string(),
            dest: "c1".to_string(),
            body: Body {
                msg_id: Some(2),
                in_reply_to: Some(3),
                payload: GlommerPayload::EchoOk(EchoOk { echo: "Please echo 35".to_string() }),
            },
        }]
    );
    assert_eq!(node.next_id(), 3);
}

#[test]
fn echo_without_number_answers_nothing_in_particular() {
    let mut node = started_node();
    let out = node.handle_echo("c1".to_string(), None, Echo { echo: String::new() });
    assert_eq!(out[0].body.in_reply_to, None);
    assert_eq!(out[0].body.payload, GlommerPayload::EchoOk(EchoOk { echo: String::new() }));
}

#[test]
fn broadcast_then_read_returns_the_value() {
    let mut node = started_node();
    let out = node
        .handle_message(message("c1", "n1", Some(5), GlommerPayload::Broadcast(Broadcast { message: 42 })))
        .unwrap();
    assert_eq!(out[0].body.payload, GlommerPayload::BroadcastOk(BroadcastOk));
    assert_eq!(out[0].body.in_reply_to, Some(5));
    assert!(node.messages().contains(&42));
    let values = read_values(&mut node);
    assert_eq!(values, vec![42]);
}

#[test]
fn read_lists_each_value_once() {
    let mut node = started_node();
    for v in [3usize, 1, 3, 2, 1] {
        node.handle_broadcast("c1".to_string(), None, Broadcast { message: v });
    }
    let mut values = read_values(&mut node);
    values.sort();
    assert_eq!(values, vec![1, 2, 3]);
}

#[test]
fn read_of_empty_node_is_empty() {
    let mut node = started_node();
    assert!(read_values(&mut node).is_empty());
}

#[test]
fn topology_gives_the_neighbours() {
    let node = node_with_neighbours();
    assert_eq!(node.gossip_state().neighberhood, names(&["n2", "n3"]));
    assert_eq!(
        node.topology(),
        &vec![("n2".to_string(), names(&["n1"])), ("n3".to_string(), names(&["n1"]))]
    );
}

#[test]
fn topology_answer_is_acknowledgement() {
    let mut node = started_node();
    let out = node.handle_topology(
        "c0".to_string(),
        Some(11),
        Topology { topology: vec![("n1".to_string(), Vec::new())] },
    );
    assert_eq!(out[0].body.payload, GlommerPayload::TopologyOk(TopologyOk));
    assert_eq!(out[0].body.in_reply_to, Some(11));
    assert!(node.gossip_state().neighberhood.is_empty());
    assert!(node.topology().is_empty());
}

#[test]
fn topology_takes_the_entry_for_the_node() {
    let mut node = started_node();
    node.handle_topology(
        "c0".to_string(),
        None,
        Topology {
            topology: vec![
                ("n2".to_string(), names(&["n3"])),
                ("n1".to_string(), names(&["n2"])),
                ("n3".to_string(), names(&["n2"])),
            ],
        },
    );
    assert_eq!(node.gossip_state().neighberhood, names(&["n2"]));
    assert_eq!(
        node.topology(),
        &vec![("n2".to_string(), names(&["n3"])), ("n3".to_string(), names(&["n2"]))]
    );
}

#[test]
fn accepts_message_checks_the_layout() {
    let node = started_node();
    let good = message(
        "c0",
        "n1",
        Some(2),
        GlommerPayload::Topology(Topology { topology: vec![("n1".to_string(), names(&["n2"]))] }),
    );
    assert!(node.accepts_message(&good));
    let missing = message(
        "c0",
        "n1",
        Some(2),
        GlommerPayload::Topology(Topology { topology: vec![("n2".to_string(), names(&["n1"]))] }),
    );
    assert!(!node.accepts_message(&missing));
    let repeated = message(
        "c0",
        "n1",
        Some(2),
        GlommerPayload::Topology(Topology {
            topology: vec![("n1".to_string(), names(&["n2"])), ("n1".to_string(), names(&["n3"]))],
        }),
    );
    assert!(!node.accepts_message(&repeated));
    assert!(node.accepts_message(&message("c1", "n1", Some(3), GlommerPayload::Read(Read))));
    assert!(node.accepts_message(&message("n2", "n1", None, GlommerPayload::GossipOk(GossipOk))));
}

#[test]
fn gossip_round_fits_on_a_fresh_counter() {
    let mut node = node_with_neighbours();
    assert!(node.gossip_round_fits());
    node.handle_broadcast("c1".to_string(), None, Broadcast { message: 1 });
    assert!(node.gossip_round_fits());
}

#[test]
fn clones_carry_the_same_values() {
    let g = Gossip { seen: set(&[1, 2, 3]) };
    assert_eq!(g.clone(), g);
    let mut node = node_with_neighbours();
    node.handle_gossip("n2".to_string(), None, Gossip { seen: set(&[4]) });
    node.handle_broadcast("c1".to_string(), None, Broadcast { message: 5 });
    node.handle_event_gossip(EventGossip);
    let state = node.gossip_state().clone();
    assert_eq!(state.neighberhood, node.gossip_state().neighberhood);
    assert_eq!(state.known_by(&"n2".to_string()), Some(&set(&[4])));
    assert_eq!(state.awaiting_count(), 2);
}

#[test]
fn generate_id_formats_node_and_number() {
    assert_eq!(generate_id(&"n7".to_string(), 0), "n7-0");
    assert_eq!(generate_id(&"n7".to_string(), 9), "n7-9");
    assert_eq!(generate_id(&"n7".to_string(), 10), "n7-10");
    assert_eq!(generate_id(&"n7".to_string(), 1234567), "n7-1234567");
    assert_eq!(generate_id(&String::new(), usize::MAX), format!("-{}", usize::MAX));
}

#[test]
fn generate_answers_with_the_number_of_the_answer() {
    let mut node = started_node();
    let out = node.handle_message(message("c1", "n1", Some(4), GlommerPayload::Generate(Generate))).unwrap();
    assert_eq!(out[0].body.msg_id, Some(2));
    assert_eq!(out[0].body.payload, GlommerPayload::GenerateOk(GenerateOk { id: "n1-2".to_string() }));
}

#[test]
fn generated_ids_are_unique() {
    let mut node = started_node();
    let mut ids = HashSet::new();
    for i in 0..200 {
        let out = node.handle_generate("c1".to_string(), Some(i), Generate);
        match &out[0].body.payload {
            GlommerPayload::GenerateOk(g) => assert!(ids.insert(g.id.clone())),
            other => panic!("unexpected answer {:?}", other),
        }
        // other traffic in between moves the counter on as well
        node.handle_echo("c2".to_string(), None, Echo { echo: "x".to_string() });
    }
    assert_eq!(ids.len(), 200);
}

#[test]
fn acknowledgements_change_nothing() {
    let mut node = node_with_neighbours();
    node.handle_broadcast("c1".to_string(), None, Broadcast { message: 8 });
    let before_id = node.next_id();
    for payload in [
        GlommerPayload::InitOk(InitOk),
        GlommerPayload::EchoOk(EchoOk { echo: "e".to_string() }),
        GlommerPayload::BroadcastOk(BroadcastOk),
        GlommerPayload::ReadOk(ReadOk { messages: vec![1] }),
        GlommerPayload::TopologyOk(TopologyOk),
        GlommerPayload::GenerateOk(GenerateOk { id: "n2-1".to_string() }),
    ] {
        let out = node.handle_message(message("n2", "n1", Some(1), payload)).unwrap();
        assert!(out.is_empty());
    }
    assert_eq!(node.next_id(), before_id);
    assert_eq!(node.messages(), &set(&[8]));
    node.handle_event(Event::Log);
    assert_eq!(node.next_id(), before_id);
}

#[test]
fn gossip_is_taken_in_and_acknowledged() {
    let mut node = node_with_neighbours();
    let out = node
        .handle_message(message("n2", "n1", Some(9), GlommerPayload::Gossip(Gossip { seen: set(&[1, 2]) })))
        .unwrap();
    assert_eq!(out.len(), 1);
    assert_eq!(out[0].dest, "n2");
    assert_eq!(out[0].body.in_reply_to, Some(9));
    assert_eq!(out[0].body.payload, GlommerPayload::GossipOk(GossipOk));
    assert_eq!(node.messages(), &set(&[1, 2]));
    assert_eq!(node.gossip_state().known_by(&"n2".to_string()), Some(&set(&[1, 2])));
    assert_eq!(node.gossip_state().known_by(&"n3".to_string()), None);

    node.handle_gossip("n2".to_string(), Some(10), Gossip { seen: set(&[3]) });
    assert_eq!(node.messages(), &set(&[1, 2, 3]));
    assert_eq!(node.gossip_state().known_by(&"n2".to_string()), Some(&set(&[1, 2, 3])));
}

#[test]
fn gossip_round_sends_what_each_neighbour_lacks() {
    let mut node = node_with_neighbours();
    node.handle_gossip("n2".to_string(), None, Gossip { seen: set(&[1]) });
    node.handle_broadcast("c1".to_string(), None, Broadcast { message: 2 });
    let first = node.next_id();
    let out = node.handle_event_gossip(EventGossip);
    assert_eq!(out.len(), 2);
    assert_eq!(out[0].src, "n1");
    assert_eq!(out[0].dest, "n2");
    assert_eq!(out[0].body.msg_id, Some(first));
    assert_eq!(out[0].body.in_reply_to, None);
    assert_eq!(out[0].body.payload, GlommerPayload::Gossip(Gossip { seen: set(&[2]) }));
    assert_eq!(out[1].dest, "n3");
    assert_eq!(out[1].body.msg_id, Some(first + 1));
    assert_eq!(out[1].body.payload, GlommerPayload::Gossip(Gossip { seen: set(&[1, 2]) }));
    assert_eq!(node.next_id(), first + 2);
    assert_eq!(node.gossip_state().awaiting(first), Some(&set(&[2])));
    assert_eq!(node.gossip_state().awaiting(first + 1), Some(&set(&[1, 2])));
    assert_eq!(node.gossip_state().awaiting_count(), 2);
}

#[test]
fn gossip_round_skips_neighbours_that_lack_nothing() {
    let mut node = node_with_neighbours();
    let first = node.next_id();
    assert!(node.handle_event_gossip(EventGossip).is_empty());
    assert_eq!(node.next_id(), first);
    node.handle_gossip("n2".to_string(), None, Gossip { seen: set(&[4]) });
    let out = node.handle_event_gossip(EventGossip);
    assert_eq!(out.len(), 1);
    assert_eq!(out[0].dest, "n3");
}

#[test]
fn acknowledged_gossip_brings_the_neighbour_up_to_date() {
    let mut node = node_with_neighbours();
    node.handle_broadcast("c1".to_string(), None, Broadcast { message: 5 });
    node.handle_broadcast("c1".to_string(), None, Broadcast { message: 6 });
    let out = node.handle_event_gossip(EventGossip);
    assert_eq!(out.len(), 2);
    let to_n2 = out[0].body.msg_id;
    let ack = GlommerMessage {
        src: "n2".to_string(),
        dest: "n1".to_string(),
        body: Body { msg_id: Some(1), in_reply_to: to_n2, payload: GlommerPayload::GossipOk(GossipOk) },
    };
    assert_eq!(node.handle_message(ack), Ok(Vec::new()));
    assert_eq!(node.gossip_state().known_by(&"n2".to_string()), Some(&set(&[5, 6])));
    assert_eq!(node.gossip_state().awaiting(to_n2.unwrap()), None);
    let again = node.handle_event_gossip(EventGossip);
    assert_eq!(again.len(), 1);
    assert_eq!(again[0].dest, "n3");
}

#[test]
fn gossip_ok_without_reply_number_is_refused() {
    let mut node = node_with_neighbours();
    let id = node.next_id();
    let result = node.handle_gossip_ok("n2".to_string(), None, GossipOk);
    assert_eq!(result, Err(ActorError::EmptyReplyTo));
    assert_eq!(node.next_id(), id);
    assert_eq!(node.gossip_state().known_by(&"n2".to_string()), None);
}

#[test]
fn gossip_ok_for_unknown_gossip_is_refused() {
    let mut node = node_with_neighbours();
    node.handle_broadcast("c1".to_string(), None, Broadcast { message: 1 });
    node.handle_event_gossip(EventGossip);
    let result = node.handle_gossip_ok("n2".to_string(), Some(12345), GossipOk);
    assert_eq!(result, Err(ActorError::UnknownGossip(12345)));
    assert_eq!(node.gossip_state().awaiting_count(), 2);
    assert_eq!(node.gossip_state().known_by(&"n2".to_string()), None);
}

#[test]
fn gossip_ok_answered_twice_is_refused_the_second_time() {
    let mut node = node_with_neighbours();
    node.handle_broadcast("c1".to_string(), None, Broadcast { message: 1 });
    let out = node.handle_event_gossip(EventGossip);
    let id = out[0].body.msg_id;
    assert_eq!(node.handle_gossip_ok("n2".to_string(), id, GossipOk), Ok(()));
    assert_eq!(
        node.handle_gossip_ok("n2".to_string(), id, GossipOk),
        Err(ActorError::UnknownGossip(id.unwrap()))
    );
}

#[test]
fn gossip_ok_from_unknown_peer_records_it() {
    let mut node = node_with_neighbours();
    node.handle_broadcast("c1".to_string(), None, Broadcast { message: 1 });
    let out = node.handle_event_gossip(EventGossip);
    let id = out[1].body.msg_id;
    // the acknowledgement comes from a node the gossip did not go to
    assert_eq!(node.handle_gossip_ok("n9".to_string(), id, GossipOk), Ok(()));
    assert_eq!(node.gossip_state().known_by(&"n9".to_string()), Some(&set(&[1])));
}

#[test]
fn default_gossip_state_is_empty() {
    let g = GossipState::default();
    assert!(g.neighberhood.is_empty());
    assert_eq!(g.awaiting_count(), 0);
    assert_eq!(g.known_by(&"n1".to_string()), None);
    assert_eq!(g.awaiting(1), None);
}

#[test]
fn message_numbers_are_never_reused() {
    let mut node = node_with_neighbours();
    let mut numbers = HashSet::new();
    for v in 0..20 {
        for m in node.handle_broadcast("c1".to_string(), None, Broadcast { message: v }) {
            assert!(numbers.insert(m.body.msg_id.unwrap()));
        }
        for m in node.handle_event_gossip(EventGossip) {
            assert!(numbers.insert(m.body.msg_id.unwrap()));
        }
    }
}

#[test]
fn known_and_awaited_values_are_held() {
    let mut node = node_with_neighbours();
    node.handle_gossip("n2".to_string(), None, Gossip { seen: set(&[1, 2]) });
    node.handle_broadcast("c1".to_string(), None, Broadcast { message: 3 });
    let out = node.handle_event_gossip(EventGossip);
    node.handle_gossip_ok("n3".to_string(), out[1].body.msg_id, GossipOk).unwrap();
    let held = node.messages().clone();
    for peer in ["n2", "n3"] {
        let known = node.gossip_state().known_by(&peer.to_string()).unwrap();
        assert!(known.is_subset(&held));
    }
    for m in &out {
        if let Some(values) = node.gossip_state().awaiting(m.body.msg_id.unwrap()) {
            assert!(values.is_subset(&held));
            assert!(m.body.msg_id.unwrap() < node.next_id());
        }
    }
    assert_eq!(node.gossip_state().known_by(&"n3".to_string()), Some(&set(&[1, 2, 3])));
}

