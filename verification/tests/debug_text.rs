use std::collections::HashSet;

use gossip_glomers::init::Init;
use gossip_glomers::message::broadcast::Broadcast;
use gossip_glomers::message::gossip::Gossip;
use gossip_glomers::message::topology::Topology;

fn set(values: &[usize]) -> HashSet<usize> {
    values.iter().copied().collect()
}

fn names(values: &[&str]) -> Vec<String> {
    values.iter().map(|s| s.to_string()).collect()
}

/// A node named `n1` among `n1`, `n2`, `n3`, after answering its init.
fn started_node() -> gossip_glomers::MyActor {
    let mut node = gossip_glomers::MyActor::default();
    node.handle_init(
        "c0".to_string(),
        Some(1),
        Init { node_id: "n1".to_string(), node_ids: names(&["n1", "n2", "n3"]) },
    );
    node
}

/// The fields that the node's debug text shows, in the shapes the text
/// writes them in.
#[derive(Debug)]
#[allow(dead_code)]
struct MyActor {
    id: usize,
    node_id: String,
    node_ids: Vec<String>,
    topology: std::collections::HashMap<String, Vec<String>>,
    messages: HashSet<usize>,
}

#[test]
fn debug_text_of_fresh_node() {
    let node = gossip_glomers::MyActor::default();
    assert_eq!(node.debug_text(), "MyActor { id: 1, node_id: \"\", node_ids: [], topology: {}, messages: {} }");
}

#[test]
fn debug_text_shows_layout_as_map_and_values_as_set() {
    let mut node = started_node();
    node.handle_topology(
        "c0".to_string(),
        None,
        Topology { topology: vec![("n1".to_string(), names(&["n2"])), ("n2".to_string(), names(&["n1", "n3"]))] },
    );
    node.handle_broadcast("c1".to_string(), None, Broadcast { message: 17 });
    node.handle_gossip("n2".to_string(), None, Gossip { seen: set(&[17]) });
    let expected = MyActor {
        id: node.next_id(),
        node_id: "n1".to_string(),
        node_ids: names(&["n1", "n2", "n3"]),
        topology: [("n2".to_string(), names(&["n1", "n3"]))].into_iter().collect(),
        messages: set(&[17]),
    };
    assert_eq!(node.debug_text(), format!("{:?}", expected));
    assert_eq!(
        node.debug_text(),
        "MyActor { id: 5, node_id: \"n1\", node_ids: [\"n1\", \"n2\", \"n3\"], topology: {\"n2\": [\"n1\", \"n3\"]}, messages: {17} }"
    );
}

#[test]
fn debug_text_escapes_names() {
    let mut node = gossip_glomers::MyActor::default();
    node.handle_init("c0".to_string(), None, Init { node_id: "a\"b\\c".to_string(), node_ids: Vec::new() });
    let expected = MyActor {
        id: 2,
        node_id: "a\"b\\c".to_string(),
        node_ids: Vec::new(),
        topology: Default::default(),
        messages: HashSet::new(),
    };
    assert_eq!(node.debug_text(), format!("{:?}", expected));
}

#[test]
fn debug_text_lists_every_value_once() {
    let mut node = started_node();
    for v in [3usize, 1, 2, 3] {
        node.handle_broadcast("c1".to_string(), None, Broadcast { message: v });
    }
    let text = node.debug_text();
    let start = text.find("messages: {").unwrap() + "messages: {".len();
    let end = text.rfind("} }").unwrap();
    let mut values: Vec<usize> = text[start..end].split(", ").map(|v| v.parse().unwrap()).collect();
    values.sort();
    assert_eq!(values, vec![1, 2, 3]);
}

#[test]
fn assemble_debug_text_joins_the_parts() {
    let text = gossip_glomers::debug::assemble_debug_text(
        12,
        &"<n1>".to_string(),
        &names(&["<a>", "<b>"]),
        &vec![("<k>".to_string(), names(&["<x>"])), ("<m>".to_string(), Vec::new())],
        &vec![4, 40],
    );
    assert_eq!(
        text,
        "MyActor { id: 12, node_id: <n1>, node_ids: [<a>, <b>], topology: {<k>: [<x>], <m>: []}, messages: {4, 40} }"
    );
}
