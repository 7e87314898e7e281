use vstd::prelude::*;

use crate::message::gossip::{names, GossipView};
use crate::message::{GlommerMessage, GlommerPayload};
use crate::{is_reply, topology_names, ActorView, MyActor};

verus! {

/// The network layout: each node's name with the names of its neighbours.
#[derive(Debug, Clone, PartialEq, Eq)]
pub struct Topology {
    pub topology: Vec<(String, Vec<String>)>,
}

/// The answer to a [`Topology`].
#[derive(Debug, Clone, PartialEq, Eq)]
pub struct TopologyOk;

/// Entry `i` is the first one for `node`.
pub open spec fn first_entry(entries: Seq<(String, Vec<String>)>, node: Seq<char>, i: int) -> bool {
    &&& 0 <= i < entries.len()
    &&& entries[i].0@ == node
    &&& forall|j: int| 0 <= j < i ==> entries[j].0@ != node
}

/// No two entries are for the same node, as in a map from node to
/// neighbours.
pub open spec fn distinct_nodes(entries: Seq<(String, Vec<String>)>) -> bool {
    forall|i: int, j: int|
        0 <= i < entries.len() && 0 <= j < entries.len() && i != j ==> entries[i].0@
            != entries[j].0@
}

/// Some entry is for `node`.
pub open spec fn has_entry(entries: Seq<(String, Vec<String>)>, node: Seq<char>) -> bool {
    exists|i: int| 0 <= i < entries.len() && entries[i].0@ == node
}

/// How a topology request numbered `msg_id` from `requester` changes a node
/// and what it answers: the node's own entry gives its neighbours, the rest
/// of the layout is kept, and the node acknowledges.
pub open spec fn topology_step(
    pre: ActorView,
    requester: Seq<char>,
    msg_id: Option<usize>,
    topology: Topology,
    post: ActorView,
    out: Seq<GlommerMessage>,
) -> bool {
    let entries = topology.topology@;
    &&& exists|i: int|
        first_entry(entries, pre.node_id, i) && post == (ActorView {
            next_id: pre.next_id + 1,
            topology: topology_names(entries.remove(i)),
            gossip: GossipView { neighbours: names(entries[i].1@), ..pre.gossip },
            ..pre
        })
    &&& is_reply(out, pre, requester, msg_id, GlommerPayload::TopologyOk(TopologyOk))
}

/// The index of the first entry for `node`, if there is one.
pub(crate) fn find_entry(entries: &Vec<(String, Vec<String>)>, node: &String) -> (r: Option<usize>)
    ensures
        match r {
            Some(i) => first_entry(entries@, node@, i as int),
            None => !has_entry(entries@, node@),
        },
{
    let mut i: usize = 0;
    while i < entries.len()
        invariant
            i <= entries@.len(),
            forall|j: int| 0 <= j < i ==> entries@[j].0@ != node@,
        decreases entries@.len() - i,
    {
        if entries[i].0 == *node {
            return Some(i);
        }
        i = i + 1;
    }
    None
}

/// Whether no two entries are for the same node.
pub(crate) fn nodes_distinct(entries: &Vec<(String, Vec<String>)>) -> (b: bool)
    ensures
        b == distinct_nodes(entries@),
{
    let mut i: usize = 0;
    while i < entries.len()
        invariant
            i <= entries@.len(),
            forall|a: int, c: int|
                0 <= a < i && 0 <= c < entries@.len() && a != c ==> entries@[a].0@ != entries@[c].0@,
        decreases entries@.len() - i,
    {
        let mut j: usize = 0;
        while j < entries.len()
            invariant
                i < entries@.len(),
                j <= entries@.len(),
                forall|a: int, c: int|
                    0 <= a < i && 0 <= c < entries@.len() && a != c ==> entries@[a].0@
                        != entries@[c].0@,
                forall|c: int| 0 <= c < j && c != i ==> entries@[i as int].0@ != entries@[c].0@,
            decreases entries@.len() - j,
        {
            if j != i && entries[i].0 == entries[j].0 {
                return false;
            }
            j = j + 1;
        }
        i = i + 1;
    }
    true
}

impl MyActor {
    /// Keeps the layout of the network, takes the node's neighbours from its
    /// own entry, and acknowledges.
    pub fn handle_topology(
        &mut self,
        requester: String,
        msg_id: Option<usize>,
        topology: Topology,
    ) -> (out: Vec<GlommerMessage>)
        requires
            old(self)@.next_id < usize::MAX,
            has_entry(topology.topology@, old(self)@.node_id),
            distinct_nodes(topology.topology@),
        ensures
            old(self).wf() ==> final(self).wf(),
            topology_step(old(self)@, requester@, msg_id, topology, final(self)@, out@),
    {
        let ghost entries = topology.topology@;
        let mut layout = topology.topology;
        let i = find_entry(&layout, &self.node_id).unwrap();
        let (_, neighbours) = layout.remove(i);
        proof {
            assert forall|a: int, b: int|
                0 <= a < layout@.len() && 0 <= b < layout@.len() && a != b implies layout@[a].0@
                != layout@[b].0@ by {
                let a0 = if a < i { a } else { a + 1 };
                let b0 = if b < i { b } else { b + 1 };
                assert(layout@[a] == entries[a0]);
                assert(layout@[b] == entries[b0]);
            }
        }
        self.topology = layout;
        self.gossip_state.set_neighbourhood(neighbours);
        let out = self.reply(requester, msg_id, GlommerPayload::TopologyOk(TopologyOk));
        proof {
            assert(first_entry(entries, old(self)@.node_id, i as int));
        }
        out
    }

    /// An answer to a topology needs nothing done.
    pub fn handle_topology_ok(&mut self, _topology_ok: TopologyOk)
        ensures
            *final(self) == *old(self),
    {
    }
}

} // verus!
