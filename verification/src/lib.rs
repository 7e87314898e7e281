use std::collections::HashSet;
use vstd::prelude::*;

pub mod debug;
pub mod echo;
pub mod formatter;
pub mod init;
pub mod laws;
pub mod message;
mod sets;

pub use formatter::NewLineFormatter;
pub use message::gossip::{EventGossip, GossipState};
pub use message::{Body, GlommerMessage, GlommerPayload};

use echo::echo_step;
use init::init_step;
use message::addressed;
use message::broadcast::broadcast_step;
use message::generate::generate_step;
use message::gossip::{gossip_ok_step, gossip_step, names, GossipView};
use message::read::read_step;
use message::topology::{distinct_nodes, find_entry, has_entry, nodes_distinct, topology_step};

verus! {

/// Why a node refuses a message.
#[derive(Debug, Clone, Copy, PartialEq, Eq)]
pub enum ActorError {
    /// A gossip acknowledgement that names no gossip message.
    EmptyReplyTo,
    /// A gossip acknowledgement for a number under which no gossip message is
    /// awaiting one.
    UnknownGossip(usize),
}

/// Signals a node receives from its own runtime rather than from the network.
#[derive(Debug, Clone, Copy, PartialEq, Eq)]
pub enum Event {
    Log,
}

/// One node of the network: its name, the names of all nodes, the layout of
/// the network, the values it holds and what it knows of its neighbours.
#[derive(Debug)]
pub struct MyActor {
    id: usize,
    node_id: String,
    node_ids: Vec<String>,
    topology: Vec<(String, Vec<String>)>,
    messages: HashSet<usize>,
    gossip_state: GossipState,
}

/// A node as mathematical values.
pub struct ActorView {
    /// The number the next message the node sends will carry.
    pub next_id: nat,
    pub node_id: Seq<char>,
    pub node_ids: Seq<Seq<char>>,
    /// The layout of the rest of the network, in the order it was given.
    pub topology: Seq<(Seq<char>, Seq<Seq<char>>)>,
    /// The values the node holds.
    pub messages: Set<usize>,
    pub gossip: GossipView,
}

/// The layout entries as names.
pub open spec fn topology_names(entries: Seq<(String, Vec<String>)>) -> Seq<(Seq<char>, Seq<Seq<char>>)> {
    entries.map_values(|e: (String, Vec<String>)| (e.0@, names(e.1@)))
}

impl View for MyActor {
    type V = ActorView;

    closed spec fn view(&self) -> ActorView {
        ActorView {
            next_id: self.id as nat,
            node_id: self.node_id@,
            node_ids: names(self.node_ids@),
            topology: topology_names(self.topology@),
            messages: self.messages@,
            gossip: self.gossip_state@,
        }
    }
}

/// A peer is only known to hold values the node holds, and every awaited
/// gossip message carries values the node holds.
pub open spec fn holds_known_values(v: ActorView) -> bool {
    &&& forall|p: Seq<char>| #[trigger]
        v.gossip.known.contains_key(p) ==> v.gossip.known[p].subset_of(v.messages)
    &&& forall|id: usize| #[trigger]
        v.gossip.sent.contains_key(id) ==> v.gossip.sent[id].subset_of(v.messages)
}

/// What every handler keeps: the node holds every value it knows of its
/// peers or awaits an acknowledgement for, and every awaited gossip message
/// carries a number the node has already used.
pub open spec fn consistent(v: ActorView) -> bool {
    &&& holds_known_values(v)
    &&& forall|id: usize| #[trigger] v.gossip.sent.contains_key(id) ==> id < v.next_id
}

/// A node that has not been told its name yet: its first message will be
/// numbered 1, it holds no values and knows no neighbours.
pub open spec fn fresh_view() -> ActorView {
    ActorView {
        next_id: 1,
        node_id: Seq::empty(),
        node_ids: Seq::empty(),
        topology: Seq::empty(),
        messages: Set::empty(),
        gossip: GossipView { neighbours: Seq::empty(), known: Map::empty(), sent: Map::empty() },
    }
}

impl Default for MyActor {
    /// A node that has not been told its name yet.
    fn default() -> (a: Self)
        ensures
            a.wf(),
            a@ == fresh_view(),
    {
        let a = MyActor {
            id: 1,
            node_id: String::new(),
            node_ids: Vec::new(),
            topology: Vec::new(),
            messages: HashSet::new(),
            gossip_state: GossipState::default(),
        };
        proof {
            assert(a@.node_ids =~= Seq::<Seq<char>>::empty());
            assert(a@.topology =~= Seq::<(Seq<char>, Seq<Seq<char>>)>::empty());
        }
        a
    }
}

/// The payload is one that the node answers.
pub open spec fn is_request(payload: GlommerPayload) -> bool {
    match payload {
        GlommerPayload::Init(_) | GlommerPayload::Echo(_) | GlommerPayload::Broadcast(_)
        | GlommerPayload::Read(_) | GlommerPayload::Topology(_) | GlommerPayload::Generate(_)
        | GlommerPayload::Gossip(_) => true,
        _ => false,
    }
}

/// The node can take `msg`: there is a number left for an answer, and a
/// layout names the node, and names each node once.
pub open spec fn accepts(node: ActorView, msg: GlommerMessage) -> bool {
    &&& is_request(msg.body.payload) ==> node.next_id < usize::MAX
    &&& msg.body.payload matches GlommerPayload::Topology(t) ==> has_entry(
        t.topology@,
        node.node_id,
    ) && distinct_nodes(t.topology@)
}

/// How `msg` changes a node from `pre` to `post` and what the node sends or
/// why it refuses.
pub open spec fn message_step(
    pre: ActorView,
    msg: GlommerMessage,
    post: ActorView,
    result: Result<Vec<GlommerMessage>, ActorError>,
) -> bool {
    let src = msg.src@;
    let msg_id = msg.body.msg_id;
    match msg.body.payload {
        GlommerPayload::Init(p) => result matches Ok(out) && init_step(pre, src, msg_id, p, post, out@),
        GlommerPayload::Echo(p) => result matches Ok(out) && echo_step(pre, src, msg_id, p, post, out@),
        GlommerPayload::Broadcast(p) => result matches Ok(out) && broadcast_step(
            pre,
            src,
            msg_id,
            p,
            post,
            out@,
        ),
        GlommerPayload::Read(_) => result matches Ok(out) && read_step(pre, src, msg_id, post, out@),
        GlommerPayload::Topology(p) => result matches Ok(out) && topology_step(
            pre,
            src,
            msg_id,
            p,
            post,
            out@,
        ),
        GlommerPayload::Generate(_) => result matches Ok(out) && generate_step(
            pre,
            src,
            msg_id,
            post,
            out@,
        ),
        GlommerPayload::Gossip(p) => result matches Ok(out) && gossip_step(
            pre,
            src,
            msg_id,
            p,
            post,
            out@,
        ),
        GlommerPayload::GossipOk(_) => match result {
            Ok(out) => out@.len() == 0 && gossip_ok_step(
                pre,
                src,
                msg.body.in_reply_to,
                post,
                Ok(()),
            ),
            Err(e) => gossip_ok_step(pre, src, msg.body.in_reply_to, post, Err(e)),
        },
        _ => result matches Ok(out) && out@.len() == 0 && post == pre,
    }
}

impl MyActor {
    /// Takes one message and hands back what the node sends in answer, or why
    /// it refuses the message.
    pub fn handle_message(&mut self, msg: GlommerMessage) -> (result: Result<Vec<GlommerMessage>, ActorError>)
        requires
            old(self).wf(),
            accepts(old(self)@, msg),
        ensures
            final(self).wf(),
            message_step(old(self)@, msg, final(self)@, result),
    {
        let GlommerMessage { src, dest: _, body } = msg;
        let Body { msg_id, in_reply_to, payload } = body;
        match payload {
            GlommerPayload::Init(p) => Ok(self.handle_init(src, msg_id, p)),
            GlommerPayload::InitOk(p) => {
                self.handle_init_ok(p);
                Ok(Vec::new())
            },
            GlommerPayload::Echo(p) => Ok(self.handle_echo(src, msg_id, p)),
            GlommerPayload::EchoOk(p) => {
                self.handle_echo_ok(p);
                Ok(Vec::new())
            },
            GlommerPayload::Broadcast(p) => Ok(self.handle_broadcast(src, msg_id, p)),
            GlommerPayload::BroadcastOk(p) => {
                self.handle_broadcast_ok(p);
                Ok(Vec::new())
            },
            GlommerPayload::Read(p) => Ok(self.handle_read(src, msg_id, p)),
            GlommerPayload::ReadOk(p) => {
                self.handle_read_ok(p);
                Ok(Vec::new())
            },
            GlommerPayload::Topology(p) => Ok(self.handle_topology(src, msg_id, p)),
            GlommerPayload::TopologyOk(p) => {
                self.handle_topology_ok(p);
                Ok(Vec::new())
            },
            GlommerPayload::Generate(p) => Ok(self.handle_generate(src, msg_id, p)),
            GlommerPayload::GenerateOk(p) => {
                self.handle_generate_ok(p);
                Ok(Vec::new())
            },
            GlommerPayload::Gossip(p) => Ok(self.handle_gossip(src, msg_id, p)),
            GlommerPayload::GossipOk(p) => match self.handle_gossip_ok(src, in_reply_to, p) {
                Ok(()) => Ok(Vec::new()),
                Err(e) => Err(e),
            },
        }
    }

    /// Whether the node can take `msg`.
    pub fn accepts_message(&self, msg: &GlommerMessage) -> (b: bool)
        ensures
            b == accepts(self@, *msg),
    {
        let room = self.id < usize::MAX;
        match &msg.body.payload {
            GlommerPayload::Topology(t) => {
                room && find_entry(&t.topology, &self.node_id).is_some() && nodes_distinct(
                    &t.topology,
                )
            },
            GlommerPayload::Init(_) | GlommerPayload::Echo(_) | GlommerPayload::Broadcast(_)
            | GlommerPayload::Read(_) | GlommerPayload::Generate(_) | GlommerPayload::Gossip(_) => {
                room
            },
            _ => true,
        }
    }

    /// A runtime signal needs nothing done.
    pub fn handle_event(&mut self, event: Event)
        ensures
            *final(self) == *old(self),
    {
        match event {
            Event::Log => {},
        }
    }

    /// The representation is consistent.
    pub closed spec fn wf(&self) -> bool {
        &&& self.gossip_state.wf()
        &&& distinct_nodes(self.topology@)
    }

    /// The number the next message the node sends will carry.
    pub fn next_id(&self) -> (id: usize)
        ensures
            id == self@.next_id,
    {
        self.id
    }

    /// The node's name.
    pub fn node_id(&self) -> (name: &String)
        ensures
            name@ == self@.node_id,
    {
        &self.node_id
    }

    /// The names of all nodes.
    pub fn node_ids(&self) -> (all: &Vec<String>)
        ensures
            names(all@) == self@.node_ids,
    {
        &self.node_ids
    }

    /// The layout of the rest of the network.
    pub fn topology(&self) -> (layout: &Vec<(String, Vec<String>)>)
        ensures
            topology_names(layout@) == self@.topology,
    {
        &self.topology
    }

    /// The values the node holds.
    pub fn messages(&self) -> (values: &HashSet<usize>)
        ensures
            values@ == self@.messages,
    {
        &self.messages
    }

    /// What the node knows of its neighbours.
    pub fn gossip_state(&self) -> (g: &GossipState)
        ensures
            g@ == self@.gossip,
            self.wf() ==> g.wf(),
    {
        &self.gossip_state
    }

    /// Sends `payload` to `dest`, answering `in_reply_to`: the message goes to
    /// `out` under the next number, and the number is handed back.
    fn send(
        &mut self,
        dest: String,
        in_reply_to: Option<usize>,
        payload: GlommerPayload,
        out: &mut Vec<GlommerMessage>,
    ) -> (msg_id: usize)
        requires
            old(self)@.next_id < usize::MAX,
        ensures
            msg_id == old(self)@.next_id,
            final(self)@ == (ActorView { next_id: old(self)@.next_id + 1, ..old(self)@ }),
            final(self).wf() == old(self).wf(),
            final(out)@.len() == old(out)@.len() + 1,
            final(out)@.take(old(out)@.len() as int) == old(out)@,
            addressed(final(out)@.last(), old(self)@.node_id, dest@, msg_id, in_reply_to),
            final(out)@.last().body.payload == payload,
    {
        let msg_id = self.id;
        let message = GlommerMessage {
            src: self.node_id.clone(),
            dest,
            body: Body { msg_id: Some(msg_id), in_reply_to, payload },
        };
        out.push(message);
        self.id = self.id + 1;
        proof {
            assert(out@.take(old(out)@.len() as int) =~= old(out)@);
        }
        msg_id
    }

    /// Answers the message numbered `msg_id` from `requester` with `payload`.
    fn reply(&mut self, requester: String, msg_id: Option<usize>, payload: GlommerPayload) -> (out:
        Vec<GlommerMessage>)
        requires
            old(self)@.next_id < usize::MAX,
        ensures
            final(self)@ == (ActorView { next_id: old(self)@.next_id + 1, ..old(self)@ }),
            final(self).wf() == old(self).wf(),
            is_reply(out@, old(self)@, requester@, msg_id, payload),
    {
        let mut out: Vec<GlommerMessage> = Vec::new();
        self.send(requester, msg_id, payload, &mut out);
        out
    }
}

/// `out` is the one answer that node `node` sends to `requester` for its
/// message numbered `msg_id`, under the node's next number.
pub open spec fn is_answer(
    out: Seq<GlommerMessage>,
    node: ActorView,
    requester: Seq<char>,
    msg_id: Option<usize>,
) -> bool {
    &&& out.len() == 1
    &&& node.next_id < usize::MAX
    &&& addressed(out[0], node.node_id, requester, node.next_id as usize, msg_id)
}

/// `out` is the one answer that node `node` sends to `requester` for its
/// message numbered `msg_id`, carrying `payload`.
pub open spec fn is_reply(
    out: Seq<GlommerMessage>,
    node: ActorView,
    requester: Seq<char>,
    msg_id: Option<usize>,
    payload: GlommerPayload,
) -> bool {
    &&& is_answer(out, node, requester, msg_id)
    &&& out[0].body.payload == payload
}

} // verus!
