use vstd::prelude::*;

use crate::message::gossip::names;
use crate::message::{GlommerMessage, GlommerPayload};
use crate::{is_reply, ActorView, MyActor};

verus! {

/// The first message a node receives: its own name and those of all nodes.
#[derive(Debug, Clone, PartialEq, Eq)]
pub struct Init {
    pub node_id: String,
    pub node_ids: Vec<String>,
}

/// The answer to an [`Init`].
#[derive(Debug, Clone, PartialEq, Eq)]
pub struct InitOk;

/// How an init request numbered `msg_id` from `requester` changes a node and
/// what it answers: the node takes the name and the list of nodes it is
/// given, and acknowledges under its new name.
pub open spec fn init_step(
    pre: ActorView,
    requester: Seq<char>,
    msg_id: Option<usize>,
    init: Init,
    post: ActorView,
    out: Seq<GlommerMessage>,
) -> bool {
    let named = ActorView { node_id: init.node_id@, node_ids: names(init.node_ids@), ..pre };
    &&& post == (ActorView { next_id: pre.next_id + 1, ..named })
    &&& is_reply(out, named, requester, msg_id, GlommerPayload::InitOk(InitOk))
}

impl MyActor {
    /// Takes the node's name and the names of all nodes, and acknowledges.
    pub fn handle_init(&mut self, requester: String, msg_id: Option<usize>, init: Init) -> (out: Vec<
        GlommerMessage,
    >)
        requires
            old(self)@.next_id < usize::MAX,
        ensures
            final(self).wf() == old(self).wf(),
            init_step(old(self)@, requester@, msg_id, init, final(self)@, out@),
    {
        self.node_id = init.node_id;
        self.node_ids = init.node_ids;
        self.reply(requester, msg_id, GlommerPayload::InitOk(InitOk))
    }

    /// An answer to an init needs nothing done.
    pub fn handle_init_ok(&mut self, _init_ok: InitOk)
        ensures
            *final(self) == *old(self),
    {
    }
}

} // verus!
