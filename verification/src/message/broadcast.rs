use vstd::prelude::*;

use crate::message::{GlommerMessage, GlommerPayload};
use crate::{is_reply, ActorView, MyActor};

verus! {

/// A value for the node to store and spread.
#[derive(Debug, Clone, PartialEq, Eq)]
pub struct Broadcast {
    pub message: usize,
}

/// The answer to a [`Broadcast`].
#[derive(Debug, Clone, PartialEq, Eq)]
pub struct BroadcastOk;

/// How a broadcast request numbered `msg_id` from `requester` changes a node
/// and what it answers: the node holds the value from then on, and
/// acknowledges.
pub open spec fn broadcast_step(
    pre: ActorView,
    requester: Seq<char>,
    msg_id: Option<usize>,
    broadcast: Broadcast,
    post: ActorView,
    out: Seq<GlommerMessage>,
) -> bool {
    &&& post == (ActorView {
        next_id: pre.next_id + 1,
        messages: pre.messages.insert(broadcast.message),
        ..pre
    })
    &&& is_reply(out, pre, requester, msg_id, GlommerPayload::BroadcastOk(BroadcastOk))
}

impl MyActor {
    /// Stores the value and acknowledges.
    pub fn handle_broadcast(
        &mut self,
        requester: String,
        msg_id: Option<usize>,
        broadcast: Broadcast,
    ) -> (out: Vec<GlommerMessage>)
        requires
            old(self)@.next_id < usize::MAX,
        ensures
            final(self).wf() == old(self).wf(),
            broadcast_step(old(self)@, requester@, msg_id, broadcast, final(self)@, out@),
    {
        self.messages.insert(broadcast.message);
        self.reply(requester, msg_id, GlommerPayload::BroadcastOk(BroadcastOk))
    }

    /// An answer to a broadcast needs nothing done.
    pub fn handle_broadcast_ok(&mut self, _broadcast_ok: BroadcastOk)
        ensures
            *final(self) == *old(self),
    {
    }
}

} // verus!
