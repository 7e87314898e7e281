use vstd::prelude::*;

use crate::message::{GlommerMessage, GlommerPayload};
use crate::sets::set_to_vec;
use crate::{is_answer, ActorView, MyActor};

verus! {

/// A request for every value the node holds.
#[derive(Debug, Clone, PartialEq, Eq)]
pub struct Read;

/// The answer to a [`Read`]: the values the node holds, each once.
#[derive(Debug, Clone, PartialEq, Eq)]
pub struct ReadOk {
    pub messages: Vec<usize>,
}

/// How a read request numbered `msg_id` from `requester` changes a node and
/// what it answers: every value the node holds, each once, in no promised
/// order.
pub open spec fn read_step(
    pre: ActorView,
    requester: Seq<char>,
    msg_id: Option<usize>,
    post: ActorView,
    out: Seq<GlommerMessage>,
) -> bool {
    &&& post == (ActorView { next_id: pre.next_id + 1, ..pre })
    &&& is_answer(out, pre, requester, msg_id)
    &&& out[0].body.payload matches GlommerPayload::ReadOk(r) && r.messages@.to_set()
        == pre.messages && r.messages@.no_duplicates()
}

impl MyActor {
    /// Answers with every value the node holds.
    pub fn handle_read(&mut self, requester: String, msg_id: Option<usize>, _read: Read) -> (out: Vec<
        GlommerMessage,
    >)
        requires
            old(self)@.next_id < usize::MAX,
        ensures
            final(self).wf() == old(self).wf(),
            read_step(old(self)@, requester@, msg_id, final(self)@, out@),
    {
        let messages = set_to_vec(&self.messages);
        self.reply(requester, msg_id, GlommerPayload::ReadOk(ReadOk { messages }))
    }

    /// An answer to a read needs nothing done.
    pub fn handle_read_ok(&mut self, _read_ok: ReadOk)
        ensures
            *final(self) == *old(self),
    {
    }
}

} // verus!
