use vstd::prelude::*;

use crate::message::{GlommerMessage, GlommerPayload};
use crate::{is_reply, ActorView, MyActor};

verus! {

/// A request to send the text back.
#[derive(Debug, Clone, PartialEq, Eq)]
pub struct Echo {
    pub echo: String,
}

/// The answer to an [`Echo`]: the same text.
#[derive(Debug, Clone, PartialEq, Eq)]
pub struct EchoOk {
    pub echo: String,
}

/// How an echo request numbered `msg_id` from `requester` changes a node and
/// what it answers: the same text back, under the next number.
pub open spec fn echo_step(
    pre: ActorView,
    requester: Seq<char>,
    msg_id: Option<usize>,
    echo: Echo,
    post: ActorView,
    out: Seq<GlommerMessage>,
) -> bool {
    &&& post == (ActorView { next_id: pre.next_id + 1, ..pre })
    &&& is_reply(out, pre, requester, msg_id, GlommerPayload::EchoOk(EchoOk { echo: echo.echo }))
}

impl MyActor {
    /// Answers an echo request with the same text.
    pub fn handle_echo(&mut self, requester: String, msg_id: Option<usize>, echo: Echo) -> (out: Vec<
        GlommerMessage,
    >)
        requires
            old(self)@.next_id < usize::MAX,
        ensures
            final(self).wf() == old(self).wf(),
            echo_step(old(self)@, requester@, msg_id, echo, final(self)@, out@),
    {
        let payload = GlommerPayload::EchoOk(EchoOk { echo: echo.echo });
        self.reply(requester, msg_id, payload)
    }

    /// An answer to an echo needs nothing done.
    pub fn handle_echo_ok(&mut self, _echo_ok: EchoOk)
        ensures
            *final(self) == *old(self),
    {
    }
}

} // verus!
