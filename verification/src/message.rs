use vstd::prelude::*;

pub mod broadcast;
pub mod generate;
pub mod gossip;
pub mod read;
pub mod topology;

use crate::echo::{Echo, EchoOk};
use crate::init::{Init, InitOk};
use broadcast::{Broadcast, BroadcastOk};
use generate::{Generate, GenerateOk};
use gossip::{Gossip, GossipOk};
use read::{Read, ReadOk};
use topology::{Topology, TopologyOk};

verus! {

/// A message between nodes, or between a client and a node.
#[derive(Debug, PartialEq, Eq)]
pub struct GlommerMessage {
    pub src: String,
    pub dest: String,
    pub body: Body,
}

/// What a message carries: its own number, the number of the message it
/// answers, and the payload.
#[derive(Debug, PartialEq, Eq)]
pub struct Body {
    pub msg_id: Option<usize>,
    pub in_reply_to: Option<usize>,
    pub payload: GlommerPayload,
}

/// Every kind of payload a node understands.
#[derive(Debug, PartialEq, Eq)]
pub enum GlommerPayload {
    Init(Init),
    InitOk(InitOk),
    Echo(Echo),
    EchoOk(EchoOk),
    Broadcast(Broadcast),
    BroadcastOk(BroadcastOk),
    Read(Read),
    ReadOk(ReadOk),
    Topology(Topology),
    TopologyOk(TopologyOk),
    Generate(Generate),
    GenerateOk(GenerateOk),
    Gossip(Gossip),
    GossipOk(GossipOk),
}

/// `m` goes from `src` to `dest` under the number `msg_id`, answering
/// `in_reply_to`.
pub open spec fn addressed(
    m: GlommerMessage,
    src: Seq<char>,
    dest: Seq<char>,
    msg_id: usize,
    in_reply_to: Option<usize>,
) -> bool {
    &&& m.src@ == src
    &&& m.dest@ == dest
    &&& m.body.msg_id == Some(msg_id)
    &&& m.body.in_reply_to == in_reply_to
}

} // verus!
