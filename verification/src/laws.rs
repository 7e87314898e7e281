use vstd::prelude::*;

use crate::message::generate::{generated_id, lemma_generated_id_injective};
use crate::message::gossip::{
    gossip_ok_step, gossip_plan, known_set, learn, lemma_gossip_plan_items, lemma_record_plan,
    tick_step,
};
use crate::echo::{echo_step, Echo};
use crate::init::{init_step, Init};
use crate::message::broadcast::{broadcast_step, Broadcast};
use crate::message::generate::{decimal, digit_char, generate_step};
use crate::message::read::read_step;
use crate::message::gossip::{gossip_step, Gossip};
use crate::message::topology::{distinct_nodes, topology_step, Topology};
use crate::message::GlommerPayload;
use crate::{
    accepts, consistent, fresh_view, Event, holds_known_values, is_request, message_step, ActorError, ActorView, GlommerMessage,
};

verus! {

/// A node that has just started is consistent.
pub proof fn lemma_fresh_node_consistent()
    ensures
        consistent(fresh_view()),
{
}

/// Learning that a peer holds values the node holds keeps every known set
/// within the node's values.
proof fn lemma_learn_within(
    known: Map<Seq<char>, Set<usize>>,
    peer: Seq<char>,
    more: Set<usize>,
    messages: Set<usize>,
)
    requires
        forall|p: Seq<char>| #[trigger] known.contains_key(p) ==> known[p].subset_of(messages),
        more.subset_of(messages),
    ensures
        forall|p: Seq<char>| #[trigger]
            learn(known, peer, more).contains_key(p) ==> learn(known, peer, more)[p].subset_of(
                messages,
            ),
{
    assert forall|p: Seq<char>| #[trigger] learn(known, peer, more).contains_key(p) implies learn(
        known,
        peer,
        more,
    )[p].subset_of(messages) by {
        if p != peer {
            assert(known.contains_key(p));
        }
    }
}

/// Every message a node takes keeps the values it knows of its peers and
/// awaits acknowledgements for among the values it holds, and drops none of
/// them.
pub proof fn lemma_message_keeps_held_values(
    pre: ActorView,
    msg: GlommerMessage,
    post: ActorView,
    result: Result<Vec<GlommerMessage>, ActorError>,
)
    requires
        holds_known_values(pre),
        message_step(pre, msg, post, result),
    ensures
        holds_known_values(post),
        pre.messages.subset_of(post.messages),
{
    match msg.body.payload {
        GlommerPayload::Gossip(g) => {
            let grown = pre.messages.union(g.seen@);
            assert forall|p: Seq<char>| #[trigger] pre.gossip.known.contains_key(p) implies pre.gossip.known[p].subset_of(grown) by {
                assert(pre.gossip.known[p].subset_of(pre.messages));
            }
            lemma_learn_within(pre.gossip.known, msg.src@, g.seen@, grown);
            assert forall|id: usize| #[trigger] post.gossip.sent.contains_key(id) implies post.gossip.sent[id].subset_of(post.messages) by {
                assert(pre.gossip.sent.contains_key(id));
            }
        },
        GlommerPayload::GossipOk(_) => {
            if let Some(r) = msg.body.in_reply_to {
                if pre.gossip.sent.contains_key(r) {
                    lemma_learn_within(pre.gossip.known, msg.src@, pre.gossip.sent[r], pre.messages);
                    assert forall|id: usize| #[trigger] post.gossip.sent.contains_key(id) implies post.gossip.sent[id].subset_of(post.messages) by {
                        assert(pre.gossip.sent.contains_key(id));
                    }
                }
            }
        },
        GlommerPayload::Broadcast(b) => {
            assert forall|p: Seq<char>| #[trigger] post.gossip.known.contains_key(p) implies post.gossip.known[p].subset_of(post.messages) by {
                assert(pre.gossip.known[p].subset_of(pre.messages));
            }
            assert forall|id: usize| #[trigger] post.gossip.sent.contains_key(id) implies post.gossip.sent[id].subset_of(post.messages) by {
                assert(pre.gossip.sent.contains_key(id));
            }
        },
        _ => {},
    }
}

/// Every message a node takes keeps it consistent.
pub proof fn lemma_message_keeps_consistency(
    pre: ActorView,
    msg: GlommerMessage,
    post: ActorView,
    result: Result<Vec<GlommerMessage>, ActorError>,
)
    requires
        consistent(pre),
        message_step(pre, msg, post, result),
    ensures
        consistent(post),
{
    lemma_message_keeps_held_values(pre, msg, post, result);
    assert forall|id: usize| #[trigger] post.gossip.sent.contains_key(id) implies id < post.next_id by {
        assert(pre.gossip.sent.contains_key(id));
    }
}

/// Gossiping with the neighbours keeps the values a node knows of its peers
/// and awaits acknowledgements for among the values it holds.
pub proof fn lemma_gossip_round_keeps_held_values(
    pre: ActorView,
    post: ActorView,
    out: Seq<GlommerMessage>,
)
    requires
        holds_known_values(pre),
        tick_step(pre, post, out),
    ensures
        holds_known_values(post),
        pre.messages == post.messages,
{
    let plan = gossip_plan(pre.messages, pre.gossip.known, pre.gossip.neighbours);
    lemma_gossip_plan_items(pre.messages, pre.gossip.known, pre.gossip.neighbours);
    lemma_record_plan(pre.gossip.sent, pre.next_id, plan);
    assert forall|id: usize| #[trigger] post.gossip.sent.contains_key(id) implies post.gossip.sent[id].subset_of(post.messages) by {
        if pre.next_id <= id < pre.next_id + plan.len() {
            let item = plan[id - pre.next_id];
            assert(item.1 == pre.messages.difference(known_set(pre.gossip.known, item.0)));
        } else {
            assert(pre.gossip.sent.contains_key(id));
        }
    }
}

/// Gossiping with the neighbours keeps a node consistent.
pub proof fn lemma_gossip_round_keeps_consistency(
    pre: ActorView,
    post: ActorView,
    out: Seq<GlommerMessage>,
)
    requires
        consistent(pre),
        tick_step(pre, post, out),
    ensures
        consistent(post),
{
    lemma_gossip_round_keeps_held_values(pre, post, out);
    let plan = gossip_plan(pre.messages, pre.gossip.known, pre.gossip.neighbours);
    lemma_record_plan(pre.gossip.sent, pre.next_id, plan);
    assert forall|id: usize| #[trigger] post.gossip.sent.contains_key(id) implies id < post.next_id by {
        if !(pre.next_id <= id < pre.next_id + plan.len()) {
            assert(pre.gossip.sent.contains_key(id));
        }
    }
}

/// A node never drops a value it holds, and never reuses a message number.
pub proof fn lemma_message_keeps_values(
    pre: ActorView,
    msg: GlommerMessage,
    post: ActorView,
    result: Result<Vec<GlommerMessage>, ActorError>,
)
    requires
        message_step(pre, msg, post, result),
    ensures
        pre.messages.subset_of(post.messages),
        pre.next_id <= post.next_id,
{
}

/// Gossiping with the neighbours drops no value and reuses no message number.
pub proof fn lemma_gossip_round_keeps_values(pre: ActorView, post: ActorView, out: Seq<GlommerMessage>)
    requires
        tick_step(pre, post, out),
    ensures
        pre.messages == post.messages,
        pre.next_id <= post.next_id,
{
}

/// A node answers every request it takes with exactly one message: back to
/// the sender, answering the request's number, under the node's next number.
pub proof fn lemma_requests_are_answered(
    pre: ActorView,
    msg: GlommerMessage,
    post: ActorView,
    result: Result<Vec<GlommerMessage>, ActorError>,
)
    requires
        message_step(pre, msg, post, result),
        is_request(msg.body.payload),
    ensures
        result matches Ok(out) && out@.len() == 1 && out@[0].dest@ == msg.src@
            && out@[0].body.in_reply_to == msg.body.msg_id && out@[0].body.msg_id == Some(
            pre.next_id as usize,
        ) && out@[0].src@ == post.node_id && post.next_id == pre.next_id + 1,
{
}

/// Once a neighbour acknowledges the gossip a node sent it, the node knows
/// that the neighbour holds every value the node held when it gossiped.
pub proof fn lemma_acknowledged_gossip_informs_peer(
    pre: ActorView,
    mid: ActorView,
    out: Seq<GlommerMessage>,
    k: int,
    post: ActorView,
    result: Result<(), ActorError>,
)
    requires
        tick_step(pre, mid, out),
        0 <= k < out.len(),
        gossip_ok_step(mid, out[k].dest@, out[k].body.msg_id, post, result),
    ensures
        result is Ok,
        pre.messages.subset_of(known_set(post.gossip.known, out[k].dest@)),
{
    let plan = gossip_plan(pre.messages, pre.gossip.known, pre.gossip.neighbours);
    lemma_gossip_plan_items(pre.messages, pre.gossip.known, pre.gossip.neighbours);
    lemma_record_plan(pre.gossip.sent, pre.next_id, plan);
    let key = (pre.next_id + k) as usize;
    assert(out[k].body.msg_id == Some(key));
    assert(mid.gossip.sent.contains_key(key));
    assert(mid.gossip.sent[key] == plan[k].1);
    assert(out[k].dest@ == plan[k].0);
}

/// What a node is handed: a message from the network, the signal to gossip
/// with its neighbours, or a signal of its own runtime.
pub enum NodeInput {
    Deliver(GlommerMessage),
    GossipRound,
    Signal(Event),
}

/// One step of a node from `pre` to `post` on `input`, with what it sent or
/// why it refused.
pub open spec fn step(
    pre: ActorView,
    input: NodeInput,
    post: ActorView,
    output: Result<Vec<GlommerMessage>, ActorError>,
) -> bool {
    match input {
        NodeInput::Deliver(m) => accepts(pre, m) && message_step(pre, m, post, output),
        NodeInput::GossipRound => output matches Ok(out) && tick_step(pre, post, out@),
        NodeInput::Signal(_) => output matches Ok(out) && out@.len() == 0 && post == pre,
    }
}

/// `states` are the states a node passes through when it is handed `inputs`
/// in turn, and `outputs` what it answers to each.
pub open spec fn is_run(
    states: Seq<ActorView>,
    inputs: Seq<NodeInput>,
    outputs: Seq<Result<Vec<GlommerMessage>, ActorError>>,
) -> bool {
    &&& states.len() == inputs.len() + 1
    &&& outputs.len() == inputs.len()
    &&& forall|i: int|
        #![trigger inputs[i]]
        0 <= i < inputs.len() ==> step(states[i], inputs[i], states[i + 1], outputs[i])
}

/// The value a broadcast request carries, if `input` is one.
pub open spec fn broadcast_of(input: NodeInput) -> Option<usize> {
    match input {
        NodeInput::Deliver(m) => match m.body.payload {
            GlommerPayload::Broadcast(b) => Some(b.message),
            _ => None,
        },
        _ => None,
    }
}

/// `input` is a read request.
pub open spec fn is_read(input: NodeInput) -> bool {
    input matches NodeInput::Deliver(m) && m.body.payload is Read
}

/// `input` is a generate request.
pub open spec fn is_generate(input: NodeInput) -> bool {
    input matches NodeInput::Deliver(m) && m.body.payload is Generate
}

/// The messages a node sends in one step are numbered from its counter
/// before the step up to its counter after it, each number once.
pub open spec fn numbered_within(out: Seq<GlommerMessage>, low: nat, high: nat) -> bool {
    &&& forall|k: int|
        0 <= k < out.len() ==> ((#[trigger] out[k]).body.msg_id matches Some(id) && low <= id
            < high)
    &&& forall|k: int, l: int|
        0 <= k < out.len() && 0 <= l < out.len() && k != l ==> #[trigger] out[k].body.msg_id
            != #[trigger] out[l].body.msg_id
}

/// What every step keeps.
proof fn lemma_step_facts(
    pre: ActorView,
    input: NodeInput,
    post: ActorView,
    output: Result<Vec<GlommerMessage>, ActorError>,
)
    requires
        step(pre, input, post, output),
    ensures
        pre.messages.subset_of(post.messages),
        pre.next_id <= post.next_id,
        output matches Ok(out) ==> numbered_within(out@, pre.next_id, post.next_id),
        holds_known_values(pre) ==> holds_known_values(post),
        consistent(pre) ==> consistent(post),
{
    match input {
        NodeInput::Deliver(m) => {
            lemma_message_keeps_values(pre, m, post, output);
            if holds_known_values(pre) {
                lemma_message_keeps_held_values(pre, m, post, output);
            }
            if consistent(pre) {
                lemma_message_keeps_consistency(pre, m, post, output);
            }
        },
        NodeInput::GossipRound => {
            lemma_gossip_round_keeps_values(pre, post, output->Ok_0@);
            if holds_known_values(pre) {
                lemma_gossip_round_keeps_held_values(pre, post, output->Ok_0@);
            }
            if consistent(pre) {
                lemma_gossip_round_keeps_consistency(pre, post, output->Ok_0@);
            }
        },
        NodeInput::Signal(_) => {},
    }
}

/// Along a run, a node never drops a value and never goes back in numbering.
pub proof fn lemma_run_is_monotone(
    states: Seq<ActorView>,
    inputs: Seq<NodeInput>,
    outputs: Seq<Result<Vec<GlommerMessage>, ActorError>>,
    i: int,
    j: int,
)
    requires
        is_run(states, inputs, outputs),
        0 <= i <= j <= inputs.len(),
    ensures
        states[i].messages.subset_of(states[j].messages),
        states[i].next_id <= states[j].next_id,
    decreases j - i,
{
    if i < j {
        lemma_run_is_monotone(states, inputs, outputs, i, j - 1);
        assert(step(states[j - 1], inputs[j - 1], states[j], outputs[j - 1]));
        lemma_step_facts(states[j - 1], inputs[j - 1], states[j], outputs[j - 1]);
    }
}

/// Along every run, from whatever state it starts in, a node that holds every
/// value it knows of its peers and awaits acknowledgements for keeps doing
/// so, and never drops a value.
pub proof fn lemma_run_keeps_held_values(
    states: Seq<ActorView>,
    inputs: Seq<NodeInput>,
    outputs: Seq<Result<Vec<GlommerMessage>, ActorError>>,
    k: int,
)
    requires
        is_run(states, inputs, outputs),
        holds_known_values(states[0]),
        0 <= k <= inputs.len(),
    ensures
        holds_known_values(states[k]),
        states[0].messages.subset_of(states[k].messages),
    decreases k,
{
    if k > 0 {
        lemma_run_keeps_held_values(states, inputs, outputs, k - 1);
        assert(step(states[k - 1], inputs[k - 1], states[k], outputs[k - 1]));
        lemma_step_facts(states[k - 1], inputs[k - 1], states[k], outputs[k - 1]);
    }
}

/// A node that starts consistent stays consistent along every run.
pub proof fn lemma_run_keeps_consistency(
    states: Seq<ActorView>,
    inputs: Seq<NodeInput>,
    outputs: Seq<Result<Vec<GlommerMessage>, ActorError>>,
    k: int,
)
    requires
        is_run(states, inputs, outputs),
        consistent(states[0]),
        0 <= k <= inputs.len(),
    ensures
        consistent(states[k]),
    decreases k,
{
    if k > 0 {
        lemma_run_keeps_consistency(states, inputs, outputs, k - 1);
        assert(step(states[k - 1], inputs[k - 1], states[k], outputs[k - 1]));
        lemma_step_facts(states[k - 1], inputs[k - 1], states[k], outputs[k - 1]);
    }
}

/// Along a run, every read answers with every value broadcast to the node
/// before it.
pub proof fn lemma_run_reads_return_broadcasts(
    states: Seq<ActorView>,
    inputs: Seq<NodeInput>,
    outputs: Seq<Result<Vec<GlommerMessage>, ActorError>>,
    i: int,
    j: int,
)
    requires
        is_run(states, inputs, outputs),
        0 <= i < j < inputs.len(),
        broadcast_of(inputs[i]) is Some,
        is_read(inputs[j]),
    ensures
        outputs[j] matches Ok(out) && out@.len() == 1 && (out@[0].body.payload matches GlommerPayload::ReadOk(r)
            && r.messages@.contains(broadcast_of(inputs[i])->Some_0)),
{
    let v = broadcast_of(inputs[i])->Some_0;
    assert(step(states[i], inputs[i], states[i + 1], outputs[i]));
    assert(states[i + 1].messages.contains(v));
    lemma_run_is_monotone(states, inputs, outputs, i + 1, j);
    assert(step(states[j], inputs[j], states[j + 1], outputs[j]));
    let out = outputs[j]->Ok_0@;
    if let GlommerPayload::ReadOk(r) = out[0].body.payload {
        assert(r.messages@.to_set().contains(v));
    }
}

/// Along a run, no two generate requests get the same identifier.
pub proof fn lemma_run_generated_ids_unique(
    states: Seq<ActorView>,
    inputs: Seq<NodeInput>,
    outputs: Seq<Result<Vec<GlommerMessage>, ActorError>>,
    i: int,
    j: int,
)
    requires
        is_run(states, inputs, outputs),
        0 <= i < j < inputs.len(),
        is_generate(inputs[i]),
        is_generate(inputs[j]),
    ensures
        outputs[i] matches Ok(a) && a@[0].body.payload matches GlommerPayload::GenerateOk(ga)
            && outputs[j] matches Ok(b) && b@[0].body.payload matches GlommerPayload::GenerateOk(gb)
            && ga.id@ != gb.id@,
{
    assert(step(states[i], inputs[i], states[i + 1], outputs[i]));
    assert(step(states[j], inputs[j], states[j + 1], outputs[j]));
    lemma_run_is_monotone(states, inputs, outputs, i + 1, j);
    if generated_id(states[i].node_id, states[i].next_id) == generated_id(
        states[j].node_id,
        states[j].next_id,
    ) {
        lemma_generated_id_injective(
            states[i].node_id,
            states[i].next_id,
            states[j].node_id,
            states[j].next_id,
        );
    }
}

/// Along a run, no two messages a node sends carry the same number.
pub proof fn lemma_run_message_numbers_unique(
    states: Seq<ActorView>,
    inputs: Seq<NodeInput>,
    outputs: Seq<Result<Vec<GlommerMessage>, ActorError>>,
    i: int,
    k: int,
    j: int,
    l: int,
)
    requires
        is_run(states, inputs, outputs),
        0 <= i <= j < inputs.len(),
        outputs[i] is Ok,
        outputs[j] is Ok,
        0 <= k < outputs[i]->Ok_0@.len(),
        0 <= l < outputs[j]->Ok_0@.len(),
        i != j || k != l,
    ensures
        outputs[i]->Ok_0@[k].body.msg_id != outputs[j]->Ok_0@[l].body.msg_id,
{
    assert(step(states[i], inputs[i], states[i + 1], outputs[i]));
    assert(step(states[j], inputs[j], states[j + 1], outputs[j]));
    lemma_step_facts(states[i], inputs[i], states[i + 1], outputs[i]);
    lemma_step_facts(states[j], inputs[j], states[j + 1], outputs[j]);
    if i < j {
        lemma_run_is_monotone(states, inputs, outputs, i + 1, j);
        let a = outputs[i]->Ok_0@;
        let b = outputs[j]->Ok_0@;
        assert(a[k].body.msg_id matches Some(id) && id < states[i + 1].next_id);
        assert(b[l].body.msg_id matches Some(id) && states[j].next_id <= id);
    }
}

/// The values node `v` holds that `peer` is not known to hold: all of them
/// where nothing is known of the peer.
pub open spec fn lacks(v: ActorView, peer: Seq<char>) -> Set<usize> {
    if v.gossip.known.contains_key(peer) {
        v.messages.difference(v.gossip.known[peer])
    } else {
        v.messages
    }
}

/// The positions in the neighbour list of the neighbours that lack a value
/// the node holds.
pub open spec fn lacking_positions(v: ActorView) -> Set<int> {
    Set::new(
        |j: int| 0 <= j < v.gossip.neighbours.len() && !lacks(v, v.gossip.neighbours[j]).is_empty(),
    )
}

/// The positions in `neighbours` that the gossip owed goes to, in order.
proof fn plan_positions(
    messages: Set<usize>,
    known: Map<Seq<char>, Set<usize>>,
    neighbours: Seq<Seq<char>>,
) -> (idx: Seq<int>)
    ensures
        idx.len() == gossip_plan(messages, known, neighbours).len(),
        forall|a: int|
            0 <= a < idx.len() ==> {
                &&& 0 <= #[trigger] idx[a] < neighbours.len()
                &&& gossip_plan(messages, known, neighbours)[a] == (
                    neighbours[idx[a]],
                    messages.difference(known_set(known, neighbours[idx[a]])),
                )
                &&& !messages.difference(known_set(known, neighbours[idx[a]])).is_empty()
            },
        forall|a: int, b: int| 0 <= a < b < idx.len() ==> #[trigger] idx[a] < #[trigger] idx[b],
        forall|j: int|
            0 <= j < neighbours.len() && !messages.difference(
                known_set(known, #[trigger] neighbours[j]),
            ).is_empty() ==> exists|a: int| 0 <= a < idx.len() && idx[a] == j,
    decreases neighbours.len(),
{
    if neighbours.len() == 0 {
        Seq::empty()
    } else {
        let rest = neighbours.drop_last();
        let prev = plan_positions(messages, known, rest);
        let last = neighbours.len() - 1;
        let unknown = messages.difference(known_set(known, neighbours.last()));
        let plan = gossip_plan(messages, known, neighbours);
        let prev_plan = gossip_plan(messages, known, rest);
        assert forall|j: int| 0 <= j < rest.len() implies rest[j] == neighbours[j] by {}
        if unknown.is_empty() {
            assert(plan == prev_plan);
            assert forall|j: int|
                0 <= j < neighbours.len() && !messages.difference(
                    known_set(known, #[trigger] neighbours[j]),
                ).is_empty() implies exists|a: int| 0 <= a < prev.len() && prev[a] == j by {
                if j < last {
                    assert(rest[j] == neighbours[j]);
                } else {
                    assert(neighbours[j] == neighbours.last());
                }
            }
            prev
        } else {
            let idx = prev.push(last);
            assert(plan == prev_plan.push((neighbours.last(), unknown)));
            assert forall|a: int| 0 <= a < idx.len() implies {
                &&& 0 <= #[trigger] idx[a] < neighbours.len()
                &&& plan[a] == (
                    neighbours[idx[a]],
                    messages.difference(known_set(known, neighbours[idx[a]])),
                )
                &&& !messages.difference(known_set(known, neighbours[idx[a]])).is_empty()
            } by {
                if a < prev.len() {
                    assert(idx[a] == prev[a]);
                    assert(plan[a] == prev_plan[a]);
                    assert(rest[prev[a]] == neighbours[prev[a]]);
                } else {
                    assert(neighbours[last] == neighbours.last());
                }
            }
            assert forall|a: int, b: int| 0 <= a < b < idx.len() implies #[trigger] idx[a]
                < #[trigger] idx[b] by {
                if b == prev.len() {
                    assert(idx[a] == prev[a]);
                }
            }
            assert forall|j: int|
                0 <= j < neighbours.len() && !messages.difference(
                    known_set(known, #[trigger] neighbours[j]),
                ).is_empty() implies exists|a: int| 0 <= a < idx.len() && idx[a] == j by {
                if j < last {
                    assert(rest[j] == neighbours[j]);
                    let a = choose|a: int| 0 <= a < prev.len() && prev[a] == j;
                    assert(idx[a] == j);
                } else {
                    assert(idx[prev.len() as int] == j);
                }
            }
            idx
        }
    }
}

/// A gossip round sends, in the order of the neighbour list, exactly one
/// message to each neighbour that lacks some value the node holds, however
/// many values that is, carrying exactly the values it lacks, and nothing to
/// a neighbour that lacks none. The node takes one message number for each.
pub proof fn lemma_gossip_round_reaches_each_lacking_neighbour(
    pre: ActorView,
    post: ActorView,
    out: Seq<GlommerMessage>,
)
    requires
        tick_step(pre, post, out),
    ensures
        exists|idx: Seq<int>|
            {
                &&& idx.len() == out.len()
                &&& forall|a: int, b: int|
                    0 <= a < b < idx.len() ==> #[trigger] idx[a] < #[trigger] idx[b]
                &&& forall|a: int|
                    0 <= a < out.len() ==> {
                        &&& 0 <= #[trigger] idx[a] < pre.gossip.neighbours.len()
                        &&& out[a].dest@ == pre.gossip.neighbours[idx[a]]
                        &&& !lacks(pre, pre.gossip.neighbours[idx[a]]).is_empty()
                        &&& out[a].body.payload matches GlommerPayload::Gossip(g) && g.seen@
                            == lacks(pre, pre.gossip.neighbours[idx[a]])
                    }
            },
        forall|j: int|
            0 <= j < pre.gossip.neighbours.len() && !lacks(
                pre,
                #[trigger] pre.gossip.neighbours[j],
            ).is_empty() ==> exists|a: int|
                0 <= a < out.len() && out[a].dest@ == pre.gossip.neighbours[j] && (
                out[a].body.payload matches GlommerPayload::Gossip(g) && g.seen@ == lacks(
                    pre,
                    pre.gossip.neighbours[j],
                )),
        out.len() == lacking_positions(pre).len(),
        post.next_id == pre.next_id + lacking_positions(pre).len(),
{
    let nbrs = pre.gossip.neighbours;
    let known = pre.gossip.known;
    let plan = gossip_plan(pre.messages, known, nbrs);
    let idx = plan_positions(pre.messages, known, nbrs);
    assert forall|n: Seq<char>| #[trigger] lacks(pre, n) == pre.messages.difference(known_set(known, n)) by {
        if !known.contains_key(n) {
            assert(pre.messages.difference(Set::empty()) =~= pre.messages);
        }
    }
    assert forall|a: int| 0 <= a < out.len() implies {
        &&& 0 <= #[trigger] idx[a] < nbrs.len()
        &&& out[a].dest@ == nbrs[idx[a]]
        &&& !lacks(pre, nbrs[idx[a]]).is_empty()
        &&& out[a].body.payload matches GlommerPayload::Gossip(g) && g.seen@ == lacks(pre, nbrs[idx[a]])
    } by {
        assert(plan[a].0 == nbrs[idx[a]]);
    }
    assert forall|j: int|
        0 <= j < nbrs.len() && !lacks(pre, #[trigger] nbrs[j]).is_empty() implies exists|a: int|
        0 <= a < out.len() && out[a].dest@ == nbrs[j] && (out[a].body.payload matches GlommerPayload::Gossip(g)
            && g.seen@ == lacks(pre, nbrs[j])) by {
        let a = choose|a: int| 0 <= a < idx.len() && idx[a] == j;
        assert(plan[a].0 == nbrs[idx[a]]);
    }
    assert(idx.no_duplicates()) by {
        assert forall|a: int, b: int| 0 <= a < idx.len() && 0 <= b < idx.len() && a != b implies idx[a]
            != idx[b] by {
            if a < b {
                assert(idx[a] < idx[b]);
            } else {
                assert(idx[b] < idx[a]);
            }
        }
    }
    assert(idx.to_set() =~= lacking_positions(pre)) by {
        assert forall|j: int| idx.to_set().contains(j) implies lacking_positions(pre).contains(j) by {
            let a = choose|a: int| 0 <= a < idx.len() && idx[a] == j;
        }
        assert forall|j: int| lacking_positions(pre).contains(j) implies idx.to_set().contains(j) by {
            assert(!lacks(pre, nbrs[j]).is_empty());
            let a = choose|a: int| 0 <= a < idx.len() && idx[a] == j;
            assert(idx.contains(j));
        }
    }
    idx.unique_seq_to_set();
}

/// Taking in a neighbour's gossip changes what is known of that neighbour
/// alone: it is known to hold what it was known to hold and the values it
/// gossiped; every other peer is known to hold exactly what it was before.
/// The node holds the gossiped values from then on.
pub proof fn lemma_gossip_changes_only_sender(
    pre: ActorView,
    sender: Seq<char>,
    msg_id: Option<usize>,
    gossip: Gossip,
    post: ActorView,
    out: Seq<GlommerMessage>,
)
    requires
        gossip_step(pre, sender, msg_id, gossip, post, out),
    ensures
        post.gossip.known.contains_key(sender),
        pre.gossip.known.contains_key(sender) ==> post.gossip.known[sender] == pre.gossip.known[sender].union(gossip.seen@),
        !pre.gossip.known.contains_key(sender) ==> post.gossip.known[sender] == gossip.seen@,
        forall|q: Seq<char>|
            q != sender ==> (#[trigger] post.gossip.known.contains_key(q) == pre.gossip.known.contains_key(q)),
        forall|q: Seq<char>|
            q != sender && #[trigger] pre.gossip.known.contains_key(q) ==> post.gossip.known[q] == pre.gossip.known[q],
        post.messages == pre.messages.union(gossip.seen@),
        post.gossip.sent == pre.gossip.sent,
        post.gossip.neighbours == pre.gossip.neighbours,
{
    if !pre.gossip.known.contains_key(sender) {
        assert(Set::<usize>::empty().union(gossip.seen@) =~= gossip.seen@);
    }
}

/// An acknowledgement of awaited gossip changes what is known of the
/// acknowledging peer alone: it is known to hold what it was known to hold
/// and what that gossip carried; every other peer is known to hold exactly
/// what it was before, and only that gossip stops being awaited.
pub proof fn lemma_gossip_ok_changes_only_sender(
    pre: ActorView,
    sender: Seq<char>,
    reply_to: usize,
    post: ActorView,
    result: Result<(), ActorError>,
)
    requires
        gossip_ok_step(pre, sender, Some(reply_to), post, result),
        pre.gossip.sent.contains_key(reply_to),
    ensures
        result is Ok,
        post.gossip.known.contains_key(sender),
        pre.gossip.known.contains_key(sender) ==> post.gossip.known[sender] == pre.gossip.known[sender].union(pre.gossip.sent[reply_to]),
        !pre.gossip.known.contains_key(sender) ==> post.gossip.known[sender] == pre.gossip.sent[reply_to],
        forall|q: Seq<char>|
            q != sender ==> (#[trigger] post.gossip.known.contains_key(q) == pre.gossip.known.contains_key(q)),
        forall|q: Seq<char>|
            q != sender && #[trigger] pre.gossip.known.contains_key(q) ==> post.gossip.known[q] == pre.gossip.known[q],
        !post.gossip.sent.contains_key(reply_to),
        forall|id: usize|
            id != reply_to ==> (#[trigger] post.gossip.sent.contains_key(id) == pre.gossip.sent.contains_key(id)),
        forall|id: usize|
            id != reply_to && #[trigger] pre.gossip.sent.contains_key(id) ==> post.gossip.sent[id] == pre.gossip.sent[id],
        post.messages == pre.messages,
{
    if !pre.gossip.known.contains_key(sender) {
        assert(Set::<usize>::empty().union(pre.gossip.sent[reply_to]) =~= pre.gossip.sent[reply_to]);
    }
}

/// After an init the node is named by the name the init carries, knows the
/// node list it carries, and acknowledges under that name to the sender.
pub proof fn lemma_init_takes_the_given_name(
    pre: ActorView,
    requester: Seq<char>,
    msg_id: Option<usize>,
    init: Init,
    post: ActorView,
    out: Seq<GlommerMessage>,
)
    requires
        init_step(pre, requester, msg_id, init, post, out),
    ensures
        post.node_id == init.node_id@,
        post.node_ids.len() == init.node_ids@.len(),
        forall|k: int| 0 <= k < init.node_ids@.len() ==> #[trigger] post.node_ids[k] == init.node_ids@[k]@,
        out.len() == 1,
        out[0].src@ == init.node_id@,
        out[0].dest@ == requester,
        out[0].body.in_reply_to == msg_id,
{
}

/// After a layout that names each node once, the node's neighbours are the
/// list of its own entry, and the layout it keeps is every other entry, in
/// order.
pub proof fn lemma_topology_takes_own_entry(
    pre: ActorView,
    requester: Seq<char>,
    msg_id: Option<usize>,
    topology: Topology,
    post: ActorView,
    out: Seq<GlommerMessage>,
    i: int,
)
    requires
        topology_step(pre, requester, msg_id, topology, post, out),
        distinct_nodes(topology.topology@),
        0 <= i < topology.topology@.len(),
        topology.topology@[i].0@ == pre.node_id,
    ensures
        post.node_id == pre.node_id,
        post.gossip.neighbours.len() == topology.topology@[i].1@.len(),
        forall|k: int|
            0 <= k < topology.topology@[i].1@.len() ==> #[trigger] post.gossip.neighbours[k]
                == topology.topology@[i].1@[k]@,
        post.topology.len() == topology.topology@.len() - 1,
        forall|k: int| 0 <= k < i ==> (#[trigger] post.topology[k]).0 == topology.topology@[k].0@,
        forall|k: int|
            i <= k < post.topology.len() ==> (#[trigger] post.topology[k]).0
                == topology.topology@[k + 1].0@,
        forall|k: int| 0 <= k < post.topology.len() ==> (#[trigger] post.topology[k]).0 != pre.node_id,
{
    let entries = topology.topology@;
    let j = choose|j: int|
        crate::message::topology::first_entry(entries, pre.node_id, j) && post == (ActorView {
            next_id: pre.next_id + 1,
            topology: crate::topology_names(entries.remove(j)),
            gossip: crate::message::gossip::GossipView {
                neighbours: crate::message::gossip::names(entries[j].1@),
                ..pre.gossip
            },
            ..pre
        });
    assert(j == i);
    assert forall|k: int| 0 <= k < post.topology.len() implies (#[trigger] post.topology[k]).0 != pre.node_id by {
        if k < i {
            assert(post.topology[k].0 == entries[k].0@);
        } else {
            assert(post.topology[k].0 == entries[k + 1].0@);
        }
    }
}

/// An echo is answered, to its sender, with exactly the text it carried, and
/// changes nothing but the message counter.
pub proof fn lemma_echo_answers_same_text(
    pre: ActorView,
    requester: Seq<char>,
    msg_id: Option<usize>,
    echo: Echo,
    post: ActorView,
    out: Seq<GlommerMessage>,
)
    requires
        echo_step(pre, requester, msg_id, echo, post, out),
    ensures
        out.len() == 1,
        out[0].dest@ == requester,
        out[0].body.in_reply_to == msg_id,
        out[0].body.payload matches GlommerPayload::EchoOk(e) && e.echo@ == echo.echo@,
        post.messages == pre.messages,
        post.gossip == pre.gossip,
        post.node_id == pre.node_id,
        post.next_id == pre.next_id + 1,
{
}

/// A broadcast adds its value to the values the node holds, and nothing else.
pub proof fn lemma_broadcast_adds_its_value(
    pre: ActorView,
    requester: Seq<char>,
    msg_id: Option<usize>,
    broadcast: Broadcast,
    post: ActorView,
    out: Seq<GlommerMessage>,
)
    requires
        broadcast_step(pre, requester, msg_id, broadcast, post, out),
    ensures
        forall|x: usize| #[trigger]
            post.messages.contains(x) <==> (pre.messages.contains(x) || x == broadcast.message),
        post.gossip == pre.gossip,
        out.len() == 1,
        out[0].dest@ == requester,
        out[0].body.payload is BroadcastOk,
{
}

/// A read answers with every value the node holds and nothing else, each
/// value once.
pub proof fn lemma_read_answers_exactly_the_held_values(
    pre: ActorView,
    requester: Seq<char>,
    msg_id: Option<usize>,
    post: ActorView,
    out: Seq<GlommerMessage>,
)
    requires
        read_step(pre, requester, msg_id, post, out),
    ensures
        out.len() == 1,
        out[0].dest@ == requester,
        out[0].body.payload matches GlommerPayload::ReadOk(r) && (forall|x: usize| #[trigger]
            r.messages@.contains(x) <==> pre.messages.contains(x)) && r.messages@.len()
            == pre.messages.len(),
        post.messages == pre.messages,
{
    if let GlommerPayload::ReadOk(r) = out[0].body.payload {
        assert forall|x: usize| #[trigger] r.messages@.contains(x) <==> pre.messages.contains(x) by {
            if r.messages@.contains(x) {
                assert(r.messages@.to_set().contains(x));
            }
            if pre.messages.contains(x) {
                assert(r.messages@.to_set().contains(x));
            }
        }
        r.messages@.unique_seq_to_set();
    }
}

/// The character is a decimal digit.
pub open spec fn is_digit(c: char) -> bool {
    '0' <= c <= '9'
}

/// The number that a sequence of decimal digits stands for.
pub open spec fn digits_value(s: Seq<char>) -> int
    decreases s.len(),
{
    if s.len() == 0 {
        0
    } else {
        digits_value(s.drop_last()) * 10 + (s.last() as int - '0' as int)
    }
}

/// The decimal numeral of `n` is made of digits, has no leading zero, and
/// reads back as `n`.
pub proof fn lemma_decimal_reads_back(n: nat)
    ensures
        decimal(n).len() >= 1,
        forall|k: int| 0 <= k < decimal(n).len() ==> is_digit(#[trigger] decimal(n)[k]),
        decimal(n).len() > 1 ==> decimal(n)[0] != '0',
        digits_value(decimal(n)) == n,
    decreases n,
{
    assert(forall|d: nat| d < 10 ==> is_digit(#[trigger] digit_char(d)) && digit_char(d) as int - '0' as int == d);
    if n < 10 {
        let d = decimal(n);
        assert(d == seq![digit_char(n)]);
        assert(d.drop_last() =~= Seq::<char>::empty());
        assert(digits_value(d.drop_last()) == 0);
        assert(is_digit(digit_char(n)) && digit_char(n) as int - '0' as int == n);
        assert(digits_value(d) == digits_value(d.drop_last()) * 10 + (d.last() as int - '0' as int));
    } else {
        lemma_decimal_reads_back(n / 10);
        let d = decimal(n);
        let h = decimal(n / 10);
        assert(d == h.push(digit_char(n % 10)));
        assert(d.drop_last() =~= h);
        assert forall|k: int| 0 <= k < d.len() implies is_digit(#[trigger] d[k]) by {
            if k < h.len() {
                assert(d[k] == h[k]);
            }
        }
        crate::message::generate::lemma_decimal_len(n / 10);
        if h.len() == 1 {
            assert(n / 10 < 10);
            assert(h[0] == digit_char(n / 10));
            assert(n / 10 != 0);
            assert(digit_char(n / 10) != '0');
        }
        assert(d[0] == h[0]);
        assert(is_digit(digit_char(n % 10)) && digit_char(n % 10) as int - '0' as int == n % 10);
        assert(digits_value(d) == digits_value(h) * 10 + (d.last() as int - '0' as int));
        assert(n == (n / 10) * 10 + n % 10);
    }
}

/// A generate request is answered with the node's name, a dash, and the
/// number of the answer itself written in decimal digits without a leading
/// zero.
pub proof fn lemma_generate_answers_name_dash_number(
    pre: ActorView,
    requester: Seq<char>,
    msg_id: Option<usize>,
    post: ActorView,
    out: Seq<GlommerMessage>,
)
    requires
        generate_step(pre, requester, msg_id, post, out),
    ensures
        out.len() == 1,
        out[0].dest@ == requester,
        out[0].body.msg_id == Some(pre.next_id as usize),
        out[0].body.payload matches GlommerPayload::GenerateOk(g) && {
            let id = g.id@;
            let digits = id.subrange(pre.node_id.len() as int + 1, id.len() as int);
            &&& id.len() > pre.node_id.len() + 1
            &&& id.subrange(0, pre.node_id.len() as int) == pre.node_id
            &&& id[pre.node_id.len() as int] == '-'
            &&& forall|k: int| 0 <= k < digits.len() ==> is_digit(#[trigger] digits[k])
            &&& digits.len() > 1 ==> digits[0] != '0'
            &&& digits_value(digits) == pre.next_id
        },
        post.messages == pre.messages,
{
    lemma_decimal_reads_back(pre.next_id);
    if let GlommerPayload::GenerateOk(g) = out[0].body.payload {
        let id = g.id@;
        let node = pre.node_id;
        assert(id == node + seq!['-'] + decimal(pre.next_id));
        assert(id.subrange(node.len() as int + 1, id.len() as int) =~= decimal(pre.next_id));
        assert(id.subrange(0, node.len() as int) =~= node);
        assert(id[node.len() as int] == (node + seq!['-'])[node.len() as int]);
    }
}

/// An acknowledgement that names no gossip, or gossip that is not awaited, is
/// refused and changes nothing.
pub proof fn lemma_gossip_ok_refusals(
    pre: ActorView,
    sender: Seq<char>,
    in_reply_to: Option<usize>,
    post: ActorView,
    result: Result<(), ActorError>,
)
    requires
        gossip_ok_step(pre, sender, in_reply_to, post, result),
    ensures
        in_reply_to is None ==> result == Err::<(), ActorError>(ActorError::EmptyReplyTo) && post
            == pre,
        in_reply_to is Some && !pre.gossip.sent.contains_key(in_reply_to->Some_0) ==> result
            == Err::<(), ActorError>(ActorError::UnknownGossip(in_reply_to->Some_0)) && post == pre,
        result is Err <==> (in_reply_to is None || !pre.gossip.sent.contains_key(in_reply_to->Some_0)),
{
}

/// A gossip round awaits an acknowledgement of each message it sends, with
/// the values that message carried; what was awaited before is still
/// awaited, and what the node holds and knows of its peers is unchanged.
pub proof fn lemma_gossip_round_awaits_what_it_sent(
    pre: ActorView,
    post: ActorView,
    out: Seq<GlommerMessage>,
)
    requires
        tick_step(pre, post, out),
    ensures
        forall|a: int|
            0 <= a < out.len() ==> ((#[trigger] out[a]).body.msg_id matches Some(id) && pre.next_id
                <= id && post.gossip.sent.contains_key(id) && (out[a].body.payload matches GlommerPayload::Gossip(
                g,
            ) && post.gossip.sent[id] == g.seen@)),
        forall|id: usize| #[trigger]
            pre.gossip.sent.contains_key(id) && id < pre.next_id ==> post.gossip.sent.contains_key(id)
                && post.gossip.sent[id] == pre.gossip.sent[id],
        post.messages == pre.messages,
        post.gossip.known == pre.gossip.known,
        post.gossip.neighbours == pre.gossip.neighbours,
{
    let plan = gossip_plan(pre.messages, pre.gossip.known, pre.gossip.neighbours);
    lemma_record_plan(pre.gossip.sent, pre.next_id, plan);
    assert forall|a: int| 0 <= a < out.len() implies (#[trigger] out[a]).body.msg_id matches Some(id)
        && pre.next_id <= id && post.gossip.sent.contains_key(id) && (out[a].body.payload matches GlommerPayload::Gossip(
        g,
    ) && post.gossip.sent[id] == g.seen@) by {
        let id = (pre.next_id + a) as usize;
        assert(out[a].body.msg_id == Some(id));
        assert(post.gossip.sent[id] == plan[id - pre.next_id].1);
    }
}

} // verus!
