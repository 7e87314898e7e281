use std::collections::{HashMap, HashSet};
use vstd::prelude::*;

use crate::message::{addressed, GlommerMessage, GlommerPayload};
use crate::sets::{copy_set, difference_set, extend_set};
use crate::{is_reply, ActorError, ActorView, MyActor};

verus! {

/// Values that the sender holds and believes the receiver may lack.
#[derive(Debug, PartialEq, Eq)]
pub struct Gossip {
    pub seen: HashSet<usize>,
}

impl Clone for Gossip {
    /// A copy carrying the same values.
    fn clone(&self) -> (c: Self)
        ensures
            c.seen@ == self.seen@,
    {
        Gossip { seen: copy_set(&self.seen) }
    }
}

/// The answer to a [`Gossip`].
#[derive(Debug, Clone, PartialEq, Eq)]
pub struct GossipOk;

/// The periodic signal to gossip with the neighbours.
#[derive(Debug, Clone, Copy, PartialEq, Eq)]
pub struct EventGossip;

/// What a node knows of its neighbours: who they are, which values each
/// peer is known to hold, and which values went out in each gossip message
/// that is not yet acknowledged.
#[derive(Debug)]
pub struct GossipState {
    pub neighberhood: Vec<String>,
    known: Vec<(String, HashSet<usize>)>,
    sent_messages: HashMap<usize, HashSet<usize>>,
}

/// The gossip state as mathematical values.
pub struct GossipView {
    /// The neighbours, in the order in which they are gossiped with.
    pub neighbours: Seq<Seq<char>>,
    /// For each peer, the values it is known to hold.
    pub known: Map<Seq<char>, Set<usize>>,
    /// For each unacknowledged gossip message, by its number, the values it
    /// carried.
    pub sent: Map<usize, Set<usize>>,
}

/// The names of a sequence of strings.
pub open spec fn names(s: Seq<String>) -> Seq<Seq<char>> {
    s.map_values(|x: String| x@)
}

/// The values `peer` is known to hold: none where nothing is known of it.
pub open spec fn known_set(known: Map<Seq<char>, Set<usize>>, peer: Seq<char>) -> Set<usize> {
    if known.contains_key(peer) {
        known[peer]
    } else {
        Set::empty()
    }
}

/// What `peer` is known to hold once it is known to hold `more` as well.
pub open spec fn learn(
    known: Map<Seq<char>, Set<usize>>,
    peer: Seq<char>,
    more: Set<usize>,
) -> Map<Seq<char>, Set<usize>> {
    known.insert(peer, known_set(known, peer).union(more))
}

/// No two entries name the same peer.
pub open spec fn distinct_peers(entries: Seq<(String, HashSet<usize>)>) -> bool {
    forall|i: int, j: int|
        0 <= i < entries.len() && 0 <= j < entries.len() && i != j ==> entries[i].0@
            != entries[j].0@
}

/// Some entry names `peer`.
pub open spec fn has_peer(entries: Seq<(String, HashSet<usize>)>, peer: Seq<char>) -> bool {
    exists|i: int| 0 <= i < entries.len() && entries[i].0@ == peer
}

/// The entries as a map from peer to values.
pub open spec fn entries_map(entries: Seq<(String, HashSet<usize>)>) -> Map<Seq<char>, Set<usize>> {
    Map::new(
        |peer: Seq<char>| has_peer(entries, peer),
        |peer: Seq<char>|
            entries[choose|i: int| 0 <= i < entries.len() && entries[i].0@ == peer].1@,
    )
}

/// An entry of a list with distinct peers is what the map holds for its peer.
proof fn lemma_entries_map_at(entries: Seq<(String, HashSet<usize>)>, i: int)
    requires
        distinct_peers(entries),
        0 <= i < entries.len(),
    ensures
        entries_map(entries).contains_key(entries[i].0@),
        entries_map(entries)[entries[i].0@] == entries[i].1@,
{
    let peer = entries[i].0@;
    assert(has_peer(entries, peer));
    let j = choose|j: int| 0 <= j < entries.len() && entries[j].0@ == peer;
    assert(j == i);
}

/// Replacing the values of one entry replaces them in the map.
proof fn lemma_entries_map_update(
    entries: Seq<(String, HashSet<usize>)>,
    i: int,
    values: HashSet<usize>,
)
    requires
        distinct_peers(entries),
        0 <= i < entries.len(),
    ensures
        distinct_peers(entries.update(i, (entries[i].0, values))),
        entries_map(entries.update(i, (entries[i].0, values))) == entries_map(entries).insert(
            entries[i].0@,
            values@,
        ),
{
    let new = entries.update(i, (entries[i].0, values));
    let peer = entries[i].0@;
    assert(distinct_peers(new));
    assert forall|k: Seq<char>| has_peer(new, k) <==> has_peer(entries, k) by {
        if has_peer(new, k) {
            let j = choose|j: int| 0 <= j < new.len() && new[j].0@ == k;
            assert(entries[j].0@ == k);
        }
        if has_peer(entries, k) {
            let j = choose|j: int| 0 <= j < entries.len() && entries[j].0@ == k;
            assert(new[j].0@ == k);
        }
    }
    assert forall|k: Seq<char>| #[trigger] entries_map(new).contains_key(k) implies entries_map(
        new,
    )[k] == entries_map(entries).insert(peer, values@)[k] by {
        let j = choose|j: int| 0 <= j < new.len() && new[j].0@ == k;
        lemma_entries_map_at(new, j);
        if j != i {
            lemma_entries_map_at(entries, j);
        }
    }
    assert(entries_map(new) =~= entries_map(entries).insert(peer, values@));
}

/// Adding an entry for a new peer adds it to the map.
proof fn lemma_entries_map_push(entries: Seq<(String, HashSet<usize>)>, peer: String, values: HashSet<usize>)
    requires
        distinct_peers(entries),
        !has_peer(entries, peer@),
    ensures
        distinct_peers(entries.push((peer, values))),
        entries_map(entries.push((peer, values))) == entries_map(entries).insert(peer@, values@),
{
    let new = entries.push((peer, values));
    assert(distinct_peers(new)) by {
        assert forall|i: int, j: int|
            0 <= i < new.len() && 0 <= j < new.len() && i != j implies new[i].0@ != new[j].0@ by {
            if i == entries.len() {
                assert(!(entries[j].0@ == peer@));
            } else if j == entries.len() {
                assert(!(entries[i].0@ == peer@));
            }
        }
    }
    assert forall|k: Seq<char>| has_peer(new, k) <==> (has_peer(entries, k) || k == peer@) by {
        if has_peer(new, k) {
            let j = choose|j: int| 0 <= j < new.len() && new[j].0@ == k;
            if j < entries.len() {
                assert(entries[j].0@ == k);
            }
        }
        if has_peer(entries, k) {
            let j = choose|j: int| 0 <= j < entries.len() && entries[j].0@ == k;
            assert(new[j].0@ == k);
        }
        if k == peer@ {
            assert(new[entries.len() as int].0@ == k);
        }
    }
    assert forall|k: Seq<char>| #[trigger] entries_map(new).contains_key(k) implies entries_map(
        new,
    )[k] == entries_map(entries).insert(peer@, values@)[k] by {
        let j = choose|j: int| 0 <= j < new.len() && new[j].0@ == k;
        lemma_entries_map_at(new, j);
        if j < entries.len() {
            lemma_entries_map_at(entries, j);
        }
    }
    assert(entries_map(new) =~= entries_map(entries).insert(peer@, values@));
}

impl View for GossipState {
    type V = GossipView;

    closed spec fn view(&self) -> GossipView {
        GossipView {
            neighbours: names(self.neighberhood@),
            known: entries_map(self.known@),
            sent: self.sent_messages@.map_values(|s: HashSet<usize>| s@),
        }
    }
}

impl Clone for GossipState {
    /// A copy with the same neighbours, the same knowledge of peers and the
    /// same awaited gossip.
    fn clone(&self) -> (c: Self)
        ensures
            c.wf() == self.wf(),
            c@.neighbours == self@.neighbours,
            c@.sent == self@.sent,
            self.wf() ==> c@.known == self@.known,
    {
        let neighberhood = self.neighberhood.clone();
        let mut known: Vec<(String, HashSet<usize>)> = Vec::new();
        let mut i: usize = 0;
        while i < self.known.len()
            invariant
                i <= self.known@.len(),
                known@.len() == i,
                forall|k: int|
                    0 <= k < i ==> (#[trigger] known@[k]).0@ == self.known@[k].0@ && known@[k].1@
                        == self.known@[k].1@,
            decreases self.known@.len() - i,
        {
            let entry = (self.known[i].0.clone(), copy_set(&self.known[i].1));
            known.push(entry);
            i = i + 1;
        }
        let c = GossipState { neighberhood, known, sent_messages: self.sent_messages.clone() };
        proof {
            assert(c@.neighbours =~= self@.neighbours) by {
                assert forall|k: int| 0 <= k < c.neighberhood@.len() implies c.neighberhood@[k]
                    == self.neighberhood@[k] by {
                    assert(cloned::<String>(self.neighberhood[k], c.neighberhood[k]));
                }
            }
            assert(c@.sent =~= self@.sent);
            assert(distinct_peers(c.known@) == distinct_peers(self.known@)) by {
                if distinct_peers(self.known@) {
                    assert forall|a: int, b: int|
                        0 <= a < c.known@.len() && 0 <= b < c.known@.len() && a != b implies c.known@[a].0@
                        != c.known@[b].0@ by {
                        assert(c.known@[a].0@ == self.known@[a].0@);
                        assert(c.known@[b].0@ == self.known@[b].0@);
                    }
                }
                if distinct_peers(c.known@) {
                    assert forall|a: int, b: int|
                        0 <= a < self.known@.len() && 0 <= b < self.known@.len() && a != b implies self.known@[a].0@
                        != self.known@[b].0@ by {
                        assert(c.known@[a].0@ == self.known@[a].0@);
                        assert(c.known@[b].0@ == self.known@[b].0@);
                    }
                }
            }
            if self.wf() {
                assert forall|k: Seq<char>| has_peer(c.known@, k) <==> has_peer(self.known@, k) by {
                    if has_peer(c.known@, k) {
                        let j = choose|j: int| 0 <= j < c.known@.len() && c.known@[j].0@ == k;
                        assert(self.known@[j].0@ == k);
                    }
                    if has_peer(self.known@, k) {
                        let j = choose|j: int| 0 <= j < self.known@.len() && self.known@[j].0@ == k;
                        assert(c.known@[j].0@ == k);
                    }
                }
                assert forall|k: Seq<char>| #[trigger] entries_map(c.known@).contains_key(k) implies entries_map(c.known@)[k]
                    == entries_map(self.known@)[k] by {
                    let j = choose|j: int| 0 <= j < c.known@.len() && c.known@[j].0@ == k;
                    lemma_entries_map_at(c.known@, j);
                    lemma_entries_map_at(self.known@, j);
                }
                assert(entries_map(c.known@) =~= entries_map(self.known@));
            }
        }
        c
    }
}

impl Default for GossipState {
    /// No neighbours, nothing known of any peer, nothing unacknowledged.
    fn default() -> (g: Self)
        ensures
            g.wf(),
            g@.neighbours == Seq::<Seq<char>>::empty(),
            g@.known == Map::<Seq<char>, Set<usize>>::empty(),
            g@.sent == Map::<usize, Set<usize>>::empty(),
    {
        GossipState::new()
    }
}

impl GossipState {
    /// The representation holds one entry per peer.
    pub closed spec fn wf(&self) -> bool {
        distinct_peers(self.known@)
    }

    /// No neighbours, nothing known of any peer, nothing unacknowledged.
    fn new() -> (g: Self)
        ensures
            g.wf(),
            g@.neighbours == Seq::<Seq<char>>::empty(),
            g@.known == Map::<Seq<char>, Set<usize>>::empty(),
            g@.sent == Map::<usize, Set<usize>>::empty(),
    {
        let g = GossipState { neighberhood: Vec::new(), known: Vec::new(), sent_messages: HashMap::new() };
        proof {
            assert(g@.neighbours =~= Seq::<Seq<char>>::empty());
            assert(g@.known =~= Map::<Seq<char>, Set<usize>>::empty());
            assert(g@.sent =~= Map::<usize, Set<usize>>::empty());
        }
        g
    }

    /// The values `peer` is known to hold, if anything is known of it.
    pub fn known_by(&self, peer: &String) -> (r: Option<&HashSet<usize>>)
        requires
            self.wf(),
        ensures
            match r {
                Some(s) => self@.known.contains_key(peer@) && s@ == self@.known[peer@],
                None => !self@.known.contains_key(peer@),
            },
    {
        match self.find_known(peer) {
            Some(i) => {
                proof {
                    lemma_entries_map_at(self.known@, i as int);
                }
                Some(&self.known[i].1)
            },
            None => None,
        }
    }

    /// The values the gossip message numbered `msg_id` carried, if it awaits
    /// an acknowledgement.
    pub fn awaiting(&self, msg_id: usize) -> (r: Option<&HashSet<usize>>)
        ensures
            match r {
                Some(s) => self@.sent.contains_key(msg_id) && s@ == self@.sent[msg_id],
                None => !self@.sent.contains_key(msg_id),
            },
    {
        self.sent_messages.get(&msg_id)
    }

    /// The number of gossip messages awaiting an acknowledgement.
    pub fn awaiting_count(&self) -> (n: usize)
        ensures
            n == self@.sent.len(),
    {
        proof {
            assert(self@.sent.dom() =~= self.sent_messages@.dom());
        }
        self.sent_messages.len()
    }

    /// Replaces the neighbours.
    pub(crate) fn set_neighbourhood(&mut self, neighbours: Vec<String>)
        ensures
            final(self).wf() == old(self).wf(),
            final(self)@.neighbours == names(neighbours@),
            final(self)@.known == old(self)@.known,
            final(self)@.sent == old(self)@.sent,
    {
        self.neighberhood = neighbours;
    }

    /// The index of the entry for `peer`, if there is one.
    fn find_known(&self, peer: &String) -> (r: Option<usize>)
        ensures
            match r {
                Some(i) => i < self.known@.len() && self.known@[i as int].0@ == peer@,
                None => !has_peer(self.known@, peer@),
            },
    {
        let mut i: usize = 0;
        while i < self.known.len()
            invariant
                i <= self.known@.len(),
                forall|j: int| 0 <= j < i ==> self.known@[j].0@ != peer@,
            decreases self.known@.len() - i,
        {
            if self.known[i].0 == *peer {
                return Some(i);
            }
            i = i + 1;
        }
        None
    }

    /// Records that `peer` holds every value of `seen`.
    pub(crate) fn record_known(&mut self, peer: String, seen: &HashSet<usize>)
        requires
            old(self).wf(),
        ensures
            final(self).wf(),
            final(self)@.neighbours == old(self)@.neighbours,
            final(self)@.sent == old(self)@.sent,
            final(self)@.known == learn(old(self)@.known, peer@, seen@),
    {
        match self.find_known(&peer) {
            Some(i) => {
                let ghost entries = self.known@;
                let (name, mut values) = self.known.remove(i);
                extend_set(&mut values, seen);
                proof {
                    lemma_entries_map_at(entries, i as int);
                    lemma_entries_map_update(entries, i as int, values);
                }
                self.known.insert(i, (name, values));
                proof {
                    assert(self.known@ =~= entries.update(i as int, (entries[i as int].0, values)));
                    assert(self@.known =~= learn(old(self)@.known, peer@, seen@));
                }
            },
            None => {
                let values = copy_set(seen);
                proof {
                    lemma_entries_map_push(self.known@, peer, values);
                    assert(!entries_map(self.known@).contains_key(peer@));
                    assert(known_set(entries_map(self.known@), peer@).union(seen@) =~= seen@);
                }
                self.known.push((peer, values));
            },
        }
    }

    /// The values of `messages` that `peer` is not known to hold.
    pub(crate) fn unknown_to(&self, peer: &String, messages: &HashSet<usize>) -> (out: HashSet<usize>)
        requires
            self.wf(),
        ensures
            out@ == messages@.difference(known_set(self@.known, peer@)),
    {
        match self.find_known(peer) {
            Some(i) => {
                proof {
                    lemma_entries_map_at(self.known@, i as int);
                }
                difference_set(messages, &self.known[i].1)
            },
            None => {
                let out = copy_set(messages);
                proof {
                    assert(out@ =~= messages@.difference(known_set(self@.known, peer@)));
                }
                out
            },
        }
    }

    /// Forgets the gossip message numbered `msg_id` and hands back the values
    /// it carried, if it was unacknowledged.
    pub(crate) fn take_sent(&mut self, msg_id: usize) -> (r: Option<HashSet<usize>>)
        ensures
            final(self).wf() == old(self).wf(),
            final(self)@.neighbours == old(self)@.neighbours,
            final(self)@.known == old(self)@.known,
            final(self)@.sent == old(self)@.sent.remove(msg_id),
            match r {
                Some(s) => old(self)@.sent.contains_key(msg_id) && s@ == old(self)@.sent[msg_id],
                None => !old(self)@.sent.contains_key(msg_id),
            },
    {
        let r = self.sent_messages.remove(&msg_id);
        proof {
            assert(self@.sent =~= old(self)@.sent.remove(msg_id));
        }
        r
    }

    /// Remembers that the gossip message numbered `msg_id` carried `values`.
    pub(crate) fn record_sent(&mut self, msg_id: usize, values: HashSet<usize>)
        ensures
            final(self).wf() == old(self).wf(),
            final(self)@.neighbours == old(self)@.neighbours,
            final(self)@.known == old(self)@.known,
            final(self)@.sent == old(self)@.sent.insert(msg_id, values@),
    {
        self.sent_messages.insert(msg_id, values);
        proof {
            assert(self@.sent =~= old(self)@.sent.insert(msg_id, values@));
        }
    }
}

/// How a gossip message numbered `msg_id` from `requester` changes a node and
/// what it answers: the node holds every value it carried, knows that the
/// sender holds them, and acknowledges.
pub open spec fn gossip_step(
    pre: ActorView,
    requester: Seq<char>,
    msg_id: Option<usize>,
    gossip: Gossip,
    post: ActorView,
    out: Seq<GlommerMessage>,
) -> bool {
    &&& post == (ActorView {
        next_id: pre.next_id + 1,
        messages: pre.messages.union(gossip.seen@),
        gossip: GossipView { known: learn(pre.gossip.known, requester, gossip.seen@), ..pre.gossip },
        ..pre
    })
    &&& is_reply(out, pre, requester, msg_id, GlommerPayload::GossipOk(GossipOk))
}

/// How an acknowledgement from `requester` of the gossip message numbered
/// `in_reply_to` changes a node: the values that message carried are known
/// to be held by the sender and the message is no longer awaited. It is
/// refused, and nothing changes, where it names no message or one that is not
/// awaited.
pub open spec fn gossip_ok_step(
    pre: ActorView,
    requester: Seq<char>,
    in_reply_to: Option<usize>,
    post: ActorView,
    result: Result<(), ActorError>,
) -> bool {
    match in_reply_to {
        None => result == Err::<(), ActorError>(ActorError::EmptyReplyTo) && post == pre,
        Some(r) => if pre.gossip.sent.contains_key(r) {
            &&& result is Ok
            &&& post == (ActorView {
                gossip: GossipView {
                    known: learn(pre.gossip.known, requester, pre.gossip.sent[r]),
                    sent: pre.gossip.sent.remove(r),
                    ..pre.gossip
                },
                ..pre
            })
        } else {
            result == Err::<(), ActorError>(ActorError::UnknownGossip(r)) && post == pre
        },
    }
}

/// The gossip a node owes its neighbours, in the order of `neighbours`: each
/// neighbour with the values the node holds that it is not known to hold,
/// leaving out the neighbours to whom nothing is owed.
pub open spec fn gossip_plan(
    messages: Set<usize>,
    known: Map<Seq<char>, Set<usize>>,
    neighbours: Seq<Seq<char>>,
) -> Seq<(Seq<char>, Set<usize>)>
    decreases neighbours.len(),
{
    if neighbours.len() == 0 {
        Seq::empty()
    } else {
        let rest = gossip_plan(messages, known, neighbours.drop_last());
        let unknown = messages.difference(known_set(known, neighbours.last()));
        if unknown.is_empty() {
            rest
        } else {
            rest.push((neighbours.last(), unknown))
        }
    }
}

/// The unacknowledged gossip after the messages of `plan` went out numbered
/// from `first` on.
pub open spec fn record_plan(
    sent: Map<usize, Set<usize>>,
    first: nat,
    plan: Seq<(Seq<char>, Set<usize>)>,
) -> Map<usize, Set<usize>>
    decreases plan.len(),
{
    if plan.len() == 0 {
        sent
    } else {
        record_plan(sent, first, plan.drop_last()).insert(
            (first + plan.len() - 1) as usize,
            plan.last().1,
        )
    }
}

/// The messages `out` carry the gossip of `plan`, from node `node`, numbered
/// from `first` on.
pub open spec fn sends_plan(
    out: Seq<GlommerMessage>,
    node: Seq<char>,
    first: nat,
    plan: Seq<(Seq<char>, Set<usize>)>,
) -> bool {
    &&& out.len() == plan.len()
    &&& forall|k: int|
        0 <= k < out.len() ==> {
            &&& addressed(#[trigger] out[k], node, plan[k].0, (first + k) as usize, None)
            &&& out[k].body.payload matches GlommerPayload::Gossip(g) && g.seen@ == plan[k].1
        }
}

/// How the signal to gossip changes a node and what it sends: to each
/// neighbour in turn, the values it is not known to hold, where there are
/// any, each message numbered in turn and awaited with the values it carried.
pub open spec fn tick_step(pre: ActorView, post: ActorView, out: Seq<GlommerMessage>) -> bool {
    let plan = gossip_plan(pre.messages, pre.gossip.known, pre.gossip.neighbours);
    &&& pre.next_id + plan.len() <= usize::MAX
    &&& post == (ActorView {
        next_id: pre.next_id + plan.len(),
        gossip: GossipView { sent: record_plan(pre.gossip.sent, pre.next_id, plan), ..pre.gossip },
        ..pre
    })
    &&& sends_plan(out, pre.node_id, pre.next_id, plan)
}

/// The gossip owed to the first neighbours is owed, in the same order, to
/// more of them.
pub proof fn lemma_gossip_plan_prefix(
    messages: Set<usize>,
    known: Map<Seq<char>, Set<usize>>,
    neighbours: Seq<Seq<char>>,
    i: int,
    j: int,
)
    requires
        0 <= i <= j <= neighbours.len(),
    ensures
        gossip_plan(messages, known, neighbours.take(i)).len() <= gossip_plan(
            messages,
            known,
            neighbours.take(j),
        ).len(),
        gossip_plan(messages, known, neighbours.take(i)) == gossip_plan(
            messages,
            known,
            neighbours.take(j),
        ).take(gossip_plan(messages, known, neighbours.take(i)).len() as int),
        gossip_plan(messages, known, neighbours.take(j)).len() <= j,
    decreases j,
{
    let pj = gossip_plan(messages, known, neighbours.take(j));
    if j == 0 {
        assert(pj =~= Seq::<(Seq<char>, Set<usize>)>::empty());
        assert(pj.take(0) =~= pj);
    } else {
        assert(neighbours.take(j).drop_last() =~= neighbours.take(j - 1));
        lemma_gossip_plan_prefix(messages, known, neighbours, j - 1, j - 1);
        if i == j {
            assert(pj.take(pj.len() as int) =~= pj);
        } else {
            lemma_gossip_plan_prefix(messages, known, neighbours, i, j - 1);
            let pi = gossip_plan(messages, known, neighbours.take(i));
            let pj1 = gossip_plan(messages, known, neighbours.take(j - 1));
            assert(pj.take(pj1.len() as int) =~= pj1);
            assert(pj.take(pi.len() as int) =~= pj1.take(pi.len() as int));
        }
    }
}

/// Each item of the plan names a neighbour and carries values the node holds
/// that the neighbour is not known to hold; there is at least one such value.
pub proof fn lemma_gossip_plan_items(
    messages: Set<usize>,
    known: Map<Seq<char>, Set<usize>>,
    neighbours: Seq<Seq<char>>,
)
    ensures
        forall|k: int|
            0 <= k < gossip_plan(messages, known, neighbours).len() ==> {
                let item = #[trigger] gossip_plan(messages, known, neighbours)[k];
                &&& item.1 == messages.difference(known_set(known, item.0))
                &&& !item.1.is_empty()
                &&& neighbours.contains(item.0)
            },
    decreases neighbours.len(),
{
    if neighbours.len() > 0 {
        let rest = neighbours.drop_last();
        lemma_gossip_plan_items(messages, known, rest);
        let plan = gossip_plan(messages, known, neighbours);
        assert forall|k: int| 0 <= k < plan.len() implies {
            let item = #[trigger] plan[k];
            &&& item.1 == messages.difference(known_set(known, item.0))
            &&& !item.1.is_empty()
            &&& neighbours.contains(item.0)
        } by {
            let prev = gossip_plan(messages, known, rest);
            if k < prev.len() {
                assert(plan[k] == prev[k]);
                let j = choose|j: int| 0 <= j < rest.len() && rest[j] == prev[k].0;
                assert(neighbours[j] == rest[j]);
            } else {
                assert(neighbours[neighbours.len() - 1] == neighbours.last());
            }
        }
    }
}

/// What is awaited after the plan went out: the old messages, and from `first`
/// on, one for each item of the plan.
pub proof fn lemma_record_plan(
    sent: Map<usize, Set<usize>>,
    first: nat,
    plan: Seq<(Seq<char>, Set<usize>)>,
)
    requires
        first + plan.len() <= usize::MAX,
    ensures
        forall|key: usize| #[trigger]
            record_plan(sent, first, plan).contains_key(key) <==> (sent.contains_key(key) || (
            first <= key < first + plan.len())),
        forall|key: usize|
            first <= key < first + plan.len() ==> #[trigger] record_plan(sent, first, plan)[key]
                == plan[key - first].1,
        forall|key: usize|
            !(first <= key < first + plan.len()) && sent.contains_key(key) ==> #[trigger] record_plan(
                sent,
                first,
                plan,
            )[key] == sent[key],
    decreases plan.len(),
{
    if plan.len() > 0 {
        let prev = plan.drop_last();
        lemma_record_plan(sent, first, prev);
        let last_key = (first + plan.len() - 1) as usize;
        assert(last_key == first + plan.len() - 1);
        let r = record_plan(sent, first, plan);
        assert(r == record_plan(sent, first, prev).insert(last_key, plan.last().1));
        assert forall|key: usize| #[trigger] r.contains_key(key) <==> (sent.contains_key(key) || (
            first <= key < first + plan.len())) by {
            if key == last_key {
            } else {
                assert(r.contains_key(key) == record_plan(sent, first, prev).contains_key(key));
            }
        }
        assert forall|key: usize|
            first <= key < first + plan.len() implies #[trigger] r[key] == plan[key - first].1 by {
            if key != last_key {
                assert(prev[key - first] == plan[key - first]);
            }
        }
    }
}

impl MyActor {
    /// Takes in the values a neighbour gossiped, notes that it holds them, and
    /// acknowledges.
    pub fn handle_gossip(&mut self, requester: String, msg_id: Option<usize>, gossip: Gossip) -> (out: Vec<
        GlommerMessage,
    >)
        requires
            old(self).wf(),
            old(self)@.next_id < usize::MAX,
        ensures
            final(self).wf(),
            gossip_step(old(self)@, requester@, msg_id, gossip, final(self)@, out@),
    {
        self.gossip_state.record_known(requester.clone(), &gossip.seen);
        extend_set(&mut self.messages, &gossip.seen);
        self.reply(requester, msg_id, GlommerPayload::GossipOk(GossipOk))
    }

    /// Notes that the acknowledging neighbour holds what the acknowledged
    /// gossip message carried.
    pub fn handle_gossip_ok(&mut self, requester: String, in_reply_to: Option<usize>, _gossip_ok: GossipOk) -> (result: Result<(), ActorError>)
        requires
            old(self).wf(),
        ensures
            final(self).wf(),
            gossip_ok_step(old(self)@, requester@, in_reply_to, final(self)@, result),
    {
        let reply_to = match in_reply_to {
            Some(r) => r,
            None => {
                return Err(ActorError::EmptyReplyTo);
            },
        };
        let confirmed = match self.gossip_state.take_sent(reply_to) {
            Some(s) => s,
            None => {
                proof {
                    assert(self@ == old(self)@) by {
                        assert(self@.gossip.sent =~= old(self)@.gossip.sent);
                    }
                }
                return Err(ActorError::UnknownGossip(reply_to));
            },
        };
        self.gossip_state.record_known(requester, &confirmed);
        Ok(())
    }

    /// Whether the message counter has room for a round of gossip now.
    pub fn gossip_round_fits(&self) -> (b: bool)
        requires
            self.wf(),
        ensures
            b == (self@.next_id + gossip_plan(self@.messages, self@.gossip.known, self@.gossip.neighbours).len()
                <= usize::MAX),
    {
        let ghost v = self@;
        let ghost nbrs = v.gossip.neighbours;
        let n = self.gossip_state.neighberhood.len();
        let mut count: usize = 0;
        let mut i: usize = 0;
        proof {
            assert(names(self.gossip_state.neighberhood@) == nbrs);
            assert(nbrs.take(0) =~= Seq::<Seq<char>>::empty());
        }
        while i < n
            invariant
                self.wf(),
                self@ == v,
                n == nbrs.len(),
                self.gossip_state.neighberhood@.len() == n,
                names(self.gossip_state.neighberhood@) == nbrs,
                i <= n,
                count == gossip_plan(v.messages, v.gossip.known, nbrs.take(i as int)).len(),
                count <= i,
            decreases n - i,
        {
            proof {
                assert(nbrs.take(i + 1).drop_last() =~= nbrs.take(i as int));
                assert(nbrs.take(i + 1).last() == nbrs[i as int]);
            }
            let neighbour = &self.gossip_state.neighberhood[i];
            let unknown = self.gossip_state.unknown_to(neighbour, &self.messages);
            proof {
                assert(neighbour@ == nbrs[i as int]);
            }
            if !unknown.is_empty() {
                count = count + 1;
            }
            i = i + 1;
        }
        proof {
            assert(nbrs.take(n as int) =~= nbrs);
        }
        self.id <= usize::MAX - count
    }

    /// Sends each neighbour the values it is not known to hold, and awaits an
    /// acknowledgement of each message.
    pub fn handle_event_gossip(&mut self, _event: EventGossip) -> (out: Vec<GlommerMessage>)
        requires
            old(self).wf(),
            old(self)@.next_id + gossip_plan(
                old(self)@.messages,
                old(self)@.gossip.known,
                old(self)@.gossip.neighbours,
            ).len() <= usize::MAX,
        ensures
            final(self).wf(),
            tick_step(old(self)@, final(self)@, out@),
    {
        let ghost pre = self@;
        let ghost nbrs = pre.gossip.neighbours;
        let ghost full = gossip_plan(pre.messages, pre.gossip.known, nbrs);
        let mut out: Vec<GlommerMessage> = Vec::new();
        let n = self.gossip_state.neighberhood.len();
        let mut i: usize = 0;
        proof {
            assert(self.gossip_state@.neighbours == nbrs);
            assert(names(self.gossip_state.neighberhood@) == nbrs);
            assert(nbrs.take(0) =~= Seq::<Seq<char>>::empty());
        }
        while i < n
            invariant
                self.wf(),
                n == nbrs.len(),
                self.gossip_state.neighberhood@.len() == n,
                names(self.gossip_state.neighberhood@) == nbrs,
                i <= n,
                pre.next_id + full.len() <= usize::MAX,
                full == gossip_plan(pre.messages, pre.gossip.known, nbrs),
                nbrs.take(n as int) == nbrs,
                ({
                    let plan = gossip_plan(pre.messages, pre.gossip.known, nbrs.take(i as int));
                    &&& self@ == (ActorView {
                        next_id: pre.next_id + plan.len(),
                        gossip: GossipView {
                            sent: record_plan(pre.gossip.sent, pre.next_id, plan),
                            ..pre.gossip
                        },
                        ..pre
                    })
                    &&& sends_plan(out@, pre.node_id, pre.next_id, plan)
                }),
            decreases n - i,
        {
            let ghost before = gossip_plan(pre.messages, pre.gossip.known, nbrs.take(i as int));
            let ghost after = gossip_plan(pre.messages, pre.gossip.known, nbrs.take(i + 1));
            proof {
                assert(nbrs.take(i + 1).drop_last() =~= nbrs.take(i as int));
                assert(nbrs.take(i + 1).last() == nbrs[i as int]);
                lemma_gossip_plan_prefix(pre.messages, pre.gossip.known, nbrs, i + 1, n as int);
            }
            let neighbour = self.gossip_state.neighberhood[i].clone();
            let unknown = self.gossip_state.unknown_to(&neighbour, &self.messages);
            proof {
                assert(neighbour@ == nbrs[i as int]);
            }
            if !unknown.is_empty() {
                proof {
                    assert(after == before.push((nbrs[i as int], unknown@)));
                }
                let seen = copy_set(&unknown);
                let ghost out_before = out@;
                let msg_id = self.send(neighbour, None, GlommerPayload::Gossip(Gossip { seen }), &mut out);
                self.gossip_state.record_sent(msg_id, unknown);
                proof {
                    assert(after == before.push((nbrs[i as int], unknown@)));
                    assert(after.drop_last() =~= before);
                    assert forall|k: int| 0 <= k < out@.len() implies {
                        &&& addressed(#[trigger] out@[k], pre.node_id, after[k].0, (pre.next_id + k) as usize, None)
                        &&& out@[k].body.payload matches GlommerPayload::Gossip(g) && g.seen@ == after[k].1
                    } by {
                        if k < out_before.len() {
                            assert(out@[k] == out_before[k]);
                        }
                    }
                }
            } else {
                proof {
                    assert(after == before);
                }
            }
            i = i + 1;
        }
        proof {
            assert(nbrs.take(n as int) == nbrs);
        }
        out
    }
}

} // verus!
