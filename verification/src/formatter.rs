use vstd::prelude::*;

verus! {

/// The byte `{`.
pub const OPEN_BRACE: u8 = 123;

/// The byte `}`.
pub const CLOSE_BRACE: u8 = 125;

/// The byte of a line feed.
pub const NEWLINE: u8 = 10;

/// Frames serialised JSON values one per line: it tracks how deeply the
/// writer is nested in objects and ends every top-level object with a
/// newline.
#[derive(Clone, Debug)]
pub struct NewLineFormatter {
    depth: usize,
}

impl NewLineFormatter {
    /// The object nesting depth of the writer.
    pub closed spec fn spec_depth(&self) -> nat {
        self.depth as nat
    }

    /// A formatter outside of any object.
    pub fn new() -> (f: Self)
        ensures
            f.spec_depth() == 0,
    {
        NewLineFormatter { depth: 0 }
    }

    /// The object nesting depth of the writer.
    pub fn depth(&self) -> (d: usize)
        ensures
            d == self.spec_depth(),
    {
        self.depth
    }

    /// Opens an object: one level deeper, and the bytes `{` to write.
    pub fn begin_object(&mut self) -> (out: Vec<u8>)
        requires
            old(self).spec_depth() < usize::MAX,
        ensures
            final(self).spec_depth() == old(self).spec_depth() + 1,
            out@ == seq![OPEN_BRACE],
            call_step(old(self).spec_depth(), true, final(self).spec_depth(), out@),
    {
        self.depth = self.depth + 1;
        let mut out: Vec<u8> = Vec::new();
        out.push(OPEN_BRACE);
        out
    }

    /// Closes an object: one level up, and the bytes to write, `}` followed
    /// by a newline where the closed object was at the top level.
    pub fn end_object(&mut self) -> (out: Vec<u8>)
        requires
            old(self).spec_depth() > 0,
        ensures
            final(self).spec_depth() == old(self).spec_depth() - 1,
            out@ == close_bytes(final(self).spec_depth()),
            call_step(old(self).spec_depth(), false, final(self).spec_depth(), out@),
    {
        self.depth = self.depth - 1;
        let mut out: Vec<u8> = Vec::new();
        out.push(CLOSE_BRACE);
        if self.depth == 0 {
            out.push(NEWLINE);
        }
        proof {
            assert(out@ =~= close_bytes(self.depth as nat));
        }
        out
    }
}

/// The bytes written when an object closes and leaves the writer at `depth`.
pub open spec fn close_bytes(depth: nat) -> Seq<u8> {
    if depth == 0 {
        seq![CLOSE_BRACE, NEWLINE]
    } else {
        seq![CLOSE_BRACE]
    }
}

/// One call of the formatter at `depth`: opening (`open`) or closing an
/// object leaves it at `new_depth` and hands back `out` to write.
pub open spec fn call_step(depth: nat, open: bool, new_depth: nat, out: Seq<u8>) -> bool {
    if open {
        new_depth == depth + 1 && out == seq![OPEN_BRACE]
    } else {
        depth > 0 && new_depth == depth - 1 && out == close_bytes(new_depth)
    }
}

/// The depth the writer reaches from `depth` when it opens (`true`) and
/// closes (`false`) objects in the order of `events`.
pub open spec fn depth_after(depth: int, events: Seq<bool>) -> int
    decreases events.len(),
{
    if events.len() == 0 {
        depth
    } else {
        depth_after(depth, events.drop_last()) + if events.last() {
            1int
        } else {
            -1int
        }
    }
}

/// The bytes the formatter writes for `events`, starting at `depth`.
pub open spec fn bytes_written(depth: int, events: Seq<bool>) -> Seq<u8>
    decreases events.len(),
{
    if events.len() == 0 {
        Seq::empty()
    } else {
        let prev = bytes_written(depth, events.drop_last());
        if events.last() {
            prev.push(OPEN_BRACE)
        } else {
            prev + close_bytes((depth_after(depth, events.drop_last()) - 1) as nat)
        }
    }
}

/// `events` open and close exactly one top-level object: the writer starts
/// and ends at the top level and stays inside the object in between.
pub open spec fn one_object(events: Seq<bool>) -> bool {
    &&& events.len() > 0
    &&& depth_after(0, events) == 0
    &&& forall|i: int| 1 <= i < events.len() ==> depth_after(0, #[trigger] events.take(i)) >= 1
}

/// Inside an object the formatter writes no newline.
proof fn lemma_no_newline_inside(events: Seq<bool>, i: int)
    requires
        one_object(events),
        1 <= i < events.len(),
    ensures
        forall|j: int| 0 <= j < bytes_written(0, events.take(i)).len() ==> #[trigger] bytes_written(
            0,
            events.take(i),
        )[j] != NEWLINE,
    decreases i,
{
    let p = events.take(i);
    assert(p.drop_last() =~= events.take(i - 1));
    let prev = bytes_written(0, p.drop_last());
    let b = bytes_written(0, p);
    if i == 1 {
        assert(events.take(0) =~= Seq::<bool>::empty());
        assert(depth_after(0, events.take(1)) >= 1);
        assert(p.last());
        assert(b =~= seq![OPEN_BRACE]);
    } else {
        lemma_no_newline_inside(events, i - 1);
        assert(depth_after(0, p) >= 1);
        if p.last() {
            assert(b == prev.push(OPEN_BRACE));
        } else {
            assert(close_bytes((depth_after(0, p.drop_last()) - 1) as nat) == seq![CLOSE_BRACE]);
            assert(b =~= prev.push(CLOSE_BRACE));
        }
        assert forall|j: int| 0 <= j < b.len() implies #[trigger] b[j] != NEWLINE by {
            if j < prev.len() {
                assert(b[j] == prev[j]);
            }
        }
    }
}

/// Every top-level object the formatter writes ends with a newline, and no
/// other newline appears in it: one object per line.
pub proof fn lemma_one_object_per_line(events: Seq<bool>)
    requires
        one_object(events),
    ensures
        bytes_written(0, events).len() >= 1,
        bytes_written(0, events).last() == NEWLINE,
        forall|j: int|
            0 <= j < bytes_written(0, events).len() - 1 ==> #[trigger] bytes_written(0, events)[j]
                != NEWLINE,
{
    let n = events.len() as int;
    if n == 1 {
        assert(events.take(0) =~= Seq::<bool>::empty());
        assert(events.drop_last() =~= Seq::<bool>::empty());
        assert(false);
    }
    let prefix = events.take(n - 1);
    assert(events.drop_last() =~= prefix);
    lemma_no_newline_inside(events, n - 1);
    assert(depth_after(0, prefix) >= 1);
    assert(!events.last());
    assert(close_bytes((depth_after(0, prefix) - 1) as nat) == seq![CLOSE_BRACE, NEWLINE]);
    let prev = bytes_written(0, prefix);
    let b = bytes_written(0, events);
    assert(b =~= prev + seq![CLOSE_BRACE, NEWLINE]);
    assert forall|j: int| 0 <= j < b.len() - 1 implies #[trigger] b[j] != NEWLINE by {
        if j < prev.len() {
            assert(b[j] == prev[j]);
        }
    }
}

/// The writer never closes more objects than it opened.
pub open spec fn never_below_top(events: Seq<bool>) -> bool {
    forall|i: int| 0 <= i <= events.len() ==> depth_after(0, #[trigger] events.take(i)) >= 0
}

/// The number of objects opened.
pub open spec fn opens(events: Seq<bool>) -> nat
    decreases events.len(),
{
    if events.len() == 0 {
        0
    } else {
        opens(events.drop_last()) + if events.last() {
            1nat
        } else {
            0nat
        }
    }
}

/// The number of objects closed.
pub open spec fn closes(events: Seq<bool>) -> nat
    decreases events.len(),
{
    if events.len() == 0 {
        0
    } else {
        closes(events.drop_last()) + if events.last() {
            0nat
        } else {
            1nat
        }
    }
}

/// The number of closes that bring the writer back to the top level.
pub open spec fn top_level_closes(events: Seq<bool>) -> nat
    decreases events.len(),
{
    if events.len() == 0 {
        0
    } else {
        top_level_closes(events.drop_last()) + if !events.last() && depth_after(0, events) == 0 {
            1nat
        } else {
            0nat
        }
    }
}

/// The brace of each event: `{` for an open, `}` for a close.
pub open spec fn braces(events: Seq<bool>) -> Seq<u8> {
    events.map_values(|open: bool| if open { OPEN_BRACE } else { CLOSE_BRACE })
}

/// `bytes` with every newline taken out.
pub open spec fn without_newlines(bytes: Seq<u8>) -> Seq<u8>
    decreases bytes.len(),
{
    if bytes.len() == 0 {
        bytes
    } else if bytes.last() == NEWLINE {
        without_newlines(bytes.drop_last())
    } else {
        without_newlines(bytes.drop_last()).push(bytes.last())
    }
}

/// The number of newlines in `bytes`.
pub open spec fn newline_count(bytes: Seq<u8>) -> nat
    decreases bytes.len(),
{
    if bytes.len() == 0 {
        0
    } else {
        newline_count(bytes.drop_last()) + if bytes.last() == NEWLINE {
            1nat
        } else {
            0nat
        }
    }
}

/// `bytes` ends a line.
pub open spec fn ends_line(bytes: Seq<u8>) -> bool {
    bytes.len() > 0 && bytes.last() == NEWLINE
}

/// The framing of everything the formatter writes for `events`, by
/// induction on the events.
proof fn lemma_framing_of(events: Seq<bool>)
    requires
        never_below_top(events),
    ensures
        depth_after(0, events) == opens(events) - closes(events),
        without_newlines(bytes_written(0, events)) == braces(events),
        forall|j: int|
            0 <= j < bytes_written(0, events).len() && #[trigger] bytes_written(0, events)[j]
                == NEWLINE ==> j >= 1 && bytes_written(0, events)[j - 1] == CLOSE_BRACE,
        newline_count(bytes_written(0, events)) == top_level_closes(events),
        ends_line(bytes_written(0, events)) <==> (events.len() > 0 && depth_after(0, events)
            == 0),
    decreases events.len(),
{
    let b = bytes_written(0, events);
    if events.len() == 0 {
        assert(braces(events) =~= Seq::<u8>::empty());
    } else {
        let p = events.drop_last();
        assert forall|i: int| 0 <= i <= p.len() implies depth_after(0, #[trigger] p.take(i)) >= 0 by {
            assert(p.take(i) =~= events.take(i));
        }
        lemma_framing_of(p);
        let pb = bytes_written(0, p);
        let d = depth_after(0, p);
        assert(events.take(events.len() as int) =~= events);
        assert(depth_after(0, events) >= 0);
        assert(braces(events) =~= braces(p).push(if events.last() { OPEN_BRACE } else { CLOSE_BRACE }));
        if events.last() {
            assert(b == pb.push(OPEN_BRACE));
            assert(b.drop_last() =~= pb);
            assert(without_newlines(b) == without_newlines(pb).push(OPEN_BRACE));
        } else {
            let one = pb.push(CLOSE_BRACE);
            assert(one.drop_last() =~= pb);
            assert(without_newlines(one) == without_newlines(pb).push(CLOSE_BRACE));
            assert(newline_count(one) == newline_count(pb));
            if d - 1 == 0 {
                assert(close_bytes((d - 1) as nat) == seq![CLOSE_BRACE, NEWLINE]);
                assert(b =~= one.push(NEWLINE));
                assert(b.drop_last() =~= one);
            } else {
                assert(close_bytes((d - 1) as nat) == seq![CLOSE_BRACE]);
                assert(b =~= one);
            }
        }
        assert forall|j: int|
            0 <= j < b.len() && #[trigger] b[j] == NEWLINE implies j >= 1 && b[j - 1]
            == CLOSE_BRACE by {
            if j < pb.len() {
                assert(b[j] == pb[j]);
                assert(b[j - 1] == pb[j - 1]);
            } else if j == pb.len() + 1 {
                assert(b[j - 1] == CLOSE_BRACE);
            }
        }
    }
}

/// What the formatter writes for any sequence of calls that never closes
/// more objects than it opened: the depth is the number of opens less the
/// number of closes; leaving out newlines, the bytes are the braces of the
/// calls in order; a newline comes right after a `}`, once for every close
/// that brings the writer back to the top level, and nowhere else; and after
/// each call the output ends a line exactly when the writer is back at the
/// top level. So each top-level object ends its own line.
pub proof fn lemma_output_is_framed(events: Seq<bool>)
    requires
        never_below_top(events),
    ensures
        depth_after(0, events) == opens(events) - closes(events),
        without_newlines(bytes_written(0, events)) == braces(events),
        forall|j: int|
            0 <= j < bytes_written(0, events).len() && #[trigger] bytes_written(0, events)[j]
                == NEWLINE ==> j >= 1 && bytes_written(0, events)[j - 1] == CLOSE_BRACE,
        newline_count(bytes_written(0, events)) == top_level_closes(events),
        forall|i: int|
            1 <= i <= events.len() ==> (ends_line(bytes_written(0, #[trigger] events.take(i)))
                <==> depth_after(0, events.take(i)) == 0),
{
    lemma_framing_of(events);
    assert forall|i: int| 1 <= i <= events.len() implies (ends_line(
        bytes_written(0, #[trigger] events.take(i)),
    ) <==> depth_after(0, events.take(i)) == 0) by {
        let p = events.take(i);
        assert forall|k: int| 0 <= k <= p.len() implies depth_after(0, #[trigger] p.take(k)) >= 0 by {
            assert(p.take(k) =~= events.take(k));
        }
        lemma_framing_of(p);
    }
}

/// The bytes of `outs`, one after the other.
pub open spec fn joined(outs: Seq<Seq<u8>>) -> Seq<u8>
    decreases outs.len(),
{
    if outs.len() == 0 {
        Seq::empty()
    } else {
        joined(outs.drop_last()) + outs.last()
    }
}

/// A formatter made by `new` and then called in turn, opening where
/// `events` is true and closing where it is false, passes through the depths
/// `depths` and hands back `outs`: after each call its depth is the model's,
/// everything it has handed back so far is what the model writes, and it has
/// never closed more objects than it opened.
pub proof fn lemma_calls_follow_model(depths: Seq<nat>, events: Seq<bool>, outs: Seq<Seq<u8>>)
    requires
        depths.len() == events.len() + 1,
        outs.len() == events.len(),
        depths[0] == 0,
        forall|i: int|
            0 <= i < events.len() ==> call_step(depths[i], #[trigger] events[i], depths[i + 1], outs[i]),
    ensures
        never_below_top(events),
        forall|i: int|
            0 <= i <= events.len() ==> depths[i] == depth_after(0, #[trigger] events.take(i))
                && joined(outs.take(i)) == bytes_written(0, events.take(i)),
    decreases events.len(),
{
    if events.len() == 0 {
        assert(events.take(0) =~= Seq::<bool>::empty());
        assert(outs.take(0) =~= Seq::<Seq<u8>>::empty());
    } else {
        let n = events.len() - 1;
        let ps = depths.drop_last();
        let pe = events.drop_last();
        let po = outs.drop_last();
        assert forall|i: int| 0 <= i < pe.len() implies call_step(ps[i], #[trigger] pe[i], ps[i + 1], po[i]) by {
            assert(call_step(depths[i], events[i], depths[i + 1], outs[i]));
        }
        lemma_calls_follow_model(ps, pe, po);
        assert forall|i: int| 0 <= i <= events.len() implies depths[i] == depth_after(
            0,
            #[trigger] events.take(i),
        ) && joined(outs.take(i)) == bytes_written(0, events.take(i)) by {
            if i <= n {
                assert(pe.take(i) =~= events.take(i));
                assert(po.take(i) =~= outs.take(i));
                assert(ps[i] == depths[i]);
            } else {
                assert(events.take(i) =~= events);
                assert(outs.take(i) =~= outs);
                assert(events.drop_last() =~= pe.take(n));
                assert(outs.drop_last() =~= po.take(n));
                assert(ps[n] == depths[n]);
                assert(call_step(depths[n], events[n], depths[n + 1], outs[n]));
                assert(events.last() == events[n]);
                assert(outs.last() == outs[n]);
                if events[n] {
                    assert(outs[n] == seq![OPEN_BRACE]);
                    assert(bytes_written(0, events) =~= bytes_written(0, pe.take(n)) + outs[n]);
                } else {
                    assert(bytes_written(0, events) =~= bytes_written(0, pe.take(n)) + outs[n]);
                }
            }
        }
        assert forall|i: int| 0 <= i <= events.len() implies depth_after(0, #[trigger] events.take(i)) >= 0 by {
            assert(depths[i] == depth_after(0, events.take(i)));
        }
    }
}

} // verus!
