use vstd::prelude::*;
use vstd::string::StringExecFns;

use crate::message::generate::{decimal, push_decimal};
use crate::message::gossip::names;
use crate::sets::set_to_vec;
use crate::{topology_names, MyActor};

verus! {

/// The text that std's `Debug` gives a string.
pub uninterp spec fn debug_quoted(text: Seq<char>) -> Seq<char>;

/// Writes `text` as std's `Debug` for strings does (`format!("{:?}", text)`):
/// in double quotes, with quotes, backslashes and control characters
/// escaped. Nothing is claimed of the escaping beyond that the result is
/// `debug_quoted` of the text, a function of the text alone.
#[verifier::external_body]
fn quote(text: &String) -> (q: String)
    ensures
        q@ == debug_quoted(text@),
{
    format!("{:?}", text)
}

/// `items` separated by commas, as `Debug` separates the items of a list,
/// a set or a map.
pub open spec fn joined_items(items: Seq<Seq<char>>) -> Seq<char>
    decreases items.len(),
{
    if items.len() == 0 {
        Seq::empty()
    } else if items.len() == 1 {
        items[0]
    } else {
        joined_items(items.drop_last()) + ", "@ + items.last()
    }
}

/// A list as `Debug` writes it.
pub open spec fn list_text(items: Seq<Seq<char>>) -> Seq<char> {
    "["@ + joined_items(items) + "]"@
}

/// A map from texts to lists as `Debug` writes it, its entries in order.
pub open spec fn map_text(entries: Seq<(Seq<char>, Seq<Seq<char>>)>) -> Seq<char> {
    "{"@ + joined_items(
        entries.map_values(|e: (Seq<char>, Seq<Seq<char>>)| e.0 + ": "@ + list_text(e.1)),
    ) + "}"@
}

/// A set of numbers as `Debug` writes it, its values in order.
pub open spec fn set_text(values: Seq<usize>) -> Seq<char> {
    "{"@ + joined_items(values.map_values(|v: usize| decimal(v as nat))) + "}"@
}

/// The debug text of a node: its counter, name, node names, layout and
/// values, each string already written as `Debug` writes strings.
pub open spec fn actor_text(
    id: nat,
    node_id: Seq<char>,
    node_ids: Seq<Seq<char>>,
    topology: Seq<(Seq<char>, Seq<Seq<char>>)>,
    values: Seq<usize>,
) -> Seq<char> {
    "MyActor { id: "@ + decimal(id) + ", node_id: "@ + node_id + ", node_ids: "@ + list_text(
        node_ids,
    ) + ", topology: "@ + map_text(topology) + ", messages: "@ + set_text(values) + " }"@
}

/// Appends `items`, separated by commas, to `s`.
fn push_joined(s: &mut String, items: &Vec<String>)
    ensures
        final(s)@ == old(s)@ + joined_items(names(items@)),
{
    let ghost start = s@;
    let ghost all = names(items@);
    let mut i: usize = 0;
    proof {
        assert(all.take(0) =~= Seq::<Seq<char>>::empty());
    }
    while i < items.len()
        invariant
            i <= items@.len(),
            all == names(items@),
            s@ == start + joined_items(all.take(i as int)),
        decreases items@.len() - i,
    {
        proof {
            assert(all.take(i + 1).drop_last() =~= all.take(i as int));
            assert(all.take(i + 1).last() == items@[i as int]@);
        }
        if i > 0 {
            s.append(", ");
        }
        s.append(items[i].as_str());
        proof {
            if i == 0 {
                assert(all.take(1) =~= seq![items@[0]@]);
            }
            assert(s@ =~= start + joined_items(all.take(i + 1)));
        }
        i = i + 1;
    }
    proof {
        assert(all.take(items@.len() as int) =~= all);
    }
}

/// Appends `values` in decimal, separated by commas, to `s`.
fn push_joined_numbers(s: &mut String, values: &Vec<usize>)
    ensures
        final(s)@ == old(s)@ + joined_items(values@.map_values(|v: usize| decimal(v as nat))),
{
    let ghost start = s@;
    let ghost all = values@.map_values(|v: usize| decimal(v as nat));
    let mut i: usize = 0;
    proof {
        assert(all.take(0) =~= Seq::<Seq<char>>::empty());
    }
    while i < values.len()
        invariant
            i <= values@.len(),
            all == values@.map_values(|v: usize| decimal(v as nat)),
            s@ == start + joined_items(all.take(i as int)),
        decreases values@.len() - i,
    {
        proof {
            assert(all.take(i + 1).drop_last() =~= all.take(i as int));
            assert(all.take(i + 1).last() == decimal(values@[i as int] as nat));
        }
        if i > 0 {
            s.append(", ");
        }
        push_decimal(s, values[i]);
        proof {
            if i == 0 {
                assert(all.take(1) =~= seq![decimal(values@[0] as nat)]);
            }
            assert(s@ =~= start + joined_items(all.take(i + 1)));
        }
        i = i + 1;
    }
    proof {
        assert(all.take(values@.len() as int) =~= all);
    }
}

/// Appends the entries of a layout, each as `name: [neighbours]` and
/// separated by commas, to `s`.
fn push_entries(s: &mut String, entries: &Vec<(String, Vec<String>)>)
    ensures
        final(s)@ == old(s)@ + joined_items(
            topology_names(entries@).map_values(
                |e: (Seq<char>, Seq<Seq<char>>)| e.0 + ": "@ + list_text(e.1),
            ),
        ),
{
    let ghost start = s@;
    let ghost all = topology_names(entries@).map_values(
        |e: (Seq<char>, Seq<Seq<char>>)| e.0 + ": "@ + list_text(e.1),
    );
    let mut i: usize = 0;
    proof {
        assert(all.take(0) =~= Seq::<Seq<char>>::empty());
    }
    while i < entries.len()
        invariant
            i <= entries@.len(),
            all == topology_names(entries@).map_values(
                |e: (Seq<char>, Seq<Seq<char>>)| e.0 + ": "@ + list_text(e.1),
            ),
            s@ == start + joined_items(all.take(i as int)),
        decreases entries@.len() - i,
    {
        let ghost entry_text = entries@[i as int].0@ + ": "@ + list_text(names(entries@[i as int].1@));
        proof {
            assert(all.take(i + 1).drop_last() =~= all.take(i as int));
            assert(all.take(i + 1).last() == entry_text);
        }
        if i > 0 {
            s.append(", ");
        }
        let ghost mid = s@;
        s.append(entries[i].0.as_str());
        s.append(": ");
        s.append("[");
        push_joined(s, &entries[i].1);
        s.append("]");
        proof {
            assert(s@ =~= mid + entry_text);
            if i == 0 {
                assert(all.take(1) =~= seq![entry_text]);
            }
            assert(s@ =~= start + joined_items(all.take(i + 1)));
        }
        i = i + 1;
    }
    proof {
        assert(all.take(entries@.len() as int) =~= all);
    }
}

/// The debug text of a node from its parts, each string already written as
/// `Debug` writes strings.
pub fn assemble_debug_text(
    id: usize,
    node_id: &String,
    node_ids: &Vec<String>,
    topology: &Vec<(String, Vec<String>)>,
    values: &Vec<usize>,
) -> (text: String)
    ensures
        text@ == actor_text(id as nat, node_id@, names(node_ids@), topology_names(topology@), values@),
{
    let mut s = String::new();
    s.append("MyActor { id: ");
    push_decimal(&mut s, id);
    s.append(", node_id: ");
    s.append(node_id.as_str());
    s.append(", node_ids: ");
    s.append("[");
    push_joined(&mut s, node_ids);
    s.append("]");
    s.append(", topology: ");
    s.append("{");
    push_entries(&mut s, topology);
    s.append("}");
    s.append(", messages: ");
    s.append("{");
    push_joined_numbers(&mut s, values);
    s.append("}");
    s.append(" }");
    proof {
        assert(s@ =~= actor_text(
            id as nat,
            node_id@,
            names(node_ids@),
            topology_names(topology@),
            values@,
        ));
    }
    s
}

/// Each string of `items` written as `Debug` writes strings.
fn quote_all(items: &Vec<String>) -> (out: Vec<String>)
    ensures
        names(out@) == names(items@).map_values(|t: Seq<char>| debug_quoted(t)),
{
    let mut out: Vec<String> = Vec::new();
    let mut i: usize = 0;
    while i < items.len()
        invariant
            i <= items@.len(),
            names(out@) == names(items@.take(i as int)).map_values(|t: Seq<char>| debug_quoted(t)),
        decreases items@.len() - i,
    {
        out.push(quote(&items[i]));
        proof {
            assert(names(items@.take(i + 1)).map_values(|t: Seq<char>| debug_quoted(t)) =~= names(
                items@.take(i as int),
            ).map_values(|t: Seq<char>| debug_quoted(t)).push(debug_quoted(items@[i as int]@)));
            assert(names(out@) =~= names(items@.take(i + 1)).map_values(
                |t: Seq<char>| debug_quoted(t),
            ));
        }
        i = i + 1;
    }
    proof {
        assert(items@.take(items@.len() as int) =~= items@);
    }
    out
}

/// The layout with every name written as `Debug` writes strings.
pub open spec fn quoted_layout(layout: Seq<(Seq<char>, Seq<Seq<char>>)>) -> Seq<
    (Seq<char>, Seq<Seq<char>>),
> {
    layout.map_values(
        |e: (Seq<char>, Seq<Seq<char>>)|
            (debug_quoted(e.0), e.1.map_values(|t: Seq<char>| debug_quoted(t))),
    )
}

/// Each entry of `entries` with every name written as `Debug` writes
/// strings.
fn quote_layout(entries: &Vec<(String, Vec<String>)>) -> (out: Vec<(String, Vec<String>)>)
    ensures
        topology_names(out@) == quoted_layout(topology_names(entries@)),
{
    let mut out: Vec<(String, Vec<String>)> = Vec::new();
    let mut i: usize = 0;
    while i < entries.len()
        invariant
            i <= entries@.len(),
            topology_names(out@) == quoted_layout(topology_names(entries@.take(i as int))),
        decreases entries@.len() - i,
    {
        let entry = (quote(&entries[i].0), quote_all(&entries[i].1));
        let ghost prev = out@;
        let ghost want = quoted_layout(topology_names(entries@.take(i + 1)));
        proof {
            assert(topology_names(entries@.take(i + 1)) =~= topology_names(entries@.take(i as int)).push(
                (entries@[i as int].0@, names(entries@[i as int].1@)),
            ));
            assert(want =~= quoted_layout(topology_names(entries@.take(i as int))).push(
                (entry.0@, names(entry.1@)),
            ));
        }
        out.push(entry);
        proof {
            assert(topology_names(out@) =~= topology_names(prev).push((entry.0@, names(entry.1@))));
            assert(topology_names(out@) =~= want);
        }
        i = i + 1;
    }
    proof {
        assert(entries@.take(entries@.len() as int) =~= entries@);
    }
    out
}

impl MyActor {
    /// The node as its debug text shows it: its counter, name, node names,
    /// layout and values, the layout written as a map and the values as a set,
    /// in the order in which the node holds them.
    pub fn debug_text(&self) -> (text: String)
        ensures
            exists|values: Seq<usize>|
                values.to_set() == self@.messages && values.no_duplicates() && text@ == actor_text(
                    self@.next_id,
                    debug_quoted(self@.node_id),
                    self@.node_ids.map_values(|t: Seq<char>| debug_quoted(t)),
                    quoted_layout(self@.topology),
                    values,
                ),
    {
        let node_id = quote(&self.node_id);
        let node_ids = quote_all(&self.node_ids);
        let topology = quote_layout(&self.topology);
        let values = set_to_vec(&self.messages);
        let text = assemble_debug_text(self.id, &node_id, &node_ids, &topology, &values);
        proof {
            assert(values@.to_set() == self@.messages);
        }
        text
    }
}

} // verus!
