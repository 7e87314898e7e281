use vstd::prelude::*;

use vstd::string::StringExecFns;

use crate::message::{GlommerMessage, GlommerPayload};
use crate::{is_answer, ActorView, MyActor};

verus! {

/// A request for an identifier that no other request gets.
#[derive(Debug, Clone, PartialEq, Eq)]
pub struct Generate;

/// The answer to a [`Generate`].
#[derive(Debug, Clone, PartialEq, Eq)]
pub struct GenerateOk {
    pub id: String,
}

/// The character of the decimal digit `d`.
pub open spec fn digit_char(d: nat) -> char {
    if d == 0 {
        '0'
    } else if d == 1 {
        '1'
    } else if d == 2 {
        '2'
    } else if d == 3 {
        '3'
    } else if d == 4 {
        '4'
    } else if d == 5 {
        '5'
    } else if d == 6 {
        '6'
    } else if d == 7 {
        '7'
    } else if d == 8 {
        '8'
    } else {
        '9'
    }
}

/// `n` written in decimal, without leading zeros.
pub open spec fn decimal(n: nat) -> Seq<char>
    decreases n,
{
    if n < 10 {
        seq![digit_char(n)]
    } else {
        decimal(n / 10).push(digit_char(n % 10))
    }
}

/// The identifier that node `node` hands out when its message counter is `n`:
/// the node's name, a dash, and the counter in decimal.
pub open spec fn generated_id(node: Seq<char>, n: nat) -> Seq<char> {
    node + seq!['-'] + decimal(n)
}

/// A decimal numeral has at least one digit, and at least two from ten on.
pub proof fn lemma_decimal_len(n: nat)
    ensures
        decimal(n).len() >= 1,
        n >= 10 ==> decimal(n).len() >= 2,
    decreases n,
{
    if n >= 10 {
        lemma_decimal_len(n / 10);
    }
}

/// Distinct numbers have distinct decimal numerals.
pub proof fn lemma_decimal_injective(a: nat, b: nat)
    requires
        decimal(a) == decimal(b),
    ensures
        a == b,
    decreases a,
{
    lemma_decimal_len(a);
    lemma_decimal_len(b);
    if a < 10 && b < 10 {
        assert(decimal(a)[0] == digit_char(a));
        assert(decimal(b)[0] == digit_char(b));
    } else if a >= 10 && b >= 10 {
        assert(decimal(a).last() == digit_char(a % 10));
        assert(decimal(b).last() == digit_char(b % 10));
        assert(decimal(a / 10) == decimal(a).drop_last());
        assert(decimal(b / 10) == decimal(b).drop_last());
        lemma_decimal_injective(a / 10, b / 10);
    }
}

/// A decimal numeral has no dash in it.
pub proof fn lemma_decimal_has_no_dash(n: nat)
    ensures
        forall|i: int| 0 <= i < decimal(n).len() ==> #[trigger] decimal(n)[i] != '-',
    decreases n,
{
    if n >= 10 {
        lemma_decimal_has_no_dash(n / 10);
        let d = decimal(n);
        assert forall|i: int| 0 <= i < d.len() implies #[trigger] d[i] != '-' by {
            if i < d.len() - 1 {
                assert(d[i] == decimal(n / 10)[i]);
            }
        }
    }
}

/// In an identifier the dash follows the node's name, and no other dash
/// comes after it.
proof fn lemma_generated_id_dashes(a: Seq<char>, n: nat)
    ensures
        generated_id(a, n).len() == a.len() + 1 + decimal(n).len(),
        generated_id(a, n)[a.len() as int] == '-',
        forall|i: int|
            a.len() < i < generated_id(a, n).len() ==> #[trigger] generated_id(a, n)[i] != '-',
{
    let x = a + seq!['-'];
    let s = generated_id(a, n);
    lemma_decimal_has_no_dash(n);
    assert(s =~= x + decimal(n));
    assert(x[a.len() as int] == '-');
    assert forall|i: int| a.len() < i < s.len() implies #[trigger] s[i] != '-' by {
        assert((x + decimal(n))[i] == decimal(n)[i - x.len()]);
    }
}

/// An identifier names the node and the counter it was made from: the counter
/// follows the last dash.
pub proof fn lemma_generated_id_injective(a: Seq<char>, n: nat, b: Seq<char>, m: nat)
    requires
        generated_id(a, n) == generated_id(b, m),
    ensures
        a == b,
        n == m,
{
    let s = generated_id(a, n);
    lemma_generated_id_dashes(a, n);
    lemma_generated_id_dashes(b, m);
    if a.len() < b.len() {
        assert(s[b.len() as int] == '-');
    } else if b.len() < a.len() {
        assert(s[a.len() as int] == '-');
    }
    assert(a.len() == b.len());
    assert(a =~= s.subrange(0, a.len() as int));
    assert(b =~= s.subrange(0, b.len() as int));
    assert(decimal(n) =~= s.subrange(a.len() as int + 1, s.len() as int));
    assert(decimal(m) =~= s.subrange(b.len() as int + 1, s.len() as int));
    lemma_decimal_injective(n, m);
}

/// The text of the decimal digit `d`.
fn digit_str(d: usize) -> (s: &'static str)
    requires
        d < 10,
    ensures
        s@ == seq![digit_char(d as nat)],
{
    proof {
        reveal_strlit("0");
        reveal_strlit("1");
        reveal_strlit("2");
        reveal_strlit("3");
        reveal_strlit("4");
        reveal_strlit("5");
        reveal_strlit("6");
        reveal_strlit("7");
        reveal_strlit("8");
        reveal_strlit("9");
    }
    match d {
        0 => "0",
        1 => "1",
        2 => "2",
        3 => "3",
        4 => "4",
        5 => "5",
        6 => "6",
        7 => "7",
        8 => "8",
        _ => "9",
    }
}

/// Appends `n` in decimal to `s`.
pub(crate) fn push_decimal(s: &mut String, n: usize)
    ensures
        final(s)@ == old(s)@ + decimal(n as nat),
    decreases n,
{
    if n >= 10 {
        push_decimal(s, n / 10);
    }
    s.append(digit_str(n % 10));
    proof {
        if n >= 10 {
            assert(decimal(n as nat) == decimal((n / 10) as nat).push(digit_char((n % 10) as nat)));
        }
        assert(final(s)@ =~= old(s)@ + decimal(n as nat));
    }
}

/// The identifier for node `node` at counter `n`.
pub fn generate_id(node: &String, n: usize) -> (id: String)
    ensures
        id@ == generated_id(node@, n as nat),
{
    proof {
        reveal_strlit("-");
    }
    let mut id = node.clone().concat("-");
    push_decimal(&mut id, n);
    proof {
        assert(id@ =~= generated_id(node@, n as nat));
    }
    id
}

/// How a generate request numbered `msg_id` from `requester` changes a node
/// and what it answers: the identifier made of the node's name and the number
/// of the answer itself.
pub open spec fn generate_step(
    pre: ActorView,
    requester: Seq<char>,
    msg_id: Option<usize>,
    post: ActorView,
    out: Seq<GlommerMessage>,
) -> bool {
    &&& post == (ActorView { next_id: pre.next_id + 1, ..pre })
    &&& is_answer(out, pre, requester, msg_id)
    &&& out[0].body.payload matches GlommerPayload::GenerateOk(g) && g.id@ == generated_id(
        pre.node_id,
        pre.next_id,
    )
}

impl MyActor {
    /// Answers with an identifier that no other generate request to this node
    /// gets.
    pub fn handle_generate(&mut self, requester: String, msg_id: Option<usize>, _generate: Generate) -> (out: Vec<
        GlommerMessage,
    >)
        requires
            old(self)@.next_id < usize::MAX,
        ensures
            final(self).wf() == old(self).wf(),
            generate_step(old(self)@, requester@, msg_id, final(self)@, out@),
    {
        let id = generate_id(&self.node_id, self.id);
        self.reply(requester, msg_id, GlommerPayload::GenerateOk(GenerateOk { id }))
    }

    /// An answer to a generate needs nothing done.
    pub fn handle_generate_ok(&mut self, _generate_ok: GenerateOk)
        ensures
            *final(self) == *old(self),
    {
    }
}

} // verus!
