use std::collections::HashSet;
use vstd::prelude::*;
use vstd::std_specs::iter::IteratorSpec;

verus! {

/// The values among the first `n` items of `s`.
pub open spec fn prefix_set(s: Seq<&usize>, n: int) -> Set<usize> {
    Set::new(|v: usize| exists|j: int| 0 <= j < n && *s[j] == v)
}

/// Every value in `s` stands among its items.
proof fn lemma_prefix_set_full(s: Seq<&usize>, set: Set<usize>)
    requires
        s.unref().to_set() == set,
    ensures
        prefix_set(s, s.len() as int) == set,
{
    let m = s.unref();
    assert forall|v: usize| set.contains(v) implies prefix_set(s, s.len() as int).contains(v) by {
        assert(m.to_set().contains(v));
        let j = choose|j: int| 0 <= j < m.len() && m[j] == v;
        assert(*s[j] == v);
    }
    assert forall|v: usize| prefix_set(s, s.len() as int).contains(v) implies set.contains(v) by {
        let j = choose|j: int| 0 <= j < s.len() && *s[j] == v;
        assert(m[j] == v);
        assert(m.contains(v));
    }
    assert(prefix_set(s, s.len() as int) =~= set);
}

/// Adds every value of `src` to `dst`.
pub fn extend_set(dst: &mut HashSet<usize>, src: &HashSet<usize>)
    ensures
        final(dst)@ == old(dst)@.union(src@),
{
    let ghost start = dst@;
    let ghost s = vstd::std_specs::hash::spec_hash_keys_iter(src).remaining();
    proof {
        lemma_prefix_set_full(s, src@);
    }
    for x in it: src.iter()
        invariant
            it.seq() == s,
            prefix_set(s, s.len() as int) == src@,
            dst@ == start.union(prefix_set(s, it.index())),
    {
        dst.insert(*x);
        proof {
            assert(dst@ =~= start.union(prefix_set(s, it.index() + 1)));
        }
    }
}

/// A fresh set holding the values of `src`.
pub fn copy_set(src: &HashSet<usize>) -> (out: HashSet<usize>)
    ensures
        out@ == src@,
{
    let mut out: HashSet<usize> = HashSet::new();
    extend_set(&mut out, src);
    proof {
        assert(out@ =~= src@);
    }
    out
}

/// The values of `a` that `b` lacks.
pub fn difference_set(a: &HashSet<usize>, b: &HashSet<usize>) -> (out: HashSet<usize>)
    ensures
        out@ == a@.difference(b@),
{
    let mut out: HashSet<usize> = HashSet::new();
    let ghost s = vstd::std_specs::hash::spec_hash_keys_iter(a).remaining();
    proof {
        lemma_prefix_set_full(s, a@);
    }
    for x in it: a.iter()
        invariant
            it.seq() == s,
            prefix_set(s, s.len() as int) == a@,
            out@ == prefix_set(s, it.index()).difference(b@),
    {
        if !b.contains(x) {
            out.insert(*x);
        }
        proof {
            assert(out@ =~= prefix_set(s, it.index() + 1).difference(b@));
        }
    }
    out
}

/// The values of `src`, each once, in the order in which the set yields them.
pub fn set_to_vec(src: &HashSet<usize>) -> (out: Vec<usize>)
    ensures
        out@.to_set() == src@,
        out@.no_duplicates(),
        out@.len() == src@.len(),
{
    let mut out: Vec<usize> = Vec::new();
    let ghost s = vstd::std_specs::hash::spec_hash_keys_iter(src).remaining();
    for x in it: src.iter()
        invariant
            it.seq() == s,
            s.unref().to_set() == src@,
            s.no_duplicates(),
            s.len() == src@.len(),
            out@ == s.unref().take(it.index()),
    {
        out.push(*x);
        proof {
            assert(out@ =~= s.unref().take(it.index() + 1));
        }
    }
    proof {
        assert(out@ =~= s.unref());
        assert forall|i: int, j: int| 0 <= i < out@.len() && 0 <= j < out@.len() && i != j
            implies out@[i] != out@[j] by {
            assert(s[i] != s[j]);
        }
    }
    out
}

} // verus!
