//! The keys of a map, in order.
use std::collections::BTreeMap;
use vstd::prelude::*;

verus! {

/// Whether numbers go up, each one above the one before.
pub open spec fn strictly_ascends(s: Seq<u64>) -> bool {
    forall|i: int, j: int| 0 <= i < j < s.len() ==> #[trigger] s[i] < #[trigger] s[j]
}

/// Whether these are the keys of a map in ascending order.
pub open spec fn are_keys_of<V>(keys: Seq<u64>, m: Map<u64, V>) -> bool {
    &&& strictly_ascends(keys)
    &&& keys.to_set() == m.dom()
}

proof fn lemma_increasing(s: Seq<u64>)
    requires
        vstd::std_specs::btree::increasing_seq(s),
    ensures
        strictly_ascends(s),
{
    vstd::std_specs::btree::axiom_increasing_seq_meaning(s);
    assert forall|i: int, j: int| 0 <= i < j < s.len() implies #[trigger] s[i]
        < #[trigger] s[j] by {
        assert(vstd::std_specs::cmp::OrdSpec::cmp_spec(&s[i], &s[j]) is Less);
    }
}

/// Lists the keys of a map in ascending order.
pub(crate) fn keys_of<V>(m: &BTreeMap<u64, V>) -> (r: Vec<u64>)
    ensures
        are_keys_of(r@, m@),
{
    let mut out: Vec<u64> = Vec::new();
    let entries = m.iter();
    let ghost pairs = vstd::std_specs::iter::IteratorSpec::remaining(&entries);
    let ghost keys = pairs.map_values(|kv: (&u64, &V)| *kv.0);
    proof {
        lemma_increasing(keys);
        assert(keys.to_set() =~= m@.dom()) by {
            assert forall|k: u64| #[trigger] m@.dom().contains(k) implies keys.to_set().contains(
                k,
            ) by {
                assert(m@.contains_key(k));
                assert(pairs.contains((&k, &m@[k])));
                let i = choose|i: int| 0 <= i < pairs.len() && pairs[i] == (&k, &m@[k]);
                assert(keys[i] == k);
            }
            assert forall|k: u64| #[trigger] keys.to_set().contains(k) implies m@.dom().contains(
                k,
            ) by {
                let i = choose|i: int| 0 <= i < keys.len() && keys[i] == k;
                assert(m@.contains_key(*pairs[i].0));
            }
        }
    }
    for kv in it: entries
        invariant
            it.seq() == pairs,
            keys == pairs.map_values(|kv: (&u64, &V)| *kv.0),
            out@ == keys.take(it.index() as int),
    {
        out.push(*kv.0);
        assert(out@ =~= keys.take(it.index() + 1));
    }
    assert(out@ =~= keys);
    out
}

} // verus!
