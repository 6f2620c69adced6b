//! Facts about sequences and their multisets used across the planner.
use vstd::prelude::*;

verus! {

broadcast use vstd::seq_lib::group_to_multiset_ensures, vstd::multiset::group_multiset_axioms;

/// Mapping every element keeps two sequences with equal multisets equal as multisets.
pub proof fn lemma_map_preserves_multiset_eq<A, B>(s: Seq<A>, t: Seq<A>, f: spec_fn(A) -> B)
    requires
        s.to_multiset() == t.to_multiset(),
    ensures
        s.map_values(f).to_multiset() == t.map_values(f).to_multiset(),
    decreases s.len(),
{
    vstd::seq_lib::to_multiset_len(s);
    vstd::seq_lib::to_multiset_len(t);
    if s.len() == 0 {
        assert(t.len() == 0);
        assert(s.map_values(f) =~= t.map_values(f));
    } else {
        let x = s.last();
        let s0 = s.drop_last();
        assert(s =~= s0.push(x));
        vstd::seq_lib::to_multiset_build(s0, x);
        assert(s.to_multiset().count(x) > 0);
        vstd::seq_lib::to_multiset_contains(t, x);
        let i = choose|i: int| 0 <= i < t.len() && t[i] == x;
        let t0 = t.remove(i);
        vstd::seq_lib::to_multiset_remove(t, i);
        assert(s0.to_multiset() =~= s.to_multiset().remove(x));
        lemma_map_preserves_multiset_eq(s0, t0, f);
        assert(s.map_values(f) =~= s0.map_values(f).push(f(x)));
        vstd::seq_lib::to_multiset_build(s0.map_values(f), f(x));
        assert(t0.map_values(f) =~= t.map_values(f).remove(i));
        vstd::seq_lib::to_multiset_remove(t.map_values(f), i);
        assert(t.map_values(f).to_multiset().count(f(x)) > 0) by {
            vstd::seq_lib::to_multiset_contains(t.map_values(f), f(x));
            assert(t.map_values(f)[i] == f(x));
        }
        assert(t.map_values(f).to_multiset() =~= t.map_values(f).to_multiset().remove(f(x)).insert(f(x)));
    }
}

} // verus!
