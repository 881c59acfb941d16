//! Facts about sequences that hold the same elements.

use vstd::prelude::*;

verus! {

broadcast use {vstd::seq_lib::group_to_multiset_ensures, vstd::multiset::group_multiset_axioms};

/// Mapping two sequences that hold the same elements gives two sequences
/// that hold the same elements.
pub proof fn lemma_map_values_same_multiset<A, B>(s1: Seq<A>, s2: Seq<A>, f: spec_fn(A) -> B)
    requires
        s1.to_multiset() == s2.to_multiset(),
    ensures
        s1.map_values(f).to_multiset() == s2.map_values(f).to_multiset(),
    decreases s1.len(),
{
    if s1.len() == 0 {
        assert(s2.len() == s2.to_multiset().len());
        assert(s1.map_values(f) =~= s2.map_values(f));
    } else {
        let x = s1.last();
        let t1 = s1.drop_last();
        assert(t1.push(x) =~= s1);
        assert(s1.to_multiset() == t1.to_multiset().insert(x));
        assert(s1.contains(x)) by {
            assert(s1[s1.len() - 1] == x);
        }
        assert(s2.to_multiset().count(x) > 0);
        assert(s2.contains(x));
        let k = choose|k: int| 0 <= k < s2.len() && s2[k] == x;
        let t2 = s2.remove(k);
        assert(t2.to_multiset() == s2.to_multiset().remove(x));
        assert(t1.to_multiset() =~= t2.to_multiset());
        lemma_map_values_same_multiset(t1, t2, f);
        let m1 = s1.map_values(f);
        let m2 = s2.map_values(f);
        assert(t1.map_values(f).push(f(x)) =~= m1);
        assert(m1.to_multiset() == t1.map_values(f).to_multiset().insert(f(x)));
        assert(m2.remove(k) =~= t2.map_values(f));
        assert(m2[k] == f(x));
        assert(m2.remove(k).to_multiset() == m2.to_multiset().remove(f(x)));
        assert(m2.contains(f(x)));
        assert(m2.to_multiset().count(f(x)) > 0);
        assert(m1.to_multiset() =~= m2.to_multiset());
    }
}

/// What holds of every element of a sequence holds of every element of a
/// sequence with the same elements.
pub proof fn lemma_forall_same_multiset<A>(s: Seq<A>, t: Seq<A>, pred: spec_fn(A) -> bool)
    requires
        s.to_multiset() == t.to_multiset(),
        forall|i: int| 0 <= i < t.len() ==> #[trigger] pred(t[i]),
    ensures
        forall|i: int| 0 <= i < s.len() ==> #[trigger] pred(s[i]),
{
    assert forall|i: int| 0 <= i < s.len() implies #[trigger] pred(s[i]) by {
        assert(s.contains(s[i]));
        assert(s.to_multiset().count(s[i]) > 0);
        assert(t.contains(s[i]));
        let k = choose|k: int| 0 <= k < t.len() && t[k] == s[i];
        assert(pred(t[k]));
    }
}

} // verus!
