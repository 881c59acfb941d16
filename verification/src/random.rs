//! The random choices the simulation makes, drawn from `rand`'s `StdRng`.

use vstd::prelude::*;
use rand::rngs::StdRng;
use rand::Rng;

verus! {

#[verifier::external_type_specification]
#[verifier::external_body]
pub struct ExStdRng(StdRng);

/// `Rng::gen_range` on the half-open range `lo..hi`: rand draws the value
/// uniformly from the range; what is claimed here is only that it lies in it.
/// rand panics on an empty range, which `requires` rules out.
#[verifier::external_body]
pub(crate) fn random_in_range(rng: &mut StdRng, lo: usize, hi: usize) -> (r: usize)
    requires
        lo < hi,
    ensures
        lo <= r < hi,
{
    rng.gen_range(lo..hi)
}

/// `<[T]>::swap`: exchanges the elements at `i` and `j`, as std documents;
/// std panics on an index out of bounds, which `requires` rules out.
#[verifier::external_body]
pub(crate) fn swap_items<T>(v: &mut Vec<T>, i: usize, j: usize)
    requires
        i < old(v)@.len(),
        j < old(v)@.len(),
    ensures
        final(v)@ == old(v)@.update(i as int, old(v)@[j as int]).update(j as int, old(v)@[i as int]),
{
    v.swap(i, j)
}

proof fn lemma_swap_to_multiset<T>(s: Seq<T>, i: int, j: int)
    requires
        0 <= i < s.len(),
        0 <= j < s.len(),
    ensures
        s.update(i, s[j]).update(j, s[i]).to_multiset() == s.to_multiset(),
{
    broadcast use vstd::seq_lib::group_to_multiset_ensures;
    broadcast use vstd::multiset::group_multiset_axioms;

    let s1 = s.update(i, s[j]);
    assert(s1.to_multiset() == s.to_multiset().insert(s[j]).remove(s[i]));
    assert(s1[j] == s[j]);
    assert(s1.update(j, s[i]).to_multiset() == s1.to_multiset().insert(s[i]).remove(s1[j]));
    assert(s1.update(j, s[i]).to_multiset() =~= s.to_multiset());
}

/// Shuffles `v` in place by Fisher and Yates's method: for each place from
/// the last down to the second, swaps it with a place drawn at random at or
/// before it. The result holds the same elements.
pub fn fisher_yates_shuffle<T>(v: &mut Vec<T>, rng: &mut StdRng)
    ensures
        final(v)@.len() == old(v)@.len(),
        final(v)@.to_multiset() == old(v)@.to_multiset(),
{
    let n = v.len();
    let mut i = n;
    while i > 1
        invariant
            i <= n,
            v@.len() == n,
            v@.to_multiset() == old(v)@.to_multiset(),
        decreases i,
    {
        i = i - 1;
        let j = random_in_range(rng, 0, i + 1);
        proof {
            lemma_swap_to_multiset(v@, i as int, j as int);
        }
        swap_items(v, i, j);
    }
}

} // verus!
