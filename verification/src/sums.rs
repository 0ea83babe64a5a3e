//! Sums over sequences and maps.
use vstd::prelude::*;

verus! {

/// The sum of `weight` over `s`.
pub open spec fn sum_of<A>(s: Seq<A>, weight: spec_fn(A) -> int) -> int
    decreases s.len(),
{
    if s.len() == 0 {
        0
    } else {
        sum_of(s.drop_last(), weight) + weight(s.last())
    }
}

/// The sum of `weight` over the values of `m`.
pub open spec fn sum_of_values<K, A>(m: Map<K, A>, weight: spec_fn(A) -> int) -> int
    decreases m.dom().len(),
    when m.dom().finite()
{
    if m.dom().len() == 0 {
        0
    } else {
        let k = m.dom().choose();
        sum_of_values(m.remove(k), weight) + weight(m[k])
    }
}

/// Taking an entry out of a map takes its weight out of the sum.
pub proof fn lemma_sum_without<K, A>(m: Map<K, A>, weight: spec_fn(A) -> int, k: K)
    requires
        m.dom().finite(),
        m.contains_key(k),
    ensures
        sum_of_values(m, weight) == sum_of_values(m.remove(k), weight) + weight(m[k]),
    decreases m.dom().len(),
{
    let c = m.dom().choose();
    assert(m.dom().contains(k));
    assert(m.dom().len() > 0) by {
        if m.dom().len() == 0 {
            assert(m.dom() =~= Set::<K>::empty());
        }
    }
    assert(m.dom().contains(c));
    if c != k {
        assert(m.remove(c).dom() =~= m.dom().remove(c));
        assert(m.remove(k).dom() =~= m.dom().remove(k));
        lemma_sum_without(m.remove(c), weight, k);
        lemma_sum_without(m.remove(k), weight, c);
        assert(m.remove(c).remove(k) =~= m.remove(k).remove(c));
    }
}

/// An entry of a map adds its weight to the sum over the others.
pub proof fn lemma_sum_insert<K, A>(m: Map<K, A>, weight: spec_fn(A) -> int, k: K, a: A)
    requires
        m.dom().finite(),
    ensures
        m.insert(k, a).dom().finite(),
        sum_of_values(m.insert(k, a), weight) == sum_of_values(m.remove(k), weight) + weight(a),
{
    assert(m.insert(k, a).dom() =~= m.dom().insert(k));
    lemma_sum_without(m.insert(k, a), weight, k);
    assert(m.insert(k, a).remove(k) =~= m.remove(k));
}

/// A sum of weights none of which is negative is at least as great as any of them.
pub proof fn lemma_sum_bounds<K, A>(m: Map<K, A>, weight: spec_fn(A) -> int)
    requires
        m.dom().finite(),
        forall|a: A| #[trigger] weight(a) >= 0,
    ensures
        sum_of_values(m, weight) >= 0,
        forall|k: K| #[trigger] m.contains_key(k) ==> sum_of_values(m, weight) >= weight(m[k]),
    decreases m.dom().len(),
{
    if m.dom().len() > 0 {
        let c = m.dom().choose();
        assert(m.dom().contains(c)) by {
            if m.dom() =~= Set::<K>::empty() {
            }
        }
        assert(m.remove(c).dom() =~= m.dom().remove(c));
        lemma_sum_bounds(m.remove(c), weight);
        assert forall|k: K| #[trigger] m.contains_key(k) implies sum_of_values(m, weight)
            >= weight(m[k]) by {
            if k != c {
                assert(m.remove(c).contains_key(k));
            }
        }
    } else {
        assert(m.dom() =~= Set::<K>::empty());
    }
}

/// Maps whose values weigh the same under each key have the same sum.
pub proof fn lemma_sum_same<K, A>(a: Map<K, A>, b: Map<K, A>, weight: spec_fn(A) -> int)
    requires
        a.dom().finite(),
        a.dom() == b.dom(),
        forall|k: K| #[trigger] a.contains_key(k) ==> weight(a[k]) == weight(b[k]),
    ensures
        sum_of_values(a, weight) == sum_of_values(b, weight),
    decreases a.dom().len(),
{
    if a.dom().len() > 0 {
        let k = a.dom().choose();
        assert(a.dom().contains(k));
        assert(a.contains_key(k));
        assert(a.remove(k).dom() =~= a.dom().remove(k));
        assert(b.remove(k).dom() =~= b.dom().remove(k));
        lemma_sum_same(a.remove(k), b.remove(k), weight);
    }
}

} // verus!
