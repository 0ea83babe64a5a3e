//! Keys of ordered maps: as a list, and byte strings as numbers.
use std::collections::BTreeMap;
use vstd::prelude::*;

verus! {

/// Whether `s` is strictly increasing.
pub open spec fn ascending(s: Seq<i32>) -> bool {
    forall|i: int, j: int| 0 <= i < j < s.len() ==> s[i] < s[j]
}

/// The keys of `m`, each once, in the map's order.
pub fn keys_of<K: Copy + Ord, V>(m: &BTreeMap<K, V>) -> (r: Vec<K>)
    requires
        vstd::laws_cmp::obeys_cmp::<K>(),
    ensures
        r@.no_duplicates(),
        r@.len() == m@.len(),
        vstd::std_specs::btree::increasing_seq(r@),
        forall|k: K| #[trigger] r@.contains(k) <==> m@.contains_key(k),
{
    broadcast use vstd::std_specs::btree::group_btree_axioms;

    let mut r: Vec<K> = Vec::new();
    assert(vstd::std_specs::btree::key_obeys_cmp_spec::<K>());
    let ghost items = vstd::std_specs::iter::IteratorSpec::remaining(&m.iter());
    for kv in it: m.iter()
        invariant
            it.seq() == items,
            r@.len() == it.index(),
            forall|i: int| 0 <= i < r@.len() ==> r@[i] == *items[i].0,
    {
        r.push(*kv.0);
    }
    proof {
        let ks = items.map_values(|kv: (&K, &V)| *kv.0);
        assert(r@ =~= ks);
        assert forall|k: K| #[trigger] r@.contains(k) <==> m@.contains_key(k) by {
            if m@.contains_key(k) {
                assert(items.contains((&k, &m@[k])));
                let i = choose|i: int| 0 <= i < items.len() && items[i] == (&k, &m@[k]);
                assert(r@[i] == k);
            }
            if r@.contains(k) {
                let i = choose|i: int| 0 <= i < r@.len() && r@[i] == k;
                assert(m@.contains_key(*items[i].0));
            }
        }
        assert forall|i: int, j: int| 0 <= i < j < r@.len() implies r@[i] != r@[j] by {
            assert(m@.contains_key(*items[i].0) && m@[*items[i].0] == *items[i].1);
            assert(m@.contains_key(*items[j].0) && m@[*items[j].0] == *items[j].1);
            assert(items[i] != items[j]);
        }
    }
    r
}

/// The keys of `m`, each once, from the least to the greatest.
pub fn ascending_keys<V>(m: &BTreeMap<i32, V>) -> (r: Vec<i32>)
    ensures
        ascending(r@),
        r@.len() == m@.len(),
        forall|k: i32| #[trigger] r@.contains(k) <==> m@.contains_key(k),
{
    broadcast use vstd::std_specs::btree::group_btree_axioms;
    broadcast use vstd::laws_cmp::group_laws_cmp;

    let r = keys_of(m);
    proof {
        assert forall|i: int, j: int| 0 <= i < j < r@.len() implies r@[i] < r@[j] by {
            assert(vstd::std_specs::cmp::OrdSpec::cmp_spec(&r@[i], &r@[j]) is Less);
        }
    }
    r
}

/// The value of `s` as a number in base 256, most significant byte first. Byte strings of the same
/// length are in the order of these numbers.
pub open spec fn key_number(s: Seq<u8>) -> nat
    decreases s.len(),
{
    if s.len() == 0 {
        0
    } else {
        key_number(s.drop_last()) * 256 + s.last() as nat
    }
}

pub open spec fn power_of_256(n: nat) -> nat
    decreases n,
{
    if n == 0 {
        1
    } else {
        power_of_256((n - 1) as nat) * 256
    }
}

proof fn lemma_power_of_256(n: nat)
    requires
        n <= 16,
    ensures
        power_of_256(n) <= u128::MAX + 1,
{
    reveal_with_fuel(power_of_256, 17);
}

proof fn lemma_number_below_power(s: Seq<u8>)
    ensures
        key_number(s) < power_of_256(s.len()),
    decreases s.len(),
{
    if s.len() > 0 {
        lemma_number_below_power(s.drop_last());
    }
}

/// The number of at most sixteen bytes takes no more than 128 bits.
pub proof fn lemma_key_number_bound(s: Seq<u8>)
    requires
        s.len() <= 16,
    ensures
        key_number(s) <= u128::MAX,
{
    lemma_number_below_power(s);
    lemma_power_of_256(s.len());
}

/// Byte strings of the same length that have the same number are the same.
pub proof fn lemma_key_number_injective(a: Seq<u8>, b: Seq<u8>)
    requires
        a.len() == b.len(),
        key_number(a) == key_number(b),
    ensures
        a == b,
    decreases a.len(),
{
    if a.len() > 0 {
        lemma_key_number_injective(a.drop_last(), b.drop_last());
        assert(a =~= a.drop_last().push(a.last()));
        assert(b =~= b.drop_last().push(b.last()));
    } else {
        assert(a =~= b);
    }
}

/// The number of a byte string.
pub fn number_of_bytes(s: &[u8]) -> (r: u128)
    requires
        s@.len() <= 16,
    ensures
        r == key_number(s@),
{
    let mut r: u128 = 0;
    let mut i: usize = 0;
    assert(s@.take(0) =~= Seq::<u8>::empty());
    while i < s.len()
        invariant
            i <= s@.len() <= 16,
            r == key_number(s@.take(i as int)),
        decreases s@.len() - i,
    {
        proof {
            lemma_key_number_bound(s@.take(i + 1));
            assert(s@.take(i + 1).drop_last() =~= s@.take(i as int));
            assert(s@.take(i + 1).last() == s@[i as int]);
        }
        r = r * 256 + s[i] as u128;
        i += 1;
    }
    assert(s@.take(s@.len() as int) =~= s@);
    r
}

/// Of two byte strings of the same length, the one with the lesser byte at the first place where
/// they differ has the lesser number: the numbers are in the order of the strings.
pub proof fn lemma_key_number_order(a: Seq<u8>, b: Seq<u8>, i: int)
    requires
        a.len() == b.len(),
        0 <= i < a.len(),
        a.take(i) == b.take(i),
        a[i] < b[i],
    ensures
        key_number(a) < key_number(b),
    decreases a.len(),
{
    let x = a.drop_last();
    let y = b.drop_last();
    if i == a.len() - 1 {
        assert(x =~= a.take(i));
        assert(y =~= b.take(i));
    } else {
        assert(x.take(i) =~= a.take(i));
        assert(y.take(i) =~= b.take(i));
        lemma_key_number_order(x, y, i);
    }
}

} // verus!
