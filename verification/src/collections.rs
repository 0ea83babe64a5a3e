//! Collections of other crates that the library keeps its state in.
use crate::ids::CompositeId;
use fnv::{FnvBuildHasher, FnvHashMap, FnvHasher};
use lru_cache::LruCache;
use std::hash::{BuildHasher, Hash};
use std::sync::Arc;
use vstd::prelude::*;

verus! {

/// The hasher that `fnv::FnvHashMap` hashes with.
#[verifier::external_type_specification]
#[verifier::external_body]
pub struct ExFnvHasher(FnvHasher);

/// What `fnv::FnvHashMap` makes its hashers with.
#[verifier::external_type_specification]
#[verifier::external_body]
#[verifier::reject_recursive_types(H)]
pub struct ExBuildHasherDefault<H>(std::hash::BuildHasherDefault<H>);

/// The bounded map of the `lru-cache` crate.
#[verifier::external_type_specification]
#[verifier::external_body]
#[verifier::reject_recursive_types(K)]
#[verifier::reject_recursive_types(V)]
#[verifier::reject_recursive_types(S)]
pub struct ExLruCache<K: Eq + Hash, V, S: BuildHasher>(LruCache<K, V, S>);

/// Calls `fnv::FnvHashMap::default`: a map with no entries.
#[verifier::external_body]
pub(crate) fn fnv_new<V>() -> (m: FnvHashMap<i32, V>)
    ensures
        m@.dom() == Set::<i32>::empty(),
{
    FnvHashMap::default()
}

/// Calls `get` of `fnv::FnvHashMap`: the value that the map has for a key, if it has the key.
#[verifier::external_body]
pub(crate) fn fnv_get<V>(m: &FnvHashMap<i32, V>, key: i32) -> (r: Option<&V>)
    ensures
        r == if m@.contains_key(key) {
            Some(&m@[key])
        } else {
            None
        },
{
    m.get(&key)
}

/// Calls `insert` of `fnv::FnvHashMap`: the map has the value for the key, and otherwise what it
/// had.
#[verifier::external_body]
pub(crate) fn fnv_insert<V>(m: &mut FnvHashMap<i32, V>, key: i32, value: V)
    ensures
        final(m)@ == old(m)@.insert(key, value),
{
    m.insert(key, value);
}

/// Calls `remove` of `fnv::FnvHashMap`: takes a key out of the map, and hands out the value that
/// the map had for it.
#[verifier::external_body]
pub(crate) fn fnv_remove<V>(m: &mut FnvHashMap<i32, V>, key: i32) -> (r: Option<V>)
    ensures
        final(m)@ == old(m)@.remove(key),
        r == if old(m)@.contains_key(key) {
            Some(old(m)@[key])
        } else {
            None
        },
{
    m.remove(&key)
}

/// Calls `keys` of `fnv::FnvHashMap`: walks over the keys, each once, in no particular order.
#[verifier::external_body]
fn fnv_keys<V>(m: &FnvHashMap<i32, V>) -> (r: std::collections::hash_map::Keys<'_, i32, V>)
    ensures
        vstd::std_specs::iter::IteratorSpec::remaining(&r).no_duplicates(),
        vstd::std_specs::iter::IteratorSpec::remaining(&r).unref().to_set() == m@.dom(),
        vstd::std_specs::iter::IteratorSpec::decrease(&r) is Some,
        vstd::std_specs::iter::IteratorSpec::initial_value_relation(&r, &r),
{
    m.keys()
}

/// The keys of `m`, each once, in no particular order.
pub(crate) fn fnv_key_list<V>(m: &FnvHashMap<i32, V>) -> (r: Vec<i32>)
    ensures
        r@.no_duplicates(),
        forall|k: i32| #[trigger] r@.contains(k) <==> m@.contains_key(k),
{
    let mut r: Vec<i32> = Vec::new();
    let keys = fnv_keys(m);
    let ghost all = vstd::std_specs::iter::IteratorSpec::remaining(&keys);
    for k in it: keys
        invariant
            it.seq() == all,
            r@.len() == it.index(),
            forall|i: int| 0 <= i < r@.len() ==> r@[i] == *all[i],
    {
        r.push(*k);
    }
    proof {
        assert(r@ =~= all.unref());
        assert forall|k: i32| #[trigger] r@.contains(k) <==> m@.contains_key(k) by {
            assert(r@.to_set().contains(k) <==> r@.contains(k));
            assert(m@.dom().contains(k) <==> m@.contains_key(k));
        }
    }
    r
}

/// The cache that video indexes are kept in, by composite id.
pub type VideoIndexCache = LruCache<i64, Vec<u8>, FnvBuildHasher>;

/// What a cache holds, from the least to the most recently used.
pub uninterp spec fn cache_entries(c: LruCache<i64, Vec<u8>, FnvBuildHasher>) -> Seq<
    (i64, Seq<u8>),
>;

/// How many entries a cache can hold.
pub uninterp spec fn cache_capacity(c: LruCache<i64, Vec<u8>, FnvBuildHasher>) -> nat;

/// `s` without the entry for `key`.
pub open spec fn entries_without(s: Seq<(i64, Seq<u8>)>, key: i64) -> Seq<(i64, Seq<u8>)> {
    s.filter(|e: (i64, Seq<u8>)| e.0 != key)
}

/// `s` without the entries for `keys`.
pub open spec fn entries_without_all(
    s: Seq<(i64, Seq<u8>)>,
    keys: Seq<CompositeId>,
) -> Seq<(i64, Seq<u8>)>
    decreases keys.len(),
{
    if keys.len() == 0 {
        s
    } else {
        entries_without(entries_without_all(s, keys.drop_last()), keys.last().0)
    }
}

/// `s` with `value` for `key` as the most recently used entry. The least recently used entry makes
/// room if there are more than `capacity`.
pub open spec fn entries_put(
    s: Seq<(i64, Seq<u8>)>,
    key: i64,
    value: Seq<u8>,
    capacity: nat,
) -> Seq<(i64, Seq<u8>)> {
    let t = entries_without(s, key).push((key, value));
    if t.len() > capacity {
        t.drop_first()
    } else {
        t
    }
}

/// Whether `s` has an entry for `key`.
pub open spec fn entries_have(s: Seq<(i64, Seq<u8>)>, key: i64) -> bool {
    exists|value: Seq<u8>| s.contains((key, value))
}

/// Calls `lru_cache::LruCache::with_hasher`: a cache with no entries that can hold `capacity`.
#[verifier::external_body]
pub(crate) fn cache_new(capacity: usize) -> (c: VideoIndexCache)
    ensures
        cache_entries(c).len() == 0,
        cache_capacity(c) == capacity,
{
    LruCache::with_hasher(capacity, Default::default())
}

/// Calls `lru_cache::LruCache::get_mut`: the value for a key, if the cache has one. The entry
/// becomes the most recently used one.
#[verifier::external_body]
pub(crate) fn cache_get_mut(c: &mut VideoIndexCache, key: i64) -> (r: Option<&mut Vec<u8>>)
    ensures
        cache_capacity(*final(c)) == cache_capacity(*old(c)),
        match r {
            Some(v) => cache_entries(*old(c)).contains((key, v@)) && cache_entries(*final(c))
                == entries_without(cache_entries(*old(c)), key).push((key, final(v)@)),
            None => !entries_have(cache_entries(*old(c)), key) && cache_entries(*final(c))
                == cache_entries(*old(c)),
        },
{
    c.get_mut(&key)
}

/// Calls `lru_cache::LruCache::insert`: the entry becomes the most recently used one, in place of
/// any other for its key; the least recently used entry goes if the cache holds too many.
#[verifier::external_body]
pub(crate) fn cache_insert(c: &mut VideoIndexCache, key: i64, value: Vec<u8>)
    ensures
        cache_capacity(*final(c)) == cache_capacity(*old(c)),
        cache_entries(*final(c)) == entries_put(
            cache_entries(*old(c)),
            key,
            value@,
            cache_capacity(*old(c)),
        ),
{
    c.insert(key, value);
}

/// Calls `lru_cache::LruCache::remove`: the entry for a key goes, if there is one, and the others
/// stay in their order.
#[verifier::external_body]
pub(crate) fn cache_remove(c: &mut VideoIndexCache, key: i64)
    ensures
        cache_capacity(*final(c)) == cache_capacity(*old(c)),
        cache_entries(*final(c)) == entries_without(cache_entries(*old(c)), key),
{
    c.remove(&key);
}

/// Calls `clone` of `std::sync::Arc`: another pointer to the same value.
#[verifier::external_body]
pub(crate) fn shared<T>(a: &Arc<T>) -> (r: Arc<T>)
    ensures
        r == *a,
{
    a.clone()
}

} // verus!
