//! Video indexes of recordings, and the cache that they are kept in.
use crate::collections::{
    cache_get_mut, cache_insert, entries_have, entries_put, entries_without, entries_without_all,
};
use crate::error::Error;
use crate::ids::CompositeId;
use crate::model::{LockedDatabase, StateView};
use vstd::prelude::*;

verus! {

/// Select fields from the `recordings_playback` table. Retrieve with `with_recording_playback`.
#[derive(Debug)]
pub struct RecordingPlayback<'a> {
    pub video_index: &'a [u8],
}

/// A video index that was read from a column.
#[derive(Debug)]
pub struct VideoIndex(pub Vec<u8>);

impl VideoIndex {
    /// A copy of a column's bytes.
    pub fn column_result(blob: &[u8]) -> (r: Self)
        ensures
            r.0@ == blob@,
    {
        let mut v: Vec<u8> = Vec::with_capacity(blob.len());
        let mut i: usize = 0;
        while i < blob.len()
            invariant
                i <= blob@.len(),
                v@ == blob@.take(i as int),
            decreases blob@.len() - i,
        {
            v.push(blob[i]);
            assert(v@ =~= blob@.take(i + 1));
            i += 1;
        }
        assert(blob@.take(i as int) =~= blob@);
        VideoIndex(v)
    }
}

/// How looking for a recording's video index in the cache came out.
pub enum Lookup<F, R> {
    /// It was there, and the function was called with it.
    Hit(Result<R, Error>),
    /// It has to be read from the database. The function was not called.
    Miss(F),
}

impl LockedDatabase {
    /// Calls `f` with a single `recording_playback` row, if its video index is in the cache.
    ///
    /// This uses a LRU cache to reduce the number of retrievals from the database.
    pub fn with_recording_playback<F, R>(&mut self, id: CompositeId, f: F) -> (r: Lookup<
        F,
        R,
    >) where F: FnOnce(&RecordingPlayback) -> Result<R, Error>
        requires
            forall|p: RecordingPlayback| #[trigger] call_requires(f, (&p,)),
        ensures
            match r {
                Lookup::Hit(result) => exists|p: RecordingPlayback|
                    {
                        &&& old(self)@.cache.contains((id.0, p.video_index@))
                        &&& #[trigger] call_ensures(f, (&p,), result)
                        &&& final(self)@ == (StateView {
                            cache: entries_without(old(self)@.cache, id.0).push(
                                (id.0, p.video_index@),
                            ),
                            ..old(self)@
                        })
                    },
                Lookup::Miss(g) => g == f && !entries_have(old(self)@.cache, id.0) && final(self)@
                    == old(self)@,
            },
    {
        match cache_get_mut(&mut self.state.video_index_cache, id.0) {
            Some(video_index) => {
                let p = RecordingPlayback { video_index: video_index.as_slice() };
                let result = f(&p);
                Lookup::Hit(result)
            },
            None => Lookup::Miss(f),
        }
    }

    /// Calls `f` with a single `recording_playback` row that was read from the database, if there
    /// is such a row, and keeps its video index in the cache.
    pub fn with_fetched_playback<F, R>(
        &mut self,
        id: CompositeId,
        row: Option<VideoIndex>,
        f: F,
    ) -> (r: Result<R, Error>) where F: FnOnce(&RecordingPlayback) -> Result<R, Error>
        requires
            forall|p: RecordingPlayback| #[trigger] call_requires(f, (&p,)),
        ensures
            match row {
                None => r == Err::<R, Error>(Error::NoSuchRecording(id)) && final(self)@ == old(
                    self,
                )@,
                Some(video_index) => {
                    &&& final(self)@ == (StateView {
                        cache: entries_put(
                            old(self)@.cache,
                            id.0,
                            video_index.0@,
                            old(self)@.cache_capacity,
                        ),
                        ..old(self)@
                    })
                    &&& exists|p: RecordingPlayback|
                        p.video_index@ == video_index.0@ && #[trigger] call_ensures(f, (&p,), r)
                },
            },
    {
        match row {
            None => Err(Error::NoSuchRecording(id)),
            Some(video_index) => {
                let p = RecordingPlayback { video_index: video_index.0.as_slice() };
                let result = f(&p);
                cache_insert(&mut self.state.video_index_cache, id.0, video_index.0);
                result
            },
        }
    }
}

/// Whether no two entries of a cache have the same key.
pub open spec fn keys_distinct(s: Seq<(i64, Seq<u8>)>) -> bool {
    forall|i: int, j: int| 0 <= i < j < s.len() ==> (#[trigger] s[i]).0 != (#[trigger] s[j]).0
}

proof fn lemma_without(s: Seq<(i64, Seq<u8>)>, key: i64)
    ensures
        forall|e: (i64, Seq<u8>)| #[trigger]
            entries_without(s, key).contains(e) <==> s.contains(e) && e.0 != key,
        keys_distinct(s) ==> keys_distinct(entries_without(s, key)),
        entries_without(s, key).len() <= s.len(),
        s.len() > 0 && (exists|i: int| 0 <= i < s.len() && (#[trigger] s[i]).0 == key)
            ==> entries_without(s, key).len() < s.len(),
    decreases s.len(),
{
    let f = |e: (i64, Seq<u8>)| e.0 != key;
    reveal(Seq::filter);
    if s.len() > 0 {
        let init = s.drop_last();
        lemma_without(init, key);
        let w = entries_without(init, key);
        let last = s.last();
        assert(entries_without(s, key) == if f(last) {
            w.push(last)
        } else {
            w
        });
        let t = entries_without(s, key);
        assert forall|e: (i64, Seq<u8>)| #[trigger] t.contains(e) <==> s.contains(e) && e.0
            != key by {
            if t.contains(e) {
                let i = choose|i: int| 0 <= i < t.len() && t[i] == e;
                if i < w.len() {
                    assert(w[i] == e);
                    assert(w.contains(e));
                    let j = choose|j: int| 0 <= j < init.len() && init[j] == e;
                    assert(s[j] == e);
                } else {
                    assert(s[s.len() - 1] == e);
                }
            }
            if s.contains(e) && e.0 != key {
                let j = choose|j: int| 0 <= j < s.len() && s[j] == e;
                if j < init.len() {
                    assert(init[j] == e);
                    assert(init.contains(e));
                    assert(w.contains(e));
                    let i = choose|i: int| 0 <= i < w.len() && w[i] == e;
                    assert(t[i] == e);
                } else {
                    assert(t[w.len() as int] == e);
                }
            }
        }
        if keys_distinct(s) {
            assert forall|i: int, j: int| 0 <= i < j < init.len() implies (#[trigger] init[i]).0
                != (#[trigger] init[j]).0 by {
                assert(s[i].0 != s[j].0);
            }
            assert forall|i: int, j: int| 0 <= i < j < t.len() implies (#[trigger] t[i]).0 != (
            #[trigger] t[j]).0 by {
                if j < w.len() {
                    assert(w[i].0 != w[j].0);
                } else {
                    assert(w.contains(w[i]));
                    assert(init.contains(w[i]));
                    let k = choose|k: int| 0 <= k < init.len() && init[k] == w[i];
                    assert(s[k].0 != s[s.len() - 1].0);
                }
            }
        }
        if exists|i: int| 0 <= i < s.len() && (#[trigger] s[i]).0 == key {
            let i = choose|i: int| 0 <= i < s.len() && (#[trigger] s[i]).0 == key;
            if i < init.len() {
                assert(init[i].0 == key);
            }
        }
    }
}

/// What was just put in the cache is found there, whatever else is, as long as the cache can hold
/// anything.
pub proof fn lemma_cache_read_after_put(
    s: Seq<(i64, Seq<u8>)>,
    key: i64,
    value: Seq<u8>,
    capacity: nat,
)
    requires
        capacity > 0,
    ensures
        entries_put(s, key, value, capacity).contains((key, value)),
        forall|other: Seq<u8>| #[trigger]
            entries_put(s, key, value, capacity).contains((key, other)) ==> other == value,
{
    let t = entries_without(s, key).push((key, value));
    let p = entries_put(s, key, value, capacity);
    lemma_without(s, key);
    assert(p.last() == (key, value));
    assert(p[p.len() - 1] == (key, value));
    assert forall|other: Seq<u8>| #[trigger] p.contains((key, other)) implies other == value by {
        let i = choose|i: int| 0 <= i < p.len() && p[i] == (key, other);
        let j = if t.len() > capacity {
            i + 1
        } else {
            i
        };
        assert(t[j] == (key, other));
        if j < entries_without(s, key).len() {
            assert(entries_without(s, key)[j] == (key, other));
            assert(entries_without(s, key).contains((key, other)));
        }
    }
}

/// The cache never holds more than it can, nor anything twice.
pub proof fn lemma_cache_bounded(
    s: Seq<(i64, Seq<u8>)>,
    key: i64,
    value: Seq<u8>,
    capacity: nat,
)
    requires
        s.len() <= capacity,
        keys_distinct(s),
    ensures
        entries_put(s, key, value, capacity).len() <= capacity,
        keys_distinct(entries_put(s, key, value, capacity)),
{
    let w = entries_without(s, key);
    let t = w.push((key, value));
    let p = entries_put(s, key, value, capacity);
    lemma_without(s, key);
    assert forall|i: int, j: int| 0 <= i < j < t.len() implies (#[trigger] t[i]).0 != (
    #[trigger] t[j]).0 by {
        if j < w.len() {
            assert(w[i].0 != w[j].0);
        } else {
            assert(w.contains(w[i]));
        }
    }
    assert forall|i: int, j: int| 0 <= i < j < p.len() implies (#[trigger] p[i]).0 != (
    #[trigger] p[j]).0 by {
        if t.len() > capacity {
            assert(p[i] == t[i + 1] && p[j] == t[j + 1]);
        }
    }
}

/// Putting something in a cache that is not full leaves everything else there.
pub proof fn lemma_cache_keeps_others(
    s: Seq<(i64, Seq<u8>)>,
    key: i64,
    value: Seq<u8>,
    capacity: nat,
    other: (i64, Seq<u8>),
)
    requires
        s.len() < capacity,
        other.0 != key,
    ensures
        s.contains(other) <==> entries_put(s, key, value, capacity).contains(other),
{
    let w = entries_without(s, key);
    let t = w.push((key, value));
    lemma_without(s, key);
    if s.contains(other) {
        assert(w.contains(other));
        let i = choose|i: int| 0 <= i < w.len() && w[i] == other;
        assert(t[i] == other);
    }
    if t.contains(other) {
        let i = choose|i: int| 0 <= i < t.len() && t[i] == other;
        assert(w[i] == other);
        assert(w.contains(other));
    }
}

/// Whether everything in the cache `s` is what the table `rows` of video indexes by recording has.
pub open spec fn cached_from(s: Seq<(i64, Seq<u8>)>, rows: Map<i64, Seq<u8>>) -> bool {
    forall|key: i64, value: Seq<u8>| #[trigger]
        s.contains((key, value)) ==> rows.contains_key(key) && rows[key] == value
}

/// A hit gives the row that the table has, and leaves nothing else in the cache. A recording
/// without a row is never found there.
pub proof fn lemma_hit_is_row(
    s: Seq<(i64, Seq<u8>)>,
    rows: Map<i64, Seq<u8>>,
    key: i64,
    value: Seq<u8>,
)
    requires
        cached_from(s, rows),
    ensures
        s.contains((key, value)) ==> rows.contains_key(key) && rows[key] == value && cached_from(
            entries_without(s, key).push((key, value)),
            rows,
        ),
        !rows.contains_key(key) ==> !entries_have(s, key),
{
    let w = entries_without(s, key);
    let t = w.push((key, value));
    lemma_without(s, key);
    if s.contains((key, value)) {
        assert forall|k: i64, v: Seq<u8>| #[trigger] t.contains((k, v)) implies rows.contains_key(
            k,
        ) && rows[k] == v by {
            let i = choose|i: int| 0 <= i < t.len() && t[i] == (k, v);
            if i < w.len() {
                assert(w[i] == (k, v));
                assert(w.contains((k, v)));
                assert(s.contains((k, v)));
            }
        }
    }
}

/// Keeping a row that was read leaves nothing in the cache but what the table has.
pub proof fn lemma_fetched_is_row(
    s: Seq<(i64, Seq<u8>)>,
    rows: Map<i64, Seq<u8>>,
    key: i64,
    capacity: nat,
)
    requires
        cached_from(s, rows),
        rows.contains_key(key),
    ensures
        cached_from(entries_put(s, key, rows[key], capacity), rows),
{
    let w = entries_without(s, key);
    let t = w.push((key, rows[key]));
    let p = entries_put(s, key, rows[key], capacity);
    lemma_without(s, key);
    assert forall|k: i64, v: Seq<u8>| #[trigger] p.contains((k, v)) implies rows.contains_key(k)
        && rows[k] == v by {
        let i = choose|i: int| 0 <= i < p.len() && p[i] == (k, v);
        let j = if t.len() > capacity {
            i + 1
        } else {
            i
        };
        assert(t[j] == (k, v));
        if j < w.len() {
            assert(w[j] == (k, v));
            assert(w.contains((k, v)));
            assert(s.contains((k, v)));
        }
    }
}

/// What is left of a cache without the entries for `keys` is what it held for other keys.
pub proof fn lemma_without_all(s: Seq<(i64, Seq<u8>)>, keys: Seq<CompositeId>)
    ensures
        forall|e: (i64, Seq<u8>)| #[trigger]
            entries_without_all(s, keys).contains(e) <==> s.contains(e) && forall|i: int|
                0 <= i < keys.len() ==> (#[trigger] keys[i]).0 != e.0,
    decreases keys.len(),
{
    if keys.len() > 0 {
        let init = keys.drop_last();
        lemma_without_all(s, init);
        lemma_without(entries_without_all(s, init), keys.last().0);
        assert forall|e: (i64, Seq<u8>)| #[trigger]
            entries_without_all(s, keys).contains(e) <==> s.contains(e) && forall|i: int|
                0 <= i < keys.len() ==> (#[trigger] keys[i]).0 != e.0 by {
            if entries_without_all(s, keys).contains(e) {
                assert(entries_without_all(s, init).contains(e));
                assert forall|i: int| 0 <= i < keys.len() implies (#[trigger] keys[i]).0 != e.0 by {
                    if i < init.len() {
                        assert(init[i] == keys[i]);
                    }
                }
            }
            if s.contains(e) && forall|i: int|
                0 <= i < keys.len() ==> (#[trigger] keys[i]).0 != e.0 {
                assert forall|i: int| 0 <= i < init.len() implies (#[trigger] init[i]).0 != e.0 by {
                    assert(init[i] == keys[i]);
                }
                assert(entries_without_all(s, init).contains(e));
                assert(keys[keys.len() - 1].0 != e.0);
            }
        }
    }
}

/// A commit leaves nothing in the cache but what the table has then, as long as the transaction has
/// taken nothing out of the table but the rows of the recordings that it deleted. None of those is
/// found in the cache.
pub proof fn lemma_commit_keeps_cache_true(
    s: Seq<(i64, Seq<u8>)>,
    before: Map<i64, Seq<u8>>,
    after: Map<i64, Seq<u8>>,
    deleted: Seq<CompositeId>,
)
    requires
        cached_from(s, before),
        forall|key: i64| #[trigger]
            before.contains_key(key) ==> after.contains_key(key) && after[key] == before[key]
                || exists|i: int| 0 <= i < deleted.len() && (#[trigger] deleted[i]).0 == key,
    ensures
        cached_from(entries_without_all(s, deleted), after),
        forall|i: int|
            0 <= i < deleted.len() ==> !entries_have(
                entries_without_all(s, deleted),
                (#[trigger] deleted[i]).0,
            ),
{
    lemma_without_all(s, deleted);
    let t = entries_without_all(s, deleted);
    assert forall|k: i64, v: Seq<u8>| #[trigger] t.contains((k, v)) implies after.contains_key(k)
        && after[k] == v by {
        assert(s.contains((k, v)));
        assert(before.contains_key(k));
    }
}

/// A recording's video index that is in the cache is what the function is called with. It becomes
/// the most recently used one, and the rest of the state stays as it was. If it is not in the
/// cache, nothing happens.
pub proof fn lemma_lookup<F, R>(
    db: &mut LockedDatabase,
    id: CompositeId,
    f: F,
    r: Lookup<F, R>,
) where F: FnOnce(&RecordingPlayback) -> Result<R, Error>
    requires
        call_ensures(LockedDatabase::with_recording_playback::<F, R>, (db, id, f), r),
    ensures
        match r {
            Lookup::Hit(result) => exists|p: RecordingPlayback|
                {
                    &&& #[trigger] call_ensures(f, (&p,), result)
                    &&& old(db)@.cache.contains((id.0, p.video_index@))
                    &&& final(db)@.cache.len() > 0
                    &&& final(db)@.cache.last() == (id.0, p.video_index@)
                },
            Lookup::Miss(g) => {
                &&& g == f
                &&& forall|index: Seq<u8>| !#[trigger] old(db)@.cache.contains((id.0, index))
                &&& final(db)@ == old(db)@
            },
        },
        final(db)@ == (StateView { cache: final(db)@.cache, ..old(db)@ }),
        forall|e: (i64, Seq<u8>)|
            e.0 != id.0 ==> (#[trigger] final(db)@.cache.contains(e) <==> old(db)@.cache.contains(
                e,
            )),
{
    if r is Hit {
        let p = choose|p: RecordingPlayback|
            {
                &&& old(db)@.cache.contains((id.0, p.video_index@))
                &&& #[trigger] call_ensures(f, (&p,), r->Hit_0)
                &&& final(db)@ == (StateView {
                    cache: entries_without(old(db)@.cache, id.0).push((id.0, p.video_index@)),
                    ..old(db)@
                })
            };
        let w = entries_without(old(db)@.cache, id.0);
        lemma_without(old(db)@.cache, id.0);
        assert forall|e: (i64, Seq<u8>)| e.0 != id.0 implies (#[trigger] final(db)@.cache.contains(
            e,
        ) <==> old(db)@.cache.contains(e)) by {
            if final(db)@.cache.contains(e) {
                let i = choose|i: int| 0 <= i < final(db)@.cache.len() && final(db)@.cache[i] == e;
                assert(w[i] == e);
                assert(w.contains(e));
            }
            if old(db)@.cache.contains(e) {
                assert(w.contains(e));
                let i = choose|i: int| 0 <= i < w.len() && w[i] == e;
                assert(final(db)@.cache[i] == e);
            }
        }
    } else {
        assert forall|index: Seq<u8>| !#[trigger] old(db)@.cache.contains((id.0, index)) by {
            assert(!entries_have(old(db)@.cache, id.0));
        }
    }
}

/// A video index that was read from the database is what the function is called with, and is then
/// in the cache. A recording without one is an error.
pub proof fn lemma_fetch<F, R>(
    db: &mut LockedDatabase,
    id: CompositeId,
    row: Option<VideoIndex>,
    f: F,
    r: Result<R, Error>,
) where F: FnOnce(&RecordingPlayback) -> Result<R, Error>
    requires
        old(db)@.cache_capacity > 0,
        call_ensures(LockedDatabase::with_fetched_playback::<F, R>, (db, id, row, f), r),
    ensures
        row is None ==> r == Err::<R, Error>(Error::NoSuchRecording(id)) && final(db)@ == old(db)@,
        row matches Some(index) ==> {
            &&& exists|p: RecordingPlayback|
                p.video_index@ == index.0@ && #[trigger] call_ensures(f, (&p,), r)
            &&& final(db)@.cache.contains((id.0, index.0@))
            &&& final(db)@ == (StateView { cache: final(db)@.cache, ..old(db)@ })
        },
{
    if let Some(index) = row {
        lemma_cache_read_after_put(old(db)@.cache, id.0, index.0@, old(db)@.cache_capacity);
    }
}

} // verus!
