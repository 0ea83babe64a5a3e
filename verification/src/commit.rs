//! Committing a transaction.
use crate::collections::{cache_remove, entries_without_all, fnv_get, fnv_key_list};
use crate::days::{can_merge_days, days_merged, merge_days, merge_fits};
use crate::error::Error;
use crate::ids::CompositeId;
use crate::model::{copied_range, StateView, Stream, StreamView};
use crate::recording::{fits, Duration, Time, MAX_RECORDING_DURATION};
use crate::transaction::{mods_view, ModView, StreamModification, Transaction};
use std::ops::Range;
use vstd::prelude::*;

verus! {

broadcast use {
    vstd::std_specs::btree::group_btree_axioms,
    vstd::laws_cmp::group_laws_cmp,
};

/// When the recordings of a stream start and end, as far as the database says: the least start,
/// and the greatest end.
#[derive(Copy, Clone, Debug)]
pub struct StreamExtent {
    pub stream_id: i32,
    pub min_start: Option<Time>,
    pub max_end: Option<Time>,
}

impl StreamExtent {
    /// There was a minimum, so there should be a maximum too.
    pub open spec fn flaw(self) -> Option<Error> {
        if self.min_start is Some && self.max_end is None {
            Some(Error::MissingMax { stream_id: self.stream_id, min_start: self.min_start->0 })
        } else {
            None
        }
    }
}

/// `m` with the range that `extent` gives. No data leaves the range alone.
pub open spec fn mod_with_extent(m: ModView, extent: StreamExtent) -> ModView {
    if extent.min_start is Some && extent.max_end is Some {
        ModView {
            range: Some(Range { start: extent.min_start->0, end: extent.max_end->0 }),
            ..m
        }
    } else {
        m
    }
}

/// `mods` with the ranges that `extents` give.
pub open spec fn extents_applied(
    mods: Map<i32, ModView>,
    extents: Seq<StreamExtent>,
) -> Map<i32, ModView>
    decreases extents.len(),
{
    if extents.len() == 0 {
        mods
    } else {
        let e = extents.last();
        let earlier = extents_applied(mods, extents.drop_last());
        earlier.insert(e.stream_id, mod_with_extent(earlier[e.stream_id], e))
    }
}

/// Whether `extents` are those of the streams that `mods` modify, each once.
pub open spec fn extents_cover(mods: Map<i32, ModView>, extents: Seq<StreamExtent>) -> bool {
    &&& forall|i: int|
        0 <= i < extents.len() ==> mods.contains_key((#[trigger] extents[i]).stream_id)
    &&& forall|i: int, j: int|
        0 <= i < j < extents.len() ==> (#[trigger] extents[i]).stream_id != (
        #[trigger] extents[j]).stream_id
    &&& forall|id: i32| #[trigger]
        mods.contains_key(id) ==> exists|i: int|
            0 <= i < extents.len() && (#[trigger] extents[i]).stream_id == id
}

/// Whether none of `extents` is flawed.
pub open spec fn flawless(extents: Seq<StreamExtent>) -> bool {
    forall|i: int| 0 <= i < extents.len() ==> (#[trigger] extents[i]).flaw() is None
}

proof fn lemma_extents_domain(mods: Map<i32, ModView>, extents: Seq<StreamExtent>)
    requires
        forall|i: int|
            0 <= i < extents.len() ==> mods.contains_key((#[trigger] extents[i]).stream_id),
    ensures
        extents_applied(mods, extents).dom() == mods.dom(),
    decreases extents.len(),
{
    if extents.len() > 0 {
        let earlier = extents.drop_last();
        assert forall|i: int| 0 <= i < earlier.len() implies mods.contains_key(
            (#[trigger] earlier[i]).stream_id,
        ) by {
            assert(earlier[i] == extents[i]);
        }
        lemma_extents_domain(mods, earlier);
        assert(mods.contains_key(extents[extents.len() - 1].stream_id));
        assert(extents_applied(mods, extents).dom() =~= mods.dom());
    } else {
        assert(extents_applied(mods, extents).dom() =~= mods.dom());
    }
}

proof fn lemma_extent_kept(mods: Map<i32, ModView>, extents: Seq<StreamExtent>, id: i32)
    requires
        forall|i: int| 0 <= i < extents.len() ==> (#[trigger] extents[i]).stream_id != id,
    ensures
        extents_applied(mods, extents)[id] == mods[id],
        extents_applied(mods, extents).contains_key(id) == mods.contains_key(id),
    decreases extents.len(),
{
    if extents.len() > 0 {
        let earlier = extents.drop_last();
        assert forall|i: int| 0 <= i < earlier.len() implies (#[trigger] earlier[i]).stream_id
            != id by {
            assert(earlier[i] == extents[i]);
        }
        lemma_extent_kept(mods, earlier, id);
        assert(extents[extents.len() - 1].stream_id != id);
    }
}

/// Every modification gets the range of its own stream.
pub proof fn lemma_extent_of_each(
    mods: Map<i32, ModView>,
    extents: Seq<StreamExtent>,
    i: int,
)
    requires
        extents_cover(mods, extents),
        0 <= i < extents.len(),
    ensures
        extents_applied(mods, extents).dom() == mods.dom(),
        extents_applied(mods, extents)[extents[i].stream_id] == mod_with_extent(
            mods[extents[i].stream_id],
            extents[i],
        ),
{
    lemma_extents_domain(mods, extents);
    lemma_extent_at(mods, extents, i);
}

proof fn lemma_extent_at(mods: Map<i32, ModView>, extents: Seq<StreamExtent>, i: int)
    requires
        0 <= i < extents.len(),
        forall|i: int, j: int|
            0 <= i < j < extents.len() ==> (#[trigger] extents[i]).stream_id != (
            #[trigger] extents[j]).stream_id,
    ensures
        extents_applied(mods, extents)[extents[i].stream_id] == mod_with_extent(
            mods[extents[i].stream_id],
            extents[i],
        ),
    decreases extents.len(),
{
    let earlier = extents.drop_last();
    if i == extents.len() - 1 {
        assert forall|k: int| 0 <= k < earlier.len() implies (#[trigger] earlier[k]).stream_id
            != extents[i].stream_id by {
            assert(earlier[k] == extents[k]);
        }
        lemma_extent_kept(mods, earlier, extents[i].stream_id);
    } else {
        assert forall|a: int, b: int| 0 <= a < b < earlier.len() implies (
        #[trigger] earlier[a]).stream_id != (#[trigger] earlier[b]).stream_id by {
            assert(earlier[a] == extents[a] && earlier[b] == extents[b]);
        }
        lemma_extent_at(mods, earlier, i);
        assert(extents[i] == earlier[i]);
        assert(extents[i].stream_id != extents[extents.len() - 1].stream_id);
    }
}

/// Looks for the latest end of a stream's recordings, which are given from the latest start to the
/// earliest.
///
/// Recordings can overlap, so the latest to start is not always the latest to end. All recordings
/// starting in the last `MAX_RECORDING_DURATION` must be examined.
#[derive(Debug)]
pub struct MaxScan {
    pub maxes: Option<Range<Time>>,
}

/// The latest start and the latest end after another recording was examined.
pub open spec fn scan_next(maxes: Option<Range<Time>>, start: Time, duration: i64) -> Range<Time> {
    let end = Time((start.0 + duration) as i64);
    match maxes {
        None => Range { start, end },
        Some(m) => Range {
            start: m.start,
            end: if end.0 > m.end.0 {
                end
            } else {
                m.end
            },
        },
    }
}

/// Whether a recording starts so early that neither it nor any that follows matters.
pub open spec fn scan_stops(maxes: Option<Range<Time>>, start: Time, duration: i64) -> bool {
    start.0 <= scan_next(maxes, start, duration).start.0 - MAX_RECORDING_DURATION
}

/// The latest start and the latest end after the recordings `rows` were examined as far as needed.
pub open spec fn scanned(maxes: Option<Range<Time>>, rows: Seq<(Time, i64)>) -> Option<Range<Time>>
    decreases rows.len(),
{
    if rows.len() == 0 || scan_stops(maxes, rows[0].0, rows[0].1) {
        maxes
    } else {
        scanned(Some(scan_next(maxes, rows[0].0, rows[0].1)), rows.drop_first())
    }
}

/// The extent of a stream whose least start is `min_start` and whose recordings were examined.
pub open spec fn scan_extent(
    maxes: Option<Range<Time>>,
    stream_id: i32,
    min_start: Option<Time>,
) -> StreamExtent {
    StreamExtent {
        stream_id,
        min_start,
        max_end: match maxes {
            Some(m) => Some(m.end),
            None => None,
        },
    }
}

impl MaxScan {
    /// Whether a recording can be examined: its end, and the time a longest recording before the
    /// latest start, can be held.
    pub open spec fn takes(self, start: Time, duration: i64) -> bool {
        &&& fits(start.0 + duration)
        &&& fits(scan_next(self.maxes, start, duration).start.0 - MAX_RECORDING_DURATION)
    }

    /// No recording has been examined.
    pub fn new() -> (r: Self)
        ensures
            r.maxes is None,
    {
        MaxScan { maxes: None }
    }

    /// Tells whether a recording can be examined.
    pub fn can_add(&self, start: Time, duration: i64) -> (r: bool)
        ensures
            r == self.takes(start, duration),
    {
        let latest = match &self.maxes {
            None => start,
            Some(m) => m.start,
        };
        start.0.checked_add(duration).is_some() && latest.0.checked_sub(
            MAX_RECORDING_DURATION,
        ).is_some()
    }

    /// Examines a recording, and says whether to go on to the next one.
    pub fn add(&mut self, start: Time, duration: i64) -> (go_on: bool)
        requires
            old(self).takes(start, duration),
        ensures
            go_on == !scan_stops(old(self).maxes, start, duration),
            final(self).maxes == if go_on {
                Some(scan_next(old(self).maxes, start, duration))
            } else {
                old(self).maxes
            },
    {
        let row_end = Time(start.0 + duration);
        let maxes: Range<Time> = match &self.maxes {
            None => start..row_end,
            Some(m) => m.start..if row_end.0 > m.end.0 {
                row_end
            } else {
                m.end
            },
        };
        if start.0 <= maxes.start.0 - MAX_RECORDING_DURATION {
            return false;
        }
        self.maxes = Some(maxes);
        true
    }

    /// The latest end, if any recording was examined.
    pub fn max_end(&self) -> (r: Option<Time>)
        ensures
            r == match self.maxes {
                Some(m) => Some(m.end),
                None => None::<Time>,
            },
    {
        match &self.maxes {
            Some(m) => Some(m.end),
            None => None,
        }
    }

    /// The extent of a stream, of which `min_start` is the least start of its recordings, once they
    /// were examined.
    pub fn extent(&self, stream_id: i32, min_start: Option<Time>) -> (r: StreamExtent)
        ensures
            r == scan_extent(self.maxes, stream_id, min_start),
    {
        StreamExtent { stream_id, min_start, max_end: self.max_end() }
    }
}

/// Whether `rows` go from the latest start to the earliest, and none lasts longer than a recording
/// can.
pub open spec fn scannable(rows: Seq<(Time, i64)>) -> bool {
    &&& forall|i: int, j: int| 0 <= i < j < rows.len() ==> rows[i].0.0 >= rows[j].0.0
    &&& forall|i: int|
        0 <= i < rows.len() ==> 0 <= (#[trigger] rows[i]).1 <= MAX_RECORDING_DURATION && fits(
            rows[i].0.0 + rows[i].1,
        )
}

/// Whether `end` is the end of one of `rows` and none of them ends later.
pub open spec fn is_latest_end(rows: Seq<(Time, i64)>, end: Time) -> bool {
    &&& exists|i: int| 0 <= i < rows.len() && (#[trigger] rows[i]).0.0 + rows[i].1 == end.0
    &&& forall|i: int| 0 <= i < rows.len() ==> (#[trigger] rows[i]).0.0 + rows[i].1 <= end.0
}

/// The scan finds the latest end of all recordings, though it stops early.
pub proof fn lemma_scan_finds_latest_end(rows: Seq<(Time, i64)>)
    requires
        scannable(rows),
        rows.len() > 0,
    ensures
        scanned(None, rows) matches Some(m) && m.start == rows[0].0 && is_latest_end(rows, m.end),
{
    let rest = rows.drop_first();
    let first = scan_next(None, rows[0].0, rows[0].1);
    assert(!scan_stops(None, rows[0].0, rows[0].1));
    assert forall|i: int| 0 <= i < rest.len() implies #[trigger] rest[i] == rows[i + 1] by {}
    lemma_scan_rest(first, rest);
    let m = scanned(Some(first), rest)->0;
    if m.end == first.end {
        assert(rows[0].0.0 + rows[0].1 == m.end.0);
    } else {
        let i = choose|i: int|
            0 <= i < rest.len() && (#[trigger] rest[i]).0.0 + rest[i].1 == m.end.0;
        assert(rows[i + 1].0.0 + rows[i + 1].1 == m.end.0);
    }
    assert forall|i: int| 0 <= i < rows.len() implies (#[trigger] rows[i]).0.0 + rows[i].1
        <= m.end.0 by {
        if i > 0 {
            assert(rest[i - 1] == rows[i]);
        }
    }
}

proof fn lemma_scan_rest(maxes: Range<Time>, rows: Seq<(Time, i64)>)
    requires
        scannable(rows),
        rows.len() > 0 ==> rows[0].0.0 <= maxes.start.0,
        maxes.start.0 <= maxes.end.0,
    ensures
        scanned(Some(maxes), rows) matches Some(m) && {
            &&& m.start == maxes.start
            &&& maxes.end.0 <= m.end.0
            &&& m.end == maxes.end || exists|i: int|
                0 <= i < rows.len() && (#[trigger] rows[i]).0.0 + rows[i].1 == m.end.0
            &&& forall|i: int|
                0 <= i < rows.len() ==> (#[trigger] rows[i]).0.0 + rows[i].1 <= m.end.0
        },
    decreases rows.len(),
{
    if rows.len() > 0 {
        let row = rows[0];
        if scan_stops(Some(maxes), row.0, row.1) {
            assert forall|i: int| 0 <= i < rows.len() implies (#[trigger] rows[i]).0.0 + rows[i].1
                <= maxes.end.0 by {
                assert(rows[i].0.0 <= rows[0].0.0);
            }
        } else {
            let next = scan_next(Some(maxes), row.0, row.1);
            let rest = rows.drop_first();
            assert forall|i: int| 0 <= i < rest.len() implies #[trigger] rest[i] == rows[i + 1] by {
            }
            lemma_scan_rest(next, rest);
            let m = scanned(Some(next), rest)->0;
            if m.end == next.end {
                if m.end != maxes.end {
                    assert(rows[0].0.0 + rows[0].1 == m.end.0);
                }
            } else {
                let i = choose|i: int|
                    0 <= i < rest.len() && (#[trigger] rest[i]).0.0 + rest[i].1 == m.end.0;
                assert(rows[i + 1].0.0 + rows[i + 1].1 == m.end.0);
            }
            assert forall|i: int| 0 <= i < rows.len() implies (#[trigger] rows[i]).0.0 + rows[i].1
                <= m.end.0 by {
                if i > 0 {
                    assert(rest[i - 1] == rows[i]);
                }
            }
        }
    }
}

/// `s` after the modification `m`.
pub open spec fn stream_modified(s: StreamView, m: ModView) -> StreamView {
    StreamView {
        duration: Duration((s.duration.0 + m.duration.0) as i64),
        sample_file_bytes: (s.sample_file_bytes + m.sample_file_bytes) as i64,
        days: days_merged(s.days, m.days),
        range: m.range,
        next_recording_id: match m.new_next_recording_id {
            Some(id) => id,
            None => s.next_recording_id,
        },
        record: match m.new_record {
            Some(record) => record,
            None => s.record,
        },
        retain_bytes: match m.new_retain_bytes {
            Some(bytes) => bytes,
            None => s.retain_bytes,
        },
        ..s
    }
}

/// Whether the sums of `stream_modified` can be held.
pub open spec fn modification_fits(s: StreamView, m: ModView) -> bool {
    &&& fits(s.duration.0 + m.duration.0)
    &&& fits(s.sample_file_bytes + m.sample_file_bytes)
    &&& merge_fits(s.days, m.days)
}

/// `streams` after the modifications `mods` of those streams that are in `done`.
pub open spec fn streams_modified_among(
    streams: Map<i32, StreamView>,
    mods: Map<i32, ModView>,
    done: Set<i32>,
) -> Map<i32, StreamView> {
    Map::new(
        |id: i32| streams.contains_key(id),
        |id: i32|
            if mods.contains_key(id) && done.contains(id) {
                stream_modified(streams[id], mods[id])
            } else {
                streams[id]
            },
    )
}

/// `streams` after the modifications `mods`. Streams without a modification stay as they are.
pub open spec fn streams_modified(
    streams: Map<i32, StreamView>,
    mods: Map<i32, ModView>,
) -> Map<i32, StreamView> {
    Map::new(
        |id: i32| streams.contains_key(id),
        |id: i32|
            if mods.contains_key(id) {
                stream_modified(streams[id], mods[id])
            } else {
                streams[id]
            },
    )
}

/// Whether every modified stream exists and can hold all sums.
pub open spec fn modifications_fit(
    streams: Map<i32, StreamView>,
    mods: Map<i32, ModView>,
) -> bool {
    forall|id: i32| #[trigger]
        mods.contains_key(id) ==> streams.contains_key(id) && modification_fits(
            streams[id],
            mods[id],
        )
}

proof fn lemma_push_to_set(s: Seq<i32>, id: i32)
    ensures
        s.push(id).to_set() == s.to_set().insert(id),
{
    let t = s.push(id);
    assert forall|k: i32| t.contains(k) <==> #[trigger] s.to_set().insert(id).contains(k) by {
        if s.contains(k) {
            let j = choose|j: int| 0 <= j < s.len() && s[j] == k;
            assert(t[j] == k);
        }
        if k == id {
            assert(t[s.len() as int] == k);
        }
        if t.contains(k) && k != id {
            let j = choose|j: int| 0 <= j < t.len() && t[j] == k;
            assert(s[j] == k);
        }
    }
    assert(t.to_set() =~= s.to_set().insert(id));
}

impl StreamModification {
    /// Whether the stream can hold all sums.
    fn can_apply(&self, stream: &Stream) -> (r: bool)
        ensures
            r == modification_fits(stream@, self@),
    {
        stream.duration.0.checked_add(self.duration.0).is_some()
            && stream.sample_file_bytes.checked_add(self.sample_file_bytes).is_some()
            && can_merge_days(&stream.days, &self.days)
    }

    /// Does the modification to a stream.
    fn apply(&self, stream: &mut Stream)
        requires
            modification_fits(old(stream)@, self@),
        ensures
            final(stream)@ == stream_modified(old(stream)@, self@),
    {
        stream.duration = Duration(stream.duration.0 + self.duration.0);
        stream.sample_file_bytes = stream.sample_file_bytes + self.sample_file_bytes;
        merge_days(&mut stream.days, &self.days);
        stream.range = copied_range(&self.range);
        if let Some(id) = self.new_next_recording_id {
            stream.next_recording_id = id;
        }
        if let Some(r) = self.new_record {
            stream.record = r;
        }
        if let Some(b) = self.new_retain_bytes {
            stream.retain_bytes = b;
        }
    }
}

/// A transaction that is ready to be committed.
pub struct Commit<'a> {
    pub tx: Transaction<'a>,
}

impl<'a> Transaction<'a> {
    /// The streams that are modified, each once, in no particular order.
    pub fn modified_streams(&self) -> (r: Vec<i32>)
        ensures
            r@.no_duplicates(),
            forall|id: i32| #[trigger] r@.contains(id) <==> self.mods().contains_key(id),
    {
        let r = fnv_key_list(&self.mods_by_stream);
        assert forall|id: i32| #[trigger] r@.contains(id) <==> self.mods().contains_key(id) by {
            assert(self.mods().contains_key(id) <==> self.mods_by_stream@.contains_key(id));
        }
        r
    }

    /// Fills the `range` of each `StreamModification`. This is done prior to commit so that if the
    /// commit succeeds, there's no possibility that the correct state can't be retrieved.
    fn precommit(&mut self, extents: &[StreamExtent]) -> (r: Result<(), Error>)
        requires
            forall|i: int|
                0 <= i < extents@.len() ==> old(self).mods().contains_key(
                    (#[trigger] extents@[i]).stream_id,
                ),
        ensures
            *final(self).state == *old(self).state,
            *final(final(self).state) == *final(old(self).state),
            final(self).must_rollback == old(self).must_rollback,
            final(self).deleted@ == old(self).deleted@,
            r is Ok <==> flawless(extents@),
            r is Ok ==> final(self).mods() == extents_applied(old(self).mods(), extents@),
            r matches Err(e) ==> exists|i: int|
                0 <= i < extents@.len() && flawless(extents@.take(i)) && Some(e) == (
                #[trigger] extents@[i]).flaw(),
    {
        let ghost before = self.mods();
        let mut i: usize = 0;
        assert(extents@.take(0) =~= Seq::<StreamExtent>::empty());
        while i < extents.len()
            invariant
                i <= extents@.len(),
                forall|j: int|
                    0 <= j < extents@.len() ==> before.contains_key(
                        (#[trigger] extents@[j]).stream_id,
                    ),
                *self.state == *old(self).state,
                *final(self.state) == *final(old(self).state),
                self.must_rollback == old(self).must_rollback,
                self.deleted@ == old(self).deleted@,
                flawless(extents@.take(i as int)),
                self.mods() == extents_applied(before, extents@.take(i as int)),
            decreases extents@.len() - i,
        {
            let ghost prefix = extents@.take(i as int);
            let ghost mods = self.mods();
            let e = extents[i];
            proof {
                assert(extents@.take(i + 1).drop_last() =~= prefix);
                assert(extents@.take(i + 1).last() == extents@[i as int]);
                assert forall|j: int| 0 <= j < prefix.len() implies before.contains_key(
                    (#[trigger] prefix[j]).stream_id,
                ) by {
                    assert(prefix[j] == extents@[j]);
                }
                lemma_extents_domain(before, prefix);
                assert(before.contains_key(extents@[i as int].stream_id));
                assert(mods.dom().contains(e.stream_id));
                assert forall|j: int| 0 <= j < i + 1 && extents@[i as int].flaw() is None implies (
                #[trigger] extents@.take(i + 1)[j]).flaw() is None by {
                    if j < i {
                        assert(prefix[j] == extents@.take(i + 1)[j]);
                    }
                }
            }
            let mut m = Transaction::get_mods_by_stream(&mut self.mods_by_stream, e.stream_id);
            if let Some(min_start) = e.min_start {
                match e.max_end {
                    Some(max_end) => {
                        m.range = Some(min_start..max_end);
                    },
                    None => {
                        assert(extents@[i as int].flaw() is Some);
                        return Err(Error::MissingMax { stream_id: e.stream_id, min_start });
                    },
                }
            }
            Transaction::set_mods_by_stream(&mut self.mods_by_stream, e.stream_id, m);
            assert(self.mods() =~= extents_applied(before, extents@.take(i + 1)));
            i += 1;
        }
        assert(extents@.take(extents@.len() as int) =~= extents@);
        Ok(())
    }

    /// Commits these changes, consuming the transaction. This makes ready for the database to
    /// commit, given the extents of the streams that are modified.
    pub fn commit(self, extents: &[StreamExtent]) -> (r: Result<Commit<'a>, Error>)
        requires
            extents_cover(self.mods(), extents@),
        ensures
            r is Ok <==> !self.must_rollback && flawless(extents@),
            match r {
                Ok(c) => {
                    &&& *c.tx.state == *old(self.state)
                    &&& *final(c.tx.state) == *final(self.state)
                    &&& c.tx.mods() == extents_applied(self.mods(), extents@)
                    &&& c.tx.deleted@ == self.deleted@
                },
                Err(e) => {
                    &&& *final(self.state) == *old(self.state)
                    &&& if self.must_rollback {
                        e == Error::MustRollback
                    } else {
                        exists|i: int|
                            0 <= i < extents@.len() && flawless(extents@.take(i)) && Some(e) == (
                            #[trigger] extents@[i]).flaw()
                    }
                },
            },
    {
        match self.check_must_rollback() {
            Err(e) => return Err(e),
            Ok(()) => {},
        }
        let mut tx = self;
        match tx.precommit(extents) {
            Err(e) => return Err(e),
            Ok(()) => {},
        }
        Ok(Commit { tx })
    }
}

impl<'a> Commit<'a> {
    /// Whether every modified stream exists and can hold all sums.
    pub fn can_finish(&self) -> (r: bool)
        ensures
            r == modifications_fit(self.tx.streams(), self.tx.mods()),
    {
        let ids = self.tx.modified_streams();
        let mut i: usize = 0;
        while i < ids.len()
            invariant
                i <= ids@.len(),
                forall|id: i32| #[trigger] ids@.contains(id) <==> self.tx.mods().contains_key(id),
                forall|j: int|
                    0 <= j < i ==> self.tx.streams().contains_key(#[trigger] ids@[j])
                        && modification_fits(self.tx.streams()[ids@[j]], self.tx.mods()[ids@[j]]),
            decreases ids@.len() - i,
        {
            let id: i32 = ids[i];
            assert(ids@.contains(id));
            match (fnv_get(&self.tx.mods_by_stream, id), self.tx.state.streams_by_id.get(&id)) {
                (Some(m), Some(s)) => {
                    if !m.can_apply(s) {
                        return false;
                    }
                },
                _ => return false,
            }
            i += 1;
        }
        assert forall|id: i32| #[trigger] self.tx.mods().contains_key(
            id,
        ) implies self.tx.streams().contains_key(id) && modification_fits(
            self.tx.streams()[id],
            self.tx.mods()[id],
        ) by {
            assert(ids@.contains(id));
            let j = choose|j: int| 0 <= j < ids@.len() && ids@[j] == id;
            assert(self.tx.streams().contains_key(ids@[j]));
        }
        true
    }

    /// Takes the database's word on the commit. Once the database has committed, the in-memory
    /// state follows, and the recordings that were deleted are no longer in the cache; otherwise
    /// it stays as it was.
    pub fn finish(self, committed: Result<(), String>) -> (r: Result<(), Error>)
        requires
            committed is Ok ==> modifications_fit(self.tx.streams(), self.tx.mods()),
        ensures
            match committed {
                Err(e) => r == Err::<(), Error>(Error::Sql(e)) && *final(self.tx.state)
                    == *old(self.tx.state),
                Ok(()) => r == Ok::<(), Error>(()) && (*final(self.tx.state))@ == (StateView {
                    streams: streams_modified(self.tx.streams(), self.tx.mods()),
                    cache: entries_without_all(old(self.tx.state)@.cache, self.tx.deleted@),
                    ..old(self.tx.state)@
                }),
            },
    {
        match committed {
            Err(e) => return Err(Error::Sql(e)),
            Ok(()) => {},
        }
        let ghost start = (*self.tx.state)@;
        let ghost mods = self.tx.mods();
        let ids = self.tx.modified_streams();
        let tx = self.tx;
        let state = tx.state;
        let mods_by_stream = tx.mods_by_stream;
        let deleted = tx.deleted;
        let mut n: usize = 0;
        assert(deleted@.take(0) =~= Seq::<CompositeId>::empty());
        while n < deleted.len()
            invariant
                n <= deleted@.len(),
                *final(state) == *final(self.tx.state),
                (*state)@ == (StateView {
                    cache: entries_without_all(start.cache, deleted@.take(n as int)),
                    ..start
                }),
            decreases deleted@.len() - n,
        {
            assert(deleted@.take(n + 1).drop_last() =~= deleted@.take(n as int));
            cache_remove(&mut state.video_index_cache, deleted[n].0);
            n += 1;
        }
        assert(deleted@.take(deleted@.len() as int) =~= deleted@);
        let ghost before = (*state)@;
        let mut i: usize = 0;
        assert(streams_modified_among(before.streams, mods, ids@.take(0).to_set())
            =~= before.streams);
        while i < ids.len()
            invariant
                i <= ids@.len(),
                ids@.no_duplicates(),
                forall|id: i32| #[trigger] ids@.contains(id) <==> mods.contains_key(id),
                mods == mods_view(mods_by_stream@),
                modifications_fit(before.streams, mods),
                *final(state) == *final(self.tx.state),
                (*state)@ == (StateView {
                    streams: streams_modified_among(
                        before.streams,
                        mods,
                        ids@.take(i as int).to_set(),
                    ),
                    ..before
                }),
            decreases ids@.len() - i,
        {
            let id: i32 = ids[i];
            let ghost now = state@;
            proof {
                let done = ids@.take(i as int);
                assert(ids@.contains(id));
                assert(mods.contains_key(id));
                assert(!done.to_set().contains(id)) by {
                    if done.contains(id) {
                        let j = choose|j: int| 0 <= j < done.len() && done[j] == id;
                        assert(ids@[j] == ids@[i as int]);
                    }
                }
                assert(ids@.take(i + 1) =~= done.push(id));
                lemma_push_to_set(done, id);
                assert(now.streams.contains_key(id));
                assert(now.streams[id] == before.streams[id]);
                assert(mods_by_stream@.contains_key(id));
                assert(state.streams_by_id@.contains_key(id));
            }
            match (fnv_get(&mods_by_stream, id), state.streams_by_id.remove(&id)) {
                (Some(m), Some(stream)) => {
                    let mut stream = stream;
                    assert(stream@ == before.streams[id]);
                    assert(m@ == mods[id]);
                    m.apply(&mut stream);
                    let ghost modified = stream@;
                    state.streams_by_id.insert(id, stream);
                    assert(state@.streams =~= now.streams.insert(id, modified));
                },
                _ => {},
            }
            assert(state@.streams =~= streams_modified_among(
                before.streams,
                mods,
                ids@.take(i + 1).to_set(),
            ));
            i += 1;
        }
        proof {
            assert(ids@.take(ids@.len() as int) =~= ids@);
            assert(streams_modified_among(before.streams, mods, ids@.to_set())
                =~= streams_modified(before.streams, mods)) by {
                assert forall|id: i32| mods.contains_key(id) implies #[trigger] ids@.to_set(
                ).contains(id) by {
                    assert(ids@.contains(id));
                }
            }
        }
        Ok(())
    }
}

} // verus!
