//! Aggregating consecutive recordings.
use crate::collections::shared;
use crate::error::Error;
use crate::ids::recording_part;
use crate::keys::{ascending, ascending_keys};
use crate::listing::{ListRecordingsRow, Query};
use crate::model::{LockedDatabase, VideoSampleEntry};
use crate::recording::{fits, Duration, Time};
use crate::sums::{lemma_sum_insert, lemma_sum_without, sum_of, sum_of_values};
use std::collections::BTreeMap;
use std::ops::Range;
use std::sync::Arc;
use vstd::prelude::*;

verus! {

broadcast use {
    vstd::std_specs::btree::group_btree_axioms,
    vstd::laws_cmp::group_laws_cmp,
};

/// A row used in `list_aggregated_recordings`.
#[derive(Debug)]
pub struct ListAggregatedRecordingsRow {
    pub time: Range<Time>,
    pub ids: Range<i32>,
    pub video_samples: i64,
    pub video_sync_samples: i64,
    pub sample_file_bytes: i64,
    pub video_sample_entry: Arc<VideoSampleEntry>,
    pub stream_id: i32,
    pub flags: i32,
    pub run_start_id: i32,
}

impl Clone for ListAggregatedRecordingsRow {
    fn clone(&self) -> (r: Self)
        ensures
            r == *self,
    {
        ListAggregatedRecordingsRow {
            time: self.time.start..self.time.end,
            ids: self.ids.start..self.ids.end,
            video_samples: self.video_samples,
            video_sync_samples: self.video_sync_samples,
            sample_file_bytes: self.sample_file_bytes,
            video_sample_entry: shared(&self.video_sample_entry),
            stream_id: self.stream_id,
            flags: self.flags,
            run_start_id: self.run_start_id,
        }
    }
}

/// Aggregates consecutive recordings, which are given in ascending order by start time.
///
/// This maintains a map from a recording id to the aggregated row for the latest batch of
/// recordings from the run starting at that id. Runs can be split into multiple batches for a few
/// reasons:
///
/// * forced split (when exceeding a duration limit)
/// * a missing id (one that was deleted out of order)
/// * video_sample_entry mismatch (if the parameters changed during a RTSP session)
///
/// This works because in a run, the start_time+duration of recording id r is equal to the
/// start_time of recording id r+1. Thus ascending times guarantees ascending ids within a run.
/// (Different runs, however, can be arbitrarily interleaved if their timestamps overlap. Tracking
/// all active runs prevents that interleaving from causing problems.)
#[derive(Debug)]
pub struct Aggregator {
    pub stream_id: i32,
    pub forced_split: Duration,
    pub aggs: BTreeMap<i32, ListAggregatedRecordingsRow>,
}

/// The recording id within the stream.
pub open spec fn row_recording(row: ListRecordingsRow) -> int {
    recording_part(row.id.0 as int)
}

/// The id of the first recording of the run that a recording belongs to.
pub open spec fn row_run(row: ListRecordingsRow) -> int {
    row_recording(row) - row.run_offset
}

/// Whether the batch `a` ends before the recording `row`.
pub open spec fn needs_flush(
    a: ListAggregatedRecordingsRow,
    row: ListRecordingsRow,
    forced_split: Duration,
) -> bool {
    ||| a.ids.end != row_recording(row)
    ||| row.video_sample_entry.id != a.video_sample_entry.id
    ||| a.time.end.0 - a.time.start.0 + row.duration_90k >= forced_split.0
}

/// A batch with the recording `row` alone.
pub open spec fn batch_started(
    stream_id: i32,
    row: ListRecordingsRow,
) -> ListAggregatedRecordingsRow {
    ListAggregatedRecordingsRow {
        time: Range { start: row.start, end: Time((row.start.0 + row.duration_90k) as i64) },
        ids: Range { start: row_recording(row) as i32, end: (row_recording(row) + 1) as i32 },
        video_samples: row.video_samples as i64,
        video_sync_samples: row.video_sync_samples as i64,
        sample_file_bytes: row.sample_file_bytes as i64,
        video_sample_entry: row.video_sample_entry,
        stream_id,
        flags: row.flags,
        run_start_id: row_run(row) as i32,
    }
}

/// The batch `a` with the recording `row` at its end.
pub open spec fn batch_extended(
    a: ListAggregatedRecordingsRow,
    row: ListRecordingsRow,
) -> ListAggregatedRecordingsRow {
    ListAggregatedRecordingsRow {
        time: Range { start: a.time.start, end: Time((a.time.end.0 + row.duration_90k) as i64) },
        ids: Range { start: a.ids.start, end: (row_recording(row) + 1) as i32 },
        video_samples: (a.video_samples + row.video_samples) as i64,
        video_sync_samples: (a.video_sync_samples + row.video_sync_samples) as i64,
        sample_file_bytes: (a.sample_file_bytes + row.sample_file_bytes) as i64,
        ..a
    }
}

/// Whether the end of the recording `row` and the id after it can be held.
pub open spec fn start_fits(row: ListRecordingsRow) -> bool {
    row_recording(row) < i32::MAX && fits(row.start.0 + row.duration_90k)
}

/// Whether the sums and the ids of the batch `a` can be held once the recording `row` is added.
pub open spec fn extension_fits(a: ListAggregatedRecordingsRow, row: ListRecordingsRow) -> bool {
    &&& row_recording(row) < i32::MAX
    &&& fits(a.time.end.0 + row.duration_90k)
    &&& fits(a.video_samples + row.video_samples)
    &&& fits(a.video_sync_samples + row.video_sync_samples)
    &&& fits(a.sample_file_bytes + row.sample_file_bytes)
}

/// Whether the recording `row` is next to the batch `a`, with the same parameters.
pub open spec fn is_next(a: ListAggregatedRecordingsRow, row: ListRecordingsRow) -> bool {
    a.ids.end == row_recording(row) && row.video_sample_entry.id == a.video_sample_entry.id
}

/// Whether everything that adding the recording `row` to a run with the batch `a` computes can be
/// held: how long the batch would be, if the recording is next to it; and then either what starts
/// a batch, what the error says, or what extends the batch.
pub open spec fn batch_fits(
    a: ListAggregatedRecordingsRow,
    row: ListRecordingsRow,
    forced_split: Duration,
) -> bool {
    &&& is_next(a, row) ==> fits(a.time.end.0 - a.time.start.0) && fits(
        a.time.end.0 - a.time.start.0 + row.duration_90k,
    )
    &&& if needs_flush(a, row, forced_split) {
        start_fits(row)
    } else if a.time.end != row.start {
        a.ids.end > i32::MIN
    } else {
        extension_fits(a, row)
    }
}

/// Whether everything that adding the recording `row` computes can be held.
pub open spec fn row_fits(
    forced_split: Duration,
    aggs: Map<i32, ListAggregatedRecordingsRow>,
    row: ListRecordingsRow,
) -> bool {
    &&& i32::MIN <= row_run(row) <= i32::MAX
    &&& if aggs.contains_key(row_run(row) as i32) {
        batch_fits(aggs[row_run(row) as i32], row, forced_split)
    } else {
        start_fits(row)
    }
}

/// What adding the recording `row` does: the batches that are left, and either the batch that it
/// puts an end to, if any, or why it can't be added.
pub open spec fn row_added(
    stream_id: i32,
    forced_split: Duration,
    aggs: Map<i32, ListAggregatedRecordingsRow>,
    row: ListRecordingsRow,
) -> (
    Map<i32, ListAggregatedRecordingsRow>,
    Result<Option<ListAggregatedRecordingsRow>, Error>,
) {
    let run = row_run(row) as i32;
    let a = aggs[run];
    if !aggs.contains_key(run) {
        (aggs.insert(run, batch_started(stream_id, row)), Ok(None))
    } else if needs_flush(a, row, forced_split) {
        (aggs.insert(run, batch_started(stream_id, row)), Ok(Some(a)))
    } else if a.time.end != row.start {
        (
            aggs,
            Err(
                Error::Discontinuity {
                    stream_id,
                    last: (a.ids.end - 1) as i32,
                    end: a.time.end,
                    id: row.id,
                    start: row.start,
                },
            ),
        )
    } else {
        (aggs.insert(run, batch_extended(a, row)), Ok(None))
    }
}

impl LockedDatabase {
    /// Calls `list_recordings_by_time` and aggregates consecutive recordings. Rows are given in
    /// arbitrary order. Callers which care about ordering should do their own sorting.
    pub fn list_aggregated_recordings(
        &self,
        stream_id: i32,
        desired_time: Range<Time>,
        forced_split: Duration,
    ) -> (r: (Query<'_>, Aggregator))
        ensures
            r.0 matches Query::RecordingsByTime { sql, stream_id: s, start_time, end_time } && sql@
                == self@.list_recordings_by_time_sql && s == stream_id && start_time
                == desired_time.start && end_time == desired_time.end,
            r.1.stream_id == stream_id,
            r.1.forced_split == forced_split,
            r.1.aggs@ == Map::<i32, ListAggregatedRecordingsRow>::empty(),
    {
        (
            self.list_recordings_by_time(stream_id, desired_time),
            Aggregator { stream_id, forced_split, aggs: BTreeMap::new() },
        )
    }
}

impl Aggregator {
    /// Whether `add` can hold everything that it computes.
    pub fn can_add(&self, row: &ListRecordingsRow) -> (r: bool)
        ensures
            r == row_fits(self.forced_split, self.aggs@, *row),
    {
        let recording_id: i32 = row.id.recording();
        let run: i32 = match recording_id.checked_sub(row.run_offset) {
            None => return false,
            Some(run) => run,
        };
        let duration: i64 = row.duration_90k as i64;
        let can_start = recording_id < i32::MAX && row.start.0.checked_add(duration).is_some();
        let a = match self.aggs.get(&run) {
            None => return can_start,
            Some(a) => a,
        };
        if a.ids.end != recording_id || row.video_sample_entry.id != a.video_sample_entry.id {
            return can_start;
        }
        let length: i64 = match a.time.end.0.checked_sub(a.time.start.0) {
            None => return false,
            Some(length) => length,
        };
        let new_dur: i64 = match length.checked_add(duration) {
            None => return false,
            Some(new_dur) => new_dur,
        };
        if new_dur >= self.forced_split.0 {
            return can_start;
        }
        if a.time.end.0 != row.start.0 {
            return a.ids.end > i32::MIN;
        }
        recording_id < i32::MAX && a.time.end.0.checked_add(duration).is_some()
            && a.video_samples.checked_add(row.video_samples as i64).is_some()
            && a.video_sync_samples.checked_add(row.video_sync_samples as i64).is_some()
            && a.sample_file_bytes.checked_add(row.sample_file_bytes as i64).is_some()
    }

    /// Adds a recording. Returns the batch that it puts an end to, if any.
    pub fn add(&mut self, row: ListRecordingsRow) -> (r: Result<
        Option<ListAggregatedRecordingsRow>,
        Error,
    >)
        requires
            row_fits(old(self).forced_split, old(self).aggs@, row),
        ensures
            final(self).stream_id == old(self).stream_id,
            final(self).forced_split == old(self).forced_split,
            (final(self).aggs@, r) == row_added(
                old(self).stream_id,
                old(self).forced_split,
                old(self).aggs@,
                row,
            ),
    {
        let ghost before = self.aggs@;
        let recording_id: i32 = row.id.recording();
        let run_start_id: i32 = recording_id - row.run_offset;
        let flushed = match self.aggs.remove(&run_start_id) {
            None => None,
            Some(a) => {
                if a.ids.end != recording_id || row.video_sample_entry.id
                    != a.video_sample_entry.id || (a.time.end - a.time.start).0
                    + row.duration_90k as i64 >= self.forced_split.0 {
                    Some(a)
                } else if a.time.end.0 != row.start.0 {
                    let e = Error::Discontinuity {
                        stream_id: self.stream_id,
                        last: a.ids.end - 1,
                        end: a.time.end,
                        id: row.id,
                        start: row.start,
                    };
                    self.aggs.insert(run_start_id, a);
                    assert(self.aggs@ =~= before);
                    return Err(e);
                } else {
                    let a = ListAggregatedRecordingsRow {
                        time: a.time.start..Time(a.time.end.0 + row.duration_90k as i64),
                        ids: a.ids.start..recording_id + 1,
                        video_samples: a.video_samples + row.video_samples as i64,
                        video_sync_samples: a.video_sync_samples + row.video_sync_samples as i64,
                        sample_file_bytes: a.sample_file_bytes + row.sample_file_bytes as i64,
                        ..a
                    };
                    assert(a == batch_extended(before[run_start_id], row));
                    self.aggs.insert(run_start_id, a);
                    assert(self.aggs@ =~= before.insert(run_start_id, a));
                    return Ok(None);
                }
            },
        };
        let a = ListAggregatedRecordingsRow {
            time: row.start..Time(row.start.0 + row.duration_90k as i64),
            ids: recording_id..recording_id + 1,
            video_samples: row.video_samples as i64,
            video_sync_samples: row.video_sync_samples as i64,
            sample_file_bytes: row.sample_file_bytes as i64,
            video_sample_entry: row.video_sample_entry,
            stream_id: self.stream_id,
            run_start_id,
            flags: row.flags,
        };
        assert(a == batch_started(self.stream_id, row));
        self.aggs.insert(run_start_id, a);
        assert(self.aggs@ =~= before.insert(run_start_id, a));
        Ok(flushed)
    }

    /// The batches that are left, in ascending order by run.
    pub fn finish(self) -> (r: Vec<ListAggregatedRecordingsRow>)
        ensures
            exists|runs: Seq<i32>|
                {
                    &&& #[trigger] ascending(runs)
                    &&& forall|k: i32| #[trigger]
                        runs.contains(k) <==> self.aggs@.contains_key(k)
                    &&& r@.len() == runs.len()
                    &&& forall|i: int|
                        0 <= i < runs.len() ==> #[trigger] r@[i] == self.aggs@[runs[i]]
                },
    {
        let runs = ascending_keys(&self.aggs);
        let ghost all = self.aggs@;
        let mut aggs = self.aggs;
        let mut r: Vec<ListAggregatedRecordingsRow> = Vec::new();
        let mut i: usize = 0;
        assert forall|j: int| 0 <= j < runs@.len() implies aggs@.contains_key(
            #[trigger] runs@[j],
        ) by {
            assert(runs@.contains(runs@[j]));
        }
        while i < runs.len()
            invariant
                i <= runs@.len(),
                ascending(runs@),
                forall|k: i32| #[trigger] runs@.contains(k) <==> all.contains_key(k),
                r@.len() == i,
                forall|j: int| 0 <= j < i ==> #[trigger] r@[j] == all[runs@[j]],
                forall|j: int|
                    i <= j < runs@.len() ==> aggs@.contains_key(#[trigger] runs@[j])
                        && aggs@[runs@[j]] == all[runs@[j]],
            decreases runs@.len() - i,
        {
            let run: i32 = runs[i];
            assert(aggs@.contains_key(runs@[i as int]));
            match aggs.remove(&run) {
                Some(a) => r.push(a),
                None => {},
            }
            i += 1;
        }
        assert(ascending(runs@));
        r
    }
}

/// What has come of a sequence of recordings: the batches that are not at an end, those that are,
/// and why it was given up, if it was.
pub struct Aggregation {
    pub aggs: Map<i32, ListAggregatedRecordingsRow>,
    pub flushed: Seq<ListAggregatedRecordingsRow>,
    pub error: Option<Error>,
}

/// What comes of adding the recordings `rows` in turn. Nothing is added after an error.
pub open spec fn aggregated(
    stream_id: i32,
    forced_split: Duration,
    rows: Seq<ListRecordingsRow>,
) -> Aggregation
    decreases rows.len(),
{
    if rows.len() == 0 {
        Aggregation { aggs: Map::empty(), flushed: Seq::empty(), error: None }
    } else {
        let g = aggregated(stream_id, forced_split, rows.drop_last());
        if g.error is Some {
            g
        } else {
            let (aggs, r) = row_added(stream_id, forced_split, g.aggs, rows.last());
            match r {
                Err(e) => Aggregation { aggs, flushed: g.flushed, error: Some(e) },
                Ok(None) => Aggregation { aggs, flushed: g.flushed, error: None },
                Ok(Some(a)) => Aggregation { aggs, flushed: g.flushed.push(a), error: None },
            }
        }
    }
}

/// Whether everything that adding the recordings `rows` in turn computes can be held.
pub open spec fn rows_fit(
    stream_id: i32,
    forced_split: Duration,
    rows: Seq<ListRecordingsRow>,
) -> bool
    decreases rows.len(),
{
    rows.len() > 0 ==> {
        &&& rows_fit(stream_id, forced_split, rows.drop_last())
        &&& row_fits(
            forced_split,
            aggregated(stream_id, forced_split, rows.drop_last()).aggs,
            rows.last(),
        )
    }
}

proof fn lemma_weight_kept(
    stream_id: i32,
    forced_split: Duration,
    rows: Seq<ListRecordingsRow>,
    of_batch: spec_fn(ListAggregatedRecordingsRow) -> int,
    of_row: spec_fn(ListRecordingsRow) -> int,
)
    requires
        rows_fit(stream_id, forced_split, rows),
        aggregated(stream_id, forced_split, rows).error is None,
        forall|row: ListRecordingsRow|
            start_fits(row) ==> of_batch(#[trigger] batch_started(stream_id, row)) == of_row(row),
        forall|a: ListAggregatedRecordingsRow, row: ListRecordingsRow|
            extension_fits(a, row) && is_next(a, row) && a.time.end == row.start ==> of_batch(
                #[trigger] batch_extended(a, row),
            ) == of_batch(a) + of_row(row),
    ensures
        aggregated(stream_id, forced_split, rows).aggs.dom().finite(),
        sum_of(aggregated(stream_id, forced_split, rows).flushed, of_batch) + sum_of_values(
            aggregated(stream_id, forced_split, rows).aggs,
            of_batch,
        ) == sum_of(rows, of_row),
    decreases rows.len(),
{
    if rows.len() > 0 {
        let init = rows.drop_last();
        let row = rows.last();
        let g = aggregated(stream_id, forced_split, init);
        lemma_weight_kept(stream_id, forced_split, init, of_batch, of_row);
        let run = row_run(row) as i32;
        let a = g.aggs[run];
        let started = batch_started(stream_id, row);
        lemma_sum_insert(g.aggs, of_batch, run, started);
        lemma_sum_insert(g.aggs, of_batch, run, batch_extended(a, row));
        if g.aggs.contains_key(run) {
            lemma_sum_without(g.aggs, of_batch, run);
            assert(g.flushed.push(a).drop_last() =~= g.flushed);
        } else {
            assert(g.aggs.remove(run) =~= g.aggs);
        }
    }
}

/// Nothing is lost or counted twice in the aggregation: the batches that were put to an end and
/// those that are left together have as many recordings, samples, sync samples and bytes, and
/// last as long, as the recordings that were added.
pub proof fn lemma_aggregation_keeps_totals(
    stream_id: i32,
    forced_split: Duration,
    rows: Seq<ListRecordingsRow>,
)
    requires
        rows_fit(stream_id, forced_split, rows),
        aggregated(stream_id, forced_split, rows).error is None,
    ensures
        aggregated(stream_id, forced_split, rows).aggs.dom().finite(),
        ({
            let g = aggregated(stream_id, forced_split, rows);
            let recordings = |a: ListAggregatedRecordingsRow| a.ids.end - a.ids.start;
            let length = |a: ListAggregatedRecordingsRow| a.time.end.0 - a.time.start.0;
            let samples = |a: ListAggregatedRecordingsRow| a.video_samples as int;
            let sync_samples = |a: ListAggregatedRecordingsRow| a.video_sync_samples as int;
            let bytes = |a: ListAggregatedRecordingsRow| a.sample_file_bytes as int;
            &&& sum_of(g.flushed, recordings) + sum_of_values(g.aggs, recordings) == sum_of(
                rows,
                |row: ListRecordingsRow| 1,
            )
            &&& sum_of(g.flushed, length) + sum_of_values(g.aggs, length) == sum_of(
                rows,
                |row: ListRecordingsRow| row.duration_90k as int,
            )
            &&& sum_of(g.flushed, samples) + sum_of_values(g.aggs, samples) == sum_of(
                rows,
                |row: ListRecordingsRow| row.video_samples as int,
            )
            &&& sum_of(g.flushed, sync_samples) + sum_of_values(g.aggs, sync_samples) == sum_of(
                rows,
                |row: ListRecordingsRow| row.video_sync_samples as int,
            )
            &&& sum_of(g.flushed, bytes) + sum_of_values(g.aggs, bytes) == sum_of(
                rows,
                |row: ListRecordingsRow| row.sample_file_bytes as int,
            )
        }),
{
    let recordings = |a: ListAggregatedRecordingsRow| a.ids.end - a.ids.start;
    let length = |a: ListAggregatedRecordingsRow| a.time.end.0 - a.time.start.0;
    let samples = |a: ListAggregatedRecordingsRow| a.video_samples as int;
    let sync_samples = |a: ListAggregatedRecordingsRow| a.video_sync_samples as int;
    let bytes = |a: ListAggregatedRecordingsRow| a.sample_file_bytes as int;
    lemma_weight_kept(stream_id, forced_split, rows, recordings, |row: ListRecordingsRow| 1);
    lemma_weight_kept(
        stream_id,
        forced_split,
        rows,
        length,
        |row: ListRecordingsRow| row.duration_90k as int,
    );
    lemma_weight_kept(
        stream_id,
        forced_split,
        rows,
        samples,
        |row: ListRecordingsRow| row.video_samples as int,
    );
    lemma_weight_kept(
        stream_id,
        forced_split,
        rows,
        sync_samples,
        |row: ListRecordingsRow| row.video_sync_samples as int,
    );
    lemma_weight_kept(
        stream_id,
        forced_split,
        rows,
        bytes,
        |row: ListRecordingsRow| row.sample_file_bytes as int,
    );
}

/// Whether a batch of more than one recording is shorter than the limit, under the id of its run.
pub open spec fn batch_within(
    forced_split: Duration,
    run: i32,
    a: ListAggregatedRecordingsRow,
) -> bool {
    a.run_start_id == run && (a.ids.end - a.ids.start > 1 ==> a.time.end.0 - a.time.start.0
        < forced_split.0)
}

/// No batch of more than one recording reaches the duration limit.
pub proof fn lemma_batches_within_limit(
    stream_id: i32,
    forced_split: Duration,
    rows: Seq<ListRecordingsRow>,
)
    requires
        rows_fit(stream_id, forced_split, rows),
    ensures
        forall|run: i32| #[trigger]
            aggregated(stream_id, forced_split, rows).aggs.contains_key(run) ==> batch_within(
                forced_split,
                run,
                aggregated(stream_id, forced_split, rows).aggs[run],
            ),
        forall|i: int|
            0 <= i < aggregated(stream_id, forced_split, rows).flushed.len() ==> {
                let a = #[trigger] aggregated(stream_id, forced_split, rows).flushed[i];
                batch_within(forced_split, a.run_start_id, a)
            },
    decreases rows.len(),
{
    if rows.len() > 0 {
        lemma_batches_within_limit(stream_id, forced_split, rows.drop_last());
    }
}

} // verus!
