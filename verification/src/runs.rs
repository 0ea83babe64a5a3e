//! How runs of recordings are split into batches.
//!
//! A run is split for three reasons only: the duration limit, a missing id, and a change of the
//! video sample entry. The lemmas here say so of one recording that is added, and of all the
//! batches that come out.
use crate::aggregate::{
    aggregated, row_added, row_fits, rows_fit, Aggregation, ListAggregatedRecordingsRow,
};
use crate::error::Error;
use crate::ids::recording_part;
use crate::listing::ListRecordingsRow;
use crate::recording::Duration;
use crate::sums::sum_of;
use vstd::prelude::*;

verus! {

/// The id of a recording within its stream.
pub open spec fn id_within(row: ListRecordingsRow) -> int {
    recording_part(row.id.0 as int)
}

/// The id of the first recording of a recording's run.
pub open spec fn run_start(row: ListRecordingsRow) -> int {
    recording_part(row.id.0 as int) - row.run_offset
}

/// How long a batch lasts.
pub open spec fn length(a: ListAggregatedRecordingsRow) -> int {
    a.time.end.0 - a.time.start.0
}

/// Whether a run is split between the batch `a` and the recording `row` that follows on it: there
/// is a missing id, the video sample entry changes, or the recording would bring the batch up to
/// the duration limit.
pub open spec fn splits(
    a: ListAggregatedRecordingsRow,
    row: ListRecordingsRow,
    forced_split: Duration,
) -> bool {
    ||| id_within(row) != a.ids.end
    ||| row.video_sample_entry.id != a.video_sample_entry.id
    ||| length(a) + row.duration_90k >= forced_split.0
}

/// Whether the batch `b` has the recording `row` alone.
pub open spec fn is_alone_in(
    row: ListRecordingsRow,
    b: ListAggregatedRecordingsRow,
    stream_id: i32,
) -> bool {
    &&& b.ids.start == id_within(row) && b.ids.end == id_within(row) + 1
    &&& b.time.start == row.start && b.time.end.0 == row.start.0 + row.duration_90k
    &&& b.video_samples == row.video_samples
    &&& b.video_sync_samples == row.video_sync_samples
    &&& b.sample_file_bytes == row.sample_file_bytes
    &&& b.video_sample_entry == row.video_sample_entry
    &&& b.stream_id == stream_id
    &&& b.flags == row.flags
    &&& b.run_start_id == run_start(row)
}

/// Whether the batch `b` has what the batch `a` has, and then the recording `row`.
pub open spec fn is_joined(
    a: ListAggregatedRecordingsRow,
    row: ListRecordingsRow,
    b: ListAggregatedRecordingsRow,
) -> bool {
    &&& a.time.end == row.start
    &&& b.ids.start == a.ids.start && b.ids.end == a.ids.end + 1
    &&& b.time.start == a.time.start && b.time.end.0 == a.time.end.0 + row.duration_90k
    &&& b.video_samples == a.video_samples + row.video_samples
    &&& b.video_sync_samples == a.video_sync_samples + row.video_sync_samples
    &&& b.sample_file_bytes == a.sample_file_bytes + row.sample_file_bytes
    &&& b.video_sample_entry == a.video_sample_entry
    &&& b.stream_id == a.stream_id
    &&& b.flags == a.flags
    &&& b.run_start_id == a.run_start_id
}

/// A recording joins the latest batch of its run, unless the run is split before it. Then the
/// batch is handed out as it is, and the recording starts another. A recording that would join
/// must start when the batch ends; else nothing changes, and the error says where the gap is.
/// The batches of other runs stay as they are.
pub proof fn lemma_recording_joins_unless_split(
    stream_id: i32,
    forced_split: Duration,
    aggs: Map<i32, ListAggregatedRecordingsRow>,
    row: ListRecordingsRow,
)
    requires
        row_fits(forced_split, aggs, row),
    ensures
        i32::MIN <= run_start(row) <= i32::MAX,
        ({
            let run = run_start(row) as i32;
            let a = aggs[run];
            let (after, r) = row_added(stream_id, forced_split, aggs, row);
            &&& forall|k: i32|
                k != run ==> (#[trigger] after.contains_key(k) <==> aggs.contains_key(k))
                    && after[k] == aggs[k]
            &&& match r {
                Ok(None) => after.contains_key(run) && if aggs.contains_key(run) {
                    !splits(a, row, forced_split) && is_joined(a, row, after[run])
                } else {
                    is_alone_in(row, after[run], stream_id)
                },
                Ok(Some(ended)) => {
                    &&& aggs.contains_key(run) && splits(a, row, forced_split)
                    &&& ended == a
                    &&& after.contains_key(run) && is_alone_in(row, after[run], stream_id)
                },
                Err(e) => {
                    &&& aggs.contains_key(run) && !splits(a, row, forced_split)
                    &&& a.time.end != row.start
                    &&& after == aggs
                    &&& e == Error::Discontinuity {
                        stream_id,
                        last: (a.ids.end - 1) as i32,
                        end: a.time.end,
                        id: row.id,
                        start: row.start,
                    }
                },
            }
        }),
{
}

/// Whether nothing that is reckoned with in the batch `a` is greater than `n` either way.
pub open spec fn batch_below(a: ListAggregatedRecordingsRow, n: int) -> bool {
    &&& -n <= a.time.start.0 <= n && -n <= a.time.end.0 <= n
    &&& -n <= a.video_samples <= n
    &&& -n <= a.video_sync_samples <= n
    &&& -n <= a.sample_file_bytes <= n
    &&& a.ids.end > i32::MIN
}

/// A recording can be added as long as its id is not the greatest there is, its run starts at an id
/// that can be held, and no time or sum is near the limits of what can be held.
pub proof fn lemma_ordinary_recording_fits(
    forced_split: Duration,
    aggs: Map<i32, ListAggregatedRecordingsRow>,
    row: ListRecordingsRow,
)
    requires
        id_within(row) < i32::MAX,
        i32::MIN <= run_start(row) <= i32::MAX,
        -0x3000_0000_0000_0000 <= row.start.0 <= 0x3000_0000_0000_0000,
        aggs.contains_key(run_start(row) as i32) ==> batch_below(
            aggs[run_start(row) as i32],
            0x3000_0000_0000_0000,
        ),
    ensures
        row_fits(forced_split, aggs, row),
{
}

/// Whether the recording at `j` is the next one of its run after that at `i`.
pub open spec fn follows_in_run(rows: Seq<ListRecordingsRow>, i: int, j: int) -> bool {
    &&& 0 <= i < j < rows.len()
    &&& run_start(rows[i]) == run_start(rows[j])
    &&& forall|k: int| i < k < j ==> run_start(#[trigger] rows[k]) != run_start(rows[i])
}

/// Whether the recording at `i` is the last one of its run.
pub open spec fn is_last_of_run(rows: Seq<ListRecordingsRow>, i: int) -> bool {
    &&& 0 <= i < rows.len()
    &&& forall|k: int| i < k < rows.len() ==> run_start(#[trigger] rows[k]) != run_start(rows[i])
}

/// Whether the recording `row` is the last one of the batch `a`.
pub open spec fn ends(a: ListAggregatedRecordingsRow, row: ListRecordingsRow) -> bool {
    a.run_start_id == run_start(row) && a.ids.end == id_within(row) + 1
        && a.video_sample_entry.id == row.video_sample_entry.id
}

/// Whether the run of the batch `a` goes on after it with a recording that it is split before.
pub open spec fn is_split_after(
    a: ListAggregatedRecordingsRow,
    rows: Seq<ListRecordingsRow>,
    forced_split: Duration,
) -> bool {
    exists|i: int, j: int| #[trigger]
        follows_in_run(rows, i, j) && ends(a, rows[i]) && splits(a, rows[j], forced_split)
}

/// Whether the batch `a` has the last recording of its run.
pub open spec fn has_last_of_run(
    a: ListAggregatedRecordingsRow,
    rows: Seq<ListRecordingsRow>,
) -> bool {
    exists|i: int| #[trigger] is_last_of_run(rows, i) && ends(a, rows[i])
}

proof fn lemma_follows_before(rows: Seq<ListRecordingsRow>, i: int, j: int)
    requires
        rows.len() > 0,
        follows_in_run(rows.drop_last(), i, j),
    ensures
        follows_in_run(rows, i, j),
{
    let init = rows.drop_last();
    assert(rows[i] == init[i] && rows[j] == init[j]);
    assert forall|k: int| i < k < j implies run_start(#[trigger] rows[k]) != run_start(rows[i]) by {
        assert(init[k] == rows[k]);
    }
}

/// A batch is put to an end only for one of the three reasons: the next recording of its run has
/// another id than the next one or another video sample entry, or would bring it up to the duration
/// limit. A batch that is not put to an end has the last recording of its run.
pub proof fn lemma_split_only_for_a_reason(
    stream_id: i32,
    forced_split: Duration,
    rows: Seq<ListRecordingsRow>,
)
    requires
        rows_fit(stream_id, forced_split, rows),
        aggregated(stream_id, forced_split, rows).error is None,
    ensures
        forall|i: int|
            0 <= i < aggregated(stream_id, forced_split, rows).flushed.len() ==> is_split_after(
                #[trigger] aggregated(stream_id, forced_split, rows).flushed[i],
                rows,
                forced_split,
            ),
        forall|run: i32| #[trigger]
            aggregated(stream_id, forced_split, rows).aggs.contains_key(run) ==> {
                let a = aggregated(stream_id, forced_split, rows).aggs[run];
                a.run_start_id == run && has_last_of_run(a, rows)
            },
    decreases rows.len(),
{
    if rows.len() > 0 {
        let init = rows.drop_last();
        let row = rows.last();
        let n = rows.len() - 1;
        let g = aggregated(stream_id, forced_split, init);
        let h = aggregated(stream_id, forced_split, rows);
        lemma_split_only_for_a_reason(stream_id, forced_split, init);
        lemma_recording_joins_unless_split(stream_id, forced_split, g.aggs, row);
        let run = run_start(row) as i32;
        assert(rows[n] == row);
        assert forall|i: int| 0 <= i < h.flushed.len() implies is_split_after(
            #[trigger] h.flushed[i],
            rows,
            forced_split,
        ) by {
            let a = h.flushed[i];
            if i < g.flushed.len() {
                assert(a == g.flushed[i]);
                let (p, q) = choose|p: int, q: int| #[trigger]
                    follows_in_run(init, p, q) && ends(a, init[p]) && splits(
                        a,
                        init[q],
                        forced_split,
                    );
                lemma_follows_before(rows, p, q);
                assert(rows[p] == init[p] && rows[q] == init[q]);
            } else {
                assert(a == g.aggs[run]);
                assert(has_last_of_run(a, init));
                let p = choose|p: int| #[trigger] is_last_of_run(init, p) && ends(a, init[p]);
                assert(rows[p] == init[p]);
                assert(follows_in_run(rows, p, n)) by {
                    assert forall|k: int| p < k < n implies run_start(#[trigger] rows[k])
                        != run_start(rows[p]) by {
                        assert(init[k] == rows[k]);
                    }
                }
            }
        }
        assert forall|k: i32| #[trigger] h.aggs.contains_key(k) implies h.aggs[k].run_start_id == k
            && has_last_of_run(h.aggs[k], rows) by {
            if k == run {
                if g.aggs.contains_key(run) {
                    assert(g.aggs[run].run_start_id == run);
                }
                assert(is_last_of_run(rows, n) && ends(h.aggs[run], rows[n]));
            } else {
                let a = g.aggs[k];
                assert(g.aggs.contains_key(k));
                let p = choose|p: int| #[trigger] is_last_of_run(init, p) && ends(a, init[p]);
                assert(rows[p] == init[p]);
                assert(is_last_of_run(rows, p)) by {
                    assert forall|q: int| p < q < rows.len() implies run_start(#[trigger] rows[q])
                        != run_start(rows[p]) by {
                        if q < n {
                            assert(init[q] == rows[q]);
                        }
                    }
                }
            }
        }
    }
}

/// Whether the batch `a` starts with one of `rows`, and has its flags, its video sample entry and
/// its run.
pub open spec fn starts_with_one(
    a: ListAggregatedRecordingsRow,
    stream_id: i32,
    rows: Seq<ListRecordingsRow>,
) -> bool {
    exists|i: int|
        {
            &&& 0 <= i < rows.len()
            &&& id_within(#[trigger] rows[i]) == a.ids.start
            &&& rows[i].start == a.time.start
            &&& rows[i].flags == a.flags
            &&& rows[i].video_sample_entry == a.video_sample_entry
            &&& run_start(rows[i]) == a.run_start_id
            &&& a.stream_id == stream_id
        }
}

/// Every batch starts with a recording whose flags, video sample entry and run it has.
pub proof fn lemma_batches_start_with_recordings(
    stream_id: i32,
    forced_split: Duration,
    rows: Seq<ListRecordingsRow>,
)
    requires
        rows_fit(stream_id, forced_split, rows),
        aggregated(stream_id, forced_split, rows).error is None,
    ensures
        forall|i: int|
            0 <= i < aggregated(stream_id, forced_split, rows).flushed.len() ==> starts_with_one(
                #[trigger] aggregated(stream_id, forced_split, rows).flushed[i],
                stream_id,
                rows,
            ),
        forall|run: i32| #[trigger]
            aggregated(stream_id, forced_split, rows).aggs.contains_key(run) ==> starts_with_one(
                aggregated(stream_id, forced_split, rows).aggs[run],
                stream_id,
                rows,
            ),
    decreases rows.len(),
{
    if rows.len() > 0 {
        let init = rows.drop_last();
        let row = rows.last();
        let n = rows.len() - 1;
        let g = aggregated(stream_id, forced_split, init);
        let h = aggregated(stream_id, forced_split, rows);
        lemma_batches_start_with_recordings(stream_id, forced_split, init);
        lemma_recording_joins_unless_split(stream_id, forced_split, g.aggs, row);
        let run = run_start(row) as i32;
        assert(rows[n] == row);
        assert forall|a: ListAggregatedRecordingsRow| #[trigger]
            starts_with_one(a, stream_id, init) implies starts_with_one(a, stream_id, rows) by {
            let i = choose|i: int|
                {
                    &&& 0 <= i < init.len()
                    &&& id_within(#[trigger] init[i]) == a.ids.start
                    &&& init[i].start == a.time.start
                    &&& init[i].flags == a.flags
                    &&& init[i].video_sample_entry == a.video_sample_entry
                    &&& run_start(init[i]) == a.run_start_id
                    &&& a.stream_id == stream_id
                };
            assert(rows[i] == init[i]);
        }
        assert forall|i: int| 0 <= i < h.flushed.len() implies starts_with_one(
            #[trigger] h.flushed[i],
            stream_id,
            rows,
        ) by {
            if i < g.flushed.len() {
                assert(h.flushed[i] == g.flushed[i]);
                assert(starts_with_one(g.flushed[i], stream_id, init));
            } else {
                assert(h.flushed[i] == g.aggs[run]);
                assert(starts_with_one(g.aggs[run], stream_id, init));
            }
        }
        assert forall|k: i32| #[trigger] h.aggs.contains_key(k) implies starts_with_one(
            h.aggs[k],
            stream_id,
            rows,
        ) by {
            if k != run {
                assert(g.aggs.contains_key(k));
                assert(starts_with_one(g.aggs[k], stream_id, init));
            } else if g.aggs.contains_key(run) && !splits(g.aggs[run], row, forced_split) {
                assert(starts_with_one(g.aggs[run], stream_id, rows)) by {
                    assert(starts_with_one(g.aggs[run], stream_id, init));
                }
                let a = g.aggs[run];
                let i = choose|i: int|
                    {
                        &&& 0 <= i < rows.len()
                        &&& id_within(#[trigger] rows[i]) == a.ids.start
                        &&& rows[i].start == a.time.start
                        &&& rows[i].flags == a.flags
                        &&& rows[i].video_sample_entry == a.video_sample_entry
                        &&& run_start(rows[i]) == a.run_start_id
                        &&& a.stream_id == stream_id
                    };
                assert(id_within(rows[i]) == h.aggs[k].ids.start);
            } else {
                assert(id_within(rows[n]) == h.aggs[k].ids.start);
            }
        }
    }
}

/// Whether the batch `a` has the recording `row`, with its run and its video sample entry.
pub open spec fn holds(a: ListAggregatedRecordingsRow, row: ListRecordingsRow) -> bool {
    &&& a.ids.start <= id_within(row) < a.ids.end
    &&& a.run_start_id == run_start(row)
    &&& a.video_sample_entry.id == row.video_sample_entry.id
}

/// Whether one of the batches of `g` has the recording `row`, with its run and its video sample
/// entry.
pub open spec fn is_held(g: Aggregation, row: ListRecordingsRow) -> bool {
    ||| exists|i: int| 0 <= i < g.flushed.len() && holds(#[trigger] g.flushed[i], row)
    ||| exists|run: i32| #[trigger] g.aggs.contains_key(run) && holds(g.aggs[run], row)
}

/// Every recording is in a batch of its own run and with its own video sample entry.
pub proof fn lemma_recordings_stay_in_their_runs(
    stream_id: i32,
    forced_split: Duration,
    rows: Seq<ListRecordingsRow>,
)
    requires
        rows_fit(stream_id, forced_split, rows),
        aggregated(stream_id, forced_split, rows).error is None,
    ensures
        forall|i: int|
            0 <= i < rows.len() ==> is_held(
                aggregated(stream_id, forced_split, rows),
                #[trigger] rows[i],
            ),
    decreases rows.len(),
{
    if rows.len() > 0 {
        let init = rows.drop_last();
        let row = rows.last();
        let g = aggregated(stream_id, forced_split, init);
        let h = aggregated(stream_id, forced_split, rows);
        lemma_recordings_stay_in_their_runs(stream_id, forced_split, init);
        lemma_recording_joins_unless_split(stream_id, forced_split, g.aggs, row);
        let run = run_start(row) as i32;
        assert(h.aggs.contains_key(run) && holds(h.aggs[run], row)) by {
            if g.aggs.contains_key(run) {
                lemma_ids_ascend_in_batch(stream_id, forced_split, init, run);
                lemma_split_only_for_a_reason(stream_id, forced_split, init);
            }
        }
        assert forall|i: int| 0 <= i < rows.len() implies is_held(h, #[trigger] rows[i]) by {
            if i < rows.len() - 1 {
                assert(init[i] == rows[i]);
                assert(is_held(g, init[i]));
                if exists|j: int|
                    0 <= j < g.flushed.len() && holds(#[trigger] g.flushed[j], init[i]) {
                    let j = choose|j: int|
                        0 <= j < g.flushed.len() && holds(#[trigger] g.flushed[j], init[i]);
                    assert(h.flushed[j] == g.flushed[j]);
                } else {
                    let k = choose|k: i32| #[trigger]
                        g.aggs.contains_key(k) && holds(g.aggs[k], init[i]);
                    if k != run {
                        assert(h.aggs.contains_key(k) && holds(h.aggs[k], rows[i]));
                    } else if splits(g.aggs[run], row, forced_split) {
                        assert(h.flushed[g.flushed.len() as int] == g.aggs[run]);
                    } else {
                        assert(h.aggs.contains_key(run) && holds(h.aggs[run], rows[i]));
                    }
                }
            }
        }
    }
}

proof fn lemma_ids_ascend_in_batch(
    stream_id: i32,
    forced_split: Duration,
    rows: Seq<ListRecordingsRow>,
    run: i32,
)
    requires
        rows_fit(stream_id, forced_split, rows),
        aggregated(stream_id, forced_split, rows).error is None,
        aggregated(stream_id, forced_split, rows).aggs.contains_key(run),
    ensures
        ({
            let a = aggregated(stream_id, forced_split, rows).aggs[run];
            a.ids.start < a.ids.end
        }),
    decreases rows.len(),
{
    if rows.len() > 0 {
        let init = rows.drop_last();
        let g = aggregated(stream_id, forced_split, init);
        lemma_recording_joins_unless_split(stream_id, forced_split, g.aggs, rows.last());
        if g.aggs.contains_key(run) {
            lemma_ids_ascend_in_batch(stream_id, forced_split, init, run);
        }
    }
}

/// Those of `rows` whose run starts at `run`.
pub open spec fn rows_of_run(rows: Seq<ListRecordingsRow>, run: int) -> Seq<ListRecordingsRow>
    decreases rows.len(),
{
    if rows.len() == 0 {
        Seq::empty()
    } else if run_start(rows.last()) == run {
        rows_of_run(rows.drop_last(), run).push(rows.last())
    } else {
        rows_of_run(rows.drop_last(), run)
    }
}

/// How long the recordings `s` last together.
pub open spec fn total_length(s: Seq<ListRecordingsRow>) -> int {
    sum_of(s, |row: ListRecordingsRow| row.duration_90k as int)
}

/// Whether nothing splits the recordings `s` of a run: their ids follow on each other, they have
/// one video sample entry, and together they stay below the duration limit.
pub open spec fn is_unbroken(s: Seq<ListRecordingsRow>, forced_split: Duration) -> bool {
    &&& forall|i: int|
        0 <= i < s.len() ==> {
            &&& id_within(#[trigger] s[i]) == id_within(s[0]) + i
            &&& s[i].video_sample_entry.id == s[0].video_sample_entry.id
            &&& s[i].duration_90k >= 0
        }
    &&& s.len() > 1 ==> total_length(s) < forced_split.0
}

/// Whether the batch `a` is made of all the recordings `s` of a run.
pub open spec fn is_whole_run(
    a: ListAggregatedRecordingsRow,
    stream_id: i32,
    s: Seq<ListRecordingsRow>,
) -> bool {
    &&& a.ids.start == id_within(s.first()) && a.ids.end == id_within(s.last()) + 1
    &&& a.time.start == s.first().start && length(a) == total_length(s)
    &&& a.video_samples == sum_of(s, |row: ListRecordingsRow| row.video_samples as int)
    &&& a.video_sync_samples == sum_of(s, |row: ListRecordingsRow| row.video_sync_samples as int)
    &&& a.sample_file_bytes == sum_of(s, |row: ListRecordingsRow| row.sample_file_bytes as int)
    &&& a.video_sample_entry == s.first().video_sample_entry
    &&& a.flags == s.first().flags
    &&& a.stream_id == stream_id
    &&& a.run_start_id == run_start(s.first())
}

proof fn lemma_sums_push(s: Seq<ListRecordingsRow>, row: ListRecordingsRow)
    ensures
        total_length(s.push(row)) == total_length(s) + row.duration_90k,
        sum_of(s.push(row), |row: ListRecordingsRow| row.video_samples as int) == sum_of(
            s,
            |row: ListRecordingsRow| row.video_samples as int,
        ) + row.video_samples,
        sum_of(s.push(row), |row: ListRecordingsRow| row.video_sync_samples as int) == sum_of(
            s,
            |row: ListRecordingsRow| row.video_sync_samples as int,
        ) + row.video_sync_samples,
        sum_of(s.push(row), |row: ListRecordingsRow| row.sample_file_bytes as int) == sum_of(
            s,
            |row: ListRecordingsRow| row.sample_file_bytes as int,
        ) + row.sample_file_bytes,
{
    assert(s.push(row).drop_last() =~= s);
    assert(s.push(row).last() == row);
}

proof fn lemma_runs_of(rows: Seq<ListRecordingsRow>, run: int)
    ensures
        forall|i: int|
            0 <= i < rows_of_run(rows, run).len() ==> run_start(
                #[trigger] rows_of_run(rows, run)[i],
            ) == run,
    decreases rows.len(),
{
    if rows.len() > 0 {
        let before = rows_of_run(rows.drop_last(), run);
        lemma_runs_of(rows.drop_last(), run);
        assert forall|i: int| 0 <= i < rows_of_run(rows, run).len() implies run_start(
            #[trigger] rows_of_run(rows, run)[i],
        ) == run by {
            if i < before.len() {
                assert(rows_of_run(rows, run)[i] == before[i]);
            }
        }
    }
}

proof fn lemma_unbroken_before(
    s: Seq<ListRecordingsRow>,
    row: ListRecordingsRow,
    forced_split: Duration,
)
    requires
        is_unbroken(s.push(row), forced_split),
    ensures
        is_unbroken(s, forced_split),
        s.len() > 0 ==> id_within(row) == id_within(s.last()) + 1 && row.video_sample_entry.id
            == s[0].video_sample_entry.id && total_length(s) + row.duration_90k < forced_split.0,
{
    let t = s.push(row);
    lemma_sums_push(s, row);
    assert forall|i: int| 0 <= i < s.len() implies {
        &&& id_within(#[trigger] s[i]) == id_within(s[0]) + i
        &&& s[i].video_sample_entry.id == s[0].video_sample_entry.id
        &&& s[i].duration_90k >= 0
    } by {
        assert(t[i] == s[i] && t[0] == s[0]);
        assert(id_within(t[i]) == id_within(t[0]) + i);
    }
    assert(t[s.len() as int] == row);
    assert(id_within(t[s.len() as int]) == id_within(t[0]) + s.len());
    if s.len() > 0 {
        assert(t[0] == s[0]);
        assert(s.last() == s[s.len() - 1]);
    }
}

/// A run that nothing splits comes out as exactly one batch, with all of its recordings, however
/// the recordings of other runs are interleaved with it.
pub proof fn lemma_unbroken_run_is_one_batch(
    stream_id: i32,
    forced_split: Duration,
    rows: Seq<ListRecordingsRow>,
    run: i32,
)
    requires
        rows_fit(stream_id, forced_split, rows),
        aggregated(stream_id, forced_split, rows).error is None,
        is_unbroken(rows_of_run(rows, run as int), forced_split),
    ensures
        ({
            let g = aggregated(stream_id, forced_split, rows);
            let s = rows_of_run(rows, run as int);
            &&& forall|i: int|
                0 <= i < g.flushed.len() ==> (#[trigger] g.flushed[i]).run_start_id != run
            &&& g.aggs.contains_key(run) <==> s.len() > 0
            &&& s.len() > 0 ==> is_whole_run(g.aggs[run], stream_id, s)
        }),
    decreases rows.len(),
{
    if rows.len() > 0 {
        let init = rows.drop_last();
        let row = rows.last();
        let g = aggregated(stream_id, forced_split, init);
        let h = aggregated(stream_id, forced_split, rows);
        let s = rows_of_run(init, run as int);
        lemma_recording_joins_unless_split(stream_id, forced_split, g.aggs, row);
        lemma_split_only_for_a_reason(stream_id, forced_split, init);
        lemma_runs_of(rows, run as int);
        if run_start(row) == run {
            lemma_unbroken_before(s, row, forced_split);
            lemma_unbroken_run_is_one_batch(stream_id, forced_split, init, run);
            lemma_sums_push(s, row);
            assert(s.push(row).last() == row);
            if s.len() > 0 {
                assert(s.push(row).first() == s.first());
            } else {
                assert(s =~= Seq::<ListRecordingsRow>::empty());
                assert(s.push(row).first() == row);
            }
            assert(h.flushed == g.flushed);
        } else {
            lemma_unbroken_run_is_one_batch(stream_id, forced_split, init, run);
            let other = run_start(row) as i32;
            assert(h.aggs.contains_key(run) <==> g.aggs.contains_key(run));
            assert forall|i: int| 0 <= i < h.flushed.len() implies (
            #[trigger] h.flushed[i]).run_start_id != run by {
                if i < g.flushed.len() {
                    assert(h.flushed[i] == g.flushed[i]);
                } else {
                    assert(h.flushed[i] == g.aggs[other]);
                }
            }
        }
    }
}

} // verus!
