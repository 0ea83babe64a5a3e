//! What the batches of an aggregation hold.
use crate::aggregate::{
    aggregated, batch_extended, batch_started, needs_flush, row_recording, row_run, rows_fit,
    Aggregation, ListAggregatedRecordingsRow,
};
use crate::keys::ascending;
use crate::listing::ListRecordingsRow;
use crate::recording::Duration;
use crate::sums::sum_of;
use vstd::prelude::*;

verus! {

/// Whether the ids of the batch `a` include `id`.
pub open spec fn in_batch(a: ListAggregatedRecordingsRow, id: int) -> bool {
    a.ids.start <= id < a.ids.end
}

/// Whether `rows` include a recording with the id `id`.
pub open spec fn is_listed(rows: Seq<ListRecordingsRow>, id: int) -> bool {
    exists|i: int| 0 <= i < rows.len() && row_recording(#[trigger] rows[i]) == id
}

/// Whether no two of `rows` have the same id.
pub open spec fn ids_distinct(rows: Seq<ListRecordingsRow>) -> bool {
    forall|i: int, j: int|
        0 <= i < j < rows.len() ==> row_recording(#[trigger] rows[i]) != row_recording(
            #[trigger] rows[j],
        )
}

/// Those of `rows` whose ids are among those of the batch `a`.
pub open spec fn members(
    a: ListAggregatedRecordingsRow,
    rows: Seq<ListRecordingsRow>,
) -> Seq<ListRecordingsRow>
    decreases rows.len(),
{
    if rows.len() == 0 {
        Seq::empty()
    } else if in_batch(a, row_recording(rows.last())) {
        members(a, rows.drop_last()).push(rows.last())
    } else {
        members(a, rows.drop_last())
    }
}

/// Whether the batch `a` is made of those of `rows` that have its ids: it has some, and none that
/// is not listed; it lasts from the start of the first to the end of the last of them; and its
/// samples, sync samples and bytes are theirs together.
pub open spec fn is_batch_of(
    stream_id: i32,
    a: ListAggregatedRecordingsRow,
    rows: Seq<ListRecordingsRow>,
) -> bool {
    let m = members(a, rows);
    &&& a.stream_id == stream_id
    &&& a.ids.start < a.ids.end
    &&& forall|id: int| #[trigger] in_batch(a, id) ==> is_listed(rows, id)
    &&& m.len() > 0
    &&& a.time.start == m.first().start
    &&& a.time.end.0 == m.last().start.0 + m.last().duration_90k
    &&& a.video_samples == sum_of(m, |row: ListRecordingsRow| row.video_samples as int)
    &&& a.video_sync_samples == sum_of(m, |row: ListRecordingsRow| row.video_sync_samples as int)
    &&& a.sample_file_bytes == sum_of(m, |row: ListRecordingsRow| row.sample_file_bytes as int)
}

/// Whether no id is in both `a` and `b`.
pub open spec fn apart(a: ListAggregatedRecordingsRow, b: ListAggregatedRecordingsRow) -> bool {
    forall|id: int| !(#[trigger] in_batch(a, id) && in_batch(b, id))
}

spec fn in_some(g: Aggregation, id: int) -> bool {
    ||| exists|i: int| 0 <= i < g.flushed.len() && in_batch(#[trigger] g.flushed[i], id)
    ||| exists|run: i32| #[trigger] g.aggs.contains_key(run) && in_batch(g.aggs[run], id)
}

spec fn orderly(stream_id: i32, g: Aggregation, rows: Seq<ListRecordingsRow>) -> bool {
    &&& forall|run: i32| #[trigger]
        g.aggs.contains_key(run) ==> is_batch_of(stream_id, g.aggs[run], rows)
    &&& forall|i: int|
        0 <= i < g.flushed.len() ==> is_batch_of(stream_id, #[trigger] g.flushed[i], rows)
    &&& forall|i: int, j: int|
        0 <= i < j < g.flushed.len() ==> apart(#[trigger] g.flushed[i], #[trigger] g.flushed[j])
    &&& forall|i: int, run: i32|
        0 <= i < g.flushed.len() && g.aggs.contains_key(run) ==> apart(
            #[trigger] g.flushed[i],
            #[trigger] g.aggs[run],
        )
    &&& forall|k: i32, l: i32|
        k != l && g.aggs.contains_key(k) && g.aggs.contains_key(l) ==> apart(
            #[trigger] g.aggs[k],
            #[trigger] g.aggs[l],
        )
    &&& forall|i: int| 0 <= i < rows.len() ==> in_some(g, row_recording(#[trigger] rows[i]))
}

proof fn lemma_none_listed(a: ListAggregatedRecordingsRow, rows: Seq<ListRecordingsRow>)
    requires
        forall|i: int| 0 <= i < rows.len() ==> !in_batch(a, row_recording(#[trigger] rows[i])),
    ensures
        members(a, rows) == Seq::<ListRecordingsRow>::empty(),
    decreases rows.len(),
{
    if rows.len() > 0 {
        let init = rows.drop_last();
        assert(!in_batch(a, row_recording(rows[rows.len() - 1])));
        assert forall|i: int| 0 <= i < init.len() implies !in_batch(
            a,
            row_recording(#[trigger] init[i]),
        ) by {
            assert(init[i] == rows[i]);
        }
        lemma_none_listed(a, init);
    }
}

proof fn lemma_same_members(
    a: ListAggregatedRecordingsRow,
    b: ListAggregatedRecordingsRow,
    rows: Seq<ListRecordingsRow>,
)
    requires
        forall|i: int|
            0 <= i < rows.len() ==> in_batch(a, row_recording(#[trigger] rows[i])) == in_batch(
                b,
                row_recording(rows[i]),
            ),
    ensures
        members(a, rows) == members(b, rows),
    decreases rows.len(),
{
    if rows.len() > 0 {
        let init = rows.drop_last();
        let last = rows[rows.len() - 1];
        assert(in_batch(a, row_recording(last)) == in_batch(b, row_recording(last)));
        assert forall|i: int| 0 <= i < init.len() implies in_batch(
            a,
            row_recording(#[trigger] init[i]),
        ) == in_batch(b, row_recording(init[i])) by {
            assert(init[i] == rows[i]);
        }
        lemma_same_members(a, b, init);
    }
}

proof fn lemma_listed_before(rows: Seq<ListRecordingsRow>)
    requires
        rows.len() > 0,
        ids_distinct(rows),
    ensures
        ids_distinct(rows.drop_last()),
        !is_listed(rows.drop_last(), row_recording(rows.last())),
        forall|id: int| #[trigger]
            is_listed(rows, id) <==> is_listed(rows.drop_last(), id) || id == row_recording(
                rows.last(),
            ),
{
    let init = rows.drop_last();
    let n = rows.len() - 1;
    assert forall|i: int, j: int| 0 <= i < j < init.len() implies row_recording(
        #[trigger] init[i],
    ) != row_recording(#[trigger] init[j]) by {
        assert(init[i] == rows[i] && init[j] == rows[j]);
    }
    if is_listed(init, row_recording(rows.last())) {
        let i = choose|i: int|
            0 <= i < init.len() && row_recording(#[trigger] init[i]) == row_recording(rows.last());
        assert(row_recording(rows[i]) != row_recording(rows[n]));
    }
    assert forall|id: int| #[trigger] is_listed(rows, id) <==> is_listed(init, id) || id
        == row_recording(rows.last()) by {
        if is_listed(rows, id) && id != row_recording(rows.last()) {
            let i = choose|i: int| 0 <= i < rows.len() && row_recording(#[trigger] rows[i]) == id;
            assert(row_recording(init[i]) == id);
        }
        if is_listed(init, id) {
            let i = choose|i: int| 0 <= i < init.len() && row_recording(#[trigger] init[i]) == id;
            assert(row_recording(rows[i]) == id);
        }
        if id == row_recording(rows.last()) {
            assert(row_recording(rows[n]) == id);
        }
    }
}

proof fn lemma_batch_stays(
    stream_id: i32,
    a: ListAggregatedRecordingsRow,
    rows: Seq<ListRecordingsRow>,
)
    requires
        rows.len() > 0,
        ids_distinct(rows),
        is_batch_of(stream_id, a, rows.drop_last()),
    ensures
        is_batch_of(stream_id, a, rows),
        !in_batch(a, row_recording(rows.last())),
{
    lemma_listed_before(rows);
}

proof fn lemma_batch_started(stream_id: i32, rows: Seq<ListRecordingsRow>)
    requires
        rows.len() > 0,
        ids_distinct(rows),
        crate::aggregate::start_fits(rows.last()),
    ensures
        is_batch_of(stream_id, batch_started(stream_id, rows.last()), rows),
        forall|id: int| #[trigger]
            in_batch(batch_started(stream_id, rows.last()), id) <==> id == row_recording(
                rows.last(),
            ),
{
    let row = rows.last();
    let a = batch_started(stream_id, row);
    let init = rows.drop_last();
    lemma_listed_before(rows);
    assert forall|i: int| 0 <= i < init.len() implies !in_batch(
        a,
        row_recording(#[trigger] init[i]),
    ) by {
        assert(is_listed(init, row_recording(init[i])));
    }
    lemma_none_listed(a, init);
    let m = members(a, rows);
    assert(m =~= seq![row]);
    assert(m.drop_last() =~= Seq::<ListRecordingsRow>::empty());
    assert(sum_of(m, |row: ListRecordingsRow| row.video_samples as int) == row.video_samples) by {
        reveal_with_fuel(sum_of, 2);
    }
    assert(sum_of(m, |row: ListRecordingsRow| row.video_sync_samples as int)
        == row.video_sync_samples) by {
        reveal_with_fuel(sum_of, 2);
    }
    assert(sum_of(m, |row: ListRecordingsRow| row.sample_file_bytes as int)
        == row.sample_file_bytes) by {
        reveal_with_fuel(sum_of, 2);
    }
}

proof fn lemma_batch_extended(
    stream_id: i32,
    a: ListAggregatedRecordingsRow,
    rows: Seq<ListRecordingsRow>,
)
    requires
        rows.len() > 0,
        ids_distinct(rows),
        is_batch_of(stream_id, a, rows.drop_last()),
        a.ids.end == row_recording(rows.last()),
        a.time.end == rows.last().start,
        crate::aggregate::extension_fits(a, rows.last()),
    ensures
        is_batch_of(stream_id, batch_extended(a, rows.last()), rows),
        forall|id: int| #[trigger]
            in_batch(batch_extended(a, rows.last()), id) <==> in_batch(a, id) || id
                == row_recording(rows.last()),
{
    let row = rows.last();
    let b = batch_extended(a, row);
    let init = rows.drop_last();
    lemma_listed_before(rows);
    assert forall|id: int| #[trigger] in_batch(b, id) <==> in_batch(a, id) || id == row_recording(
        row,
    ) by {}
    assert forall|i: int| 0 <= i < init.len() implies in_batch(
        a,
        row_recording(#[trigger] init[i]),
    ) == in_batch(b, row_recording(init[i])) by {
        assert(is_listed(init, row_recording(init[i])));
    }
    lemma_same_members(a, b, init);
    let m = members(a, init);
    assert(in_batch(b, row_recording(row)));
    assert(members(b, rows) == m.push(row));
    assert(m.push(row).drop_last() =~= m);
    assert(m.push(row).first() == m.first());
}

proof fn lemma_orderly(stream_id: i32, forced_split: Duration, rows: Seq<ListRecordingsRow>)
    requires
        rows_fit(stream_id, forced_split, rows),
        aggregated(stream_id, forced_split, rows).error is None,
        ids_distinct(rows),
    ensures
        orderly(stream_id, aggregated(stream_id, forced_split, rows), rows),
    decreases rows.len(),
{
    if rows.len() > 0 {
        let init = rows.drop_last();
        let row = rows.last();
        let id = row_recording(row);
        let g = aggregated(stream_id, forced_split, init);
        let h = aggregated(stream_id, forced_split, rows);
        lemma_listed_before(rows);
        lemma_orderly(stream_id, forced_split, init);
        assert forall|run: i32| #[trigger] g.aggs.contains_key(run) implies is_batch_of(
            stream_id,
            g.aggs[run],
            rows,
        ) && !in_batch(g.aggs[run], id) by {
            lemma_batch_stays(stream_id, g.aggs[run], rows);
        }
        assert forall|i: int| 0 <= i < g.flushed.len() implies is_batch_of(
            stream_id,
            #[trigger] g.flushed[i],
            rows,
        ) && !in_batch(g.flushed[i], id) by {
            lemma_batch_stays(stream_id, g.flushed[i], rows);
        }
        let run = row_run(row) as i32;
        let a = g.aggs[run];
        let extends = g.aggs.contains_key(run) && !needs_flush(a, row, forced_split);
        let flushes = g.aggs.contains_key(run) && needs_flush(a, row, forced_split);
        let b = if extends {
            batch_extended(a, row)
        } else {
            batch_started(stream_id, row)
        };
        if extends {
            lemma_batch_extended(stream_id, a, rows);
        } else {
            lemma_batch_started(stream_id, rows);
        }
        assert(h.aggs == g.aggs.insert(run, b));
        assert(h.flushed == if flushes {
            g.flushed.push(a)
        } else {
            g.flushed
        });
        assert(in_batch(b, id));
        assert forall|x: int| #[trigger] in_batch(b, x) implies x == id || (extends && in_batch(
            a,
            x,
        )) by {}
        assert forall|i: int| 0 <= i < h.flushed.len() implies is_batch_of(
            stream_id,
            #[trigger] h.flushed[i],
            rows,
        ) by {
            if i < g.flushed.len() {
                assert(h.flushed[i] == g.flushed[i]);
            }
        }
        assert forall|i: int, j: int| 0 <= i < j < h.flushed.len() implies apart(
            #[trigger] h.flushed[i],
            #[trigger] h.flushed[j],
        ) by {
            assert(h.flushed[i] == g.flushed[i]);
            if j < g.flushed.len() {
                assert(h.flushed[j] == g.flushed[j]);
            } else {
                assert(apart(g.flushed[i], g.aggs[run]));
            }
        }
        assert forall|i: int, k: i32|
            0 <= i < h.flushed.len() && h.aggs.contains_key(k) implies apart(
            #[trigger] h.flushed[i],
            #[trigger] h.aggs[k],
        ) by {
            if i < g.flushed.len() {
                assert(h.flushed[i] == g.flushed[i]);
                if k != run {
                    assert(apart(g.flushed[i], g.aggs[k]));
                } else {
                    assert(g.aggs.contains_key(run) ==> apart(g.flushed[i], g.aggs[run]));
                }
            } else {
                assert(h.flushed[i] == a);
                if k != run {
                    assert(apart(g.aggs[run], g.aggs[k]));
                }
            }
        }
        assert forall|k: i32, l: i32|
            k != l && h.aggs.contains_key(k) && h.aggs.contains_key(l) implies apart(
            #[trigger] h.aggs[k],
            #[trigger] h.aggs[l],
        ) by {
            if k != run && l != run {
                assert(apart(g.aggs[k], g.aggs[l]));
            } else if k == run {
                assert(g.aggs.contains_key(run) ==> apart(g.aggs[run], g.aggs[l]));
            } else {
                assert(g.aggs.contains_key(run) ==> apart(g.aggs[k], g.aggs[run]));
            }
        }
        assert forall|i: int| 0 <= i < rows.len() implies in_some(
            h,
            row_recording(#[trigger] rows[i]),
        ) by {
            let x = row_recording(rows[i]);
            if i == rows.len() - 1 {
                assert(h.aggs.contains_key(run) && in_batch(h.aggs[run], x));
            } else {
                assert(init[i] == rows[i]);
                assert(in_some(g, x));
                lemma_still_in_some(g, h, run, a, b, extends, flushes, x);
            }
        }
    }
}

proof fn lemma_still_in_some(
    g: Aggregation,
    h: Aggregation,
    run: i32,
    a: ListAggregatedRecordingsRow,
    b: ListAggregatedRecordingsRow,
    extends: bool,
    flushes: bool,
    x: int,
)
    requires
        in_some(g, x),
        h.aggs == g.aggs.insert(run, b),
        h.flushed == (if flushes {
            g.flushed.push(a)
        } else {
            g.flushed
        }),
        g.aggs.contains_key(run) ==> a == g.aggs[run] && (extends || flushes),
        extends ==> (in_batch(a, x) ==> in_batch(b, x)),
    ensures
        in_some(h, x),
{
    if exists|i: int| 0 <= i < g.flushed.len() && in_batch(#[trigger] g.flushed[i], x) {
        let i = choose|i: int| 0 <= i < g.flushed.len() && in_batch(#[trigger] g.flushed[i], x);
        assert(h.flushed[i] == g.flushed[i]);
    } else {
        let k = choose|k: i32| #[trigger] g.aggs.contains_key(k) && in_batch(g.aggs[k], x);
        if k == run {
            if extends {
                assert(h.aggs.contains_key(run) && in_batch(h.aggs[run], x));
            } else {
                assert(h.flushed[g.flushed.len() as int] == a);
            }
        } else {
            assert(h.aggs.contains_key(k) && in_batch(h.aggs[k], x));
        }
    }
}

/// Whether exactly one of `batches` has the id `id`.
pub open spec fn in_exactly_one(batches: Seq<ListAggregatedRecordingsRow>, id: int) -> bool {
    exists|i: int|
        {
            &&& 0 <= i < batches.len() && in_batch(#[trigger] batches[i], id)
            &&& forall|j: int|
                0 <= j < batches.len() && j != i ==> !in_batch(#[trigger] batches[j], id)
        }
}

/// Whether `rest` has the batches of `aggs`, each once, under the runs `runs`. This is what
/// `Aggregator::finish` returns.
pub open spec fn has_batches(
    aggs: Map<i32, ListAggregatedRecordingsRow>,
    runs: Seq<i32>,
    rest: Seq<ListAggregatedRecordingsRow>,
) -> bool {
    &&& ascending(runs)
    &&& forall|k: i32| #[trigger] runs.contains(k) <==> aggs.contains_key(k)
    &&& rest.len() == runs.len()
    &&& forall|i: int| 0 <= i < runs.len() ==> #[trigger] rest[i] == aggs[runs[i]]
}

/// The batches that were put to an end, followed by those that were left in the end, partition the
/// listed recordings: each recording's id is in exactly one batch, and no other id is in any.
/// Every batch is made of the recordings whose ids it has.
pub proof fn lemma_batches_partition(
    stream_id: i32,
    forced_split: Duration,
    rows: Seq<ListRecordingsRow>,
    runs: Seq<i32>,
    rest: Seq<ListAggregatedRecordingsRow>,
)
    requires
        rows_fit(stream_id, forced_split, rows),
        aggregated(stream_id, forced_split, rows).error is None,
        ids_distinct(rows),
        has_batches(aggregated(stream_id, forced_split, rows).aggs, runs, rest),
    ensures
        ({
            let batches = aggregated(stream_id, forced_split, rows).flushed + rest;
            &&& forall|id: int| #[trigger] is_listed(rows, id) ==> in_exactly_one(batches, id)
            &&& forall|i: int, id: int|
                0 <= i < batches.len() && #[trigger] in_batch(batches[i], id) ==> is_listed(
                    rows,
                    id,
                )
            &&& forall|i: int|
                0 <= i < batches.len() ==> is_batch_of(stream_id, #[trigger] batches[i], rows)
        }),
{
    lemma_orderly(stream_id, forced_split, rows);
    let g = aggregated(stream_id, forced_split, rows);
    let n = g.flushed.len();
    let batches = g.flushed + rest;
    assert forall|i: int| n <= i < batches.len() implies g.aggs.contains_key(runs[i - n])
        && #[trigger] batches[i] == g.aggs[runs[i - n]] by {
        assert(runs.contains(runs[i - n]));
        assert(batches[i] == rest[i - n]);
    }
    assert forall|i: int| 0 <= i < batches.len() implies is_batch_of(
        stream_id,
        #[trigger] batches[i],
        rows,
    ) by {
        if i < n {
            assert(batches[i] == g.flushed[i]);
        }
    }
    assert forall|i: int, j: int| 0 <= i < j < batches.len() implies apart(
        #[trigger] batches[i],
        #[trigger] batches[j],
    ) by {
        if j < n {
            assert(batches[i] == g.flushed[i] && batches[j] == g.flushed[j]);
        } else if i < n {
            assert(batches[i] == g.flushed[i]);
            assert(batches[j] == g.aggs[runs[j - n]]);
            assert(apart(g.flushed[i], g.aggs[runs[j - n]]));
        } else {
            assert(runs[i - n] < runs[j - n]);
            assert(batches[i] == g.aggs[runs[i - n]] && batches[j] == g.aggs[runs[j - n]]);
            assert(apart(g.aggs[runs[i - n]], g.aggs[runs[j - n]]));
        }
    }
    assert forall|id: int| #[trigger] is_listed(rows, id) implies in_exactly_one(batches, id) by {
        let r = choose|i: int| 0 <= i < rows.len() && row_recording(#[trigger] rows[i]) == id;
        assert(in_some(g, row_recording(rows[r])));
        let i = if exists|i: int| 0 <= i < n && in_batch(#[trigger] g.flushed[i], id) {
            choose|i: int| 0 <= i < n && in_batch(#[trigger] g.flushed[i], id)
        } else {
            let run = choose|run: i32| #[trigger]
                g.aggs.contains_key(run) && in_batch(g.aggs[run], id);
            assert(runs.contains(run));
            n + choose|k: int| 0 <= k < runs.len() && runs[k] == run
        };
        if i < n {
            assert(batches[i] == g.flushed[i]);
        }
        assert(in_batch(batches[i], id));
        assert forall|j: int| 0 <= j < batches.len() && j != i implies !in_batch(
            #[trigger] batches[j],
            id,
        ) by {
            if j < i {
                assert(apart(batches[j], batches[i]));
            } else {
                assert(apart(batches[i], batches[j]));
            }
        }
    }
}

} // verus!
