//! What the in-memory state of a stream says of the recordings in the database.
//!
//! Everything that is kept in memory about a stream's recordings is a function of the rows of the
//! `recording` table. The lemmas here say that loading the rows establishes this, and that
//! transactions which insert or delete rows keep it up.
use crate::commit::{mod_with_extent, modification_fits, stream_modified, StreamExtent};
use crate::days::{
    change_adjusted, changes_adjusted_if_fit, changes_fit, counts_positive, day_adjusted, day_delta,
    day_fits, day_value, days_adjusted_if_fit, days_fit, days_merged, merge_fits, DaySplit,
    StreamDayValue,
};
use crate::delete::{delete_fits, mod_deleted};
use crate::insert::{insert_fits, mod_inserted};
use crate::model::StreamView;
use crate::recording::{fits, Duration, Time};
use crate::statement::{ListOldestSampleFilesRow, RecordingToInsert};
use crate::stream::{recordings_added, recordings_fit, widened, RecordingSummary};
use crate::sums::{lemma_sum_bounds, lemma_sum_insert, lemma_sum_without, sum_of_values};
use crate::transaction::{identity_mod, ModView};
use std::ops::Range;
use vstd::prelude::*;

verus! {

/// A row of the `recording` table, with the days that the calendar splits it into.
pub struct Recorded {
    pub range: Range<Time>,
    pub bytes: i32,
    pub split: Option<DaySplit>,
}

/// How often a recording counts for `day`: once for the day that it starts on, and once for the
/// day after if it lasts until then.
pub open spec fn times_on(r: Recorded, day: Seq<u8>) -> int {
    match r.split {
        None => 0,
        Some(split) => match split.first {
            None => 0,
            Some(first) => (if first@ == day {
                1int
            } else {
                0
            }) + (if split.spans(r.range) && split.second is Some && split.second->0@ == day {
                1int
            } else {
                0
            }),
        },
    }
}

/// How long a recording lasts on `day`.
pub open spec fn time_on(r: Recorded, day: Seq<u8>) -> int {
    match r.split {
        None => 0,
        Some(split) => match split.first {
            None => 0,
            Some(first) => (if first@ == day {
                split.before(r.range)
            } else {
                0
            }) + (if split.spans(r.range) && split.second is Some && split.second->0@ == day {
                split.after(r.range)
            } else {
                0
            }),
        },
    }
}

/// The number of recordings in the table `t` that count for `day`.
pub open spec fn count_on(t: Map<i64, Recorded>, day: Seq<u8>) -> int {
    sum_of_values(t, |r: Recorded| times_on(r, day))
}

/// How long the recordings in the table `t` last on `day`.
pub open spec fn length_on(t: Map<i64, Recorded>, day: Seq<u8>) -> int {
    sum_of_values(t, |r: Recorded| time_on(r, day))
}

/// How long the recordings in the table `t` last.
pub open spec fn length_of(t: Map<i64, Recorded>) -> int {
    sum_of_values(t, |r: Recorded| r.range.end.0 - r.range.start.0)
}

/// How many bytes the recordings in the table `t` take.
pub open spec fn bytes_of(t: Map<i64, Recorded>) -> int {
    sum_of_values(t, |r: Recorded| r.bytes as int)
}

/// The days on which there are recordings in the table `t`, and what was recorded on them.
pub open spec fn days_of(t: Map<i64, Recorded>) -> Map<Seq<u8>, StreamDayValue> {
    Map::new(
        |day: Seq<u8>| count_on(t, day) > 0,
        |day: Seq<u8>|
            StreamDayValue {
                recordings: count_on(t, day) as i64,
                duration: Duration(length_on(t, day) as i64),
            },
    )
}

/// Whether `range` goes from the least start to the greatest end of the recordings in `t`, if
/// there are any.
pub open spec fn range_of(t: Map<i64, Recorded>, range: Option<Range<Time>>) -> bool {
    match range {
        None => t.dom() == Set::<i64>::empty(),
        Some(range) => {
            &&& exists|id: i64| #[trigger] t.contains_key(id) && t[id].range.start == range.start
            &&& exists|id: i64| #[trigger] t.contains_key(id) && t[id].range.end == range.end
            &&& forall|id: i64| #[trigger]
                t.contains_key(id) ==> range.start.0 <= t[id].range.start.0 && t[id].range.end.0
                    <= range.end.0
        },
    }
}

/// Whether everything that is kept in memory about a stream's recordings is what the table `t`
/// says.
pub open spec fn summarizes(s: StreamView, t: Map<i64, Recorded>) -> bool {
    sums_up(s, t) && s.days == days_of(t)
}

/// The number of recordings that `m` has for `day`.
pub open spec fn number_on(m: Map<Seq<u8>, StreamDayValue>, day: Seq<u8>) -> int {
    if m.contains_key(day) {
        m[day].recordings as int
    } else {
        0
    }
}

/// The duration that `m` has for `day`.
pub open spec fn duration_on(m: Map<Seq<u8>, StreamDayValue>, day: Seq<u8>) -> int {
    if m.contains_key(day) {
        m[day].duration.0 as int
    } else {
        0
    }
}

/// Whether the stream's days and those of the modification add up to what the table `t` says of
/// `day`.
pub open spec fn tracks_day(
    s: StreamView,
    m: ModView,
    t: Map<i64, Recorded>,
    day: Seq<u8>,
) -> bool {
    &&& number_on(s.days, day) + number_on(m.days, day) == count_on(t, day)
    &&& duration_on(s.days, day) + duration_on(m.days, day) == length_on(t, day)
}

/// Whether the modification `m` of a stream leads to what the table `t` says, but for the range,
/// which is filled in prior to commit.
pub open spec fn tracks(s: StreamView, m: ModView, t: Map<i64, Recorded>) -> bool {
    &&& t.dom().finite()
    &&& s.duration.0 + m.duration.0 == length_of(t)
    &&& s.sample_file_bytes + m.sample_file_bytes == bytes_of(t)
    &&& forall|day: Seq<u8>| #[trigger] tracks_day(s, m, t, day)
    &&& counts_positive(s.days)
    &&& m.range is None
}

/// Two streams that summarize the same table are the same in everything that depends on their
/// recordings. In particular, the state that was kept up by transactions is the one that loading
/// the table anew gives.
pub proof fn lemma_summary_unique(a: StreamView, b: StreamView, t: Map<i64, Recorded>)
    requires
        summarizes(a, t),
        summarizes(b, t),
    ensures
        a.duration == b.duration,
        a.sample_file_bytes == b.sample_file_bytes,
        a.days == b.days,
        a.range == b.range,
{
    if a.range is Some {
        let x = a.range->0;
        let i = choose|id: i64| #[trigger] t.contains_key(id) && t[id].range.start == x.start;
        assert(t.dom().contains(i));
        let y = b.range->0;
        let j = choose|id: i64| #[trigger] t.contains_key(id) && t[id].range.end == x.end;
        let k = choose|id: i64| #[trigger] t.contains_key(id) && t[id].range.start == y.start;
        let l = choose|id: i64| #[trigger] t.contains_key(id) && t[id].range.end == y.end;
        assert(t.contains_key(i) && t.contains_key(j) && t.contains_key(k) && t.contains_key(l));
    } else if b.range is Some {
        let y = b.range->0;
        let k = choose|id: i64| #[trigger] t.contains_key(id) && t[id].range.start == y.start;
        assert(t.dom().contains(k));
    }
}

proof fn lemma_counts(t: Map<i64, Recorded>, day: Seq<u8>)
    requires
        t.dom().finite(),
    ensures
        count_on(t, day) >= 0,
        forall|id: i64| #[trigger]
            t.contains_key(id) ==> count_on(t, day) >= times_on(t[id], day),
{
    lemma_sum_bounds(t, |r: Recorded| times_on(r, day));
}

proof fn lemma_day_inserted(t: Map<i64, Recorded>, id: i64, r: Recorded, day: Seq<u8>)
    requires
        t.dom().finite(),
        !t.contains_key(id),
    ensures
        count_on(t.insert(id, r), day) == count_on(t, day) + times_on(r, day),
        length_on(t.insert(id, r), day) == length_on(t, day) + time_on(r, day),
{
    assert(t.remove(id) =~= t);
    lemma_sum_insert(t, |r: Recorded| times_on(r, day), id, r);
    lemma_sum_insert(t, |r: Recorded| time_on(r, day), id, r);
}

proof fn lemma_day_removed(t: Map<i64, Recorded>, id: i64, day: Seq<u8>)
    requires
        t.dom().finite(),
        t.contains_key(id),
    ensures
        count_on(t.remove(id), day) == count_on(t, day) - times_on(t[id], day),
        length_on(t.remove(id), day) == length_on(t, day) - time_on(t[id], day),
        count_on(t.remove(id), day) >= 0,
{
    lemma_sum_without(t, |r: Recorded| times_on(r, day), id);
    lemma_sum_without(t, |r: Recorded| time_on(r, day), id);
    assert(t.remove(id).dom() =~= t.dom().remove(id));
    lemma_counts(t.remove(id), day);
}

proof fn lemma_no_time_without_recordings(t: Map<i64, Recorded>, day: Seq<u8>)
    requires
        t.dom().finite(),
        count_on(t, day) == 0,
    ensures
        length_on(t, day) == 0,
    decreases t.dom().len(),
{
    if t.dom().len() > 0 {
        let id = t.dom().choose();
        assert(t.dom().contains(id)) by {
            if t.dom() =~= Set::<i64>::empty() {
            }
        }
        assert(t.contains_key(id));
        lemma_day_removed(t, id, day);
        assert(t.remove(id).dom() =~= t.dom().remove(id));
        lemma_counts(t, day);
        assert(times_on(t[id], day) == 0);
        lemma_no_time_without_recordings(t.remove(id), day);
    }
}

proof fn lemma_change_numbers(
    m: Map<Seq<u8>, StreamDayValue>,
    k: Seq<u8>,
    d: StreamDayValue,
    day: Seq<u8>,
)
    requires
        day_fits(m, k, d),
    ensures
        number_on(change_adjusted(m, k, d), day) == number_on(m, day) + (if day == k {
            d.recordings as int
        } else {
            0
        }),
        duration_on(change_adjusted(m, k, d), day) == duration_on(m, day) + (if day == k {
            d.duration.0 as int
        } else {
            0
        }),
{
}

/// Whether the sums of the changes of days can be held when `sign` recordings `r` are added.
pub open spec fn change_holds(m: ModView, r: Recorded, sign: int) -> bool {
    r.split matches Some(split) ==> changes_fit(m.days, r.range, sign, split)
}

proof fn lemma_changes(m: ModView, r: Recorded, sign: int, day: Seq<u8>)
    requires
        sign == 1 || sign == -1,
        change_holds(m, r, sign),
    ensures
        number_on(changes_adjusted_if_fit(m.days, r.range, sign, r.split), day) == number_on(
            m.days,
            day,
        ) + sign * times_on(r, day),
        duration_on(changes_adjusted_if_fit(m.days, r.range, sign, r.split), day) == duration_on(
            m.days,
            day,
        ) + sign * time_on(r, day),
{
    if r.split is Some && r.split->0.first is Some {
        let split = r.split->0;
        let k1 = split.first->0@;
        let d1 = day_delta(sign, split.before(r.range));
        let m1 = change_adjusted(m.days, k1, d1);
        lemma_change_numbers(m.days, k1, d1, day);
        if split.spans(r.range) && split.second is Some {
            let k2 = split.second->0@;
            let d2 = day_delta(sign, split.after(r.range));
            lemma_change_numbers(m1, k2, d2, day);
        }
    }
}

proof fn lemma_day_numbers(
    m: Map<Seq<u8>, StreamDayValue>,
    k: Seq<u8>,
    d: StreamDayValue,
    day: Seq<u8>,
)
    requires
        counts_positive(m),
        d.recordings > 0,
        day_fits(m, k, d),
    ensures
        counts_positive(day_adjusted(m, k, d)),
        number_on(day_adjusted(m, k, d), day) == number_on(m, day) + (if day == k {
            d.recordings as int
        } else {
            0
        }),
        duration_on(day_adjusted(m, k, d), day) == duration_on(m, day) + (if day == k {
            d.duration.0 as int
        } else {
            0
        }),
{
}

proof fn lemma_numbers(m: Map<Seq<u8>, StreamDayValue>, r: Recorded, day: Seq<u8>)
    requires
        counts_positive(m),
        r.split matches Some(split) ==> days_fit(m, r.range, 1, split),
    ensures
        counts_positive(days_adjusted_if_fit(m, r.range, 1, r.split)),
        number_on(days_adjusted_if_fit(m, r.range, 1, r.split), day) == number_on(m, day)
            + times_on(r, day),
        duration_on(days_adjusted_if_fit(m, r.range, 1, r.split), day) == duration_on(m, day)
            + time_on(r, day),
{
    if r.split is Some && r.split->0.first is Some {
        let split = r.split->0;
        let k1 = split.first->0@;
        let d1 = day_delta(1, split.before(r.range));
        let m1 = day_adjusted(m, k1, d1);
        lemma_day_numbers(m, k1, d1, day);
        if split.spans(r.range) && split.second is Some {
            let k2 = split.second->0@;
            let d2 = day_delta(1, split.after(r.range));
            lemma_day_numbers(m1, k2, d2, day);
        }
    }
}

/// A stream that summarizes the table is tracked by a modification that does nothing.
pub proof fn lemma_identity_tracks(s: StreamView, t: Map<i64, Recorded>)
    requires
        t.dom().finite(),
        summarizes(s, t),
        forall|day: Seq<u8>| #[trigger] day_holds(t, day),
    ensures
        tracks(s, identity_mod(), t),
{
    assert forall|day: Seq<u8>| #[trigger] tracks_day(s, identity_mod(), t, day) by {
        assert(day_holds(t, day));
        lemma_counts(t, day);
        if count_on(t, day) == 0 {
            lemma_no_time_without_recordings(t, day);
        }
    }
    assert forall|day: Seq<u8>| #[trigger] s.days.contains_key(day) implies s.days[day].recordings
        > 0 by {
        assert(day_holds(t, day));
    }
}

/// Whether what was recorded on `day` can be held.
pub open spec fn day_holds(t: Map<i64, Recorded>, day: Seq<u8>) -> bool {
    fits(count_on(t, day)) && fits(length_on(t, day))
}

/// The row of a recording to insert.
pub open spec fn row_of(r: RecordingToInsert, split: Option<DaySplit>) -> Recorded {
    Recorded { range: r.time, bytes: r.sample_file_bytes, split }
}

/// Inserting a recording in a transaction keeps track of the table with its row.
pub proof fn lemma_insert_tracks(
    s: StreamView,
    m: ModView,
    t: Map<i64, Recorded>,
    r: RecordingToInsert,
    split: Option<DaySplit>,
)
    requires
        tracks(s, m, t),
        !t.contains_key(r.id.0),
        insert_fits(m, r),
        change_holds(m, row_of(r, split), 1),
    ensures
        tracks(s, mod_inserted(m, r, split), t.insert(r.id.0, row_of(r, split))),
{
    let row = row_of(r, split);
    let t2 = t.insert(r.id.0, row);
    let m2 = mod_inserted(m, r, split);
    assert(t.remove(r.id.0) =~= t);
    lemma_sum_insert(t, |r: Recorded| r.range.end.0 - r.range.start.0, r.id.0, row);
    lemma_sum_insert(t, |r: Recorded| r.bytes as int, r.id.0, row);
    assert forall|day: Seq<u8>| #[trigger] tracks_day(s, m2, t2, day) by {
        assert(tracks_day(s, m, t, day));
        lemma_changes(m, row, 1, day);
        lemma_day_inserted(t, r.id.0, row, day);
    }
}

/// Deleting a recording in a transaction keeps track of the table without its row, whatever else
/// the transaction has inserted or deleted.
pub proof fn lemma_delete_tracks(
    s: StreamView,
    m: ModView,
    t: Map<i64, Recorded>,
    row: ListOldestSampleFilesRow,
)
    requires
        tracks(s, m, t),
        t.contains_key(row.id.0),
        t[row.id.0].range == row.time,
        t[row.id.0].bytes == row.sample_file_bytes,
        delete_fits(m, row),
        change_holds(m, t[row.id.0], -1),
    ensures
        tracks(s, mod_deleted(m, row, t[row.id.0].split), t.remove(row.id.0)),
{
    let id = row.id.0;
    let r = t[id];
    let t2 = t.remove(id);
    let m2 = mod_deleted(m, row, r.split);
    lemma_sum_without(t, |r: Recorded| r.range.end.0 - r.range.start.0, id);
    lemma_sum_without(t, |r: Recorded| r.bytes as int, id);
    assert(t2.dom() =~= t.dom().remove(id));
    assert forall|day: Seq<u8>| #[trigger] tracks_day(s, m2, t2, day) by {
        assert(tracks_day(s, m, t, day));
        lemma_changes(m, r, -1, day);
        lemma_day_removed(t, id, day);
    }
}

/// Whether `extent` is the least start and the greatest end of the recordings in `t`, if there are
/// any.
pub open spec fn extent_of(t: Map<i64, Recorded>, extent: StreamExtent) -> bool {
    &&& extent.min_start is Some <==> extent.max_end is Some
    &&& range_of(
        t,
        if extent.min_start is Some {
            Some(Range { start: extent.min_start->0, end: extent.max_end->0 })
        } else {
            None
        },
    )
}

/// Once a transaction is committed, the stream summarizes the table that the transaction has led
/// to.
pub proof fn lemma_commit_summarizes(
    s: StreamView,
    m: ModView,
    t: Map<i64, Recorded>,
    extent: StreamExtent,
)
    requires
        tracks(s, m, t),
        extent_of(t, extent),
        modification_fits(s, m),
    ensures
        summarizes(stream_modified(s, mod_with_extent(m, extent)), t),
{
    let days = days_merged(s.days, m.days);
    assert forall|day: Seq<u8>| #[trigger] days.contains_key(day) <==> days_of(t).contains_key(
        day,
    ) by {
        lemma_merged_is_table(s, m, t, day);
    }
    assert forall|day: Seq<u8>| #[trigger] days.contains_key(day) implies days[day] == days_of(
        t,
    )[day] by {
        lemma_merged_is_table(s, m, t, day);
    }
    assert(days =~= days_of(t));
}

proof fn lemma_merged_is_table(
    s: StreamView,
    m: ModView,
    t: Map<i64, Recorded>,
    day: Seq<u8>,
)
    requires
        tracks(s, m, t),
        merge_fits(s.days, m.days),
    ensures
        day_value(days_merged(s.days, m.days), day) == day_value(days_of(t), day),
{
    assert(tracks_day(s, m, t, day));
    lemma_counts(t, day);
    if m.days.contains_key(day) {
        assert(day_fits(s.days, day, m.days[day]));
    }
}

/// The table of the recordings `rows` under the ids `ids`, if the calendar gives `splits`.
pub open spec fn table_of(
    ids: Seq<i64>,
    rows: Seq<RecordingSummary>,
    splits: Seq<Option<DaySplit>>,
) -> Map<i64, Recorded>
    decreases rows.len(),
{
    if rows.len() == 0 {
        Map::empty()
    } else {
        table_of(ids.drop_last(), rows.drop_last(), splits.drop_last()).insert(
            ids.last(),
            Recorded {
                range: rows.last().range(),
                bytes: rows.last().sample_file_bytes,
                split: splits.last(),
            },
        )
    }
}

/// Whether all sums of the days can be held when the recordings `rows` are loaded in turn.
pub open spec fn load_fits(
    s: StreamView,
    rows: Seq<RecordingSummary>,
    splits: Seq<Option<DaySplit>>,
) -> bool
    decreases rows.len(),
{
    rows.len() > 0 ==> {
        let earlier = recordings_added(s, rows.drop_last(), splits.drop_last());
        &&& load_fits(s, rows.drop_last(), splits.drop_last())
        &&& splits.last() matches Some(split) ==> days_fit(
            earlier.days,
            rows.last().range(),
            1,
            split,
        )
    }
}

/// Whether everything that is kept in memory about a stream's recordings, but for the days, is what
/// the table `t` says.
pub open spec fn sums_up(s: StreamView, t: Map<i64, Recorded>) -> bool {
    &&& s.duration.0 == length_of(t)
    &&& s.sample_file_bytes == bytes_of(t)
    &&& range_of(t, s.range)
}

proof fn lemma_push_contains(ids: Seq<i64>)
    requires
        ids.len() > 0,
        ids.no_duplicates(),
    ensures
        ids.drop_last().no_duplicates(),
        !ids.drop_last().contains(ids.last()),
        forall|k: i64| #[trigger]
            ids.contains(k) <==> ids.drop_last().contains(k) || k == ids.last(),
{
    let earlier = ids.drop_last();
    let id = ids.last();
    if earlier.contains(id) {
        let i = choose|i: int| 0 <= i < earlier.len() && earlier[i] == id;
        assert(ids[i] == ids[ids.len() - 1]);
    }
    assert forall|k: i64| #[trigger] ids.contains(k) <==> earlier.contains(k) || k == id by {
        if earlier.contains(k) {
            let i = choose|i: int| 0 <= i < earlier.len() && earlier[i] == k;
            assert(ids[i] == k);
        }
        if ids.contains(k) && k != id {
            let i = choose|i: int| 0 <= i < ids.len() && ids[i] == k;
            assert(earlier[i] == k);
        }
        if k == id {
            assert(ids[ids.len() - 1] == k);
        }
    }
}

/// A stream whose recordings were loaded from the table sums up the table, whatever the calendar
/// says.
pub proof fn lemma_load_sums_up(
    s: StreamView,
    ids: Seq<i64>,
    rows: Seq<RecordingSummary>,
    splits: Seq<Option<DaySplit>>,
)
    requires
        s.duration.0 == 0,
        s.sample_file_bytes == 0,
        s.range is None,
        ids.len() == rows.len(),
        ids.no_duplicates(),
        recordings_fit(s, rows),
    ensures
        sums_up(recordings_added(s, rows, splits), table_of(ids, rows, splits)),
        table_of(ids, rows, splits).dom().finite(),
        forall|id: i64| #[trigger]
            table_of(ids, rows, splits).contains_key(id) <==> ids.contains(id),
    decreases rows.len(),
{
    if rows.len() == 0 {
        let t = table_of(ids, rows, splits);
        assert(t.dom() =~= Set::<i64>::empty());
    } else {
        let s1 = recordings_added(s, rows.drop_last(), splits.drop_last());
        let earlier = ids.drop_last();
        let t1 = table_of(earlier, rows.drop_last(), splits.drop_last());
        let id = ids.last();
        let s2 = recordings_added(s, rows, splits);
        let t2 = table_of(ids, rows, splits);
        let row = Recorded {
            range: rows.last().range(),
            bytes: rows.last().sample_file_bytes,
            split: splits.last(),
        };
        lemma_push_contains(ids);
        lemma_load_sums_up(s, earlier, rows.drop_last(), splits.drop_last());
        crate::stream::lemma_totals(s, rows.drop_last(), splits.drop_last());
        crate::stream::lemma_totals(s, rows, splits);
        assert forall|k: i64| #[trigger] t2.contains_key(k) <==> ids.contains(k) by {
            assert(t1.contains_key(k) <==> earlier.contains(k));
        }
        assert(t1.remove(id) =~= t1);
        lemma_sum_insert(t1, |r: Recorded| r.range.end.0 - r.range.start.0, id, row);
        lemma_sum_insert(t1, |r: Recorded| r.bytes as int, id, row);
        assert(t2[id] == row && t2.contains_key(id));
        assert forall|k: i64| #[trigger] t1.contains_key(k) implies t2.contains_key(k) && t2[k]
            == t1[k] by {}
        let range = s2.range->0;
        assert(s2.range == Some(widened(s1.range, row.range)));
        if s1.range is Some {
            let i = choose|k: i64| #[trigger]
                t1.contains_key(k) && t1[k].range.start == s1.range->0.start;
            let j = choose|k: i64| #[trigger]
                t1.contains_key(k) && t1[k].range.end == s1.range->0.end;
            assert(t2.contains_key(i) && t2.contains_key(j));
        }
        assert forall|k: i64| #[trigger] t2.contains_key(k) implies range.start.0
            <= t2[k].range.start.0 && t2[k].range.end.0 <= range.end.0 by {
            if k != id {
                assert(t1.contains_key(k));
                assert(t1.dom().contains(k));
            }
        }
    }
}

proof fn lemma_load_days(
    s: StreamView,
    ids: Seq<i64>,
    rows: Seq<RecordingSummary>,
    splits: Seq<Option<DaySplit>>,
)
    requires
        s.duration.0 == 0,
        s.sample_file_bytes == 0,
        s.days == Map::<Seq<u8>, StreamDayValue>::empty(),
        s.range is None,
        ids.len() == rows.len(),
        ids.no_duplicates(),
        recordings_fit(s, rows),
        load_fits(s, rows, splits),
    ensures
        counts_positive(recordings_added(s, rows, splits).days),
        forall|day: Seq<u8>| #[trigger]
            tracks_day(
                recordings_added(s, rows, splits),
                identity_mod(),
                table_of(ids, rows, splits),
                day,
            ),
    decreases rows.len(),
{
    if rows.len() == 0 {
        let t = table_of(ids, rows, splits);
        assert(t.dom() =~= Set::<i64>::empty());
        assert forall|day: Seq<u8>| #[trigger] tracks_day(s, identity_mod(), t, day) by {
            assert(count_on(t, day) == 0);
            assert(length_on(t, day) == 0);
        }
    } else {
        let s1 = recordings_added(s, rows.drop_last(), splits.drop_last());
        let earlier = ids.drop_last();
        let t1 = table_of(earlier, rows.drop_last(), splits.drop_last());
        let id = ids.last();
        let s2 = recordings_added(s, rows, splits);
        let t2 = table_of(ids, rows, splits);
        let row = Recorded {
            range: rows.last().range(),
            bytes: rows.last().sample_file_bytes,
            split: splits.last(),
        };
        lemma_push_contains(ids);
        lemma_load_sums_up(s, earlier, rows.drop_last(), splits.drop_last());
        lemma_load_days(s, earlier, rows.drop_last(), splits.drop_last());
        lemma_numbers(s1.days, row, Seq::empty());
        assert forall|day: Seq<u8>| #[trigger] tracks_day(s2, identity_mod(), t2, day) by {
            assert(tracks_day(s1, identity_mod(), t1, day));
            lemma_numbers(s1.days, row, day);
            lemma_day_inserted(t1, id, row, day);
        }
    }
}

/// A stream whose recordings were loaded from the table summarizes the table.
pub proof fn lemma_load_summarizes(
    s: StreamView,
    ids: Seq<i64>,
    rows: Seq<RecordingSummary>,
    splits: Seq<Option<DaySplit>>,
)
    requires
        s.duration.0 == 0,
        s.sample_file_bytes == 0,
        s.days == Map::<Seq<u8>, StreamDayValue>::empty(),
        s.range is None,
        ids.len() == rows.len(),
        ids.no_duplicates(),
        recordings_fit(s, rows),
        load_fits(s, rows, splits),
    ensures
        summarizes(recordings_added(s, rows, splits), table_of(ids, rows, splits)),
{
    lemma_load_sums_up(s, ids, rows, splits);
    lemma_load_days(s, ids, rows, splits);
    let loaded = recordings_added(s, rows, splits);
    let t = table_of(ids, rows, splits);
    assert forall|day: Seq<u8>| #[trigger] loaded.days.contains_key(day) <==> days_of(
        t,
    ).contains_key(day) by {
        assert(tracks_day(loaded, identity_mod(), t, day));
    }
    assert forall|day: Seq<u8>| #[trigger] loaded.days.contains_key(day) implies loaded.days[day]
        == days_of(t)[day] by {
        assert(tracks_day(loaded, identity_mod(), t, day));
    }
    assert(loaded.days =~= days_of(t));
}

} // verus!
