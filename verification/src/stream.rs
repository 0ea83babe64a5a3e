//! How recordings show in the state of their stream.
use crate::days::{adjust_days_if_fit, day_split, days_adjusted_if_fit, possible_split, DaySplit};
use crate::model::{Stream, StreamView};
use crate::recording::{fits, Duration, Time};
use std::ops::Range;
use vstd::prelude::*;

verus! {

/// The least range that contains `range` and `r`.
pub open spec fn widened(range: Option<Range<Time>>, r: Range<Time>) -> Range<Time> {
    match range {
        Some(e) => Range {
            start: if r.start.0 < e.start.0 {
                r.start
            } else {
                e.start
            },
            end: if r.end.0 > e.end.0 {
                r.end
            } else {
                e.end
            },
        },
        None => r,
    }
}

/// `s` after a recording of the range `r` that takes `bytes` was added, if the calendar gives
/// `split`.
pub open spec fn recording_added(
    s: StreamView,
    r: Range<Time>,
    bytes: i32,
    split: Option<DaySplit>,
) -> StreamView {
    StreamView {
        range: Some(widened(s.range, r)),
        duration: Duration((s.duration.0 + (r.end.0 - r.start.0)) as i64),
        sample_file_bytes: (s.sample_file_bytes + bytes) as i64,
        days: days_adjusted_if_fit(s.days, r, 1, split),
        ..s
    }
}

/// Whether a recording can be added with its length and the sums staying in range.
pub open spec fn recording_fits(s: StreamView, r: Range<Time>, bytes: i32) -> bool {
    &&& fits(r.end.0 - r.start.0)
    &&& fits(s.duration.0 + (r.end.0 - r.start.0))
    &&& fits(s.sample_file_bytes + bytes)
}

impl Stream {
    /// Whether `add_recording` can hold everything that it computes.
    pub fn can_add_recording(&self, r: &Range<Time>, sample_file_bytes: i32) -> (fit: bool)
        ensures
            fit == recording_fits(self@, *r, sample_file_bytes),
    {
        match r.end.0.checked_sub(r.start.0) {
            Some(duration) => self.duration.0.checked_add(duration).is_some()
                && self.sample_file_bytes.checked_add(sample_file_bytes as i64).is_some(),
            None => false,
        }
    }

    /// Adds a single recording with the given properties to the in-memory state, given the days
    /// that its range is split into.
    pub fn add_recording_at(
        &mut self,
        r: Range<Time>,
        sample_file_bytes: i32,
        split: Option<DaySplit>,
    )
        requires
            recording_fits(old(self)@, r, sample_file_bytes),
        ensures
            final(self)@ == recording_added(old(self)@, r, sample_file_bytes, split),
    {
        let (start, end) = match &self.range {
            Some(e) => (
                if r.start.0 < e.start.0 {
                    r.start
                } else {
                    e.start
                },
                if r.end.0 > e.end.0 {
                    r.end
                } else {
                    e.end
                },
            ),
            None => (r.start, r.end),
        };
        self.range = Some(start..end);
        self.duration = Duration(self.duration.0 + (r.end - r.start).0);
        self.sample_file_bytes = self.sample_file_bytes + sample_file_bytes as i64;
        adjust_days_if_fit(r, 1, split, &mut self.days);
    }

    /// Adds a single recording with the given properties to the in-memory state.
    pub fn add_recording(&mut self, r: Range<Time>, sample_file_bytes: i32)
        requires
            recording_fits(old(self)@, r, sample_file_bytes),
        ensures
            exists|split: Option<DaySplit>|
                possible_split(r, split) && final(self)@ == #[trigger] recording_added(
                    old(self)@,
                    r,
                    sample_file_bytes,
                    split,
                ),
    {
        let split = day_split(&r);
        self.add_recording_at(r, sample_file_bytes, split);
    }
}

/// A recording, as far as its stream's summary goes.
#[derive(Copy, Clone, Debug)]
pub struct RecordingSummary {
    pub start: Time,
    pub duration: Duration,
    pub sample_file_bytes: i32,
}

impl RecordingSummary {
    /// From the start to the end.
    pub open spec fn range(self) -> Range<Time> {
        Range { start: self.start, end: Time((self.start.0 + self.duration.0) as i64) }
    }
}

/// `s` after the recordings `rows` were added in turn, if the calendar gives `splits`.
pub open spec fn recordings_added(
    s: StreamView,
    rows: Seq<RecordingSummary>,
    splits: Seq<Option<DaySplit>>,
) -> StreamView
    decreases rows.len(),
{
    if rows.len() == 0 {
        s
    } else {
        recording_added(
            recordings_added(s, rows.drop_last(), splits.drop_last()),
            rows.last().range(),
            rows.last().sample_file_bytes,
            splits.last(),
        )
    }
}

/// The total duration of `rows`.
pub open spec fn total_duration(rows: Seq<RecordingSummary>) -> int
    decreases rows.len(),
{
    if rows.len() == 0 {
        0
    } else {
        total_duration(rows.drop_last()) + rows.last().duration.0
    }
}

/// The total size of `rows`.
pub open spec fn total_bytes(rows: Seq<RecordingSummary>) -> int
    decreases rows.len(),
{
    if rows.len() == 0 {
        0
    } else {
        total_bytes(rows.drop_last()) + rows.last().sample_file_bytes
    }
}

/// Whether `rows` can be added in turn with all ends and sums staying in range.
pub open spec fn recordings_fit(s: StreamView, rows: Seq<RecordingSummary>) -> bool
    decreases rows.len(),
{
    rows.len() > 0 ==> {
        &&& recordings_fit(s, rows.drop_last())
        &&& fits(rows.last().start.0 + rows.last().duration.0)
        &&& fits(s.duration.0 + total_duration(rows))
        &&& fits(s.sample_file_bytes + total_bytes(rows))
    }
}

/// Adding recordings adds up their durations and sizes, whatever the calendar says.
pub proof fn lemma_totals(
    s: StreamView,
    rows: Seq<RecordingSummary>,
    splits: Seq<Option<DaySplit>>,
)
    requires
        recordings_fit(s, rows),
    ensures
        recordings_added(s, rows, splits).duration.0 == s.duration.0 + total_duration(rows),
        recordings_added(s, rows, splits).sample_file_bytes == s.sample_file_bytes + total_bytes(
            rows,
        ),
    decreases rows.len(),
{
    if rows.len() > 0 {
        lemma_totals(s, rows.drop_last(), splits.drop_last());
    }
}

/// Adding recordings changes nothing but what is summarized of them.
pub proof fn lemma_recordings_change_summary_only(
    s: StreamView,
    rows: Seq<RecordingSummary>,
    splits: Seq<Option<DaySplit>>,
)
    ensures
        recordings_added(s, rows, splits) == (StreamView {
            range: recordings_added(s, rows, splits).range,
            duration: recordings_added(s, rows, splits).duration,
            sample_file_bytes: recordings_added(s, rows, splits).sample_file_bytes,
            days: recordings_added(s, rows, splits).days,
            ..s
        }),
    decreases rows.len(),
{
    if rows.len() > 0 {
        lemma_recordings_change_summary_only(s, rows.drop_last(), splits.drop_last());
    }
}

proof fn lemma_fit_prefix(s: StreamView, rows: Seq<RecordingSummary>, n: int)
    requires
        recordings_fit(s, rows),
        0 <= n <= rows.len(),
    ensures
        recordings_fit(s, rows.take(n)),
    decreases rows.len(),
{
    if n < rows.len() {
        lemma_fit_prefix(s, rows.drop_last(), n);
        assert(rows.drop_last().take(n) =~= rows.take(n));
    } else {
        assert(rows.take(n) =~= rows);
    }
}

/// Whether `splits` are where the calendar may split each of the recordings `rows`.
pub open spec fn possible_splits(
    rows: Seq<RecordingSummary>,
    splits: Seq<Option<DaySplit>>,
) -> bool {
    splits.len() == rows.len() && forall|i: int|
        0 <= i < rows.len() ==> possible_split(rows[i].range(), #[trigger] splits[i])
}

/// Whether `init_recordings` can hold everything that it computes.
pub fn can_init_recordings(stream: &Stream, rows: &[RecordingSummary]) -> (fit: bool)
    ensures
        fit == recordings_fit(stream@, rows@),
{
    let mut duration: i64 = stream.duration.0;
    let mut bytes: i64 = stream.sample_file_bytes;
    let mut i: usize = 0;
    assert(rows@.take(0) =~= Seq::<RecordingSummary>::empty());
    while i < rows.len()
        invariant
            i <= rows@.len(),
            recordings_fit(stream@, rows@.take(i as int)),
            duration == stream.duration.0 + total_duration(rows@.take(i as int)),
            bytes == stream.sample_file_bytes + total_bytes(rows@.take(i as int)),
        decreases rows@.len() - i,
    {
        let ghost next = rows@.take(i + 1);
        proof {
            assert(next.drop_last() =~= rows@.take(i as int));
            assert(next.last() == rows@[i as int]);
            if recordings_fit(stream@, rows@) {
                lemma_fit_prefix(stream@, rows@, i + 1);
            }
        }
        let row = &rows[i];
        if row.start.0.checked_add(row.duration.0).is_none() {
            return false;
        }
        duration = match duration.checked_add(row.duration.0) {
            Some(duration) => duration,
            None => return false,
        };
        bytes = match bytes.checked_add(row.sample_file_bytes as i64) {
            Some(bytes) => bytes,
            None => return false,
        };
        i += 1;
    }
    assert(rows@.take(rows@.len() as int) =~= rows@);
    true
}

/// Initializes the recordings associated with the given stream.
pub fn init_recordings(stream: &mut Stream, rows: &[RecordingSummary])
    requires
        recordings_fit(old(stream)@, rows@),
    ensures
        exists|splits: Seq<Option<DaySplit>>|
            possible_splits(rows@, splits) && final(stream)@ == #[trigger] recordings_added(
                old(stream)@,
                rows@,
                splits,
            ),
{
    let ghost before = stream@;
    let ghost mut splits = Seq::<Option<DaySplit>>::empty();
    let mut i: usize = 0;
    assert(rows@.take(0) =~= Seq::<RecordingSummary>::empty());
    while i < rows.len()
        invariant
            i <= rows@.len(),
            recordings_fit(before, rows@),
            possible_splits(rows@.take(i as int), splits),
            stream@ == recordings_added(before, rows@.take(i as int), splits),
        decreases rows@.len() - i,
    {
        let ghost next = rows@.take(i + 1);
        proof {
            lemma_fit_prefix(before, rows@, i + 1);
            lemma_fit_prefix(before, rows@, i as int);
            assert(next.drop_last() =~= rows@.take(i as int));
            assert(next.last() == rows@[i as int]);
            lemma_totals(before, rows@.take(i as int), splits);
        }
        let row = &rows[i];
        let r = row.start..row.start + row.duration;
        let split = day_split(&r);
        stream.add_recording_at(r, row.sample_file_bytes, split);
        proof {
            assert(splits.push(split).drop_last() =~= splits);
            splits = splits.push(split);
        }
        i += 1;
    }
    assert(rows@.take(rows@.len() as int) =~= rows@);
}

/// A stream that had no recordings has a range once it has some, and only then.
pub proof fn lemma_range_iff_recordings(
    s: StreamView,
    rows: Seq<RecordingSummary>,
    splits: Seq<Option<DaySplit>>,
)
    requires
        s.range is None,
    ensures
        recordings_added(s, rows, splits).range is Some <==> rows.len() > 0,
{
}

/// The range of a stream is the least one that contains those of its recordings: it starts where
/// one of them starts and ends where one of them ends, and contains all of them.
pub proof fn lemma_range_is_hull(
    s: StreamView,
    rows: Seq<RecordingSummary>,
    splits: Seq<Option<DaySplit>>,
)
    requires
        s.range is None,
        rows.len() > 0,
    ensures
        recordings_added(s, rows, splits).range matches Some(hull) && is_hull(rows, hull),
    decreases rows.len(),
{
    let earlier = rows.drop_last();
    if earlier.len() > 0 {
        lemma_range_is_hull(s, earlier, splits.drop_last());
        let hull0 = recordings_added(s, earlier, splits.drop_last()).range->0;
        let hull = recordings_added(s, rows, splits).range->0;
        let i = choose|i: int|
            0 <= i < earlier.len() && (#[trigger] earlier[i]).start == hull0.start;
        let j = choose|j: int|
            0 <= j < earlier.len() && (#[trigger] earlier[j]).range().end == hull0.end;
        assert(rows[i] == earlier[i] && rows[j] == earlier[j]);
        let last = rows[rows.len() - 1];
        assert(last == rows.last());
        assert forall|k: int| 0 <= k < rows.len() implies hull.start.0 <= (
        #[trigger] rows[k]).start.0 && rows[k].range().end.0 <= hull.end.0 by {
            if k < earlier.len() {
                assert(earlier[k] == rows[k]);
            }
        }
    } else {
        assert(rows[0] == rows.last());
    }
}

/// Whether `hull` is the least range that contains those of `rows`.
pub open spec fn is_hull(rows: Seq<RecordingSummary>, hull: Range<Time>) -> bool {
    &&& exists|i: int| 0 <= i < rows.len() && (#[trigger] rows[i]).start == hull.start
    &&& exists|j: int| 0 <= j < rows.len() && (#[trigger] rows[j]).range().end == hull.end
    &&& forall|k: int|
        0 <= k < rows.len() ==> hull.start.0 <= (#[trigger] rows[k]).start.0
            && rows[k].range().end.0 <= hull.end.0
}

/// Recordings can be loaded as long as no time and no sum is near the limits of what can be held.
pub proof fn lemma_ordinary_recordings_fit(s: StreamView, rows: Seq<RecordingSummary>)
    requires
        rows.len() <= 0x4000_0000,
        -0x1000_0000_0000_0000 <= s.duration.0 <= 0x1000_0000_0000_0000,
        -0x1000_0000_0000_0000 <= s.sample_file_bytes <= 0x1000_0000_0000_0000,
        forall|i: int|
            0 <= i < rows.len() ==> {
                &&& -0x1000_0000_0000_0000 <= (#[trigger] rows[i]).start.0 <= 0x1000_0000_0000_0000
                &&& 0 <= rows[i].duration.0 <= 27_000_000
            },
    ensures
        recordings_fit(s, rows),
        0 <= total_duration(rows) <= rows.len() * 27_000_000,
        -(rows.len() * 0x8000_0000) <= total_bytes(rows) <= rows.len() * 0x8000_0000,
    decreases rows.len(),
{
    if rows.len() > 0 {
        let init = rows.drop_last();
        assert forall|i: int| 0 <= i < init.len() implies {
            &&& -0x1000_0000_0000_0000 <= (#[trigger] init[i]).start.0 <= 0x1000_0000_0000_0000
            &&& 0 <= init[i].duration.0 <= 27_000_000
        } by {
            assert(init[i] == rows[i]);
        }
        assert(rows.last() == rows[rows.len() - 1]);
        lemma_ordinary_recordings_fit(s, init);
    }
}

} // verus!
