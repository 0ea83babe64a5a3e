//! Reading recordings.
use crate::collections::shared;
use crate::error::Error;
use crate::ids::{composite, recording_part, stream_part, CompositeId};
use crate::load::fresh_state;
use crate::model::{LockedDatabase, Open, VideoSampleEntry};
use crate::recording::{fits, Duration, Time, MAX_RECORDING_DURATION};
use crate::statement::ListOldestSampleFilesRow;
use crate::text::{decimal, digits};
use crate::uuids::Uuid;
use std::ops::Range;
use std::sync::Arc;
use vstd::prelude::*;

verus! {

broadcast use {
    vstd::std_specs::btree::group_btree_axioms,
    vstd::laws_cmp::group_laws_cmp,
};

/// A query.
#[derive(Debug)]
pub enum Query<'a> {
    /// The recordings of a stream that overlap with a time range, in ascending order by start
    /// time.
    RecordingsByTime { sql: &'a str, stream_id: i32, start_time: Time, end_time: Time },
    /// The recordings from one id up to but not including another, in ascending order by id.
    RecordingsById { start: CompositeId, end: CompositeId },
    /// What there is to know of sample files, from one id up to but not including another, in
    /// ascending order by id.
    OldestSampleFiles { start: CompositeId, end: CompositeId },
    /// The ids of recordings that were deleted from a directory.
    Garbage { dir_id: i32 },
}

/// A row of the `recording` table.
#[derive(Copy, Clone, Debug)]
pub struct RecordingRow {
    pub composite_id: i64,
    pub run_offset: i32,
    pub flags: i32,
    pub start_time_90k: i64,
    pub duration_90k: i32,
    pub sample_file_bytes: i32,
    pub video_samples: i32,
    pub video_sync_samples: i32,
    pub video_sample_entry_id: i32,
}

/// A row used in `list_recordings_by_time` and `list_recordings_by_id`.
#[derive(Debug)]
pub struct ListRecordingsRow {
    pub start: Time,
    pub video_sample_entry: Arc<VideoSampleEntry>,
    pub id: CompositeId,
    /// This is a duration, but a single recording's duration fits into an i32.
    pub duration_90k: i32,
    pub video_samples: i32,
    pub video_sync_samples: i32,
    pub sample_file_bytes: i32,
    pub run_offset: i32,
    pub flags: i32,
}

impl LockedDatabase {
    /// Lists the specified recordings in ascending order by start time. The rows are to be passed
    /// to `list_recordings_inner`.
    pub fn list_recordings_by_time(&self, stream_id: i32, desired_time: Range<Time>) -> (r: Query<
        '_,
    >)
        ensures
            r matches Query::RecordingsByTime { sql, stream_id: s, start_time, end_time } && sql@
                == self@.list_recordings_by_time_sql && s == stream_id && start_time
                == desired_time.start && end_time == desired_time.end,
    {
        Query::RecordingsByTime {
            sql: self.state.list_recordings_by_time_sql.as_str(),
            stream_id,
            start_time: desired_time.start,
            end_time: desired_time.end,
        }
    }

    /// Lists the specified recordings in ascending order by id. The rows are to be passed to
    /// `list_recordings_inner`.
    pub fn list_recordings_by_id(&self, stream_id: i32, desired_ids: Range<i32>) -> (r: Query<'_>)
        ensures
            r matches Query::RecordingsById { start, end } && start.0 == composite(
                stream_id as int,
                desired_ids.start as int,
            ) && end.0 == composite(stream_id as int, desired_ids.end as int),
    {
        Query::RecordingsById {
            start: CompositeId::new(stream_id, desired_ids.start),
            end: CompositeId::new(stream_id, desired_ids.end),
        }
    }

    /// What a row of the `recording` table says, together with its video sample entry.
    pub fn list_recordings_inner(&self, row: &RecordingRow) -> (r: Result<
        ListRecordingsRow,
        Error,
    >)
        ensures
            r is Ok <==> self@.entries.contains_key(row.video_sample_entry_id),
            match r {
                Err(e) => e == Error::NoSuchEntry {
                    id: CompositeId(row.composite_id),
                    entry_id: row.video_sample_entry_id,
                },
                Ok(out) => {
                    &&& out.id == CompositeId(row.composite_id)
                    &&& out.run_offset == row.run_offset
                    &&& out.flags == row.flags
                    &&& out.start == Time(row.start_time_90k)
                    &&& out.duration_90k == row.duration_90k
                    &&& out.sample_file_bytes == row.sample_file_bytes
                    &&& out.video_samples == row.video_samples
                    &&& out.video_sync_samples == row.video_sync_samples
                    &&& (*out.video_sample_entry)@ == self@.entries[row.video_sample_entry_id]
                },
            },
    {
        let id = CompositeId(row.composite_id);
        let video_sample_entry = match self.state.video_sample_entries.get(
            &row.video_sample_entry_id,
        ) {
            Some(v) => {
                assert((**v)@ == self@.entries[row.video_sample_entry_id]);
                v
            },
            None => {
                return Err(Error::NoSuchEntry { id, entry_id: row.video_sample_entry_id });
            },
        };
        Ok(
            ListRecordingsRow {
                id,
                run_offset: row.run_offset,
                flags: row.flags,
                start: Time(row.start_time_90k),
                duration_90k: row.duration_90k,
                sample_file_bytes: row.sample_file_bytes,
                video_samples: row.video_samples,
                video_sync_samples: row.video_sync_samples,
                video_sample_entry: shared(video_sample_entry),
            },
        )
    }

    /// Lists all garbage ids.
    pub fn list_garbage(&self, dir_id: i32) -> (r: Query<'_>)
        ensures
            r == (Query::Garbage { dir_id }),
    {
        Query::Garbage { dir_id }
    }

    /// Lists the oldest sample files (to delete to free room). The rows are to be passed to
    /// `oldest_sample_file`.
    pub fn list_oldest_sample_files(&self, stream_id: i32) -> (r: Query<'_>)
        requires
            stream_id < i32::MAX,
        ensures
            r matches Query::OldestSampleFiles { start, end } && start.0 == composite(
                stream_id as int,
                0,
            ) && end.0 == composite(stream_id + 1, 0),
    {
        Query::OldestSampleFiles {
            start: CompositeId::new(stream_id, 0),
            end: CompositeId::new(stream_id + 1, 0),
        }
    }
}

/// What a row says of a sample file.
pub fn oldest_sample_file(
    id: CompositeId,
    start: Time,
    duration: Duration,
    sample_file_bytes: i32,
) -> (r: ListOldestSampleFilesRow)
    requires
        fits(start.0 + duration.0),
    ensures
        r.id == id,
        r.time.start == start,
        r.time.end.0 == start.0 + duration.0,
        r.sample_file_bytes == sample_file_bytes,
{
    ListOldestSampleFilesRow { id, time: start..start + duration, sample_file_bytes }
}

/// The query by time, to the last character, and what it is run with. It selects the columns of a
/// `RecordingRow` in their order, from the recordings of the desired stream that start before the
/// desired end and end after the desired start, and puts them in ascending order by start time.
///
/// `sql` is what a database that was just made holds; it stays so whatever happens to the database.
pub proof fn lemma_query_by_time(
    uuid: Uuid,
    open: Option<Open>,
    db: LockedDatabase,
    stream_id: i32,
    desired_time: Range<Time>,
    query: Query<'_>,
)
    requires
        db@.list_recordings_by_time_sql == fresh_state(uuid, open).list_recordings_by_time_sql,
        call_ensures(
            LockedDatabase::list_recordings_by_time,
            (&db, stream_id, desired_time),
            query,
        ),
    ensures
        query matches Query::RecordingsByTime { sql, stream_id: s, start_time, end_time } && {
            &&& sql@ == "\
                select \
                recording.composite_id, \
                recording.run_offset, \
                recording.flags, \
                recording.start_time_90k, \
                recording.duration_90k, \
                recording.sample_file_bytes, \
                recording.video_samples, \
                recording.video_sync_samples, \
                recording.video_sample_entry_id \
                from recording \
                where stream_id = :stream_id and \
                recording.start_time_90k > :start_time_90k - "@ + "27000000"@ + " and \
                recording.start_time_90k < :end_time_90k and \
                recording.start_time_90k + recording.duration_90k > :start_time_90k \
                order by recording.start_time_90k"@
            &&& s == stream_id
            &&& start_time == desired_time.start
            &&& end_time == desired_time.end
        },
{
    reveal_strlit("27000000");
    reveal_with_fuel(digits, 9);
    assert(decimal(27_000_000) =~= "27000000"@);
}

/// The query by time finds recordings by when they start, and reaches back from the desired start
/// by as long as a recording can last. It misses none that overlaps with the desired time: what it
/// asks of a recording is met exactly by those that do.
pub proof fn lemma_query_misses_nothing(start: int, duration: int, from: int, to: int)
    requires
        duration <= MAX_RECORDING_DURATION,
    ensures
        start > from - 27_000_000 && start < to && start + duration > from <==> start < to && from
            < start + duration,
{
}

/// The composite ids that `list_recordings_by_id` asks for are exactly those of the stream's
/// recordings with the desired ids, which are not negative.
pub proof fn lemma_id_span(stream_id: i32, desired_ids: Range<i32>, id: CompositeId)
    requires
        0 <= desired_ids.start,
        0 <= desired_ids.end,
    ensures
        composite(stream_id as int, desired_ids.start as int) <= id.0 < composite(
            stream_id as int,
            desired_ids.end as int,
        ) <==> stream_part(id.0 as int) == stream_id && desired_ids.start <= recording_part(
            id.0 as int,
        ) < desired_ids.end,
{
}

} // verus!
