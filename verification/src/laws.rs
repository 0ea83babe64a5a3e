//! What the operations are for, said of whatever they may return.
//!
//! Each lemma takes the arguments of a function and a result that the function may return for them,
//! and says what holds between the two in terms of ids, times and rows.
use crate::aggregate::{row_fits, Aggregator, ListAggregatedRecordingsRow};
use crate::batches::has_batches;
use crate::calendar::{is_date, may_be_seconds_at};
use crate::cameras::{camera_added, camera_deleted, camera_updated, listed, lists_streams};
use crate::changer::{outcomes_applied, StreamOutcome, StreamStateChanger};
use crate::collections::{entries_put, entries_without};
use crate::commit::{
    extents_cover, modification_fits, modifications_fit, stream_modified, Commit, MaxScan,
    StreamExtent,
};
use crate::days::{
    adjust_days, are_bounds_by, changes_adjusted_if_fit, counts_positive, day_adjusted, day_delta,
    day_fits, days_adjusted, days_adjusted_if_fit, days_below, days_fit, days_merged,
    lemma_day_sums, lemma_ordinary_days_fit, possible_split, recorded_on, DayMap, DaySplit,
    StreamDayKey, StreamDayValue,
};
use crate::delete::{delete_fits, is_dir_of, DeleteRecordings, DeleteStage};
use crate::dirs::{seek_dir, DeleteSampleFileDir};
use crate::entries::EntryInsertion;
use crate::error::Error;
use crate::ids::{recording_part, stream_part, CompositeId};
use crate::insert::{
    insert_fits, insert_refused, recording_holds, InsertRecording, InsertStage,
};
use crate::keys::ascending;
use crate::listing::{ListRecordingsRow, Query, RecordingRow};
use crate::load::{
    check_schema_version, dir_loaded, entry_loaded, stream_loaded, DirRow, EntryRow, StreamRow,
};
use crate::model::{CameraView, DirView, LockedDatabase, StateView, StreamView};
use crate::playback::lemma_without_all;
use crate::recording::{fits, Duration, Time};
use crate::runs::{is_alone_in, is_joined, lemma_recording_joins_unless_split, run_start, splits};
use crate::statement::{
    CameraChange, ListOldestSampleFilesRow, RecordingToInsert, Reply, Statement,
};
use crate::stream::{recording_added, recording_fits};
use crate::transaction::{
    mod_of, MarkSampleFilesDeleted, ModView, Transaction, UpdateRetention,
};
use crate::uuids::{lemma_uuid_number_injective, uuid_number, Uuid};
use std::ops::Range;
use vstd::prelude::*;

verus! {

/// `Aggregator::add` puts a batch to an end exactly if the run is split before the recording: by a
/// missing id, by a change of the video sample entry, or by the duration limit. Otherwise the
/// recording joins the batch, or there is an error if it does not start when the batch ends.
pub proof fn lemma_add_splits_for_a_reason(
    agg: &mut Aggregator,
    row: ListRecordingsRow,
    r: Result<Option<ListAggregatedRecordingsRow>, Error>,
)
    requires
        row_fits(old(agg).forced_split, old(agg).aggs@, row),
        call_ensures(Aggregator::add, (agg, row), r),
    ensures
        final(agg).stream_id == old(agg).stream_id,
        final(agg).forced_split == old(agg).forced_split,
        ({
            let run = run_start(row) as i32;
            let known = old(agg).aggs@.contains_key(run);
            let a = old(agg).aggs@[run];
            let b = final(agg).aggs@[run];
            let is_split = known && splits(a, row, old(agg).forced_split);
            &&& (r matches Ok(Some(_))) <==> is_split
            &&& r matches Ok(Some(ended)) ==> ended == a
            &&& r is Err <==> known && !is_split && a.time.end != row.start
            &&& r is Err ==> final(agg).aggs@ == old(agg).aggs@
            &&& r is Ok ==> final(agg).aggs@.contains_key(run)
            &&& r is Ok && known && !is_split ==> is_joined(a, row, b)
            &&& r is Ok && (!known || is_split) ==> is_alone_in(row, b, old(agg).stream_id)
            &&& forall|k: i32|
                k != run ==> (#[trigger] final(agg).aggs@.contains_key(k) <==> old(
                    agg,
                ).aggs@.contains_key(k)) && final(agg).aggs@[k] == old(agg).aggs@[k]
        }),
{
    lemma_recording_joins_unless_split(
        old(agg).stream_id,
        old(agg).forced_split,
        old(agg).aggs@,
        row,
    );
}

/// The statements of an insertion are about the recording and its stream: they insert its row with
/// its length, then its playback, and then set the stream's next id to the one after its own.
pub proof fn lemma_insertion_runs(op: InsertRecording<'_>, statement: Statement<'_>)
    requires
        op.valid(),
        call_ensures(InsertRecording::statement, (&op,), statement),
    ensures
        ({
            let r = op.recording;
            match op.stage {
                InsertStage::Recording => statement matches Statement::InsertRecording {
                    recording,
                    stream_id,
                    duration_90k,
                } && recording == r && stream_id == stream_part(r.id.0 as int) && duration_90k
                    == r.time.end.0 - r.time.start.0,
                InsertStage::Playback => statement matches Statement::InsertRecordingPlayback {
                    composite_id,
                    sample_file_sha1,
                    video_index,
                } && composite_id == r.id && sample_file_sha1@ == r.sample_file_sha1@
                    && video_index@ == r.video_index@,
                InsertStage::NextRecordingId => statement matches Statement::UpdateNextRecordingId {
                    stream_id,
                    next_recording_id,
                } && stream_id == stream_part(r.id.0 as int) && next_recording_id
                    == recording_part(r.id.0 as int) + 1,
            }
        }),
{
}

/// A step of an insertion that succeeds leads to the next one. The first sets the next id of the
/// stream to the one after the recording's own, in memory as in the table; the last adds the
/// recording's length and bytes to what the transaction adds to the stream. A step that fails
/// changes nothing, and no step changes what the transaction does to other streams.
pub proof fn lemma_insertion_steps(
    op: &mut InsertRecording<'_>,
    tx: &mut Transaction<'_>,
    reply: Reply,
    split: Option<DaySplit>,
    r: Result<bool, Error>,
)
    requires
        old(op).valid(),
        reply is Ok ==> old(op).fits(old(tx).mods()),
        call_ensures(InsertRecording::advance_at, (op, tx, reply, split), r),
    ensures
        r is Ok <==> reply is Ok,
        r is Err ==> final(tx).mods() == old(tx).mods(),
        final(op).recording == old(op).recording,
        r matches Ok(done) ==> {
            let id = old(op).recording.id.0 as int;
            let sid = stream_part(id) as i32;
            let before = mod_of(old(tx).mods(), sid);
            let after = mod_of(final(tx).mods(), sid);
            &&& done <==> old(op).stage is NextRecordingId
            &&& old(op).stage is Recording ==> {
                &&& final(op).stage is Playback
                &&& after.new_next_recording_id is Some
                &&& after.new_next_recording_id->0 == recording_part(id) + 1
                &&& after.duration == before.duration
                &&& after.sample_file_bytes == before.sample_file_bytes
                &&& after.days == before.days
            }
            &&& old(op).stage is Playback ==> final(op).stage is NextRecordingId && after == before
            &&& old(op).stage is NextRecordingId ==> {
                let time = old(op).recording.time;
                &&& !final(tx).must_rollback
                &&& after.duration.0 == before.duration.0 + time.end.0 - time.start.0
                &&& after.sample_file_bytes == before.sample_file_bytes + old(
                    op,
                ).recording.sample_file_bytes
                &&& after.new_next_recording_id == before.new_next_recording_id
                &&& after.days == changes_adjusted_if_fit(before.days, time, 1, split)
            }
            &&& after.range == before.range
            &&& after.new_record == before.new_record
            &&& after.new_retain_bytes == before.new_retain_bytes
            &&& forall|other: i32|
                other != sid ==> #[trigger] mod_of(final(tx).mods(), other) == mod_of(
                    old(tx).mods(),
                    other,
                )
        },
{
}

/// The statements of a deletion are about the recording that is next: they delete its playback and
/// then its row, and then put it into the garbage of the directory that was found for it.
pub proof fn lemma_deletion_runs(op: DeleteRecordings<'_>, statement: Statement<'_>)
    requires
        op.valid(),
        call_ensures(DeleteRecordings::statement, (&op,), statement),
    ensures
        ({
            let id = op.rows@[op.next as int].id;
            match op.stage {
                DeleteStage::Playback => statement matches Statement::DeleteRecordingPlayback {
                    composite_id,
                } && composite_id == id,
                DeleteStage::Recording => statement matches Statement::DeleteRecording {
                    composite_id,
                } && composite_id == id,
                DeleteStage::Garbage { sample_file_dir_id } =>
                    statement matches Statement::InsertGarbage {
                    sample_file_dir_id: dir_id,
                    composite_id,
                } && dir_id == sample_file_dir_id && composite_id == id,
            }
        }),
{
}

/// Once a recording's row is deleted, it is to go into the garbage of the directory that its stream
/// has, whatever the type of the stream. Once it is there, its length and bytes are taken off what
/// the transaction adds to the stream, and it is remembered as deleted.
pub proof fn lemma_deletion_steps(
    op: &mut DeleteRecordings<'_>,
    tx: &mut Transaction<'_>,
    reply: Reply,
    split: Option<DaySplit>,
    r: Result<bool, Error>,
)
    requires
        old(op).valid(),
        reply is Ok ==> old(op).fits(old(tx).mods()),
        call_ensures(DeleteRecordings::advance_at, (op, tx, reply, split), r),
    ensures
        reply is Err ==> r is Err,
        r is Err ==> final(tx).mods() == old(tx).mods() && final(tx).deleted@ == old(tx).deleted@,
        final(op).rows == old(op).rows,
        r is Ok ==> {
            let row = old(op).rows@[old(op).next as int];
            let sid = stream_part(row.id.0 as int) as i32;
            let before = mod_of(old(tx).mods(), sid);
            let after = mod_of(final(tx).mods(), sid);
            let last = old(op).next + 1 == old(op).rows@.len();
            &&& r == Ok::<bool, Error>(last && old(op).stage is Garbage)
            &&& old(op).stage is Playback ==> final(op).next == old(op).next && final(op).stage
                is Recording && reply->Ok_0.changes == 1
            &&& old(op).stage is Recording ==> {
                &&& reply->Ok_0.changes == 1
                &&& final(op).next == old(op).next
                &&& final(op).stage matches DeleteStage::Garbage { sample_file_dir_id }
                &&& is_dir_of(old(tx).streams(), row.id.0, sample_file_dir_id)
            }
            &&& old(op).stage is Garbage ==> {
                &&& after.duration.0 == before.duration.0 - (row.time.end.0 - row.time.start.0)
                &&& after.sample_file_bytes == before.sample_file_bytes - row.sample_file_bytes
                &&& after.days == changes_adjusted_if_fit(before.days, row.time, -1, split)
                &&& final(tx).deleted@ == old(tx).deleted@.push(row.id)
                &&& !last ==> final(op).next == old(op).next + 1 && final(op).stage is Playback
                &&& last ==> !final(tx).must_rollback
            }
            &&& !(old(op).stage is Garbage) ==> after == before && final(tx).deleted@ == old(
                tx,
            ).deleted@
            &&& after.new_next_recording_id == before.new_next_recording_id
            &&& after.range == before.range
            &&& after.new_record == before.new_record
            &&& after.new_retain_bytes == before.new_retain_bytes
            &&& forall|other: i32|
                other != sid ==> #[trigger] mod_of(final(tx).mods(), other) == mod_of(
                    old(tx).mods(),
                    other,
                )
        },
{
}

/// Marking sample files as deleted goes through the ids one by one, each of which must have a row
/// in the garbage, and is done after the last.
pub proof fn lemma_marking_steps(
    op: &mut MarkSampleFilesDeleted<'_>,
    reply: Reply,
    r: Result<bool, Error>,
)
    requires
        old(op).next < old(op).ids@.len(),
        call_ensures(MarkSampleFilesDeleted::advance, (op, reply), r),
    ensures
        final(op).ids == old(op).ids,
        r is Ok <==> reply is Ok && reply->Ok_0.changes == 1,
        r matches Ok(done) ==> final(op).next == old(op).next + 1 && (done <==> old(op).next + 1
            == old(op).ids@.len()),
        r is Err && reply is Ok ==> r == Err::<bool, Error>(
            Error::NoGarbageRow(old(op).ids@[old(op).next as int]),
        ),
{
}

/// An update of a stream's retention sets what the stream records and retains, in the table and, on
/// commit, in memory. It changes nothing else, and nothing at all unless there is such a stream.
pub proof fn lemma_retention_update(
    update: UpdateRetention,
    statement: Statement<'_>,
    tx: &mut Transaction<'_>,
    reply: Reply,
    r: Result<(), Error>,
)
    requires
        call_ensures(UpdateRetention::statement, (&update,), statement),
        call_ensures(UpdateRetention::finish, (update, tx, reply), r),
    ensures
        statement matches Statement::UpdateRetention { stream_id, record, retain_bytes }
            && stream_id == update.stream_id && record == update.new_record && retain_bytes
            == update.new_limit,
        r is Ok <==> reply is Ok && reply->Ok_0.changes == 1,
        r is Err ==> final(tx).mods() == old(tx).mods(),
        r is Ok ==> {
            let before = mod_of(old(tx).mods(), update.stream_id);
            let after = mod_of(final(tx).mods(), update.stream_id);
            &&& after.new_record == Some(update.new_record)
            &&& after.new_retain_bytes == Some(update.new_limit)
            &&& after.duration == before.duration
            &&& after.sample_file_bytes == before.sample_file_bytes
            &&& after.days == before.days
            &&& after.range == before.range
            &&& after.new_next_recording_id == before.new_next_recording_id
            &&& forall|other: i32|
                other != update.stream_id ==> #[trigger] mod_of(final(tx).mods(), other) == mod_of(
                    old(tx).mods(),
                    other,
                )
        },
{
}

/// A retention is updated unless the limit is negative or the transaction is to be rolled back, and
/// it is the one that was asked for.
pub proof fn lemma_retention_refused(
    tx: &mut Transaction<'_>,
    stream_id: i32,
    record: bool,
    limit: i64,
    r: Result<UpdateRetention, Error>,
)
    requires
        call_ensures(Transaction::update_retention, (tx, stream_id, record, limit), r),
    ensures
        r is Ok <==> limit >= 0 && !old(tx).must_rollback,
        r matches Ok(update) ==> update.stream_id == stream_id && update.new_record == record
            && update.new_limit == limit,
        final(tx).mods() == old(tx).mods(),
{
}

/// The one schema version that is accepted is 3. An older one and a newer one are told apart.
pub proof fn lemma_schema_version(version: Option<i32>, r: Result<(), Error>)
    requires
        call_ensures(check_schema_version, (version,), r),
    ensures
        r is Ok <==> version == Some(3i32),
        version is None ==> r == Err::<(), Error>(Error::NoVersion),
        version matches Some(v) ==> v < 3 ==> r == Err::<(), Error>(Error::VersionTooOld(v)),
        version matches Some(v) ==> v > 3 ==> r == Err::<(), Error>(Error::VersionTooNew(v)),
{
}

/// The query for recordings by id is met by exactly the recordings of the stream whose ids are
/// among those desired, none of which is negative.
pub proof fn lemma_query_by_id(
    db: LockedDatabase,
    stream_id: i32,
    desired_ids: Range<i32>,
    query: Query<'_>,
    id: CompositeId,
)
    requires
        0 <= desired_ids.start,
        0 <= desired_ids.end,
        call_ensures(LockedDatabase::list_recordings_by_id, (&db, stream_id, desired_ids), query),
    ensures
        query matches Query::RecordingsById { start, end } && (start.0 <= id.0 < end.0 <==> {
            &&& stream_part(id.0 as int) == stream_id
            &&& desired_ids.start <= recording_part(id.0 as int) < desired_ids.end
        }),
{
    crate::listing::lemma_id_span(stream_id, desired_ids, id);
}

/// The query for the oldest sample files is met by exactly the recordings of the stream.
pub proof fn lemma_query_for_oldest(
    db: LockedDatabase,
    stream_id: i32,
    query: Query<'_>,
    id: CompositeId,
)
    requires
        stream_id < i32::MAX,
        call_ensures(LockedDatabase::list_oldest_sample_files, (&db, stream_id), query),
    ensures
        query matches Query::OldestSampleFiles { start, end } && (start.0 <= id.0 < end.0
            <==> stream_part(id.0 as int) == stream_id),
{
    crate::ids::lemma_stream_span(stream_id, id);
}

/// The query for garbage is about the directory that was asked for.
pub proof fn lemma_query_for_garbage(db: LockedDatabase, dir_id: i32, query: Query<'_>)
    requires
        call_ensures(LockedDatabase::list_garbage, (&db, dir_id), query),
    ensures
        query matches Query::Garbage { dir_id: asked } && asked == dir_id,
{
}

/// A video sample entry that is to be inserted is the one that is there with its digest, if there
/// is one and the dimensions are the same. It is new exactly if there is none with its digest, and
/// then it is inserted as it was given.
pub proof fn lemma_entry_insertion(
    db: LockedDatabase,
    sha1: [u8; 20],
    width: u16,
    height: u16,
    data: Vec<u8>,
    rfc6381_codec: String,
    r: Result<EntryInsertion, Error>,
)
    requires
        call_ensures(
            LockedDatabase::insert_video_sample_entry_with,
            (&db, sha1, width, height, data, rfc6381_codec),
            r,
        ),
    ensures
        r matches Ok(EntryInsertion::Existing(id)) ==> {
            &&& db@.entries.contains_key(id)
            &&& db@.entries[id].sha1 == sha1@
            &&& db@.entries[id].width == width
            &&& db@.entries[id].height == height
            &&& forall|other: i32| #[trigger]
                db@.entries.contains_key(other) && other < id ==> db@.entries[other].sha1 != sha1@
        },
        (r matches Ok(EntryInsertion::New(_))) <==> forall|id: i32| #[trigger]
            db@.entries.contains_key(id) ==> db@.entries[id].sha1 != sha1@,
        r matches Ok(EntryInsertion::New(op)) ==> op.sha1 == sha1 && op.width == width && op.height
            == height && op.data == data && op.rfc6381_codec == rfc6381_codec,
        r is Err ==> exists|id: i32| #[trigger]
            db@.entries.contains_key(id) && db@.entries[id].sha1 == sha1@ && (db@.entries[id].width
                != width || db@.entries[id].height != height),
{
    assert forall|id: i32| #[trigger] db@.entries.contains_key(id) && db@.entries[id].sha1
        == sha1@ implies !(r matches Ok(EntryInsertion::New(_))) by {
        assert(crate::entries::has_digest(db@.entries, id, sha1@));
    }
    if let Ok(EntryInsertion::Existing(id)) = r {
        assert forall|other: i32| #[trigger] db@.entries.contains_key(other) && other
            < id implies db@.entries[other].sha1 != sha1@ by {
            assert(!crate::entries::has_digest(db@.entries, other, sha1@));
        }
    }
    if r is Err {
        let id = choose|id: i32|
            {
                &&& #[trigger] crate::entries::first_with_digest(db@.entries, id, sha1@)
                &&& db@.entries[id].width != width || db@.entries[id].height != height
            };
        assert(db@.entries.contains_key(id));
    }
}

/// A directory can be deleted exactly if no stream keeps its files there.
pub proof fn lemma_dir_deletion(
    db: LockedDatabase,
    dir_id: i32,
    r: Result<DeleteSampleFileDir, Error>,
)
    requires
        call_ensures(LockedDatabase::delete_sample_file_dir, (&db, dir_id), r),
    ensures
        r is Ok <==> forall|sid: i32| #[trigger]
            db@.streams.contains_key(sid) ==> db@.streams[sid].sample_file_dir_id != Some(dir_id),
        r matches Ok(op) ==> op.dir_id == dir_id,
        r matches Err(e) ==> e is DirInUse && {
            let sid = e->DirInUse_stream_id;
            db@.streams.contains_key(sid) && db@.streams[sid].sample_file_dir_id == Some(dir_id)
        },
{
    assert forall|sid: i32| #[trigger]
        db@.streams.contains_key(sid) && db@.streams[sid].sample_file_dir_id == Some(
            dir_id,
        ) implies r is Err by {
        assert(crate::dirs::uses_dir(db@.streams, sid, dir_id));
    }
}

/// A camera is deleted together with exactly its own streams, provided none of them has recordings:
/// they go, the camera goes, and its uuid is no longer known. All else stays.
pub proof fn lemma_camera_deletion(
    db: StateView,
    camera_id: i32,
    uuid: Uuid,
    list: Seq<(i32, bool)>,
)
    requires
        lists_streams(db.streams, camera_id, list),
        forall|i: int| 0 <= i < list.len() ==> !(#[trigger] list[i]).1,
    ensures
        ({
            let after = camera_deleted(db, camera_id, uuid, listed(list));
            &&& forall|sid: i32| #[trigger]
                db.streams.contains_key(sid) && db.streams[sid].camera_id == camera_id
                    ==> db.streams[sid].range is None
            &&& forall|sid: i32| #[trigger]
                after.streams.contains_key(sid) <==> db.streams.contains_key(sid)
                    && db.streams[sid].camera_id != camera_id
            &&& forall|sid: i32| #[trigger]
                after.streams.contains_key(sid) ==> after.streams[sid] == db.streams[sid]
            &&& forall|c: i32| #[trigger]
                after.cameras.contains_key(c) <==> db.cameras.contains_key(c) && c != camera_id
            &&& forall|c: i32| #[trigger]
                after.cameras.contains_key(c) ==> after.cameras[c] == db.cameras[c]
            &&& forall|u: Uuid|
                #![trigger uuid_number(u)]
                after.camera_ids.contains_key(uuid_number(u)) <==> db.camera_ids.contains_key(
                    uuid_number(u),
                ) && u@ != uuid@
            &&& after.dirs == db.dirs
            &&& after.entries == db.entries
        }),
{
    let after = camera_deleted(db, camera_id, uuid, listed(list));
    let keys = list.map_values(|x: (i32, bool)| x.0);
    assert forall|sid: i32| #[trigger] db.streams.contains_key(sid) implies (listed(list).contains(
        sid,
    ) <==> db.streams[sid].camera_id == camera_id) && (db.streams[sid].camera_id == camera_id
        ==> db.streams[sid].range is None) by {
        if db.streams[sid].camera_id == camera_id {
            let i = choose|i: int| 0 <= i < list.len() && (#[trigger] list[i]).0 == sid;
            assert(keys[i] == sid);
            assert(!list[i].1);
        }
        if keys.contains(sid) {
            let i = choose|i: int| 0 <= i < keys.len() && keys[i] == sid;
            assert(list[i].0 == sid);
        }
    }
    assert forall|u: Uuid|
        #![trigger uuid_number(u)]
        after.camera_ids.contains_key(uuid_number(u)) <==> db.camera_ids.contains_key(
            uuid_number(u),
        ) && u@ != uuid@ by {
        if uuid_number(u) == uuid_number(uuid) {
            lemma_uuid_number_injective(u, uuid);
        }
    }
}

/// The deletion of a camera starts if there is such a camera, with the list of its streams; it is
/// refused at once only if the first of them has recordings.
pub proof fn lemma_camera_deletion_starts(
    db: LockedDatabase,
    id: i32,
    r: Result<crate::cameras::DeleteCamera, Error>,
)
    requires
        call_ensures(LockedDatabase::delete_camera, (&db, id), r),
    ensures
        !db@.cameras.contains_key(id) ==> r is Err,
        r matches Ok(op) ==> {
            &&& op.camera_id == id
            &&& op.uuid == db@.cameras[id].uuid
            &&& lists_streams(db@.streams, id, op.streams@)
            &&& op.deleted == 0 && !op.camera_deleted
        },
        r is Err && db@.cameras.contains_key(id) ==> exists|sid: i32| #[trigger]
            db@.streams.contains_key(sid) && db@.streams[sid].camera_id == id
                && db@.streams[sid].range is Some,
{
    if r is Err && db@.cameras.contains_key(id) {
        let list = choose|list: Seq<(i32, bool)>| #[trigger]
            lists_streams(db@.streams, id, list) && list.len() > 0 && list[0].1;
        assert(db@.streams.contains_key(list[0].0));
    }
}

/// A row of `video_sample_entry` can be loaded exactly if its digest has twenty bytes, and a row of
/// `sample_file_dir` exactly if both or neither of the id and the uuid of its last complete open
/// are there. A row of `stream` can be loaded exactly if its type is `main` or `sub` and its camera
/// is known.
pub proof fn lemma_rows_that_load(db: StateView, entry: EntryRow, dir: DirRow, stream: StreamRow)
    ensures
        entry_loaded(db, entry) is Ok <==> entry.sha1@.len() == 20,
        dir_loaded(db, dir) is Ok <==> (dir.last_complete_open_id is Some <==> dir.open_uuid
            is Some),
        stream_loaded(db, stream) is Ok <==> (stream.type_@ == "main"@ || stream.type_@ == "sub"@)
            && db.cameras.contains_key(stream.camera_id),
        stream_loaded(db, stream) is Err && (stream.type_@ == "main"@ || stream.type_@ == "sub"@)
            ==> stream_loaded(db, stream) == Err::<StateView, Error>(
            Error::MissingCamera { camera_id: stream.camera_id, stream_id: stream.id },
        ),
{
}

/// The search for a directory to open stops at the first one from `from` on that is neither open
/// nor being opened. All that it passes over are; an unknown one on the way puts an end to it.
pub proof fn lemma_next_dir_to_open(
    dirs: Map<i32, DirView>,
    in_progress: Set<i32>,
    ids: Seq<i32>,
    from: int,
)
    requires
        0 <= from <= ids.len(),
    ensures
        ({
            let found = seek_dir(dirs, in_progress, ids, from);
            &&& found matches Ok(n) ==> {
                &&& from <= n <= ids.len()
                &&& forall|i: int|
                    from <= i < n ==> in_progress.contains(#[trigger] ids[i]) || (
                    dirs.contains_key(ids[i]) && dirs[ids[i]].dir is Some)
                &&& n < ids.len() ==> !in_progress.contains(ids[n]) && dirs.contains_key(ids[n])
                    && dirs[ids[n]].dir is None
            }
            &&& found is Err <==> exists|k: int|
                {
                    &&& from <= k < ids.len()
                    &&& !in_progress.contains(#[trigger] ids[k]) && !dirs.contains_key(ids[k])
                    &&& found == Err::<int, Error>(Error::NoSuchDir(ids[k]))
                    &&& forall|i: int|
                        from <= i < k ==> in_progress.contains(#[trigger] ids[i]) || (
                        dirs.contains_key(ids[i]) && dirs[ids[i]].dir is Some)
                }
        }),
    decreases ids.len() - from,
{
    if from < ids.len() {
        lemma_next_dir_to_open(dirs, in_progress, ids, from + 1);
        let found = seek_dir(dirs, in_progress, ids, from);
        let passed = in_progress.contains(ids[from]) || (dirs.contains_key(ids[from])
            && dirs[ids[from]].dir is Some);
        if passed && found is Err {
            let k = choose|k: int|
                {
                    &&& from + 1 <= k < ids.len()
                    &&& !in_progress.contains(#[trigger] ids[k]) && !dirs.contains_key(ids[k])
                    &&& found == Err::<int, Error>(Error::NoSuchDir(ids[k]))
                    &&& forall|i: int|
                        from + 1 <= i < k ==> in_progress.contains(#[trigger] ids[i]) || (
                        dirs.contains_key(ids[i]) && dirs[ids[i]].dir is Some)
                };
            assert(from <= k < ids.len() && !in_progress.contains(ids[k]));
        }
        if !passed && found is Err {
            assert(found == Err::<int, Error>(Error::NoSuchDir(ids[from])));
        }
    }
}

/// What `Aggregator::finish` returns are the batches that are left, each once, in ascending order
/// of their runs.
pub proof fn lemma_finish_hands_out_all(agg: Aggregator, r: Vec<ListAggregatedRecordingsRow>)
    requires
        call_ensures(Aggregator::finish, (agg,), r),
    ensures
        exists|runs: Seq<i32>| #[trigger] has_batches(agg.aggs@, runs, r@),
{
    let runs = choose|runs: Seq<i32>|
        {
            &&& #[trigger] ascending(runs)
            &&& forall|k: i32| #[trigger] runs.contains(k) <==> agg.aggs@.contains_key(k)
            &&& r@.len() == runs.len()
            &&& forall|i: int| 0 <= i < runs.len() ==> #[trigger] r@[i] == agg.aggs@[runs[i]]
        };
    assert(has_batches(agg.aggs@, runs, r@));
}

/// Recordings are aggregated from what the query by time gives for the same stream and the same
/// time, starting with no batches.
pub proof fn lemma_aggregation_starts(
    db: LockedDatabase,
    stream_id: i32,
    desired_time: Range<Time>,
    forced_split: Duration,
    r: (Query<'_>, Aggregator),
    query: Query<'_>,
)
    requires
        call_ensures(
            LockedDatabase::list_aggregated_recordings,
            (&db, stream_id, desired_time, forced_split),
            r,
        ),
        call_ensures(
            LockedDatabase::list_recordings_by_time,
            (&db, stream_id, desired_time),
            query,
        ),
    ensures
        r.0 matches Query::RecordingsByTime { sql, stream_id: s, start_time, end_time } && (
        query matches Query::RecordingsByTime {
            sql: sql2,
            stream_id: s2,
            start_time: start2,
            end_time: end2,
        } && sql@ == sql2@ && s == s2 && start_time == start2 && end_time == end2),
        r.1.stream_id == stream_id,
        r.1.forced_split == forced_split,
        forall|run: i32| !#[trigger] r.1.aggs@.contains_key(run),
{
}

/// A listed recording is the row that was read, with the video sample entry that the row refers to.
/// There is an error exactly if there is no such entry.
pub proof fn lemma_listed_recording(
    db: LockedDatabase,
    row: RecordingRow,
    r: Result<ListRecordingsRow, Error>,
)
    requires
        call_ensures(LockedDatabase::list_recordings_inner, (&db, &row), r),
    ensures
        r is Ok <==> db@.entries.contains_key(row.video_sample_entry_id),
        r matches Ok(out) ==> {
            &&& out.id.0 == row.composite_id
            &&& out.run_offset == row.run_offset
            &&& out.flags == row.flags
            &&& out.start.0 == row.start_time_90k
            &&& out.duration_90k == row.duration_90k
            &&& out.sample_file_bytes == row.sample_file_bytes
            &&& out.video_samples == row.video_samples
            &&& out.video_sync_samples == row.video_sync_samples
            &&& (*out.video_sample_entry)@ == db@.entries[row.video_sample_entry_id]
        },
        r matches Err(e) ==> e matches Error::NoSuchEntry { id, entry_id } && id.0
            == row.composite_id && entry_id == row.video_sample_entry_id,
{
}

/// A camera that was added is as it was described, under its id and under its uuid. Other cameras
/// are as they were.
pub proof fn lemma_camera_addition(
    db: StateView,
    uuid: Uuid,
    change: CameraChange,
    changer: StreamStateChanger,
)
    ensures
        ({
            let after = camera_added(db, uuid, change, changer);
            let id = changer.camera_id;
            &&& after.cameras.contains_key(id)
            &&& is_described(after.cameras[id], id, uuid, change)
            &&& after.cameras[id].streams == changer.sids@
            &&& after.camera_ids.contains_key(uuid_number(uuid))
            &&& after.camera_ids[uuid_number(uuid)] == id
            &&& forall|c: i32|
                c != id ==> (#[trigger] after.cameras.contains_key(c) <==> db.cameras.contains_key(
                    c,
                )) && after.cameras[c] == db.cameras[c]
            &&& after.dirs == db.dirs && after.entries == db.entries
            &&& after.uuid == db.uuid && after.open == db.open
        }),
{
}

/// Whether the camera `c` is what `change` says, with the given id and uuid.
pub open spec fn is_described(c: CameraView, id: i32, uuid: Uuid, change: CameraChange) -> bool {
    &&& c.id == id
    &&& c.uuid == uuid
    &&& c.short_name == change.short_name@
    &&& c.description == change.description@
    &&& c.host == change.host@
    &&& c.username == change.username@
    &&& c.password == change.password@
}

/// A camera that was updated is as it was described, and keeps its id and its uuid. Other cameras
/// are as they were.
pub proof fn lemma_camera_update(
    db: StateView,
    camera_id: i32,
    change: CameraChange,
    changer: StreamStateChanger,
)
    ensures
        ({
            let after = camera_updated(db, camera_id, change, changer);
            let before = db.cameras[camera_id];
            &&& after.cameras.contains_key(camera_id)
            &&& is_described(after.cameras[camera_id], before.id, before.uuid, change)
            &&& after.cameras[camera_id].streams == changer.sids@
            &&& forall|c: i32|
                c != camera_id ==> (#[trigger] after.cameras.contains_key(c)
                    <==> db.cameras.contains_key(c)) && after.cameras[c] == db.cameras[c]
            &&& after.camera_ids == db.camera_ids
            &&& after.dirs == db.dirs && after.entries == db.entries
            &&& after.uuid == db.uuid && after.open == db.open
        }),
{
}

/// The range of a stream with another recording goes from the lesser of the starts to the greater
/// of the ends; the recording's length and bytes are added; and what is not about recordings stays.
pub proof fn lemma_recording_shows(
    s: StreamView,
    r: Range<Time>,
    bytes: i32,
    split: Option<DaySplit>,
)
    requires
        recording_fits(s, r, bytes),
    ensures
        ({
            let after = recording_added(s, r, bytes, split);
            &&& after.duration.0 == s.duration.0 + r.end.0 - r.start.0
            &&& after.sample_file_bytes == s.sample_file_bytes + bytes
            &&& after.days == days_adjusted_if_fit(s.days, r, 1, split)
            &&& after.range matches Some(hull) && {
                &&& hull.start.0 <= r.start.0 && r.end.0 <= hull.end.0
                &&& s.range is None ==> hull == r
                &&& s.range matches Some(old_range) ==> {
                    &&& hull.start.0 <= old_range.start.0 && old_range.end.0 <= hull.end.0
                    &&& hull.start == old_range.start || hull.start == r.start
                    &&& hull.end == old_range.end || hull.end == r.end
                }
            }
            &&& after.id == s.id && after.camera_id == s.camera_id && after.type_ == s.type_
            &&& after.sample_file_dir_id == s.sample_file_dir_id
            &&& after.rtsp_path == s.rtsp_path
            &&& after.retain_bytes == s.retain_bytes && after.record == s.record
            &&& after.next_recording_id == s.next_recording_id
        }),
{
}

/// Whatever is added to a stream on commit is what the modification says: the sums grow by it, the
/// range is reset, and the next id, what to record and what to retain are reset if they are to be.
pub proof fn lemma_modified_stream(s: StreamView, m: ModView)
    requires
        modification_fits(s, m),
    ensures
        ({
            let after = stream_modified(s, m);
            &&& after.duration.0 == s.duration.0 + m.duration.0
            &&& after.sample_file_bytes == s.sample_file_bytes + m.sample_file_bytes
            &&& after.range == m.range
            &&& after.days == days_merged(s.days, m.days)
            &&& after.next_recording_id == if m.new_next_recording_id is Some {
                m.new_next_recording_id->0
            } else {
                s.next_recording_id
            }
            &&& after.record == if m.new_record is Some {
                m.new_record->0
            } else {
                s.record
            }
            &&& after.retain_bytes == if m.new_retain_bytes is Some {
                m.new_retain_bytes->0
            } else {
                s.retain_bytes
            }
            &&& after.id == s.id && after.camera_id == s.camera_id && after.type_ == s.type_
            &&& after.sample_file_dir_id == s.sample_file_dir_id
            &&& after.rtsp_path == s.rtsp_path
        }),
{
}

/// Nothing stands in the way of inserting and deleting recordings, nor of a commit, as long as no
/// time and no sum is near the limits of what can be held.
pub proof fn lemma_ordinary_sums_fit(
    r: RecordingToInsert,
    row: ListOldestSampleFilesRow,
    m: ModView,
    s: StreamView,
)
    requires
        recording_part(r.id.0 as int) < i32::MAX,
        -0x1000_0000_0000_0000 <= r.time.start.0 <= 0x1000_0000_0000_0000,
        -0x1000_0000_0000_0000 <= r.time.end.0 <= 0x1000_0000_0000_0000,
        -0x1000_0000_0000_0000 <= row.time.start.0 <= 0x1000_0000_0000_0000,
        -0x1000_0000_0000_0000 <= row.time.end.0 <= 0x1000_0000_0000_0000,
        -0x1000_0000_0000_0000 <= m.duration.0 <= 0x1000_0000_0000_0000,
        -0x1000_0000_0000_0000 <= m.sample_file_bytes <= 0x1000_0000_0000_0000,
        -0x1000_0000_0000_0000 <= s.duration.0 <= 0x1000_0000_0000_0000,
        -0x1000_0000_0000_0000 <= s.sample_file_bytes <= 0x1000_0000_0000_0000,
        days_below(m.days, 0x1000_0000_0000_0000),
        days_below(s.days, 0x1000_0000_0000_0000),
    ensures
        recording_holds(r),
        insert_fits(m, r),
        delete_fits(m, row),
        modification_fits(s, m),
        recording_fits(s, r.time, r.sample_file_bytes),
{
    assert forall|k: Seq<u8>| #[trigger] m.days.contains_key(k) implies day_fits(
        s.days,
        k,
        m.days[k],
    ) by {
        assert(s.days.contains_key(k) ==> -0x1000_0000_0000_0000 <= s.days[k].recordings
            <= 0x1000_0000_0000_0000);
    }
}

/// The extent of a stream is flawed exactly if there is a least start but no greatest end.
pub proof fn lemma_extent_flaw(extent: StreamExtent)
    ensures
        extent.flaw() is Some <==> extent.min_start is Some && extent.max_end is None,
        extent.flaw() matches Some(e) ==> e matches Error::MissingMax { stream_id, min_start }
            && stream_id == extent.stream_id && Some(min_start) == extent.min_start,
{
}

/// A cache that is full makes room for something new by letting go of what was used the longest
/// time ago, and of nothing else.
pub proof fn lemma_least_recently_used_goes(
    s: Seq<(i64, Seq<u8>)>,
    key: i64,
    value: Seq<u8>,
    capacity: nat,
)
    requires
        s.len() == capacity,
        capacity > 0,
        forall|i: int| 0 <= i < s.len() ==> (#[trigger] s[i]).0 != key,
    ensures
        entries_put(s, key, value, capacity) == s.drop_first().push((key, value)),
{
    lemma_without_absent(s, key);
    assert(s.push((key, value)).drop_first() =~= s.drop_first().push((key, value)));
}

proof fn lemma_without_absent(s: Seq<(i64, Seq<u8>)>, key: i64)
    requires
        forall|i: int| 0 <= i < s.len() ==> (#[trigger] s[i]).0 != key,
    ensures
        entries_without(s, key) == s,
    decreases s.len(),
{
    reveal(Seq::filter);
    if s.len() > 0 {
        let init = s.drop_last();
        assert forall|i: int| 0 <= i < init.len() implies (#[trigger] init[i]).0 != key by {
            assert(init[i] == s[i]);
        }
        lemma_without_absent(init, key);
        assert(s.last() == s[s.len() - 1]);
        assert(init.push(s.last()) =~= s);
    } else {
        assert(entries_without(s, key) =~= s);
    }
}

/// Something that is used becomes the last to go: it moves to the end, and the others stay in their
/// order.
pub proof fn lemma_used_goes_last(s: Seq<(i64, Seq<u8>)>, i: int, value: Seq<u8>, capacity: nat)
    requires
        s.len() <= capacity,
        0 <= i < s.len(),
        forall|a: int, b: int| 0 <= a < b < s.len() ==> (#[trigger] s[a]).0 != (#[trigger] s[b]).0,
    ensures
        entries_put(s, s[i].0, value, capacity) == s.remove(i).push((s[i].0, value)),
{
    lemma_without_one(s, i);
}

proof fn lemma_without_one(s: Seq<(i64, Seq<u8>)>, i: int)
    requires
        0 <= i < s.len(),
        forall|a: int, b: int| 0 <= a < b < s.len() ==> (#[trigger] s[a]).0 != (#[trigger] s[b]).0,
    ensures
        entries_without(s, s[i].0) == s.remove(i),
    decreases s.len(),
{
    reveal(Seq::filter);
    let init = s.drop_last();
    let key = s[i].0;
    assert(s.last() == s[s.len() - 1]);
    assert forall|a: int, b: int| 0 <= a < b < init.len() implies (#[trigger] init[a]).0 != (
    #[trigger] init[b]).0 by {
        assert(init[a] == s[a] && init[b] == s[b]);
    }
    if i == s.len() - 1 {
        assert forall|a: int| 0 <= a < init.len() implies (#[trigger] init[a]).0 != key by {
            assert(s[a].0 != s[i].0);
            assert(init[a] == s[a]);
        }
        lemma_without_absent(init, key);
        assert(s.remove(i) =~= init);
    } else {
        assert(init[i] == s[i]);
        lemma_without_one(init, i);
        assert(s[i].0 != s[s.len() - 1].0);
        assert(s.remove(i) =~= init.remove(i).push(s.last()));
    }
}

/// A transaction starts out with nothing to do to any stream, and nothing in the way of its commit.
pub proof fn lemma_transaction_starts(db: &mut LockedDatabase, tx: Transaction<'_>)
    requires
        call_ensures(LockedDatabase::tx, (db,), tx),
    ensures
        forall|sid: i32| !#[trigger] tx.mods().contains_key(sid),
        !tx.must_rollback,
        tx.deleted@.len() == 0,
        tx.streams() == old(db)@.streams,
{
}

/// A transaction in which something has failed is not committed, and leaves the state as it is. One
/// that is committed knows the range of each stream that it modifies.
pub proof fn lemma_commit_refused(
    tx: Transaction<'_>,
    extents: &[StreamExtent],
    r: Result<Commit<'_>, Error>,
)
    requires
        extents_cover(tx.mods(), extents@),
        call_ensures(Transaction::commit, (tx, extents), r),
    ensures
        tx.must_rollback ==> r == Err::<Commit<'_>, Error>(Error::MustRollback),
        r is Ok <==> !tx.must_rollback && forall|i: int|
            0 <= i < extents@.len() ==> (#[trigger] extents@[i]).min_start is None
                || extents@[i].max_end is Some,
        r is Err ==> *final(tx.state) == *old(tx.state),
{
    assert forall|i: int| 0 <= i < extents@.len() implies ((#[trigger] extents@[i]).flaw() is None
        <==> extents@[i].min_start is None || extents@[i].max_end is Some) by {}
}

/// The state follows the database: it stays as it was if the commit has failed. Once the database
/// has committed, each stream is what the modification of it says, streams that are not modified
/// are as they were, and so is everything else, but for the video indexes of deleted recordings,
/// which are no longer in the cache.
pub proof fn lemma_commit_shows(
    commit: Commit<'_>,
    committed: Result<(), String>,
    r: Result<(), Error>,
)
    requires
        committed is Ok ==> modifications_fit(commit.tx.streams(), commit.tx.mods()),
        call_ensures(Commit::finish, (commit, committed), r),
    ensures
        r is Ok <==> committed is Ok,
        r is Err ==> *final(commit.tx.state) == *old(commit.tx.state),
        r is Ok ==> {
            let before = (*old(commit.tx.state))@;
            let after = (*final(commit.tx.state))@;
            let mods = commit.tx.mods();
            &&& after == StateView { streams: after.streams, cache: after.cache, ..before }
            &&& forall|sid: i32| #[trigger]
                after.streams.contains_key(sid) <==> before.streams.contains_key(sid)
            &&& forall|sid: i32| #[trigger]
                after.streams.contains_key(sid) ==> after.streams[sid] == if mods.contains_key(
                    sid,
                ) {
                    stream_modified(before.streams[sid], mods[sid])
                } else {
                    before.streams[sid]
                }
            &&& forall|i: int, e: (i64, Seq<u8>)|
                0 <= i < commit.tx.deleted@.len() && #[trigger] after.cache.contains(e)
                    ==> #[trigger] commit.tx.deleted@[i].0 != e.0
        },
{
    if r is Ok {
        let before = (*old(commit.tx.state))@;
        lemma_without_all(before.cache, commit.tx.deleted@);
    }
}

/// The bounds of a day are when the calendar says that it starts and ends, in whole seconds. There
/// are none exactly if one of the two can't be held.
pub proof fn lemma_day_bounds(key: StreamDayKey, r: Option<Range<Time>>)
    requires
        is_date(key@),
        call_ensures(StreamDayKey::bounds, (&key,), r),
    ensures
        exists|start: i64, end: i64|
            {
                &&& #[trigger] may_be_seconds_at(key.spec_midnight(), start)
                &&& #[trigger] may_be_seconds_at(key.spec_midnight().spec_next_midnight(), end)
                &&& r matches Some(range) ==> range.start.0 == start * 90_000 && range.end.0 == end
                    * 90_000
                &&& r is None <==> !(fits(start * 90_000) && fits(end * 90_000))
            },
{
    let (start, end) = choose|start: i64, end: i64| #[trigger] are_bounds_by(key, start, end, r);
    assert(may_be_seconds_at(key.spec_midnight(), start));
    assert(may_be_seconds_at(key.spec_midnight().spec_next_midnight(), end));
}

/// Each number in an ascending sequence is less than all that follow.
pub proof fn lemma_ascending(s: Seq<i32>, i: int, j: int)
    requires
        ascending(s),
        0 <= i < j < s.len(),
    ensures
        s[i] < s[j],
{
}

/// An insertion starts with the recording's row, unless the recording is refused: because something
/// has failed before, because it ends before it starts, because there is no such stream, or because
/// its id is less than the stream's next one. From when the stream is known to exist, the
/// transaction can't be committed until the insertion is done. What it does to streams stays the
/// same.
pub proof fn lemma_insertion_starts(
    tx: &mut Transaction<'_>,
    r: &RecordingToInsert,
    op: Result<InsertRecording<'_>, Error>,
)
    requires
        insert_refused(old(tx).streams(), old(tx).mods(), old(tx).must_rollback, *r) is None
            ==> recording_holds(*r),
        call_ensures(Transaction::insert_recording, (tx, r), op),
    ensures
        ({
            let sid = stream_part(r.id.0 as int) as i32;
            let next = mod_of(old(tx).mods(), sid).new_next_recording_id;
            let least = if next is Some {
                next->0
            } else {
                old(tx).streams()[sid].next_recording_id
            };
            let sound = !old(tx).must_rollback && r.time.start.0 <= r.time.end.0 && old(
                tx,
            ).streams().contains_key(sid);
            &&& op is Ok <==> sound && least <= recording_part(r.id.0 as int)
            &&& final(tx).must_rollback <==> old(tx).must_rollback || sound
            &&& op matches Ok(o) ==> o.recording == r && o.stage is Recording
        }),
        forall|other: i32| #[trigger]
            mod_of(final(tx).mods(), other) == mod_of(old(tx).mods(), other),
        final(tx).deleted@ == old(tx).deleted@,
{
}

/// A deletion starts with the first of the recordings, if there are any. From then on the
/// transaction can't be committed until all of them are deleted.
pub proof fn lemma_deletion_begins(
    tx: &mut Transaction<'_>,
    rows: &[ListOldestSampleFilesRow],
    r: Result<Option<DeleteRecordings<'_>>, Error>,
)
    requires
        call_ensures(Transaction::delete_recordings, (tx, rows), r),
    ensures
        r is Err <==> old(tx).must_rollback,
        r matches Ok(op) ==> {
            &&& op is Some <==> rows@.len() > 0
            &&& op matches Some(o) ==> o.rows@ == rows@ && o.next == 0 && o.stage is Playback
            &&& final(tx).must_rollback <==> rows@.len() > 0
        },
        final(tx).mods() == old(tx).mods(),
        final(tx).deleted@ == old(tx).deleted@,
{
}

/// Each of the outcomes of a change to streams shows once it is applied, unless a later one is
/// about the same stream. Streams that none is about are as they were.
pub proof fn lemma_outcomes_show(
    streams: Map<i32, StreamView>,
    outcomes: Seq<StreamOutcome>,
    sid: i32,
)
    ensures
        ({
            let after = outcomes_applied(streams, outcomes);
            let untouched = forall|i: int|
                0 <= i < outcomes.len() ==> (#[trigger] outcomes[i]).0 != sid;
            &&& untouched ==> (after.contains_key(sid) <==> streams.contains_key(sid)) && (
            after.contains_key(sid) ==> after[sid] == streams[sid])
            &&& forall|i: int|
                is_last_about(outcomes, i, sid) ==> match (#[trigger] outcomes[i]).1 {
                    Some(s) => after.contains_key(sid) && after[sid] == s,
                    None => !after.contains_key(sid),
                }
        }),
    decreases outcomes.len(),
{
    if outcomes.len() > 0 {
        let init = outcomes.drop_last();
        let n = outcomes.len() - 1;
        lemma_outcomes_show(streams, init, sid);
        let untouched = forall|i: int|
            0 <= i < outcomes.len() ==> (#[trigger] outcomes[i]).0 != sid;
        if untouched {
            assert forall|i: int| 0 <= i < init.len() implies (#[trigger] init[i]).0 != sid by {
                assert(init[i] == outcomes[i]);
            }
            assert(outcomes[n].0 != sid);
        }
        let after = outcomes_applied(streams, outcomes);
        assert forall|i: int| is_last_about(outcomes, i, sid) implies match (
        #[trigger] outcomes[i]).1 {
            Some(s) => after.contains_key(sid) && after[sid] == s,
            None => !after.contains_key(sid),
        } by {
            if i < n {
                assert(outcomes[n].0 != sid);
                assert(init[i] == outcomes[i]);
                assert(is_last_about(init, i, sid)) by {
                    assert forall|j: int| i < j < init.len() implies (#[trigger] init[j]).0
                        != sid by {
                        assert(init[j] == outcomes[j]);
                    }
                }
            }
        }
    }
}

/// Whether the outcome at `i` is the last one about the stream `sid`.
pub open spec fn is_last_about(outcomes: Seq<StreamOutcome>, i: int, sid: i32) -> bool {
    &&& 0 <= i < outcomes.len()
    &&& outcomes[i].0 == sid
    &&& forall|j: int| i < j < outcomes.len() ==> (#[trigger] outcomes[j]).0 != sid
}

/// Whether a recording of the range `r` was added to the days of `before`, if it is split at
/// `split`: the day that it starts on has one more recording and the time up to the boundary; if it
/// goes on past the boundary, the next day has one more recording and the rest of the time.
pub open spec fn is_added_to_days(
    before: Map<Seq<u8>, StreamDayValue>,
    r: Range<Time>,
    split: DaySplit,
    after: Map<Seq<u8>, StreamDayValue>,
) -> bool {
    let until = if r.end.0 < split.boundary.0 {
        r.end.0
    } else {
        split.boundary.0
    };
    let goes_on = r.end.0 > split.boundary.0 && split.second is Some;
    match split.first {
        None => after == before,
        Some(first) => {
            let second = split.second->0;
            &&& goes_on && first@ == second@ ==> recorded_on(after, first@) == (
                recorded_on(before, first@).0 + 2,
                recorded_on(before, first@).1 + r.end.0 - r.start.0,
            )
            &&& !(goes_on && first@ == second@) ==> recorded_on(after, first@) == (
                recorded_on(before, first@).0 + 1,
                recorded_on(before, first@).1 + until - r.start.0,
            )
            &&& goes_on && first@ != second@ ==> recorded_on(after, second@) == (
                recorded_on(before, second@).0 + 1,
                recorded_on(before, second@).1 + r.end.0 - split.boundary.0,
            )
            &&& forall|day: Seq<u8>|
                day != first@ && !(goes_on && day == second@) ==> #[trigger] recorded_on(after, day)
                    == recorded_on(before, day)
        },
    }
}

proof fn lemma_added_to_days(
    m: Map<Seq<u8>, StreamDayValue>,
    r: Range<Time>,
    split: DaySplit,
)
    requires
        counts_positive(m),
        days_fit(m, r, 1, split),
    ensures
        is_added_to_days(m, r, split, days_adjusted(m, r, 1, split)),
{
    if split.first is Some {
        let first = split.first->0@;
        let delta = day_delta(1, split.before(r));
        lemma_day_sums(m, first, delta);
        let m1 = day_adjusted(m, first, delta);
        assert forall|day: Seq<u8>| day != first implies #[trigger] recorded_on(m1, day)
            == recorded_on(m, day) by {
            assert(m1.contains_key(day) <==> m.contains_key(day));
        }
        if split.spans(r) && split.second is Some {
            let second = split.second->0@;
            let delta2 = day_delta(1, split.after(r));
            assert(m1.contains_key(second) ==> m1[second].recordings > 0) by {
                assert(m1.contains_key(second) && second != first ==> m.contains_key(second));
            }
            lemma_day_sums(m1, second, delta2);
            let m2 = day_adjusted(m1, second, delta2);
            assert forall|day: Seq<u8>| day != second implies #[trigger] recorded_on(m2, day)
                == recorded_on(m1, day) by {
                assert(m2.contains_key(day) <==> m1.contains_key(day));
            }
        }
    }
}

/// `adjust_days` adds a recording to the days that the calendar may split it into, whatever the
/// calendar says, as long as no time and no sum is near the limits of what can be held.
pub proof fn lemma_days_follow_calendar(r: Range<Time>, m: &mut DayMap)
    requires
        call_ensures(adjust_days, (r, 1i64, m), ()),
        -0x1000_0000_0000_0000 <= r.start.0 <= r.end.0 <= 0x1000_0000_0000_0000,
        days_below(old(m)@, 0x1000_0000_0000_0000),
        counts_positive(old(m)@),
    ensures
        exists|split: Option<DaySplit>| #[trigger]
            possible_split(r, split) && match split {
                None => final(m)@ == old(m)@,
                Some(s) => -0x1000_0000_0000_0000 <= s.boundary.0 <= 0x1000_0000_0000_0000
                    ==> is_added_to_days(old(m)@, r, s, final(m)@),
            },
{
    let split = choose|split: Option<DaySplit>|
        possible_split(r, split) && final(m)@ == #[trigger] days_adjusted_if_fit(
            old(m)@,
            r,
            1,
            split,
        );
    if split is Some {
        let s = split->0;
        if -0x1000_0000_0000_0000 <= s.boundary.0 <= 0x1000_0000_0000_0000 {
            lemma_ordinary_days_fit(old(m)@, r, 1, s);
            lemma_added_to_days(old(m)@, r, s);
        }
    }
    assert(possible_split(r, split));
}

/// The scan for the latest end goes on with the next recording unless this one starts at least a
/// longest recording, which is five minutes, before the latest start. The latest start is that of
/// the first recording, and the latest end is the greatest so far.
pub proof fn lemma_scan_step(scan: &mut MaxScan, start: Time, duration: i64, go_on: bool)
    requires
        old(scan).takes(start, duration),
        call_ensures(MaxScan::add, (scan, start, duration), go_on),
    ensures
        old(scan).maxes is None ==> go_on && (final(scan).maxes matches Some(m) && m.start == start
            && m.end.0 == start.0 + duration),
        old(scan).maxes matches Some(before) ==> {
            &&& go_on <==> start.0 > before.start.0 - 27_000_000
            &&& !go_on ==> final(scan).maxes == old(scan).maxes
            &&& go_on ==> (final(scan).maxes matches Some(m) && {
                &&& m.start == before.start
                &&& m.end.0 >= before.end.0 && m.end.0 >= start.0 + duration
                &&& m.end == before.end || m.end.0 == start.0 + duration
            })
        },
{
}

} // verus!
