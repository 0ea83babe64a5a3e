//! Opening a database gives back the state that was held before it was closed.
use crate::days::{DaySplit, StreamDayValue};
use crate::error::Error;
use crate::ids::{lemma_stream_types_distinct, StreamType};
use crate::load::{
    camera_loader, dir_loader, entry_loader, fresh_state, rows_loaded, stream_loader, type_named,
    CameraRow, DirRow, EntryRow, StreamRow,
};
use crate::mirror::{
    camera_mirrors, cameras_mirror, closed_dirs, days_mirror, is_placed, lemma_mirror_unique,
    lemma_transactions_mirror, led_through, mirrors, of_stream, same_recordings, same_state,
    stored_stream, stream_mirrors, streams_mirror, tables_through, Committed, StoredCamera,
    StoredStream, Tables,
};
use crate::model::{DirView, EntryView, Open, StateView, StreamView};
use crate::stream::{
    lemma_recordings_change_summary_only, recordings_added, recordings_fit, RecordingSummary,
};
use crate::summary::{
    lemma_load_summarizes, lemma_load_sums_up, load_fits, sums_up, table_of, Recorded,
};
use crate::sums::lemma_sum_same;
use crate::uuids::{lemma_uuid_number_injective, uuid_number, Uuid};
use vstd::prelude::*;

verus! {

/// The table of the rows `rows` of `video_sample_entry`.
pub open spec fn entry_table(rows: Seq<EntryRow>) -> Map<i32, EntryView>
    decreases rows.len(),
{
    if rows.len() == 0 {
        Map::empty()
    } else {
        let row = rows.last();
        entry_table(rows.drop_last()).insert(
            row.id,
            EntryView {
                data: row.data@,
                rfc6381_codec: row.rfc6381_codec@,
                id: row.id,
                width: row.width as u16,
                height: row.height as u16,
                sha1: row.sha1@,
            },
        )
    }
}

/// The table of the rows `rows` of `sample_file_dir`.
pub open spec fn dir_table(rows: Seq<DirRow>) -> Map<i32, DirView>
    decreases rows.len(),
{
    if rows.len() == 0 {
        Map::empty()
    } else {
        let row = rows.last();
        dir_table(rows.drop_last()).insert(
            row.id,
            DirView {
                id: row.id,
                path: row.path@,
                uuid: row.uuid,
                dir: None,
                last_complete_open: match row.last_complete_open_id {
                    Some(id) => Some(Open { id, uuid: row.open_uuid->0 }),
                    None => None,
                },
            },
        )
    }
}

/// What a row of `camera` stores.
pub open spec fn camera_in_row(row: CameraRow) -> StoredCamera {
    StoredCamera {
        uuid: row.uuid,
        short_name: row.short_name@,
        description: row.description@,
        host: row.host@,
        username: row.username@,
        password: row.password@,
    }
}

/// The table of the rows `rows` of `camera`.
pub open spec fn camera_table(rows: Seq<CameraRow>) -> Map<i32, StoredCamera>
    decreases rows.len(),
{
    if rows.len() == 0 {
        Map::empty()
    } else {
        camera_table(rows.drop_last()).insert(rows.last().id, camera_in_row(rows.last()))
    }
}

/// What a row of `stream` stores.
pub open spec fn stream_in_row(row: StreamRow) -> StoredStream {
    StoredStream {
        camera_id: row.camera_id,
        sample_file_dir_id: row.sample_file_dir_id,
        type_: type_named(row.type_@)->0,
        rtsp_path: row.rtsp_path@,
        retain_bytes: row.retain_bytes,
        record: row.record,
        next_recording_id: row.next_recording_id,
    }
}

/// The table of the rows `rows` of `stream`.
pub open spec fn stream_table(rows: Seq<StreamRow>) -> Map<i32, StoredStream>
    decreases rows.len(),
{
    if rows.len() == 0 {
        Map::empty()
    } else {
        stream_table(rows.drop_last()).insert(rows.last().id, stream_in_row(rows.last()))
    }
}

/// Whether the schema lets in the rows `rows` of `video_sample_entry`.
pub open spec fn entry_rows_valid(rows: Seq<EntryRow>) -> bool {
    forall|i: int| 0 <= i < rows.len() ==> (#[trigger] rows[i]).sha1@.len() == 20
}

/// Whether the schema lets in the rows `rows` of `sample_file_dir`.
pub open spec fn dir_rows_valid(rows: Seq<DirRow>) -> bool {
    forall|i: int|
        0 <= i < rows.len() ==> (#[trigger] rows[i]).last_complete_open_id is Some
            == rows[i].open_uuid is Some
}

/// Whether the schema lets in the rows `rows` of `camera`: no two have the same id or uuid.
pub open spec fn camera_rows_valid(rows: Seq<CameraRow>) -> bool {
    forall|i: int, j: int|
        0 <= i < j < rows.len() ==> (#[trigger] rows[i]).id != (#[trigger] rows[j]).id
            && rows[i].uuid != rows[j].uuid
}

/// Whether the schema lets in the rows `rows` of `stream`: each has a type and a camera, and no two
/// have the same id, or the same type and camera.
pub open spec fn stream_rows_valid(
    rows: Seq<StreamRow>,
    cameras: Map<i32, StoredCamera>,
) -> bool {
    &&& forall|i: int|
        0 <= i < rows.len() ==> type_named((#[trigger] rows[i]).type_@) is Some
            && cameras.contains_key(rows[i].camera_id)
    &&& forall|i: int, j: int|
        0 <= i < j < rows.len() ==> (#[trigger] rows[i]).id != (#[trigger] rows[j]).id && (
        rows[i].camera_id != rows[j].camera_id || rows[i].type_@ != rows[j].type_@)
}

proof fn lemma_entries_load(db: StateView, rows: Seq<EntryRow>)
    requires
        db.entries == Map::<i32, EntryView>::empty(),
        entry_rows_valid(rows),
    ensures
        rows_loaded(db, rows, entry_loader()) == (
            StateView { entries: entry_table(rows), ..db },
            None::<Error>,
        ),
    decreases rows.len(),
{
    if rows.len() > 0 {
        let init = rows.drop_last();
        assert forall|i: int| 0 <= i < init.len() implies (#[trigger] init[i]).sha1@.len()
            == 20 by {
            assert(init[i] == rows[i]);
        }
        lemma_entries_load(db, init);
        assert(rows[rows.len() - 1].sha1@.len() == 20);
    }
}

proof fn lemma_dirs_load(db: StateView, rows: Seq<DirRow>)
    requires
        db.dirs == Map::<i32, DirView>::empty(),
        dir_rows_valid(rows),
    ensures
        rows_loaded(db, rows, dir_loader()) == (
            StateView { dirs: dir_table(rows), ..db },
            None::<Error>,
        ),
        closed_dirs(dir_table(rows)) == dir_table(rows),
    decreases rows.len(),
{
    if rows.len() > 0 {
        let init = rows.drop_last();
        assert forall|i: int| 0 <= i < init.len() implies (
        #[trigger] init[i]).last_complete_open_id is Some == init[i].open_uuid is Some by {
            assert(init[i] == rows[i]);
        }
        lemma_dirs_load(db, init);
        assert(rows[rows.len() - 1].last_complete_open_id is Some == rows[rows.len()
            - 1].open_uuid is Some);
        assert forall|id: i32| #[trigger]
            dir_table(rows).contains_key(id) implies closed_dirs(dir_table(rows))[id] == dir_table(
            rows,
        )[id] by {
            if id != rows.last().id {
                assert(closed_dirs(dir_table(init))[id] == dir_table(init)[id]);
            }
        }
    }
    assert(closed_dirs(dir_table(rows)) =~= dir_table(rows));
}

spec fn no_tables(cameras: Map<i32, StoredCamera>, streams: Map<i32, StoredStream>) -> Tables {
    Tables {
        entries: Map::empty(),
        dirs: Map::empty(),
        cameras,
        streams,
        recordings: Map::empty(),
    }
}

proof fn lemma_camera_row_of(rows: Seq<CameraRow>, id: i32)
    requires
        camera_table(rows).contains_key(id),
    ensures
        exists|i: int|
            0 <= i < rows.len() && (#[trigger] rows[i]).id == id && camera_table(rows)[id]
                == camera_in_row(rows[i]),
    decreases rows.len(),
{
    if rows.len() > 0 {
        let init = rows.drop_last();
        if rows.last().id == id {
            assert(rows[rows.len() - 1].id == id);
        } else {
            lemma_camera_row_of(init, id);
            let i = choose|i: int|
                0 <= i < init.len() && (#[trigger] init[i]).id == id && camera_table(init)[id]
                    == camera_in_row(init[i]);
            assert(rows[i] == init[i]);
        }
    }
}

proof fn lemma_cameras_load(db: StateView, rows: Seq<CameraRow>)
    requires
        db.cameras.dom() == Set::<i32>::empty(),
        db.camera_ids.dom() == Set::<u128>::empty(),
        camera_rows_valid(rows),
    ensures
        ({
            let (after, error) = rows_loaded(db, rows, camera_loader());
            &&& error is None
            &&& after == (StateView {
                cameras: after.cameras,
                camera_ids: after.camera_ids,
                ..db
            })
            &&& cameras_mirror(after, no_tables(camera_table(rows), Map::empty()))
        }),
    decreases rows.len(),
{
    let after = rows_loaded(db, rows, camera_loader()).0;
    let t = no_tables(camera_table(rows), Map::empty());
    if rows.len() == 0 {
        assert(db.cameras.dom() =~= t.cameras.dom());
        assert forall|c: i32| !db.cameras.contains_key(c) by {
            assert(!db.cameras.dom().contains(c));
        }
        assert forall|n: u128| !db.camera_ids.contains_key(n) by {
            assert(!db.camera_ids.dom().contains(n));
        }
    } else {
        let init = rows.drop_last();
        let row = rows.last();
        let n = rows.len() - 1;
        assert forall|i: int, j: int| 0 <= i < j < init.len() implies (#[trigger] init[i]).id != (
        #[trigger] init[j]).id && init[i].uuid != init[j].uuid by {
            assert(init[i] == rows[i] && init[j] == rows[j]);
        }
        lemma_cameras_load(db, init);
        let db1 = rows_loaded(db, init, camera_loader()).0;
        let t1 = no_tables(camera_table(init), Map::empty());
        assert(rows[n] == row);
        assert forall|id: i32| #[trigger] t1.cameras.contains_key(id) implies id != row.id
            && t1.cameras[id].uuid != row.uuid by {
            lemma_camera_row_of(init, id);
            let i = choose|i: int|
                0 <= i < init.len() && (#[trigger] init[i]).id == id && camera_table(init)[id]
                    == camera_in_row(init[i]);
            assert(rows[i].id != rows[n].id && rows[i].uuid != rows[n].uuid);
            assert(rows[i] == init[i]);
        }
        assert(after.cameras.dom() =~= t.cameras.dom()) by {
            assert forall|c: i32| #[trigger]
                after.cameras.dom().contains(c) <==> t.cameras.dom().contains(c) by {
                assert(db1.cameras.dom().contains(c) <==> t1.cameras.dom().contains(c));
            }
        }
        assert forall|c: i32| #[trigger] after.cameras.contains_key(c) implies camera_mirrors(
            after.cameras[c],
            c,
            t.cameras,
            t.streams,
        ) by {
            if c != row.id {
                assert(db1.cameras.contains_key(c));
                assert(camera_mirrors(db1.cameras[c], c, t1.cameras, t1.streams));
            } else {
                let camera = after.cameras[c];
                assert(camera.streams =~= seq![None, None]);
                assert forall|sid: i32, i: int| 0 <= i < 2 implies (#[trigger] is_placed(
                    t.streams,
                    sid,
                    c,
                    i,
                ) <==> camera.streams[i] == Some(sid)) by {
                    assert(camera.streams[i] is None);
                }
            }
        }
        assert forall|u: u128| #[trigger] after.camera_ids.contains_key(u) implies (
        t.cameras.contains_key(after.camera_ids[u]) && uuid_number(
            t.cameras[after.camera_ids[u]].uuid,
        ) == u) by {
            if u != uuid_number(row.uuid) {
                assert(db1.camera_ids.contains_key(u));
            }
        }
        assert forall|c: i32| #[trigger]
            t.cameras.contains_key(c) implies after.camera_ids.contains_key(
            uuid_number(t.cameras[c].uuid),
        ) && after.camera_ids[uuid_number(t.cameras[c].uuid)] == c by {
            if c != row.id {
                assert(t1.cameras.contains_key(c));
                if uuid_number(t.cameras[c].uuid) == uuid_number(row.uuid) {
                    lemma_uuid_number_injective(t.cameras[c].uuid, row.uuid);
                }
            }
        }
    }
}

/// Whether nothing is known of the recordings of a stream.
pub open spec fn is_blank(s: StreamView) -> bool {
    &&& s.range is None
    &&& s.duration.0 == 0
    &&& s.sample_file_bytes == 0
    &&& s.days == Map::<Seq<u8>, StreamDayValue>::empty()
}

spec fn streams_blank(db: StateView, streams: Map<i32, StoredStream>) -> bool {
    &&& db.streams.dom() == streams.dom()
    &&& forall|sid: i32| #[trigger]
        db.streams.contains_key(sid) ==> db.streams[sid].id == sid && stored_stream(
            db.streams[sid],
        ) == streams[sid] && is_blank(db.streams[sid])
}

proof fn lemma_stream_row_of(rows: Seq<StreamRow>, id: i32)
    requires
        stream_table(rows).contains_key(id),
    ensures
        exists|i: int|
            0 <= i < rows.len() && (#[trigger] rows[i]).id == id && stream_table(rows)[id]
                == stream_in_row(rows[i]),
    decreases rows.len(),
{
    if rows.len() > 0 {
        let init = rows.drop_last();
        if rows.last().id == id {
            assert(rows[rows.len() - 1].id == id);
        } else {
            lemma_stream_row_of(init, id);
            let i = choose|i: int|
                0 <= i < init.len() && (#[trigger] init[i]).id == id && stream_table(init)[id]
                    == stream_in_row(init[i]);
            assert(rows[i] == init[i]);
        }
    }
}

proof fn lemma_streams_load(
    db: StateView,
    rows: Seq<StreamRow>,
    cameras: Map<i32, StoredCamera>,
)
    requires
        db.streams.dom() == Set::<i32>::empty(),
        cameras_mirror(db, no_tables(cameras, Map::empty())),
        stream_rows_valid(rows, cameras),
    ensures
        ({
            let (after, error) = rows_loaded(db, rows, stream_loader());
            &&& error is None
            &&& after == (StateView { cameras: after.cameras, streams: after.streams, ..db })
            &&& cameras_mirror(after, no_tables(cameras, stream_table(rows)))
            &&& streams_blank(after, stream_table(rows))
        }),
    decreases rows.len(),
{
    let after = rows_loaded(db, rows, stream_loader()).0;
    let t = no_tables(cameras, stream_table(rows));
    if rows.len() == 0 {
        assert(db.streams.dom() =~= t.streams.dom());
        assert forall|c: i32| !db.streams.contains_key(c) by {
            assert(!db.streams.dom().contains(c));
        }
    } else {
        let init = rows.drop_last();
        let row = rows.last();
        let n = rows.len() - 1;
        assert forall|i: int| 0 <= i < init.len() implies type_named(
            (#[trigger] init[i]).type_@,
        ) is Some && cameras.contains_key(init[i].camera_id) by {
            assert(init[i] == rows[i]);
        }
        assert forall|i: int, j: int| 0 <= i < j < init.len() implies (#[trigger] init[i]).id != (
        #[trigger] init[j]).id && (init[i].camera_id != init[j].camera_id || init[i].type_@
            != init[j].type_@) by {
            assert(init[i] == rows[i] && init[j] == rows[j]);
        }
        lemma_streams_load(db, init, cameras);
        let db1 = rows_loaded(db, init, stream_loader()).0;
        let t1 = no_tables(cameras, stream_table(init));
        assert(rows[n] == row);
        let type_ = type_named(row.type_@)->0;
        lemma_stream_types_distinct(StreamType::MAIN, StreamType::SUB);
        assert(type_named(rows[n].type_@) is Some && cameras.contains_key(rows[n].camera_id));
        assert(db1.cameras.dom().contains(row.camera_id));
        assert(db1.cameras.contains_key(row.camera_id));
        assert forall|sid: i32| #[trigger] t1.streams.contains_key(sid) implies sid != row.id && !(
        t1.streams[sid].camera_id == row.camera_id && t1.streams[sid].type_ == type_) by {
            lemma_stream_row_of(init, sid);
            let i = choose|i: int|
                0 <= i < init.len() && (#[trigger] init[i]).id == sid && stream_table(init)[sid]
                    == stream_in_row(init[i]);
            assert(rows[i] == init[i]);
            assert(rows[i].id != rows[n].id);
            assert(type_named(rows[i].type_@) is Some);
        }
        assert(after.cameras.dom() =~= cameras.dom()) by {
            assert forall|c: i32| #[trigger]
                after.cameras.dom().contains(c) <==> cameras.dom().contains(c) by {
                assert(db1.cameras.dom().contains(c) <==> cameras.dom().contains(c));
            }
        }
        assert forall|c: i32| #[trigger] after.cameras.contains_key(c) implies camera_mirrors(
            after.cameras[c],
            c,
            t.cameras,
            t.streams,
        ) by {
            assert(db1.cameras.contains_key(c));
            let before = db1.cameras[c];
            let camera = after.cameras[c];
            assert(camera_mirrors(before, c, t1.cameras, t1.streams));
            assert forall|sid: i32, i: int| 0 <= i < 2 implies (#[trigger] is_placed(
                t.streams,
                sid,
                c,
                i,
            ) <==> camera.streams[i] == Some(sid)) by {
                assert(is_placed(t1.streams, sid, c, i) <==> before.streams[i] == Some(sid));
                if sid == row.id {
                    assert(!t1.streams.contains_key(sid));
                } else if t1.streams.contains_key(sid) {
                    assert(t.streams[sid] == t1.streams[sid]);
                }
            }
        }
        assert forall|u: u128| #[trigger] after.camera_ids.contains_key(u) implies (
        t.cameras.contains_key(after.camera_ids[u]) && uuid_number(
            t.cameras[after.camera_ids[u]].uuid,
        ) == u) by {
            assert(db1.camera_ids.contains_key(u));
        }
        assert forall|c: i32| #[trigger]
            t.cameras.contains_key(c) implies after.camera_ids.contains_key(
            uuid_number(t.cameras[c].uuid),
        ) && after.camera_ids[uuid_number(t.cameras[c].uuid)] == c by {
            assert(t1.cameras.contains_key(c));
        }
        assert(after.streams.dom() =~= t.streams.dom()) by {
            assert forall|c: i32| #[trigger]
                after.streams.dom().contains(c) <==> t.streams.dom().contains(c) by {
                assert(db1.streams.dom().contains(c) <==> t1.streams.dom().contains(c));
            }
        }
        assert forall|sid: i32| #[trigger] after.streams.contains_key(sid) implies (
        after.streams[sid].id == sid && stored_stream(after.streams[sid]) == t.streams[sid]
            && is_blank(after.streams[sid])) by {
            if sid != row.id {
                assert(db1.streams.contains_key(sid));
            }
        }
    }
}

/// The recordings of a stream as they are loaded: their ids, what is read of them, and the days
/// that the calendar splits them into.
pub struct StreamLoad {
    pub ids: Seq<i64>,
    pub rows: Seq<RecordingSummary>,
    pub splits: Seq<Option<DaySplit>>,
}

impl StreamLoad {
    /// The table of the recordings.
    pub open spec fn table(self) -> Map<i64, Recorded> {
        table_of(self.ids, self.rows, self.splits)
    }
}

/// `streams` after the recordings of each of the streams `order` were loaded.
pub open spec fn recordings_filled(
    streams: Map<i32, StreamView>,
    order: Seq<i32>,
    loads: Map<i32, StreamLoad>,
) -> Map<i32, StreamView>
    decreases order.len(),
{
    if order.len() == 0 {
        streams
    } else {
        let earlier = recordings_filled(streams, order.drop_last(), loads);
        let sid = order.last();
        earlier.insert(sid, recordings_added(earlier[sid], loads[sid].rows, loads[sid].splits))
    }
}

/// Everything that is read when a database is opened.
pub struct Reading {
    pub entries: Seq<EntryRow>,
    pub dirs: Seq<DirRow>,
    pub cameras: Seq<CameraRow>,
    pub streams: Seq<StreamRow>,
    /// The streams in the order in which their recordings are read.
    pub order: Seq<i32>,
    pub loads: Map<i32, StreamLoad>,
}

/// The state once everything but the recordings is loaded.
pub open spec fn opened_without_recordings(
    uuid: Uuid,
    open: Option<Open>,
    r: Reading,
) -> StateView {
    let db1 = rows_loaded(fresh_state(uuid, open), r.entries, entry_loader()).0;
    let db2 = rows_loaded(db1, r.dirs, dir_loader()).0;
    let db3 = rows_loaded(db2, r.cameras, camera_loader()).0;
    rows_loaded(db3, r.streams, stream_loader()).0
}

/// The state once everything is loaded.
pub open spec fn opened(uuid: Uuid, open: Option<Open>, r: Reading) -> StateView {
    let db = opened_without_recordings(uuid, open, r);
    StateView { streams: recordings_filled(db.streams, r.order, r.loads), ..db }
}

/// Whether `r` is what is read of the tables `t`, which the schema lets in: the rows of each table,
/// and of each stream's recordings, whatever days the calendar splits them into by now.
pub open spec fn reads(uuid: Uuid, open: Option<Open>, r: Reading, t: Tables) -> bool {
    &&& entry_rows_valid(r.entries) && t.entries == entry_table(r.entries)
    &&& dir_rows_valid(r.dirs) && t.dirs == dir_table(r.dirs)
    &&& camera_rows_valid(r.cameras) && t.cameras == camera_table(r.cameras)
    &&& stream_rows_valid(r.streams, t.cameras) && t.streams == stream_table(r.streams)
    &&& t.recordings.dom().finite()
    &&& r.order.no_duplicates()
    &&& forall|sid: i32| #[trigger] r.order.contains(sid) <==> t.streams.contains_key(sid)
    &&& forall|sid: i32| #[trigger]
        t.streams.contains_key(sid) ==> {
            let load = r.loads[sid];
            &&& load.ids.len() == load.rows.len()
            &&& load.ids.no_duplicates()
            &&& same_recordings(of_stream(t.recordings, sid), load.table())
            &&& recordings_fit(
                opened_without_recordings(uuid, open, r).streams[sid],
                load.rows,
            )
        }
}

/// Whether the calendar splits the recordings into the days that the tables have, and the sums of
/// the days can be held.
pub open spec fn reads_days(uuid: Uuid, open: Option<Open>, r: Reading, t: Tables) -> bool {
    forall|sid: i32| #[trigger]
        t.streams.contains_key(sid) ==> {
            let load = r.loads[sid];
            &&& of_stream(t.recordings, sid) == load.table()
            &&& load_fits(
                opened_without_recordings(uuid, open, r).streams[sid],
                load.rows,
                load.splits,
            )
        }
}

proof fn lemma_filled(
    streams: Map<i32, StreamView>,
    order: Seq<i32>,
    loads: Map<i32, StreamLoad>,
)
    requires
        order.no_duplicates(),
        forall|i: int| 0 <= i < order.len() ==> streams.contains_key(#[trigger] order[i]),
    ensures
        recordings_filled(streams, order, loads).dom() == streams.dom(),
        forall|sid: i32| #[trigger]
            order.contains(sid) ==> recordings_filled(streams, order, loads)[sid]
                == recordings_added(streams[sid], loads[sid].rows, loads[sid].splits),
        forall|sid: i32|
            !#[trigger] order.contains(sid) ==> recordings_filled(streams, order, loads)[sid]
                == streams[sid],
    decreases order.len(),
{
    if order.len() > 0 {
        let init = order.drop_last();
        let last = order.last();
        assert forall|i: int| 0 <= i < init.len() implies streams.contains_key(
            #[trigger] init[i],
        ) by {
            assert(init[i] == order[i]);
        }
        lemma_filled(streams, init, loads);
        assert(order[order.len() - 1] == last);
        assert(streams.contains_key(order[order.len() - 1]));
        assert(!init.contains(last)) by {
            if init.contains(last) {
                let i = choose|i: int| 0 <= i < init.len() && init[i] == last;
                assert(order[i] == order[order.len() - 1]);
            }
        }
        assert(recordings_filled(streams, order, loads).dom() =~= streams.dom());
        assert forall|sid: i32| #[trigger] order.contains(sid) <==> init.contains(sid) || sid
            == last by {
            if init.contains(sid) {
                let i = choose|i: int| 0 <= i < init.len() && init[i] == sid;
                assert(order[i] == sid);
            }
            if order.contains(sid) && sid != last {
                let i = choose|i: int| 0 <= i < order.len() && order[i] == sid;
                assert(init[i] == sid);
            }
        }
    } else {
        assert(recordings_filled(streams, order, loads).dom() =~= streams.dom());
    }
}

proof fn lemma_sums_carry_over(s: StreamView, a: Map<i64, Recorded>, b: Map<i64, Recorded>)
    requires
        a.dom().finite(),
        same_recordings(b, a),
        sums_up(s, a),
    ensures
        sums_up(s, b),
{
    lemma_sum_same(a, b, |r: Recorded| r.range.end.0 - r.range.start.0);
    lemma_sum_same(a, b, |r: Recorded| r.bytes as int);
    assert forall|id: i64| #[trigger] a.contains_key(id) <==> b.contains_key(id) by {
        assert(a.dom().contains(id) <==> b.dom().contains(id));
    }
    if s.range is Some {
        let r = s.range->0;
        let i = choose|id: i64| #[trigger] a.contains_key(id) && a[id].range.start == r.start;
        let j = choose|id: i64| #[trigger] a.contains_key(id) && a[id].range.end == r.end;
        assert(b.contains_key(i) && b.contains_key(j));
    }
}

/// Opening a database gives a state that mirrors its tables. No row is refused. If the calendar
/// splits the recordings into the days that the tables have, so do the streams.
pub proof fn lemma_opened_mirrors(uuid: Uuid, open: Option<Open>, r: Reading, t: Tables)
    requires
        reads(uuid, open, r, t),
    ensures
        mirrors(opened(uuid, open, r), t),
        reads_days(uuid, open, r, t) ==> days_mirror(opened(uuid, open, r), t),
{
    let db0 = fresh_state(uuid, open);
    lemma_entries_load(db0, r.entries);
    let db1 = rows_loaded(db0, r.entries, entry_loader()).0;
    lemma_dirs_load(db1, r.dirs);
    let db2 = rows_loaded(db1, r.dirs, dir_loader()).0;
    assert(db2.cameras.dom() =~= Set::<i32>::empty());
    assert(db2.camera_ids.dom() =~= Set::<u128>::empty());
    lemma_cameras_load(db2, r.cameras);
    let db3 = rows_loaded(db2, r.cameras, camera_loader()).0;
    assert(db3.streams.dom() =~= Set::<i32>::empty());
    lemma_streams_load(db3, r.streams, t.cameras);
    let db4 = opened_without_recordings(uuid, open, r);
    let db = opened(uuid, open, r);
    assert forall|i: int| 0 <= i < r.order.len() implies db4.streams.contains_key(
        #[trigger] r.order[i],
    ) by {
        assert(r.order.contains(r.order[i]));
        assert(t.streams.contains_key(r.order[i]));
        assert(db4.streams.dom().contains(r.order[i]));
    }
    lemma_filled(db4.streams, r.order, r.loads);
    assert(cameras_mirror(db4, no_tables(t.cameras, t.streams)));
    assert(cameras_mirror(db, t));
    assert forall|sid: i32| #[trigger] db.streams.contains_key(sid) implies stream_mirrors(
        db.streams[sid],
        sid,
        t,
    ) && (reads_days(uuid, open, r, t) ==> db.streams[sid].days == crate::summary::days_of(
        of_stream(t.recordings, sid),
    )) by {
        assert(db.streams.dom().contains(sid));
        assert(db4.streams.contains_key(sid));
        assert(t.streams.dom().contains(sid));
        assert(t.streams.contains_key(sid));
        assert(r.order.contains(sid));
        let load = r.loads[sid];
        let blank = db4.streams[sid];
        lemma_recordings_change_summary_only(blank, load.rows, load.splits);
        lemma_load_sums_up(blank, load.ids, load.rows, load.splits);
        lemma_sums_carry_over(db.streams[sid], load.table(), of_stream(t.recordings, sid));
        if reads_days(uuid, open, r, t) {
            lemma_load_summarizes(blank, load.ids, load.rows, load.splits);
        }
    }
    assert(streams_mirror(db, t));
}

/// Opening a database again gives back the state that was held after any sequence of committed
/// transactions: the same cameras, streams with the same totals, ranges and next ids, directories
/// and entries. If the calendar has stayed the same, so have the streams' days.
pub proof fn lemma_reopened(
    states: Seq<StateView>,
    t: Tables,
    txs: Seq<Committed>,
    uuid: Uuid,
    open: Option<Open>,
    r: Reading,
)
    requires
        states.len() > 0,
        mirrors(states.first(), t),
        led_through(states, t, txs),
        reads(uuid, open, r, tables_through(t, txs)),
    ensures
        same_state(states.last(), opened(uuid, open, r)),
        days_mirror(states.first(), t) && crate::mirror::days_through(t, txs) && reads_days(
            uuid,
            open,
            r,
            tables_through(t, txs),
        ) ==> states.last().streams == opened(uuid, open, r).streams,
{
    let last = tables_through(t, txs);
    lemma_transactions_mirror(states, t, txs);
    lemma_opened_mirrors(uuid, open, r, last);
    lemma_mirror_unique(states.last(), opened(uuid, open, r), last, last);
}

} // verus!
