//! The in-memory state mirrors the tables of the database.
//!
//! The lemmas here say that loading the tables gives a state that mirrors them, that committed
//! transactions keep it so, and that there is but one such state. Together they say that the
//! database can be closed and opened again at any time, and the state is the one that it was.
use crate::commit::{
    extents_applied, extents_cover, is_latest_end, lemma_extent_of_each,
    lemma_scan_finds_latest_end, modifications_fit, scan_extent, scannable, scanned,
    streams_modified, StreamExtent,
};
use crate::ids::{stream_part, StreamType};
use crate::insert::{id_after, mod_inserted};
use crate::ledger::{
    lemma_extents_keep_streams, lemma_modification_totals, mods_of, steps_fit, touches, Step,
};
use crate::model::{CameraView, DirHandle, DirView, EntryView, StateView, StreamView};
use crate::recording::Time;
use crate::summary::{
    bytes_of, change_holds, day_holds, days_of, extent_of, lemma_commit_summarizes,
    lemma_delete_tracks, lemma_identity_tracks, lemma_insert_tracks, length_of, range_of, row_of,
    sums_up, tracks, tracks_day, Recorded,
};
use crate::sums::{lemma_sum_insert, lemma_sum_same, lemma_sum_without};
use crate::transaction::{mod_of, ModView};
use crate::uuids::{uuid_number, Uuid};
use vstd::prelude::*;

verus! {

/// What the `camera` table has of a camera.
#[verifier::ext_equal]
pub struct StoredCamera {
    pub uuid: Uuid,
    pub short_name: Seq<char>,
    pub description: Seq<char>,
    pub host: Seq<char>,
    pub username: Seq<char>,
    pub password: Seq<char>,
}

/// What the `stream` table has of a stream.
#[verifier::ext_equal]
pub struct StoredStream {
    pub camera_id: i32,
    pub sample_file_dir_id: Option<i32>,
    pub type_: StreamType,
    pub rtsp_path: Seq<char>,
    pub retain_bytes: i64,
    pub record: bool,
    pub next_recording_id: i32,
}

/// The tables that the in-memory state is about. Recordings are under their composite ids, and each
/// comes with the days that the calendar splits it into.
#[verifier::ext_equal]
pub struct Tables {
    pub entries: Map<i32, EntryView>,
    pub dirs: Map<i32, DirView>,
    pub cameras: Map<i32, StoredCamera>,
    pub streams: Map<i32, StoredStream>,
    pub recordings: Map<i64, Recorded>,
}

/// The recordings of the stream `sid` among `t`.
pub open spec fn of_stream(t: Map<i64, Recorded>, sid: i32) -> Map<i64, Recorded> {
    Map::new(
        |id: i64| t.contains_key(id) && stream_part(id as int) as i32 == sid,
        |id: i64| t[id],
    )
}

/// What is stored of a camera.
pub open spec fn stored_camera(c: CameraView) -> StoredCamera {
    StoredCamera {
        uuid: c.uuid,
        short_name: c.short_name,
        description: c.description,
        host: c.host,
        username: c.username,
        password: c.password,
    }
}

/// What is stored of a stream.
pub open spec fn stored_stream(s: StreamView) -> StoredStream {
    StoredStream {
        camera_id: s.camera_id,
        sample_file_dir_id: s.sample_file_dir_id,
        type_: s.type_,
        rtsp_path: s.rtsp_path,
        retain_bytes: s.retain_bytes,
        record: s.record,
        next_recording_id: s.next_recording_id,
    }
}

/// The directories `dirs`, all of them closed.
pub open spec fn closed_dirs(dirs: Map<i32, DirView>) -> Map<i32, DirView> {
    dirs.map_values(|d: DirView| DirView { dir: None::<DirHandle>, ..d })
}

/// Whether `sid` is the stream of the camera `c` whose type stands at `i`.
pub open spec fn is_placed(
    streams: Map<i32, StoredStream>,
    sid: i32,
    c: i32,
    i: int,
) -> bool {
    streams.contains_key(sid) && streams[sid].camera_id == c && streams[sid].type_.position() == i
}

/// Whether `camera` is the camera `c` of the tables, with its streams in their places.
pub open spec fn camera_mirrors(
    camera: CameraView,
    c: i32,
    cameras: Map<i32, StoredCamera>,
    streams: Map<i32, StoredStream>,
) -> bool {
    &&& cameras.contains_key(c)
    &&& camera.id == c
    &&& stored_camera(camera) == cameras[c]
    &&& camera.streams.len() == 2
    &&& forall|sid: i32, i: int|
        0 <= i < 2 ==> (#[trigger] is_placed(streams, sid, c, i) <==> camera.streams[i] == Some(
            sid,
        ))
}

/// Whether `cameras` are those of the tables, and `camera_ids` their ids by uuid.
pub open spec fn cameras_mirror(db: StateView, t: Tables) -> bool {
    &&& db.cameras.dom() == t.cameras.dom()
    &&& forall|c: i32| #[trigger]
        db.cameras.contains_key(c) ==> camera_mirrors(db.cameras[c], c, t.cameras, t.streams)
    &&& forall|n: u128| #[trigger]
        db.camera_ids.contains_key(n) ==> t.cameras.contains_key(db.camera_ids[n]) && uuid_number(
            t.cameras[db.camera_ids[n]].uuid,
        ) == n
    &&& forall|c: i32| #[trigger]
        t.cameras.contains_key(c) ==> db.camera_ids.contains_key(uuid_number(t.cameras[c].uuid))
            && db.camera_ids[uuid_number(t.cameras[c].uuid)] == c
}

/// Whether `s` is the stream `sid` of the tables, and sums up its recordings.
pub open spec fn stream_mirrors(s: StreamView, sid: i32, t: Tables) -> bool {
    &&& s.id == sid
    &&& stored_stream(s) == t.streams[sid]
    &&& sums_up(s, of_stream(t.recordings, sid))
}

/// Whether `streams` are those of the tables.
pub open spec fn streams_mirror(db: StateView, t: Tables) -> bool {
    &&& db.streams.dom() == t.streams.dom()
    &&& forall|sid: i32| #[trigger]
        db.streams.contains_key(sid) ==> stream_mirrors(db.streams[sid], sid, t)
}

/// Whether `db` is what the tables say, but for what depends on the calendar, and for which
/// directories are open.
pub open spec fn mirrors(db: StateView, t: Tables) -> bool {
    &&& t.recordings.dom().finite()
    &&& db.entries == t.entries
    &&& closed_dirs(db.dirs) == t.dirs
    &&& cameras_mirror(db, t)
    &&& streams_mirror(db, t)
}

/// Whether the days of the streams of `db` are what the tables say.
pub open spec fn days_mirror(db: StateView, t: Tables) -> bool {
    forall|sid: i32| #[trigger]
        db.streams.contains_key(sid) ==> db.streams[sid].days == days_of(
            of_stream(t.recordings, sid),
        )
}

/// Whether `a` and `b` have the same recordings, whatever days they are split into.
pub open spec fn same_recordings(a: Map<i64, Recorded>, b: Map<i64, Recorded>) -> bool {
    &&& a.dom() == b.dom()
    &&& forall|id: i64| #[trigger]
        a.contains_key(id) ==> a[id].range == b[id].range && a[id].bytes == b[id].bytes
}

/// Whether `a` and `b` are the same tables, whatever days the recordings are split into.
pub open spec fn same_tables(a: Tables, b: Tables) -> bool {
    &&& a.entries == b.entries
    &&& a.dirs == b.dirs
    &&& a.cameras == b.cameras
    &&& a.streams == b.streams
    &&& same_recordings(a.recordings, b.recordings)
}

/// Whether `a` and `b` are the same, but for the days of the streams, for which directories are
/// open, for the cache, and for the period of writing.
pub open spec fn same_state(a: StateView, b: StateView) -> bool {
    &&& a.entries == b.entries
    &&& closed_dirs(a.dirs) == closed_dirs(b.dirs)
    &&& a.cameras == b.cameras
    &&& a.camera_ids == b.camera_ids
    &&& a.streams.dom() == b.streams.dom()
    &&& forall|sid: i32| #[trigger]
        a.streams.contains_key(sid) ==> a.streams[sid] == (StreamView {
            days: a.streams[sid].days,
            ..b.streams[sid]
        })
}

proof fn lemma_range_unique(
    a: Map<i64, Recorded>,
    b: Map<i64, Recorded>,
    x: StreamView,
    y: StreamView,
)
    requires
        same_recordings(a, b),
        range_of(a, x.range),
        range_of(b, y.range),
    ensures
        x.range == y.range,
{
    assert forall|id: i64| #[trigger] a.contains_key(id) <==> b.contains_key(id) by {
        assert(a.dom().contains(id) <==> b.dom().contains(id));
    }
    if x.range is Some {
        let r = x.range->0;
        let i = choose|id: i64| #[trigger] a.contains_key(id) && a[id].range.start == r.start;
        let j = choose|id: i64| #[trigger] a.contains_key(id) && a[id].range.end == r.end;
        assert(b.contains_key(i) && b.contains_key(j));
        assert(b.dom().contains(i));
        let q = y.range->0;
        let k = choose|id: i64| #[trigger] b.contains_key(id) && b[id].range.start == q.start;
        let l = choose|id: i64| #[trigger] b.contains_key(id) && b[id].range.end == q.end;
        assert(a.contains_key(k) && a.contains_key(l));
    } else if y.range is Some {
        let q = y.range->0;
        let k = choose|id: i64| #[trigger] b.contains_key(id) && b[id].range.start == q.start;
        assert(a.contains_key(k));
        assert(a.dom().contains(k));
    }
}

proof fn lemma_of_stream_finite(t: Map<i64, Recorded>, sid: i32)
    requires
        t.dom().finite(),
    ensures
        of_stream(t, sid).dom().finite(),
        forall|id: i64| #[trigger]
            of_stream(t, sid).contains_key(id) <==> t.contains_key(id) && stream_part(
                id as int,
            ) as i32 == sid,
{
    assert(of_stream(t, sid).dom().subset_of(t.dom()));
    vstd::set_lib::lemma_set_subset_finite(t.dom(), of_stream(t, sid).dom());
}

proof fn lemma_streams_agree(a: Tables, b: Tables, sid: i32)
    requires
        a.recordings.dom().finite(),
        same_recordings(a.recordings, b.recordings),
    ensures
        same_recordings(of_stream(a.recordings, sid), of_stream(b.recordings, sid)),
        length_of(of_stream(a.recordings, sid)) == length_of(of_stream(b.recordings, sid)),
        bytes_of(of_stream(a.recordings, sid)) == bytes_of(of_stream(b.recordings, sid)),
{
    let x = of_stream(a.recordings, sid);
    let y = of_stream(b.recordings, sid);
    lemma_of_stream_finite(a.recordings, sid);
    lemma_of_stream_finite(b.recordings, sid);
    assert forall|id: i64| #[trigger]
        a.recordings.contains_key(id) <==> b.recordings.contains_key(id) by {
        assert(a.recordings.dom().contains(id) <==> b.recordings.dom().contains(id));
    }
    assert(x.dom() =~= y.dom());
    lemma_sum_same(x, y, |r: Recorded| r.range.end.0 - r.range.start.0);
    lemma_sum_same(x, y, |r: Recorded| r.bytes as int);
}

/// There is but one state that mirrors the tables: two states that do are the same. If the days of
/// both are what the same tables say, they are the same in this, too.
pub proof fn lemma_mirror_unique(a: StateView, b: StateView, ta: Tables, tb: Tables)
    requires
        mirrors(a, ta),
        mirrors(b, tb),
        same_tables(ta, tb),
    ensures
        same_state(a, b),
        ta == tb && days_mirror(a, ta) && days_mirror(b, tb) ==> a.streams == b.streams,
{
    assert forall|c: i32| #[trigger] a.cameras.contains_key(c) implies b.cameras.contains_key(c)
        && a.cameras[c] == b.cameras[c] by {
        assert(a.cameras.dom().contains(c));
        assert(b.cameras.dom().contains(c));
        assert(b.cameras.contains_key(c));
        let x = a.cameras[c];
        let y = b.cameras[c];
        assert forall|i: int| 0 <= i < 2 implies x.streams[i] == y.streams[i] by {
            if x.streams[i] is Some {
                assert(is_placed(ta.streams, x.streams[i]->0, c, i));
            }
            if y.streams[i] is Some {
                assert(is_placed(tb.streams, y.streams[i]->0, c, i));
            }
        }
        assert(x.streams =~= y.streams);
    }
    assert(a.cameras =~= b.cameras);
    assert forall|n: u128| #[trigger]
        a.camera_ids.contains_key(n) <==> b.camera_ids.contains_key(n) by {
        if a.camera_ids.contains_key(n) {
            assert(tb.cameras.contains_key(a.camera_ids[n]));
        }
        if b.camera_ids.contains_key(n) {
            assert(ta.cameras.contains_key(b.camera_ids[n]));
        }
    }
    assert forall|n: u128| #[trigger] a.camera_ids.contains_key(n) implies a.camera_ids[n]
        == b.camera_ids[n] by {
        assert(tb.cameras.contains_key(a.camera_ids[n]));
    }
    assert(a.camera_ids =~= b.camera_ids);
    assert forall|sid: i32| #[trigger] a.streams.contains_key(sid) implies b.streams.contains_key(
        sid,
    ) && a.streams[sid] == (StreamView { days: a.streams[sid].days, ..b.streams[sid] }) by {
        assert(a.streams.dom().contains(sid));
        assert(b.streams.dom().contains(sid));
        assert(b.streams.contains_key(sid));
        let x = a.streams[sid];
        let y = b.streams[sid];
        lemma_streams_agree(ta, tb, sid);
        lemma_range_unique(of_stream(ta.recordings, sid), of_stream(tb.recordings, sid), x, y);
        assert(stored_stream(x) == stored_stream(y));
    }
    if ta == tb && days_mirror(a, ta) && days_mirror(b, tb) {
        assert(a.streams =~= b.streams);
    }
}

/// The tables after a step.
pub open spec fn tables_after_step(t: Tables, step: Step) -> Tables {
    let sid = step.stream();
    match step {
        Step::Insert { recording, split } => Tables {
            recordings: t.recordings.insert(recording.id.0, row_of(recording, split)),
            streams: t.streams.insert(
                sid,
                StoredStream { next_recording_id: id_after(recording), ..t.streams[sid] },
            ),
            ..t
        },
        Step::Delete { row, .. } => Tables { recordings: t.recordings.remove(row.id.0), ..t },
        Step::Retain(update) => Tables {
            streams: t.streams.insert(
                sid,
                StoredStream {
                    record: update.new_record,
                    retain_bytes: update.new_limit,
                    ..t.streams[sid]
                },
            ),
            ..t
        },
    }
}

/// The tables after `steps`, in turn.
pub open spec fn tables_after(t: Tables, steps: Seq<Step>) -> Tables
    decreases steps.len(),
{
    if steps.len() == 0 {
        t
    } else {
        tables_after_step(tables_after(t, steps.drop_last()), steps.last())
    }
}

/// Whether a step is one that the database lets through: its stream exists, a recording to insert
/// does not, and a recording to delete does, as it was listed.
pub open spec fn step_valid(t: Tables, step: Step) -> bool {
    &&& t.streams.contains_key(step.stream())
    &&& match step {
        Step::Insert { recording, .. } => !t.recordings.contains_key(recording.id.0),
        Step::Delete { row, .. } => t.recordings.contains_key(row.id.0)
            && t.recordings[row.id.0].range == row.time && t.recordings[row.id.0].bytes
            == row.sample_file_bytes,
        Step::Retain(_) => true,
    }
}

/// Whether the database lets through all `steps`, in turn.
pub open spec fn steps_valid(t: Tables, steps: Seq<Step>) -> bool
    decreases steps.len(),
{
    steps.len() > 0 ==> steps_valid(t, steps.drop_last()) && step_valid(
        tables_after(t, steps.drop_last()),
        steps.last(),
    )
}

/// Whether `extents` are those of the streams' recordings.
pub open spec fn extents_true(t: Tables, extents: Seq<StreamExtent>) -> bool {
    forall|i: int|
        0 <= i < extents.len() ==> extent_of(
            of_stream(t.recordings, (#[trigger] extents[i]).stream_id),
            extents[i],
        )
}

/// What a step does to the recordings of a stream.
proof fn lemma_step_of_stream(t: Tables, step: Step, sid: i32)
    requires
        t.recordings.dom().finite(),
    ensures
        tables_after_step(t, step).recordings.dom().finite(),
        step.stream() != sid ==> of_stream(tables_after_step(t, step).recordings, sid)
            == of_stream(t.recordings, sid),
        step.stream() == sid ==> of_stream(tables_after_step(t, step).recordings, sid)
            == match step {
            Step::Insert { recording, split } => of_stream(t.recordings, sid).insert(
                recording.id.0,
                row_of(recording, split),
            ),
            Step::Delete { row, .. } => of_stream(t.recordings, sid).remove(row.id.0),
            Step::Retain(_) => of_stream(t.recordings, sid),
        },
{
    let after = of_stream(tables_after_step(t, step).recordings, sid);
    let before = of_stream(t.recordings, sid);
    match step {
        Step::Insert { recording, split } => {
            assert(tables_after_step(t, step).recordings.dom() =~= t.recordings.dom().insert(
                recording.id.0,
            ));
            if step.stream() == sid {
                assert(after =~= before.insert(recording.id.0, row_of(recording, split)));
            } else {
                assert(after =~= before);
            }
        },
        Step::Delete { row, .. } => {
            assert(tables_after_step(t, step).recordings.dom() =~= t.recordings.dom().remove(
                row.id.0,
            ));
            if step.stream() == sid {
                assert(after =~= before.remove(row.id.0));
            } else {
                assert(after =~= before);
            }
        },
        Step::Retain(_) => {},
    }
}

/// Whether the modification `m` of the stream `s` leads to what the tables say of the stream `sid`,
/// but for the range, which is filled in prior to commit.
pub open spec fn leads_to(s: StreamView, m: ModView, sid: i32, t: Tables) -> bool {
    let r = of_stream(t.recordings, sid);
    &&& s.duration.0 + m.duration.0 == length_of(r)
    &&& s.sample_file_bytes + m.sample_file_bytes == bytes_of(r)
    &&& m.range is None
    &&& t.streams[sid] == (StoredStream {
        next_recording_id: match m.new_next_recording_id {
            Some(id) => id,
            None => s.next_recording_id,
        },
        record: match m.new_record {
            Some(record) => record,
            None => s.record,
        },
        retain_bytes: match m.new_retain_bytes {
            Some(bytes) => bytes,
            None => s.retain_bytes,
        },
        ..stored_stream(s)
    })
}

/// At each point of a transaction, the modifications lead to what the tables say by then. What the
/// transaction has not touched is as it was.
pub proof fn lemma_steps_lead_to(db: StateView, t: Tables, steps: Seq<Step>, sid: i32)
    requires
        mirrors(db, t),
        steps_fit(steps),
        steps_valid(t, steps),
        db.streams.contains_key(sid),
    ensures
        tables_after(t, steps).recordings.dom().finite(),
        tables_after(t, steps).streams.dom() == t.streams.dom(),
        tables_after(t, steps).entries == t.entries,
        tables_after(t, steps).dirs == t.dirs,
        tables_after(t, steps).cameras == t.cameras,
        leads_to(
            db.streams[sid],
            mod_of(mods_of(steps), sid),
            sid,
            tables_after(t, steps),
        ),
        !touches(steps, sid) ==> tables_after(t, steps).streams[sid] == t.streams[sid]
            && of_stream(tables_after(t, steps).recordings, sid) == of_stream(t.recordings, sid)
            && !mods_of(steps).contains_key(sid),
    decreases steps.len(),
{
    if steps.len() == 0 {
        assert(db.streams.dom().contains(sid));
    } else {
        let init = steps.drop_last();
        let step = steps.last();
        let t1 = tables_after(t, init);
        let t2 = tables_after(t, steps);
        let m1 = mod_of(mods_of(init), sid);
        let s = db.streams[sid];
        lemma_steps_lead_to(db, t, init, sid);
        lemma_step_of_stream(t1, step, sid);
        let r1 = of_stream(t1.recordings, sid);
        lemma_of_stream_finite(t1.recordings, sid);
        assert(t1.streams.dom().contains(step.stream()));
        assert(t2.streams.dom() =~= t.streams.dom());
        if touches(init, sid) {
            let i = choose|i: int| 0 <= i < init.len() && (#[trigger] init[i]).stream() == sid;
            assert(steps[i].stream() == sid);
        }
        if step.stream() == sid {
            assert(steps[steps.len() - 1].stream() == sid);
            let length = |r: Recorded| r.range.end.0 - r.range.start.0;
            let bytes = |r: Recorded| r.bytes as int;
            match step {
                Step::Insert { recording, split } => {
                    let id = recording.id.0;
                    assert(r1.remove(id) =~= r1);
                    lemma_sum_insert(r1, length, id, row_of(recording, split));
                    lemma_sum_insert(r1, bytes, id, row_of(recording, split));
                },
                Step::Delete { row, .. } => {
                    assert(r1.contains_key(row.id.0));
                    lemma_sum_without(r1, length, row.id.0);
                    lemma_sum_without(r1, bytes, row.id.0);
                },
                Step::Retain(_) => {},
            }
        }
    }
}

/// Whether `after` is what committing `steps` makes of `before`, given the extents of the streams
/// that they modify. The cache may be anything.
pub open spec fn committed(
    before: StateView,
    after: StateView,
    steps: Seq<Step>,
    extents: Seq<StreamExtent>,
) -> bool {
    let mods = extents_applied(mods_of(steps), extents);
    &&& steps_fit(steps)
    &&& extents_cover(mods_of(steps), extents)
    &&& modifications_fit(before.streams, mods)
    &&& after == (StateView {
        streams: streams_modified(before.streams, mods),
        cache: after.cache,
        ..before
    })
}

/// Once a transaction is committed, the state mirrors the tables that it has led to.
pub proof fn lemma_commit_mirrors(
    before: StateView,
    after: StateView,
    t: Tables,
    steps: Seq<Step>,
    extents: Seq<StreamExtent>,
)
    requires
        mirrors(before, t),
        steps_valid(t, steps),
        committed(before, after, steps, extents),
        extents_true(tables_after(t, steps), extents),
    ensures
        mirrors(after, tables_after(t, steps)),
{
    let t2 = tables_after(t, steps);
    let mods = mods_of(steps);
    lemma_tables_kept(t, steps);
    assert(after.streams.dom() =~= before.streams.dom());
    assert forall|sid: i32| #[trigger] after.streams.contains_key(sid) implies stream_mirrors(
        after.streams[sid],
        sid,
        t2,
    ) by {
        assert(before.streams.contains_key(sid));
        lemma_steps_lead_to(before, t, steps, sid);
        lemma_modification_totals(steps, sid);
        if mods.contains_key(sid) {
            let i = choose|i: int|
                0 <= i < extents.len() && (#[trigger] extents[i]).stream_id == sid;
            lemma_extent_of_each(mods, extents, i);
            assert(extents_applied(mods, extents).dom().contains(sid));
            assert(extents_applied(mods, extents).contains_key(sid));
            assert(extent_of(of_stream(t2.recordings, sid), extents[i]));
            assert(stored_stream(after.streams[sid]) == t2.streams[sid]);
        } else {
            lemma_extents_keep_streams(mods, extents);
            assert(!extents_applied(mods, extents).dom().contains(sid));
            assert(after.streams[sid] == before.streams[sid]);
        }
    }
    assert forall|c: i32| #[trigger] after.cameras.contains_key(c) implies camera_mirrors(
        after.cameras[c],
        c,
        t2.cameras,
        t2.streams,
    ) by {
        assert forall|sid: i32, i: int| 0 <= i < 2 implies (#[trigger] is_placed(
            t2.streams,
            sid,
            c,
            i,
        ) <==> after.cameras[c].streams[i] == Some(sid)) by {
            assert(is_placed(t2.streams, sid, c, i) == is_placed(t.streams, sid, c, i)) by {
                assert(t2.streams.dom().contains(sid) <==> t.streams.dom().contains(sid));
            }
        }
    }
}

/// A transaction adds and removes no streams, and moves none; and it leaves all other tables but
/// the recordings alone.
proof fn lemma_tables_kept(t: Tables, steps: Seq<Step>)
    requires
        t.recordings.dom().finite(),
        steps_valid(t, steps),
    ensures
        tables_after(t, steps).recordings.dom().finite(),
        tables_after(t, steps).streams.dom() == t.streams.dom(),
        tables_after(t, steps).entries == t.entries,
        tables_after(t, steps).dirs == t.dirs,
        tables_after(t, steps).cameras == t.cameras,
        forall|sid: i32| #[trigger]
            t.streams.contains_key(sid) ==> tables_after(t, steps).streams[sid].camera_id
                == t.streams[sid].camera_id && tables_after(t, steps).streams[sid].type_
                == t.streams[sid].type_,
    decreases steps.len(),
{
    if steps.len() > 0 {
        let init = steps.drop_last();
        lemma_tables_kept(t, init);
        let t1 = tables_after(t, init);
        lemma_step_of_stream(t1, steps.last(), 0);
        assert(t1.streams.dom().contains(steps.last().stream()));
        assert(tables_after(t, steps).streams.dom() =~= t.streams.dom());
    }
}

/// Whether what was recorded on any day can be held.
pub open spec fn all_days_hold(t: Tables) -> bool {
    forall|sid: i32, day: Seq<u8>| #[trigger] day_holds(of_stream(t.recordings, sid), day)
}

/// Whether the calendar says of every recording that is deleted what it said when it was inserted,
/// and the sums of the days can be held at each of `steps`.
pub open spec fn steps_keep_days(t: Tables, steps: Seq<Step>) -> bool
    decreases steps.len(),
{
    steps.len() > 0 ==> {
        let init = steps.drop_last();
        let earlier = tables_after(t, init).recordings;
        let m = mod_of(mods_of(init), steps.last().stream());
        &&& steps_keep_days(t, init)
        &&& match steps.last() {
            Step::Insert { recording, split } => change_holds(m, row_of(recording, split), 1),
            Step::Delete { row, split } => earlier[row.id.0].split == split && change_holds(
                m,
                earlier[row.id.0],
                -1,
            ),
            Step::Retain(_) => true,
        }
    }
}

proof fn lemma_steps_track(db: StateView, t: Tables, steps: Seq<Step>, sid: i32)
    requires
        mirrors(db, t),
        days_mirror(db, t),
        all_days_hold(t),
        steps_fit(steps),
        steps_valid(t, steps),
        steps_keep_days(t, steps),
        db.streams.contains_key(sid),
    ensures
        tracks(
            db.streams[sid],
            mod_of(mods_of(steps), sid),
            of_stream(tables_after(t, steps).recordings, sid),
        ),
    decreases steps.len(),
{
    let s = db.streams[sid];
    if steps.len() == 0 {
        lemma_of_stream_finite(t.recordings, sid);
        assert forall|day: Seq<u8>| #[trigger]
            day_holds(of_stream(t.recordings, sid), day) by {}
        lemma_identity_tracks(s, of_stream(t.recordings, sid));
    } else {
        let init = steps.drop_last();
        let step = steps.last();
        let t1 = tables_after(t, init);
        let m1 = mod_of(mods_of(init), sid);
        lemma_steps_track(db, t, init, sid);
        lemma_tables_kept(t, init);
        lemma_step_of_stream(t1, step, sid);
        let r1 = of_stream(t1.recordings, sid);
        lemma_of_stream_finite(t1.recordings, sid);
        if step.stream() == sid {
            match step {
                Step::Insert { recording, split } => {
                    lemma_insert_tracks(s, m1, r1, recording, split);
                    let m = mod_inserted(m1, recording, split);
                    let m2 = mod_of(mods_of(steps), sid);
                    let r2 = of_stream(tables_after(t, steps).recordings, sid);
                    assert(m2 == (ModView {
                        new_next_recording_id: Some(id_after(recording)),
                        ..m
                    }));
                    assert forall|day: Seq<u8>| #[trigger] tracks_day(s, m2, r2, day) by {
                        assert(tracks_day(s, m, r2, day));
                    }
                },
                Step::Delete { row, .. } => {
                    lemma_delete_tracks(s, m1, r1, row);
                },
                Step::Retain(_) => {
                    let m2 = mod_of(mods_of(steps), sid);
                    assert forall|day: Seq<u8>| #[trigger] tracks_day(s, m2, r1, day) by {
                        assert(tracks_day(s, m1, r1, day));
                    }
                },
            }
        }
    }
}

/// Once a transaction is committed, the days of the streams are those of the tables that it has led
/// to, as long as the calendar says the same of a recording when it is deleted as it did when it
/// was inserted.
pub proof fn lemma_commit_mirrors_days(
    before: StateView,
    after: StateView,
    t: Tables,
    steps: Seq<Step>,
    extents: Seq<StreamExtent>,
)
    requires
        mirrors(before, t),
        days_mirror(before, t),
        all_days_hold(t),
        steps_valid(t, steps),
        steps_keep_days(t, steps),
        committed(before, after, steps, extents),
        extents_true(tables_after(t, steps), extents),
    ensures
        days_mirror(after, tables_after(t, steps)),
{
    let t2 = tables_after(t, steps);
    let mods = mods_of(steps);
    assert forall|sid: i32| #[trigger]
        after.streams.contains_key(sid) implies after.streams[sid].days == days_of(
        of_stream(t2.recordings, sid),
    ) by {
        assert(before.streams.contains_key(sid));
        lemma_steps_lead_to(before, t, steps, sid);
        lemma_modification_totals(steps, sid);
        if mods.contains_key(sid) {
            lemma_steps_track(before, t, steps, sid);
            let i = choose|i: int|
                0 <= i < extents.len() && (#[trigger] extents[i]).stream_id == sid;
            lemma_extent_of_each(mods, extents, i);
            assert(extents_applied(mods, extents).dom().contains(sid));
            assert(extents_applied(mods, extents).contains_key(sid));
            assert(extent_of(of_stream(t2.recordings, sid), extents[i]));
            lemma_commit_summarizes(
                before.streams[sid],
                mods[sid],
                of_stream(t2.recordings, sid),
                extents[i],
            );
        } else {
            lemma_extents_keep_streams(mods, extents);
            assert(!extents_applied(mods, extents).dom().contains(sid));
        }
    }
}

/// A transaction that was committed, and the extents of the streams that it has modified.
pub struct Committed {
    pub steps: Seq<Step>,
    pub extents: Seq<StreamExtent>,
}

/// The tables after the transactions `txs`, in turn.
pub open spec fn tables_through(t: Tables, txs: Seq<Committed>) -> Tables
    decreases txs.len(),
{
    if txs.len() == 0 {
        t
    } else {
        tables_after(tables_through(t, txs.drop_last()), txs.last().steps)
    }
}

/// Whether the transactions `txs` have led from the first to the last of `states`, from the tables
/// `t` on. A transaction that was dropped has no place here: it leaves state and tables as they
/// were.
pub open spec fn led_through(states: Seq<StateView>, t: Tables, txs: Seq<Committed>) -> bool
    decreases txs.len(),
{
    &&& states.len() == txs.len() + 1
    &&& txs.len() > 0 ==> {
        let earlier = tables_through(t, txs.drop_last());
        let tx = txs.last();
        &&& led_through(states.drop_last(), t, txs.drop_last())
        &&& steps_valid(earlier, tx.steps)
        &&& committed(states[states.len() - 2], states.last(), tx.steps, tx.extents)
        &&& extents_true(tables_after(earlier, tx.steps), tx.extents)
    }
}

/// Whether the calendar and the sums of the days hold out through the transactions `txs`.
pub open spec fn days_through(t: Tables, txs: Seq<Committed>) -> bool
    decreases txs.len(),
{
    txs.len() > 0 ==> {
        let earlier = tables_through(t, txs.drop_last());
        &&& days_through(t, txs.drop_last())
        &&& all_days_hold(earlier)
        &&& steps_keep_days(earlier, txs.last().steps)
    }
}

/// After any sequence of committed transactions, the state mirrors the tables that they have led
/// to.
pub proof fn lemma_transactions_mirror(
    states: Seq<StateView>,
    t: Tables,
    txs: Seq<Committed>,
)
    requires
        states.len() > 0,
        mirrors(states.first(), t),
        led_through(states, t, txs),
    ensures
        mirrors(states.last(), tables_through(t, txs)),
        days_mirror(states.first(), t) && days_through(t, txs) ==> days_mirror(
            states.last(),
            tables_through(t, txs),
        ),
    decreases txs.len(),
{
    if txs.len() > 0 {
        let init = txs.drop_last();
        let tx = txs.last();
        let earlier = tables_through(t, init);
        let before = states[states.len() - 2];
        assert(states.drop_last().first() == states.first());
        assert(states.drop_last().last() == before);
        lemma_transactions_mirror(states.drop_last(), t, init);
        lemma_commit_mirrors(before, states.last(), earlier, tx.steps, tx.extents);
        if days_mirror(states.first(), t) && days_through(t, txs) {
            lemma_commit_mirrors_days(before, states.last(), earlier, tx.steps, tx.extents);
        }
    }
}

/// Whether `row` is the start and the length of the recording `r`.
pub open spec fn is_span_of(row: (Time, i64), r: Recorded) -> bool {
    row.0 == r.range.start && row.0.0 + row.1 == r.range.end.0
}

/// Whether one of `rows` is the start and the length of the recording `r`.
pub open spec fn spans_have(rows: Seq<(Time, i64)>, r: Recorded) -> bool {
    exists|i: int| 0 <= i < rows.len() && is_span_of(#[trigger] rows[i], r)
}

/// Whether `row` is the start and the length of one of the recordings `t`.
pub open spec fn has_span(t: Map<i64, Recorded>, row: (Time, i64)) -> bool {
    exists|id: i64| #[trigger] t.contains_key(id) && is_span_of(row, t[id])
}

/// Whether `rows` are the starts and the lengths of the recordings `t`.
pub open spec fn lists_recordings(t: Map<i64, Recorded>, rows: Seq<(Time, i64)>) -> bool {
    &&& forall|id: i64| t.contains_key(id) ==> #[trigger] spans_have(rows, t[id])
    &&& forall|i: int| 0 <= i < rows.len() ==> #[trigger] has_span(t, rows[i])
}

/// The least start of the recordings that `rows` list.
pub open spec fn least_start(rows: Seq<(Time, i64)>) -> Option<Time> {
    if rows.len() > 0 {
        Some(rows.last().0)
    } else {
        None
    }
}

/// The least start of a stream's recordings and the end that the scan finds are the extent of the
/// stream, as long as no recording lasts longer than one can.
pub proof fn lemma_scan_gives_extent(
    t: Map<i64, Recorded>,
    rows: Seq<(Time, i64)>,
    stream_id: i32,
)
    requires
        lists_recordings(t, rows),
        scannable(rows),
    ensures
        extent_of(t, scan_extent(scanned(None, rows), stream_id, least_start(rows))),
{
    let extent = scan_extent(scanned(None, rows), stream_id, least_start(rows));
    if rows.len() == 0 {
        assert forall|id: i64| !t.dom().contains(id) by {
            if t.contains_key(id) {
                assert(spans_have(rows, t[id]));
            }
        }
        assert(t.dom() =~= Set::<i64>::empty());
    } else {
        lemma_scan_finds_latest_end(rows);
        let end = extent.max_end->0;
        let start = extent.min_start->0;
        let n = rows.len() - 1;
        assert(has_span(t, rows[n]));
        let a = choose|id: i64| #[trigger] t.contains_key(id) && is_span_of(rows[n], t[id]);
        assert(t.contains_key(a) && t[a].range.start == start);
        assert(is_latest_end(rows, end));
        let j = choose|i: int| 0 <= i < rows.len() && (#[trigger] rows[i]).0.0 + rows[i].1 == end.0;
        assert(has_span(t, rows[j]));
        let b = choose|id: i64| #[trigger] t.contains_key(id) && is_span_of(rows[j], t[id]);
        assert(t.contains_key(b) && t[b].range.end == end);
        assert forall|id: i64| #[trigger] t.contains_key(id) implies start.0
            <= t[id].range.start.0 && t[id].range.end.0 <= end.0 by {
            assert(spans_have(rows, t[id]));
            let i = choose|i: int| 0 <= i < rows.len() && is_span_of(#[trigger] rows[i], t[id]);
            if i < n {
                assert(rows[i].0.0 >= rows[n].0.0);
            }
        }
    }
}

} // verus!
