//! The links between cameras and streams hold from when they are loaded on.
use crate::cameras::{
    camera_added, camera_deleted, camera_updated, listed, lists_streams, no_streams,
};
use crate::collections::entries_without_all;
use crate::commit::streams_modified;
use crate::changer::{
    lemma_seek, outcomes_applied, outcomes_view, plan_outcome, type_at, StreamOutcome,
    StreamStateChanger,
};
use crate::days::DaySplit;
use crate::ids::CompositeId;
use crate::load::{
    camera_loaded, camera_loader, fresh_state, rows_loaded, stream_loaded, stream_loader,
    type_named, CameraRow, StreamRow,
};
use crate::model::{DirView, EntryView, Open, StateView, StreamView};
use crate::statement::{CameraChange, Reply};
use crate::stream::{lemma_recordings_change_summary_only, recordings_added, RecordingSummary};
use crate::transaction::ModView;
use crate::uuids::{uuid_number, Uuid};
use vstd::prelude::*;

verus! {

/// A database with nothing loaded has no dangling links.
pub proof fn lemma_fresh_linked(uuid: Uuid, open: Option<Open>)
    ensures
        fresh_state(uuid, open).linked(),
{
}

/// A camera that is loaded under a new id leaves no dangling links.
pub proof fn lemma_camera_loaded_linked(db: StateView, row: CameraRow)
    requires
        db.linked(),
        !db.cameras.contains_key(row.id),
    ensures
        camera_loaded(db, row) matches Ok(after) && after.linked(),
{
    let after = camera_loaded(db, row)->Ok_0;
    assert forall|c: i32, i: int|
        #![trigger after.cameras[c].streams[i]]
        after.cameras.contains_key(c) && 0 <= i < 2
            && after.cameras[c].streams[i] is Some implies after.stream_at_home(c, i) by {
        if c != row.id {
            assert(db.cameras[c].streams[i] is Some);
            assert(db.stream_at_home(c, i));
        }
    }
}

/// A stream that is loaded under a new id leaves no dangling links.
pub proof fn lemma_stream_loaded_linked(db: StateView, row: StreamRow)
    requires
        db.linked(),
        !db.streams.contains_key(row.id),
    ensures
        stream_loaded(db, row) matches Ok(after) ==> after.linked(),
{
    if stream_loaded(db, row) is Ok {
        let after = stream_loaded(db, row)->Ok_0;
        let type_ = type_named(row.type_@)->0;
        assert(db.cameras[row.camera_id].streams.len() == 2);
        assert forall|c: i32, i: int|
            #![trigger after.cameras[c].streams[i]]
            after.cameras.contains_key(c) && 0 <= i < 2
                && after.cameras[c].streams[i] is Some implies after.stream_at_home(c, i) by {
            if c != row.camera_id || i != type_.position() {
                assert(after.cameras[c].streams[i] == db.cameras[c].streams[i]);
                assert(db.stream_at_home(c, i));
            }
        }
        assert forall|c: i32| #[trigger]
            after.cameras.contains_key(c) implies after.cameras[c].streams.len() == 2 by {
            assert(db.cameras.contains_key(c));
        }
    }
}

/// Loading cameras and then streams, each under an id of its own, leaves no dangling links.
pub proof fn lemma_cameras_loaded_linked(db: StateView, rows: Seq<CameraRow>)
    requires
        db.linked(),
        forall|i: int| 0 <= i < rows.len() ==> !db.cameras.contains_key((#[trigger] rows[i]).id),
        forall|i: int, j: int|
            0 <= i < j < rows.len() ==> (#[trigger] rows[i]).id != (#[trigger] rows[j]).id,
    ensures
        rows_loaded(db, rows, camera_loader()).0.linked(),
        rows_loaded(db, rows, camera_loader()).1 is None,
        rows_loaded(db, rows, camera_loader()).0.streams == db.streams,
        forall|id: i32| #[trigger]
            rows_loaded(db, rows, camera_loader()).0.cameras.contains_key(id)
                ==> db.cameras.contains_key(id) || exists|i: int|
                0 <= i < rows.len() && (#[trigger] rows[i]).id == id,
    decreases rows.len(),
{
    if rows.len() > 0 {
        let init = rows.drop_last();
        assert forall|i: int| 0 <= i < init.len() implies #[trigger] init[i] == rows[i] by {}
        lemma_cameras_loaded_linked(db, init);
        let db1 = rows_loaded(db, init, camera_loader()).0;
        let row = rows.last();
        assert(row == rows[rows.len() - 1]);
        if db1.cameras.contains_key(row.id) {
            let i = choose|i: int| 0 <= i < init.len() && (#[trigger] init[i]).id == row.id;
            assert(rows[i].id != rows[rows.len() - 1].id);
        }
        lemma_camera_loaded_linked(db1, row);
        assert forall|id: i32| #[trigger]
            rows_loaded(db, rows, camera_loader()).0.cameras.contains_key(
                id,
            ) implies db.cameras.contains_key(id) || exists|i: int|
            0 <= i < rows.len() && (#[trigger] rows[i]).id == id by {
            if id == row.id {
                assert(rows[rows.len() - 1].id == id);
            } else if !db.cameras.contains_key(id) {
                assert(db1.cameras.contains_key(id));
                let i = choose|i: int| 0 <= i < init.len() && (#[trigger] init[i]).id == id;
                assert(rows[i].id == id);
            }
        }
    }
}

/// Loading streams, each under an id of its own, leaves no dangling links.
pub proof fn lemma_streams_loaded_linked(db: StateView, rows: Seq<StreamRow>)
    requires
        db.linked(),
        forall|i: int| 0 <= i < rows.len() ==> !db.streams.contains_key((#[trigger] rows[i]).id),
        forall|i: int, j: int|
            0 <= i < j < rows.len() ==> (#[trigger] rows[i]).id != (#[trigger] rows[j]).id,
    ensures
        rows_loaded(db, rows, stream_loader()).0.linked(),
        forall|id: i32| #[trigger]
            rows_loaded(db, rows, stream_loader()).0.streams.contains_key(id)
                ==> db.streams.contains_key(id) || exists|i: int|
                0 <= i < rows.len() && (#[trigger] rows[i]).id == id,
    decreases rows.len(),
{
    if rows.len() > 0 {
        let init = rows.drop_last();
        assert forall|i: int| 0 <= i < init.len() implies #[trigger] init[i] == rows[i] by {}
        lemma_streams_loaded_linked(db, init);
        let db1 = rows_loaded(db, init, stream_loader()).0;
        let row = rows.last();
        assert(row == rows[rows.len() - 1]);
        if db1.streams.contains_key(row.id) {
            let i = choose|i: int| 0 <= i < init.len() && (#[trigger] init[i]).id == row.id;
            assert(rows[i].id != rows[rows.len() - 1].id);
        }
        lemma_stream_loaded_linked(db1, row);
        assert forall|id: i32| #[trigger]
            rows_loaded(db, rows, stream_loader()).0.streams.contains_key(
                id,
            ) implies db.streams.contains_key(id) || exists|i: int|
            0 <= i < rows.len() && (#[trigger] rows[i]).id == id by {
            if id == row.id {
                assert(rows[rows.len() - 1].id == id);
            } else if !db.streams.contains_key(id) {
                assert(db1.streams.contains_key(id));
                let i = choose|i: int| 0 <= i < init.len() && (#[trigger] init[i]).id == id;
                assert(rows[i].id == id);
            }
        }
    }
}

/// Whether the streams that the camera has so far are known, belong to the camera, and have the
/// types that their places say.
pub open spec fn existing_at_home(c: StreamStateChanger, streams: Map<i32, StreamView>) -> bool {
    forall|i: int|
        0 <= i < 2 && (#[trigger] c.existing@[i]) is Some ==> {
            let sid = c.existing@[i]->0;
            &&& streams.contains_key(sid)
            &&& streams[sid].camera_id == c.camera_id
            &&& streams[sid].type_.position() == i
        }
}

/// The streams once the changes so far are applied.
pub open spec fn streams_after(
    c: StreamStateChanger,
    streams: Map<i32, StreamView>,
) -> Map<i32, StreamView> {
    outcomes_applied(streams, outcomes_view(c.streams@))
}

/// Whether the streams that the camera will have are known, belong to the camera, and have the
/// types that their places say, once the changes so far are applied; and whether these leave all
/// other cameras' streams, and the camera and the type of every stream, alone.
pub open spec fn settled_at_home(c: StreamStateChanger, streams: Map<i32, StreamView>) -> bool {
    let after = streams_after(c, streams);
    &&& forall|i: int|
        0 <= i < 2 && (#[trigger] c.sids@[i]) is Some ==> {
            let sid = c.sids@[i]->0;
            &&& after.contains_key(sid)
            &&& after[sid].camera_id == c.camera_id
            &&& after[sid].type_.position() == i
        }
    &&& forall|id: i32| #[trigger]
        streams.contains_key(id) && streams[id].camera_id != c.camera_id ==> after.contains_key(id)
    &&& forall|id: i32| #[trigger]
        streams.contains_key(id) && after.contains_key(id) ==> after[id].camera_id
            == streams[id].camera_id && after[id].type_ == streams[id].type_
    &&& forall|i: int| c.next <= i < 2 ==> (#[trigger] c.sids@[i]) is None
}

/// A change of streams that has just begun has nothing dangling.
pub proof fn lemma_changer_starts_at_home(c: StreamStateChanger, streams: Map<i32, StreamView>)
    requires
        c.sids@ == no_streams(),
        outcomes_view(c.streams@) == Seq::<StreamOutcome>::empty(),
    ensures
        settled_at_home(c, streams),
{
    assert forall|i: int| 0 <= i < 2 implies (#[trigger] c.sids@[i]) is None by {
        assert(no_streams()[i] is None);
    }
}

/// Each step of a change of streams leaves nothing dangling, as long as a stream that is inserted
/// gets a new id.
pub proof fn lemma_changer_stays_at_home(
    c: StreamStateChanger,
    after: StreamStateChanger,
    streams: Map<i32, StreamView>,
    change: CameraChange,
    reply: Reply,
)
    requires
        c.valid(streams, change),
        c.next < 2,
        existing_at_home(c, streams),
        settled_at_home(c, streams),
        c.advanced(after, streams, change, reply, Ok(())),
        c.plan(streams, change)->Ok_0 is Insert ==> {
            let id = reply->Ok_0.last_insert_rowid as i32;
            !streams.contains_key(id) && !streams_after(c, streams).contains_key(id)
        },
    ensures
        existing_at_home(after, streams),
        settled_at_home(after, streams),
{
    let i = c.next as int;
    let plan = c.plan(streams, change)->Ok_0;
    let outcome = plan_outcome(
        streams,
        c.camera_id,
        type_at(i),
        change.streams@[i],
        plan,
        reply,
    );
    let (sid, s) = outcome->Ok_0;
    let before = streams_after(c, streams);
    let now = streams_after(after, streams);
    assert(outcomes_view(after.streams@).drop_last() =~= outcomes_view(c.streams@));
    assert(now == match s {
        Some(s) => before.insert(sid, s),
        None => before.remove(sid),
    });
    assert(c.existing@[i] is Some ==> streams.contains_key(c.existing@[i]->0));
    assert(c.sids@[i] is None);
    assert forall|j: int| 0 <= j < 2 && (#[trigger] after.sids@[j]) is Some implies {
        let x = after.sids@[j]->0;
        &&& now.contains_key(x)
        &&& now[x].camera_id == after.camera_id
        &&& now[x].type_.position() == j
    } by {
        if j != i {
            assert(after.sids@[j] == c.sids@[j]);
            let x = c.sids@[j]->0;
            assert(before.contains_key(x));
            if x == sid {
                if !(plan is Insert) {
                    assert(streams.contains_key(x));
                    assert(before[x].type_ == streams[x].type_);
                }
                assert(false);
            }
        }
    }
    assert forall|j: int| after.next <= j < 2 implies (#[trigger] after.sids@[j]) is None by {
        lemma_seek(streams, c.existing@, change.streams@, i + 1);
        assert(after.sids@[j] == c.sids@[j]);
    }
}

proof fn lemma_others_at_home(
    db: StateView,
    after: StateView,
    c: StreamStateChanger,
    camera: i32,
    i: int,
)
    requires
        db.linked(),
        settled_at_home(c, db.streams),
        after.streams == streams_after(c, db.streams),
        camera != c.camera_id,
        db.cameras.contains_key(camera),
        after.cameras[camera] == db.cameras[camera],
        0 <= i < 2,
        db.cameras[camera].streams[i] is Some,
    ensures
        after.stream_at_home(camera, i),
{
    assert(db.stream_at_home(camera, i));
    let sid = db.cameras[camera].streams[i]->0;
    assert(db.streams.contains_key(sid));
}

/// Adding a camera under a new id leaves no dangling links.
pub proof fn lemma_camera_added_linked(
    db: StateView,
    uuid: Uuid,
    change: CameraChange,
    c: StreamStateChanger,
)
    requires
        db.linked(),
        !db.cameras.contains_key(c.camera_id),
        settled_at_home(c, db.streams),
    ensures
        camera_added(db, uuid, change, c).linked(),
{
    let after = camera_added(db, uuid, change, c);
    assert forall|k: i32, i: int|
        #![trigger after.cameras[k].streams[i]]
        after.cameras.contains_key(k) && 0 <= i < 2
            && after.cameras[k].streams[i] is Some implies after.stream_at_home(k, i) by {
        if k != c.camera_id {
            assert(db.cameras[k].streams[i] is Some);
            lemma_others_at_home(db, after, c, k, i);
        } else {
            assert(c.sids@[i] is Some);
        }
    }
}

/// Updating a camera leaves no dangling links.
pub proof fn lemma_camera_updated_linked(
    db: StateView,
    change: CameraChange,
    c: StreamStateChanger,
)
    requires
        db.linked(),
        db.cameras.contains_key(c.camera_id),
        settled_at_home(c, db.streams),
    ensures
        camera_updated(db, c.camera_id, change, c).linked(),
{
    let after = camera_updated(db, c.camera_id, change, c);
    assert forall|k: i32, i: int|
        #![trigger after.cameras[k].streams[i]]
        after.cameras.contains_key(k) && 0 <= i < 2
            && after.cameras[k].streams[i] is Some implies after.stream_at_home(k, i) by {
        if k != c.camera_id {
            assert(db.cameras[k].streams[i] is Some);
            lemma_others_at_home(db, after, c, k, i);
        } else {
            assert(c.sids@[i] is Some);
        }
    }
}

/// Deleting a camera with its streams leaves no dangling links.
pub proof fn lemma_camera_deleted_linked(
    db: StateView,
    camera_id: i32,
    list: Seq<(i32, bool)>,
)
    requires
        db.linked(),
        db.cameras.contains_key(camera_id),
        lists_streams(db.streams, camera_id, list),
    ensures
        camera_deleted(db, camera_id, db.cameras[camera_id].uuid, listed(list)).linked(),
        forall|sid: i32| #[trigger]
            camera_deleted(
                db,
                camera_id,
                db.cameras[camera_id].uuid,
                listed(list),
            ).streams.contains_key(sid) <==> db.streams.contains_key(sid)
                && db.streams[sid].camera_id != camera_id,
{
    let after = camera_deleted(db, camera_id, db.cameras[camera_id].uuid, listed(list));
    let keys = list.map_values(|x: (i32, bool)| x.0);
    assert forall|sid: i32| #[trigger] after.streams.contains_key(sid) <==> db.streams.contains_key(
        sid,
    ) && db.streams[sid].camera_id != camera_id by {
        if db.streams.contains_key(sid) && db.streams[sid].camera_id == camera_id {
            let i = choose|i: int| 0 <= i < list.len() && (#[trigger] list[i]).0 == sid;
            assert(keys[i] == sid);
            assert(keys.contains(sid));
        }
        if listed(list).contains(sid) {
            let i = choose|i: int| 0 <= i < keys.len() && keys[i] == sid;
            assert(list[i].0 == sid);
        }
    }
    assert forall|k: i32, i: int|
        #![trigger after.cameras[k].streams[i]]
        after.cameras.contains_key(k) && 0 <= i < 2
            && after.cameras[k].streams[i] is Some implies after.stream_at_home(k, i) by {
        assert(db.cameras[k].streams[i] is Some);
        assert(db.stream_at_home(k, i));
        let sid = db.cameras[k].streams[i]->0;
        assert(after.streams.contains_key(sid));
    }
    assert forall|n: u128| #[trigger] after.camera_ids.contains_key(n) implies (
    after.cameras.contains_key(after.camera_ids[n]) && uuid_number(
        after.cameras[after.camera_ids[n]].uuid,
    ) == n) by {
        assert(db.camera_ids.contains_key(n));
    }
}

/// Links depend on nothing but the cameras, the streams that there are, and their cameras and
/// types.
pub proof fn lemma_links_carry_over(db: StateView, after: StateView)
    requires
        db.linked(),
        after.cameras == db.cameras,
        after.camera_ids == db.camera_ids,
        after.streams.dom() == db.streams.dom(),
        forall|sid: i32| #[trigger]
            db.streams.contains_key(sid) ==> after.streams[sid].camera_id
                == db.streams[sid].camera_id && after.streams[sid].type_ == db.streams[sid].type_,
    ensures
        after.linked(),
{
    assert forall|k: i32, i: int|
        #![trigger after.cameras[k].streams[i]]
        after.cameras.contains_key(k) && 0 <= i < 2
            && after.cameras[k].streams[i] is Some implies after.stream_at_home(k, i) by {
        assert(db.cameras[k].streams[i] is Some);
        assert(db.stream_at_home(k, i));
        let sid = db.cameras[k].streams[i]->0;
        assert(db.streams.dom().contains(sid));
        assert(after.streams.dom().contains(sid));
    }
}

/// A commit leaves no dangling links.
pub proof fn lemma_committed_linked(
    db: StateView,
    mods: Map<i32, ModView>,
    deleted: Seq<CompositeId>,
)
    requires
        db.linked(),
    ensures
        (StateView {
            streams: streams_modified(db.streams, mods),
            cache: entries_without_all(db.cache, deleted),
            ..db
        }).linked(),
{
    let after = StateView {
        streams: streams_modified(db.streams, mods),
        cache: entries_without_all(db.cache, deleted),
        ..db
    };
    assert(after.streams.dom() =~= db.streams.dom());
    lemma_links_carry_over(db, after);
}

/// Whatever becomes of the sample file directories leaves no dangling links.
pub proof fn lemma_dirs_changed_linked(db: StateView, dirs: Map<i32, DirView>)
    requires
        db.linked(),
    ensures
        (StateView { dirs, ..db }).linked(),
{
    lemma_links_carry_over(db, StateView { dirs, ..db });
}

/// Whatever becomes of the video sample entries leaves no dangling links.
pub proof fn lemma_entries_changed_linked(db: StateView, entries: Map<i32, EntryView>)
    requires
        db.linked(),
    ensures
        (StateView { entries, ..db }).linked(),
{
    lemma_links_carry_over(db, StateView { entries, ..db });
}

/// Whatever becomes of the cache leaves no dangling links.
pub proof fn lemma_cache_changed_linked(db: StateView, cache: Seq<(i64, Seq<u8>)>)
    requires
        db.linked(),
    ensures
        (StateView { cache, ..db }).linked(),
{
    lemma_links_carry_over(db, StateView { cache, ..db });
}

/// Loading the recordings of a stream leaves no dangling links.
pub proof fn lemma_recordings_loaded_linked(
    db: StateView,
    sid: i32,
    rows: Seq<RecordingSummary>,
    splits: Seq<Option<DaySplit>>,
)
    requires
        db.linked(),
        db.streams.contains_key(sid),
    ensures
        (StateView {
            streams: db.streams.insert(sid, recordings_added(db.streams[sid], rows, splits)),
            ..db
        }).linked(),
{
    let after = StateView {
        streams: db.streams.insert(sid, recordings_added(db.streams[sid], rows, splits)),
        ..db
    };
    lemma_recordings_change_summary_only(db.streams[sid], rows, splits);
    assert(after.streams.dom() =~= db.streams.dom());
    lemma_links_carry_over(db, after);
}

} // verus!
