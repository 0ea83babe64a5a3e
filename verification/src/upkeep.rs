//! Changes to cameras, directories and entries keep the state a mirror of the tables.
use crate::cameras::{
    camera_added, camera_deleted, camera_updated, listed, lists_streams, no_streams,
};
use crate::changer::{
    lemma_seek, outcomes_view, plan_outcome, seek_plan, type_at, StreamOutcome, StreamPlan,
    StreamStateChanger,
};
use crate::days::StreamDayValue;
use crate::dirs::{dir_opened, opens_completed};
use crate::links::streams_after;
use crate::mirror::{
    camera_mirrors, cameras_mirror, closed_dirs, days_mirror, is_placed, mirrors, of_stream,
    stored_stream, stream_mirrors, streams_mirror, StoredCamera, StoredStream, Tables,
};
use crate::model::{DirHandle, DirView, EntryView, StateView, StreamView};
use crate::statement::{CameraChange, Reply, Statement, StreamChange};
use crate::summary::{count_on, days_of, sums_up, Recorded};
use crate::uuids::{lemma_uuid_number_injective, uuid_number, Uuid};
use vstd::prelude::*;

verus! {

/// What is stored of a camera that is inserted or updated as `change` describes it.
pub open spec fn camera_in_change(uuid: Uuid, change: CameraChange) -> StoredCamera {
    StoredCamera {
        uuid,
        short_name: change.short_name@,
        description: change.description@,
        host: change.host@,
        username: change.username@,
        password: change.password@,
    }
}

/// The tables after `statement` was run, if a row that it inserts gets the id `id`. This is about
/// statements on cameras, streams and entries; others leave the tables as they are here.
pub open spec fn statement_run(t: Tables, statement: Statement<'_>, id: i32) -> Tables {
    match statement {
        Statement::DeleteStream { stream_id } => Tables {
            streams: t.streams.remove(stream_id),
            ..t
        },
        Statement::UpdateStream { stream_id, change } => Tables {
            streams: t.streams.insert(
                stream_id,
                StoredStream {
                    rtsp_path: change.rtsp_path@,
                    record: change.record,
                    sample_file_dir_id: change.sample_file_dir_id,
                    ..t.streams[stream_id]
                },
            ),
            ..t
        },
        Statement::InsertStream { camera_id, type_, change } => Tables {
            streams: t.streams.insert(
                id,
                StoredStream {
                    camera_id,
                    sample_file_dir_id: change.sample_file_dir_id,
                    type_,
                    rtsp_path: change.rtsp_path@,
                    retain_bytes: 0,
                    record: change.record,
                    next_recording_id: 1,
                },
            ),
            ..t
        },
        Statement::InsertCamera { uuid, camera } => Tables {
            cameras: t.cameras.insert(id, camera_in_change(uuid, *camera)),
            ..t
        },
        Statement::UpdateCamera { camera_id, camera } => Tables {
            cameras: t.cameras.insert(
                camera_id,
                camera_in_change(t.cameras[camera_id].uuid, *camera),
            ),
            ..t
        },
        Statement::DeleteCamera { camera_id } => Tables {
            cameras: t.cameras.remove(camera_id),
            ..t
        },
        Statement::InsertVideoSampleEntry { sha1, width, height, rfc6381_codec, data } => Tables {
            entries: t.entries.insert(
                id,
                EntryView {
                    data: data@,
                    rfc6381_codec: rfc6381_codec@,
                    id,
                    width,
                    height,
                    sha1: sha1@,
                },
            ),
            ..t
        },
        _ => t,
    }
}

/// Inserting a video sample entry keeps the mirror.
pub proof fn lemma_entry_inserted_mirrors(
    db: StateView,
    t: Tables,
    statement: Statement<'_>,
    id: i32,
    entry: EntryView,
)
    requires
        mirrors(db, t),
        statement matches Statement::InsertVideoSampleEntry {
            sha1,
            width,
            height,
            rfc6381_codec,
            data,
        } && entry == (EntryView {
            data: data@,
            rfc6381_codec: rfc6381_codec@,
            id,
            width,
            height,
            sha1: sha1@,
        }),
    ensures
        mirrors(
            (StateView { entries: db.entries.insert(id, entry), ..db }),
            statement_run(t, statement, id),
        ),
{
}

/// A directory that was added is in memory what its row is, but for being open.
pub proof fn lemma_dir_added_mirrors(db: StateView, t: Tables, id: i32, d: DirView)
    requires
        mirrors(db, t),
    ensures
        mirrors(
            (StateView { dirs: db.dirs.insert(id, d), ..db }),
            (Tables {
                dirs: t.dirs.insert(id, DirView { dir: None::<DirHandle>, ..d }),
                ..t
            }),
        ),
{
    assert(closed_dirs(db.dirs.insert(id, d)) =~= t.dirs.insert(
        id,
        DirView { dir: None::<DirHandle>, ..d },
    ));
}

/// Deleting a directory keeps the mirror.
pub proof fn lemma_dir_deleted_mirrors(db: StateView, t: Tables, id: i32)
    requires
        mirrors(db, t),
    ensures
        mirrors(
            (StateView { dirs: db.dirs.remove(id), ..db }),
            (Tables { dirs: t.dirs.remove(id), ..t }),
        ),
{
    assert(closed_dirs(db.dirs.remove(id)) =~= t.dirs.remove(id));
}

/// Opening a directory changes nothing that is stored.
pub proof fn lemma_dir_opened_mirrors(db: StateView, t: Tables, id: i32, dir: DirHandle)
    requires
        mirrors(db, t),
        db.dirs.contains_key(id),
    ensures
        mirrors(dir_opened(db, id, dir), t),
{
    let after = dir_opened(db, id, dir);
    assert forall|k: i32| #[trigger] after.dirs.contains_key(k) implies closed_dirs(after.dirs)[k]
        == closed_dirs(db.dirs)[k] by {}
    assert(closed_dirs(after.dirs) =~= closed_dirs(db.dirs));
}

/// Once the rows of directories have the current open as their last complete one, and that is
/// committed, so have the directories in memory.
pub proof fn lemma_opens_completed_mirrors(db: StateView, t: Tables, ids: Set<i32>)
    requires
        mirrors(db, t),
    ensures
        mirrors(
            opens_completed(db, ids),
            (Tables {
                dirs: Map::new(
                    |id: i32| t.dirs.contains_key(id),
                    |id: i32|
                        if ids.contains(id) {
                            DirView { last_complete_open: db.open, ..t.dirs[id] }
                        } else {
                            t.dirs[id]
                        },
                ),
                ..t
            }),
        ),
{
    let dirs = Map::new(
        |id: i32| t.dirs.contains_key(id),
        |id: i32|
            if ids.contains(id) {
                DirView { last_complete_open: db.open, ..t.dirs[id] }
            } else {
                t.dirs[id]
            },
    );
    let after = closed_dirs(opens_completed(db, ids).dirs);
    assert forall|id: i32| #[trigger] after.contains_key(id) <==> dirs.contains_key(id) by {
        assert(closed_dirs(db.dirs).contains_key(id) <==> t.dirs.contains_key(id));
    }
    assert forall|id: i32| #[trigger] after.contains_key(id) implies after[id] == dirs[id] by {
        assert(closed_dirs(db.dirs)[id] == t.dirs[id]);
    }
    assert(after =~= dirs);
}

/// Whatever becomes of the cache keeps the mirror.
pub proof fn lemma_cache_changed_mirrors(db: StateView, t: Tables, cache: Seq<(i64, Seq<u8>)>)
    requires
        mirrors(db, t),
    ensures
        mirrors((StateView { cache, ..db }), t),
{
}

/// Whether the streams, once the changes so far are applied, are those of the table `streams`:
/// those of the camera that is changed are in their places as far as they are settled, and as they
/// were from there on; those of other cameras are where they were.
pub open spec fn settles(
    c: StreamStateChanger,
    db: StateView,
    t: Tables,
    streams: Map<i32, StoredStream>,
) -> bool {
    let after = streams_after(c, db.streams);
    &&& after.dom() == streams.dom()
    &&& forall|sid: i32| #[trigger]
        after.contains_key(sid) ==> after[sid].id == sid && stored_stream(after[sid])
            == streams[sid] && sums_up(after[sid], of_stream(t.recordings, sid))
    &&& forall|sid: i32, k: i32, i: int|
        k != c.camera_id ==> (#[trigger] is_placed(streams, sid, k, i) <==> is_placed(
            t.streams,
            sid,
            k,
            i,
        ))
    &&& forall|sid: i32, i: int|
        0 <= i < 2 ==> (#[trigger] is_placed(streams, sid, c.camera_id, i) <==> Some(sid)
            == if i < c.next {
            c.sids@[i]
        } else {
            c.existing@[i]
        })
    &&& forall|i: int| c.next <= i < 2 ==> (#[trigger] c.sids@[i]) is None
    &&& forall|i: int|
        c.next <= i < 2 && (#[trigger] c.existing@[i]) is Some ==> {
            let sid = c.existing@[i]->0;
            db.streams.contains_key(sid) && after.contains_key(sid) && after[sid]
                == db.streams[sid]
        }
}

/// A change of streams that has just begun leaves the tables as they are.
pub proof fn lemma_change_begins(
    c: StreamStateChanger,
    db: StateView,
    t: Tables,
    change: CameraChange,
)
    requires
        mirrors(db, t),
        c.sids@ == no_streams(),
        outcomes_view(c.streams@) == Seq::<StreamOutcome>::empty(),
        seek_plan(db.streams, c.existing@, change.streams@, 0) == Ok::<int, crate::error::Error>(
            c.next as int,
        ),
        forall|sid: i32, i: int|
            0 <= i < 2 ==> (#[trigger] is_placed(t.streams, sid, c.camera_id, i)
                <==> c.existing@[i] == Some(sid)),
    ensures
        settles(c, db, t, t.streams),
{
    lemma_seek(db.streams, c.existing@, change.streams@, 0);
    assert(streams_after(c, db.streams) == db.streams);
    assert forall|i: int| 0 <= i < 2 implies (#[trigger] c.sids@[i]) is None by {
        assert(no_streams()[i] is None);
    }
    assert forall|i: int| c.next <= i < 2 && (#[trigger] c.existing@[i]) is Some implies {
        let sid = c.existing@[i]->0;
        db.streams.contains_key(sid)
    } by {
        let sid = c.existing@[i]->0;
        assert(is_placed(t.streams, sid, c.camera_id, i));
        assert(t.streams.dom().contains(sid));
        assert(db.streams.dom().contains(sid));
    }
    assert forall|sid: i32, i: int| 0 <= i < 2 implies (#[trigger] is_placed(
        t.streams,
        sid,
        c.camera_id,
        i,
    ) <==> Some(sid) == if i < c.next {
        c.sids@[i]
    } else {
        c.existing@[i]
    }) by {
        if i < c.next {
            assert(c.existing@[i] is None);
            assert(c.sids@[i] is None);
        }
    }
    assert forall|sid: i32| #[trigger] db.streams.contains_key(sid) implies stream_mirrors(
        db.streams[sid],
        sid,
        t,
    ) by {}
}

/// Each step of a change of streams does in memory what its statement does to the table, as long as
/// a stream that is inserted gets a new id, under which there are no recordings.
pub proof fn lemma_change_goes_on(
    c: StreamStateChanger,
    after: StreamStateChanger,
    db: StateView,
    t: Tables,
    now: Tables,
    change: CameraChange,
    statement: Statement<'_>,
    reply: Reply,
)
    requires
        c.valid(db.streams, change),
        c.next < 2,
        settles(c, db, t, now.streams),
        c.advanced(after, db.streams, change, reply, Ok(())),
        statement == match c.plan(db.streams, change)->Ok_0 {
            StreamPlan::Delete { stream_id } => Statement::DeleteStream { stream_id },
            StreamPlan::Update { stream_id } => Statement::UpdateStream {
                stream_id,
                change: &change.streams@[c.next as int],
            },
            _ => Statement::InsertStream {
                camera_id: c.camera_id,
                type_: type_at(c.next as int),
                change: &change.streams@[c.next as int],
            },
        },
        c.plan(db.streams, change)->Ok_0 is Insert ==> {
            let id = reply->Ok_0.last_insert_rowid as i32;
            &&& !now.streams.contains_key(id)
            &&& !db.streams.contains_key(id)
            &&& of_stream(t.recordings, id) == Map::<i64, Recorded>::empty()
        },
    ensures
        settles(
            after,
            db,
            t,
            statement_run(now, statement, reply->Ok_0.last_insert_rowid as i32).streams,
        ),
{
    let i = c.next as int;
    let plan = c.plan(db.streams, change)->Ok_0;
    let id = reply->Ok_0.last_insert_rowid as i32;
    let outcome = plan_outcome(
        db.streams,
        c.camera_id,
        type_at(i),
        change.streams@[i],
        plan,
        reply,
    );
    let (sid, s) = outcome->Ok_0;
    let before = streams_after(c, db.streams);
    let then = streams_after(after, db.streams);
    let table = now.streams;
    let next = statement_run(now, statement, id).streams;
    assert(outcomes_view(after.streams@).drop_last() =~= outcomes_view(c.streams@));
    assert(then == match s {
        Some(s) => before.insert(sid, s),
        None => before.remove(sid),
    });
    assert(next == match s {
        Some(s) => table.insert(sid, stored_stream(s)),
        None => table.remove(sid),
    }) by {
        if plan is Update {
            assert(c.existing@[i] is Some);
            assert(before.contains_key(sid));
            assert(next =~= table.insert(sid, stored_stream(s->0)));
        } else if plan is Insert {
            assert(next =~= table.insert(sid, stored_stream(s->0)));
        }
    }
    if !(plan is Insert) {
        assert(c.existing@[i] == Some(sid));
        assert(is_placed(table, sid, c.camera_id, i));
    }
    lemma_seek(db.streams, c.existing@, change.streams@, i + 1);
    assert(then.dom() =~= next.dom()) by {
        assert forall|k: i32| #[trigger] then.dom().contains(k) <==> next.dom().contains(k) by {
            assert(before.dom().contains(k) <==> table.dom().contains(k));
        }
    }
    assert forall|k: i32| #[trigger] then.contains_key(k) implies then[k].id == k && stored_stream(
        then[k],
    ) == next[k] && sums_up(then[k], of_stream(t.recordings, k)) by {
        if k == sid {
            if plan is Update {
                assert(before.contains_key(sid));
                assert(before[sid] == db.streams[sid]);
                assert(sums_up(before[sid], of_stream(t.recordings, sid)));
            } else {
                assert(of_stream(t.recordings, k) == Map::<i64, Recorded>::empty());
                assert(of_stream(t.recordings, k).dom() =~= Set::<i64>::empty());
            }
        } else {
            assert(before.contains_key(k));
        }
    }
    assert forall|k: i32, x: i32, j: int| x != c.camera_id implies (#[trigger] is_placed(
        next,
        k,
        x,
        j,
    ) <==> is_placed(t.streams, k, x, j)) by {
        assert(is_placed(table, k, x, j) <==> is_placed(t.streams, k, x, j));
        if k == sid && !(plan is Insert) {
            assert(!is_placed(table, k, x, j));
        }
    }
    assert forall|k: i32, j: int| 0 <= j < 2 implies (#[trigger] is_placed(
        next,
        k,
        c.camera_id,
        j,
    ) <==> Some(k) == if j < after.next {
        after.sids@[j]
    } else {
        after.existing@[j]
    }) by {
        assert(is_placed(table, k, c.camera_id, j) <==> Some(k) == if j < c.next {
            c.sids@[j]
        } else {
            c.existing@[j]
        });
        if j != i {
            assert(after.sids@[j] == c.sids@[j]);
            if j > i {
                assert(c.sids@[j] is None);
                if j < after.next {
                    assert(c.existing@[j] is None);
                }
            }
            if k == sid {
                if plan is Insert {
                    assert(!table.contains_key(k));
                } else {
                    assert(table[sid].type_.position() == i);
                }
            }
        } else {
            assert(c.sids@[i] is None);
            if k != sid && !(plan is Insert) {
                assert(!is_placed(table, k, c.camera_id, j));
            }
        }
    }
    assert forall|j: int| after.next <= j < 2 implies (#[trigger] after.sids@[j]) is None by {
        assert(after.sids@[j] == c.sids@[j]);
    }
    assert forall|j: int| after.next <= j < 2 && (#[trigger] after.existing@[j]) is Some implies {
        let k = after.existing@[j]->0;
        db.streams.contains_key(k) && then.contains_key(k) && then[k] == db.streams[k]
    } by {
        let k = c.existing@[j]->0;
        assert(c.existing@[j] is Some);
        assert(is_placed(table, k, c.camera_id, j));
        if k == sid {
            if plan is Insert {
                assert(!table.contains_key(k));
            } else {
                assert(table[sid].type_.position() == i);
            }
        }
    }
}

proof fn lemma_other_cameras(
    c: StreamStateChanger,
    db: StateView,
    t: Tables,
    after: Tables,
    k: i32,
)
    requires
        mirrors(db, t),
        settles(c, db, t, after.streams),
        k != c.camera_id,
        db.cameras.contains_key(k),
        after.cameras.contains_key(k),
        after.cameras[k] == t.cameras[k],
    ensures
        camera_mirrors(db.cameras[k], k, after.cameras, after.streams),
{
    assert(camera_mirrors(db.cameras[k], k, t.cameras, t.streams));
    assert forall|sid: i32, i: int| 0 <= i < 2 implies (#[trigger] is_placed(
        after.streams,
        sid,
        k,
        i,
    ) <==> db.cameras[k].streams[i] == Some(sid)) by {
        assert(is_placed(after.streams, sid, k, i) <==> is_placed(t.streams, sid, k, i));
    }
}

/// Adding a camera under a new id and a new uuid keeps the mirror.
pub proof fn lemma_camera_added_mirrors(
    db: StateView,
    t: Tables,
    after: Tables,
    uuid: Uuid,
    change: CameraChange,
    c: StreamStateChanger,
)
    requires
        mirrors(db, t),
        settles(c, db, t, after.streams),
        c.next == 2,
        !t.cameras.contains_key(c.camera_id),
        forall|k: i32| #[trigger] t.cameras.contains_key(k) ==> t.cameras[k].uuid != uuid,
        after == (Tables {
            cameras: t.cameras.insert(c.camera_id, camera_in_change(uuid, change)),
            streams: after.streams,
            ..t
        }),
    ensures
        mirrors(camera_added(db, uuid, change, c), after),
{
    let db2 = camera_added(db, uuid, change, c);
    assert(db2.cameras.dom() =~= after.cameras.dom()) by {
        assert forall|k: i32| #[trigger]
            db2.cameras.dom().contains(k) <==> after.cameras.dom().contains(k) by {
            assert(db.cameras.dom().contains(k) <==> t.cameras.dom().contains(k));
        }
    }
    assert forall|k: i32| #[trigger] db2.cameras.contains_key(k) implies camera_mirrors(
        db2.cameras[k],
        k,
        after.cameras,
        after.streams,
    ) by {
        if k != c.camera_id {
            assert(db.cameras.contains_key(k));
            assert(db.cameras.dom().contains(k));
            assert(t.cameras.contains_key(k));
            lemma_other_cameras(c, db, t, after, k);
        }
    }
    assert forall|n: u128| #[trigger] db2.camera_ids.contains_key(n) implies (
    after.cameras.contains_key(db2.camera_ids[n]) && uuid_number(
        after.cameras[db2.camera_ids[n]].uuid,
    ) == n) by {
        if n != uuid_number(uuid) {
            assert(db.camera_ids.contains_key(n));
        }
    }
    assert forall|k: i32| #[trigger]
        after.cameras.contains_key(k) implies db2.camera_ids.contains_key(
        uuid_number(after.cameras[k].uuid),
    ) && db2.camera_ids[uuid_number(after.cameras[k].uuid)] == k by {
        if k != c.camera_id {
            assert(t.cameras.contains_key(k));
            if uuid_number(t.cameras[k].uuid) == uuid_number(uuid) {
                lemma_uuid_number_injective(t.cameras[k].uuid, uuid);
            }
        }
    }
    assert(cameras_mirror(db2, after));
    assert(streams_mirror(db2, after));
}

/// Updating a camera keeps the mirror.
pub proof fn lemma_camera_updated_mirrors(
    db: StateView,
    t: Tables,
    after: Tables,
    change: CameraChange,
    c: StreamStateChanger,
)
    requires
        mirrors(db, t),
        settles(c, db, t, after.streams),
        c.next == 2,
        db.cameras.contains_key(c.camera_id),
        after == (Tables {
            cameras: t.cameras.insert(
                c.camera_id,
                camera_in_change(t.cameras[c.camera_id].uuid, change),
            ),
            streams: after.streams,
            ..t
        }),
    ensures
        mirrors(camera_updated(db, c.camera_id, change, c), after),
{
    let db2 = camera_updated(db, c.camera_id, change, c);
    assert(camera_mirrors(db.cameras[c.camera_id], c.camera_id, t.cameras, t.streams));
    assert(db2.cameras.dom() =~= after.cameras.dom()) by {
        assert forall|k: i32| #[trigger]
            db2.cameras.dom().contains(k) <==> after.cameras.dom().contains(k) by {
            assert(db.cameras.dom().contains(k) <==> t.cameras.dom().contains(k));
        }
    }
    assert forall|k: i32| #[trigger] db2.cameras.contains_key(k) implies camera_mirrors(
        db2.cameras[k],
        k,
        after.cameras,
        after.streams,
    ) by {
        if k != c.camera_id {
            assert(db.cameras.contains_key(k));
            assert(db.cameras.dom().contains(k));
            assert(t.cameras.contains_key(k));
            lemma_other_cameras(c, db, t, after, k);
        }
    }
    assert forall|n: u128| #[trigger] db2.camera_ids.contains_key(n) implies (
    after.cameras.contains_key(db2.camera_ids[n]) && uuid_number(
        after.cameras[db2.camera_ids[n]].uuid,
    ) == n) by {
        assert(db.camera_ids.contains_key(n));
    }
    assert forall|k: i32| #[trigger]
        after.cameras.contains_key(k) implies db2.camera_ids.contains_key(
        uuid_number(after.cameras[k].uuid),
    ) && db2.camera_ids[uuid_number(after.cameras[k].uuid)] == k by {
        assert(t.cameras.contains_key(k));
    }
    assert(cameras_mirror(db2, after));
    assert(streams_mirror(db2, after));
}

/// Deleting a camera with its streams keeps the mirror.
pub proof fn lemma_camera_deleted_mirrors(
    db: StateView,
    t: Tables,
    camera_id: i32,
    list: Seq<(i32, bool)>,
)
    requires
        mirrors(db, t),
        db.cameras.contains_key(camera_id),
        lists_streams(db.streams, camera_id, list),
    ensures
        mirrors(
            camera_deleted(db, camera_id, db.cameras[camera_id].uuid, listed(list)),
            (Tables {
                cameras: t.cameras.remove(camera_id),
                streams: t.streams.remove_keys(listed(list)),
                ..t
            }),
        ),
{
    let uuid = db.cameras[camera_id].uuid;
    let db2 = camera_deleted(db, camera_id, uuid, listed(list));
    let t2 = Tables {
        cameras: t.cameras.remove(camera_id),
        streams: t.streams.remove_keys(listed(list)),
        ..t
    };
    let keys = list.map_values(|x: (i32, bool)| x.0);
    assert(camera_mirrors(db.cameras[camera_id], camera_id, t.cameras, t.streams));
    assert forall|sid: i32| #[trigger] listed(list).contains(sid) implies db.streams.contains_key(
        sid,
    ) && db.streams[sid].camera_id == camera_id by {
        let i = choose|i: int| 0 <= i < keys.len() && keys[i] == sid;
        assert(list[i].0 == sid);
    }
    assert(db2.streams.dom() =~= t2.streams.dom()) by {
        assert forall|k: i32| #[trigger]
            db2.streams.dom().contains(k) <==> t2.streams.dom().contains(k) by {
            assert(db.streams.dom().contains(k) <==> t.streams.dom().contains(k));
        }
    }
    assert forall|sid: i32| #[trigger] db2.streams.contains_key(sid) implies stream_mirrors(
        db2.streams[sid],
        sid,
        t2,
    ) by {
        assert(db.streams.contains_key(sid));
        assert(stream_mirrors(db.streams[sid], sid, t));
    }
    assert(db2.cameras.dom() =~= t2.cameras.dom()) by {
        assert forall|k: i32| #[trigger]
            db2.cameras.dom().contains(k) <==> t2.cameras.dom().contains(k) by {
            assert(db.cameras.dom().contains(k) <==> t.cameras.dom().contains(k));
        }
    }
    assert forall|k: i32| #[trigger] db2.cameras.contains_key(k) implies camera_mirrors(
        db2.cameras[k],
        k,
        t2.cameras,
        t2.streams,
    ) by {
        assert(db.cameras.contains_key(k));
        assert(camera_mirrors(db.cameras[k], k, t.cameras, t.streams));
        assert forall|sid: i32, i: int| 0 <= i < 2 implies (#[trigger] is_placed(
            t2.streams,
            sid,
            k,
            i,
        ) <==> db2.cameras[k].streams[i] == Some(sid)) by {
            assert(is_placed(t.streams, sid, k, i) <==> db.cameras[k].streams[i] == Some(sid));
            if is_placed(t.streams, sid, k, i) && listed(list).contains(sid) {
                assert(db.streams.contains_key(sid));
                assert(stream_mirrors(db.streams[sid], sid, t));
            }
        }
    }
    assert forall|n: u128| #[trigger] db2.camera_ids.contains_key(n) implies (
    t2.cameras.contains_key(db2.camera_ids[n]) && uuid_number(t2.cameras[db2.camera_ids[n]].uuid)
        == n) by {
        assert(db.camera_ids.contains_key(n));
    }
    assert forall|k: i32| #[trigger] t2.cameras.contains_key(k) implies db2.camera_ids.contains_key(
        uuid_number(t2.cameras[k].uuid),
    ) && db2.camera_ids[uuid_number(t2.cameras[k].uuid)] == k by {
        assert(t.cameras.contains_key(k));
        assert(t.cameras.contains_key(camera_id));
    }
    assert(cameras_mirror(db2, t2));
    assert(streams_mirror(db2, t2));
}

/// Whether the days of the streams, once the changes so far are applied, are what the tables say.
pub open spec fn days_settle(c: StreamStateChanger, db: StateView, t: Tables) -> bool {
    forall|sid: i32| #[trigger]
        streams_after(c, db.streams).contains_key(sid) ==> streams_after(c, db.streams)[sid].days
            == days_of(of_stream(t.recordings, sid))
}

/// Each step of a change of streams leaves the days to be what the tables say, as long as there are
/// no recordings under the id of a stream that is inserted.
pub proof fn lemma_change_keeps_days(
    c: StreamStateChanger,
    after: StreamStateChanger,
    db: StateView,
    t: Tables,
    change: CameraChange,
    reply: Reply,
)
    requires
        c.valid(db.streams, change),
        c.next < 2,
        days_mirror(db, t),
        days_settle(c, db, t),
        c.advanced(after, db.streams, change, reply, Ok(())),
        c.plan(db.streams, change)->Ok_0 is Insert ==> of_stream(
            t.recordings,
            reply->Ok_0.last_insert_rowid as i32,
        ) == Map::<i64, Recorded>::empty(),
    ensures
        days_settle(after, db, t),
{
    let i = c.next as int;
    let plan = c.plan(db.streams, change)->Ok_0;
    let outcome = plan_outcome(
        db.streams,
        c.camera_id,
        type_at(i),
        change.streams@[i],
        plan,
        reply,
    );
    let (sid, s) = outcome->Ok_0;
    let before = streams_after(c, db.streams);
    let then = streams_after(after, db.streams);
    assert(outcomes_view(after.streams@).drop_last() =~= outcomes_view(c.streams@));
    assert(then == match s {
        Some(s) => before.insert(sid, s),
        None => before.remove(sid),
    });
    assert forall|k: i32| #[trigger] then.contains_key(k) implies then[k].days == days_of(
        of_stream(t.recordings, k),
    ) by {
        if k == sid {
            if plan is Update {
                assert(c.existing@[i] is Some);
                assert(db.streams.contains_key(sid));
            } else {
                let none = Map::<i64, Recorded>::empty();
                assert forall|day: Seq<u8>| count_on(none, day) == 0 by {
                    assert(none.dom() =~= Set::<i64>::empty());
                }
                assert(days_of(none) =~= Map::<Seq<u8>, StreamDayValue>::empty());
            }
        } else {
            assert(before.contains_key(k));
        }
    }
}

/// Once a camera is added, updated or deleted, the days of the streams are what the tables say.
pub proof fn lemma_camera_changes_keep_days(
    db: StateView,
    t: Tables,
    after: Tables,
    uuid: Uuid,
    change: CameraChange,
    c: StreamStateChanger,
    gone: Set<i32>,
)
    requires
        days_mirror(db, t),
        days_settle(c, db, t),
        after.recordings == t.recordings,
    ensures
        days_mirror(camera_added(db, uuid, change, c), after),
        days_mirror(camera_updated(db, c.camera_id, change, c), after),
        days_mirror(camera_deleted(db, c.camera_id, uuid, gone), after),
{
    let deleted = camera_deleted(db, c.camera_id, uuid, gone);
    assert forall|sid: i32| #[trigger]
        deleted.streams.contains_key(sid) implies deleted.streams[sid].days == days_of(
        of_stream(after.recordings, sid),
    ) by {
        assert(db.streams.contains_key(sid));
    }
}

} // verus!
