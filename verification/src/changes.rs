//! What changes to cameras, directories and entries do, said of whatever the functions may return.
//!
//! As in `laws`, each lemma takes the arguments of a function and a result that the function may
//! return for them.
use crate::cameras::{AddCamera, DeleteCamera, UpdateCamera};
use crate::changer::{
    lemma_seek_passes_over_nothing_else, stream_plan, StreamPlan, StreamStateChanger,
};
use crate::dirs::{
    AddDirStage, AddSampleFileDir, DeleteSampleFileDir, OpenSampleFileDirs, OpenStage,
};
use crate::entries::InsertVideoSampleEntry;
use crate::error::Error;
use crate::ids::StreamType;
use crate::laws::is_described;
use crate::load::{fresh_state, OpenForWriting};
use crate::model::{
    streams_view, Camera, DirHandle, LockedDatabase, Open, SampleFileDir, StateView, Stream,
};
use crate::statement::{Action, CameraChange, Reply, Statement};
use crate::uuids::{uuid_number, Uuid};
use std::collections::BTreeMap;
use vstd::prelude::*;

verus! {

/// Whether `a` and `b` differ in nothing but what they know of directories.
pub open spec fn same_but_dirs(a: StateView, b: StateView) -> bool {
    b == StateView { dirs: b.dirs, ..a }
}

/// Whether what is known of directories other than `id` is the same in `a` and `b`.
pub open spec fn same_other_dirs(a: StateView, b: StateView, id: i32) -> bool {
    forall|k: i32|
        k != id ==> (#[trigger] a.dirs.contains_key(k) <==> b.dirs.contains_key(k)) && a.dirs[k]
            == b.dirs[k]
}

/// Whether `a` and `b` differ in nothing but what they know of cameras and their streams.
pub open spec fn same_but_cameras(a: StateView, b: StateView) -> bool {
    b == StateView {
        cameras: b.cameras,
        camera_ids: b.camera_ids,
        streams: b.streams,
        ..a
    }
}

/// A database that nothing was loaded into yet has the uuid and the period of writing that it was
/// given, and knows of nothing. It can hold 1024 video indexes.
pub proof fn lemma_fresh_database(uuid: Uuid, open: Option<Open>, db: LockedDatabase)
    requires
        call_ensures(LockedDatabase::new, (uuid, open), db),
    ensures
        db@.uuid == uuid,
        db@.open == open,
        forall|id: i32| !#[trigger] db@.dirs.contains_key(id),
        forall|id: i32| !#[trigger] db@.cameras.contains_key(id),
        forall|id: i32| !#[trigger] db@.streams.contains_key(id),
        forall|id: i32| !#[trigger] db@.entries.contains_key(id),
        forall|n: u128| !#[trigger] db@.camera_ids.contains_key(n),
        db@.cache.len() == 0,
        db@.cache_capacity == 1024,
        db@.list_recordings_by_time_sql == fresh_state(uuid, open).list_recordings_by_time_sql,
{
}

/// A period of writing is inserted under its uuid, and has the id of the row.
pub proof fn lemma_open_for_writing(
    op: OpenForWriting,
    statement: Statement<'_>,
    reply: Reply,
    r: Result<Open, Error>,
)
    requires
        call_ensures(OpenForWriting::statement, (&op,), statement),
        call_ensures(OpenForWriting::finish, (op, reply), r),
    ensures
        statement matches Statement::InsertOpen { uuid } && uuid == op.uuid,
        r is Ok <==> reply is Ok,
        r matches Ok(open) ==> open.uuid == op.uuid && open.id
            == reply->Ok_0.last_insert_rowid as u32,
{
}

/// A directory can be used exactly if it is open.
pub proof fn lemma_dir_must_be_open(dir: SampleFileDir, r: Result<DirHandle, Error>)
    requires
        call_ensures(SampleFileDir::get, (&dir,), r),
    ensures
        r is Ok <==> dir.dir is Some,
        r matches Ok(handle) ==> Some(handle) == dir.dir,
        r is Err ==> r == Err::<DirHandle, Error>(Error::DirClosed(dir.id)),
{
}

/// The names and the places of the stream types.
pub proof fn lemma_stream_type_names()
    ensures
        StreamType::MAIN.name() == "main"@,
        StreamType::SUB.name() == "sub"@,
        StreamType::MAIN.position() == 0,
        StreamType::SUB.position() == 1,
{
}

/// In read-only mode, a directory that was opened is open from then on, and that is all. In
/// read-write mode, nothing about it changes until the rows of all directories are updated.
pub proof fn lemma_dir_opened(
    op: &mut OpenSampleFileDirs<'_>,
    db: &mut LockedDatabase,
    reply: Result<DirHandle, String>,
    r: Result<(), Error>,
    n: usize,
)
    requires
        old(op).valid(old(db)@),
        old(op).stage == OpenStage::Opening(n),
        call_ensures(OpenSampleFileDirs::opened, (op, db, reply), r),
    ensures
        reply is Err ==> r is Err && final(db)@ == old(db)@,
        old(db)@.open is Some ==> final(db)@ == old(db)@,
        old(db)@.open is None ==> (reply matches Ok(dir) ==> {
            let id = old(op).ids@[n as int];
            &&& same_but_dirs(old(db)@, final(db)@)
            &&& same_other_dirs(old(db)@, final(db)@, id)
            &&& final(db)@.dirs.contains_key(id)
            &&& final(db)@.dirs[id].dir == Some(dir)
            &&& final(db)@.dirs[id].uuid == old(db)@.dirs[id].uuid
            &&& final(db)@.dirs[id].path == old(db)@.dirs[id].path
            &&& final(db)@.dirs[id].last_complete_open == old(db)@.dirs[id].last_complete_open
        }),
{
}

/// In read-write mode, the current period of writing becomes the last complete open of exactly the
/// directories that are being opened, once their rows are updated and that is committed. Each is
/// open from when its metadata are written.
pub proof fn lemma_open_completes(
    op: &mut OpenSampleFileDirs<'_>,
    db: &mut LockedDatabase,
    reply: Reply,
    r: Result<(), Error>,
)
    requires
        old(op).valid(old(db)@),
        old(op).stage is Updating || old(op).stage is Writing,
        call_ensures(OpenSampleFileDirs::advance, (op, db, reply), r),
    ensures
        r is Err ==> final(db)@ == old(db)@,
        same_but_dirs(old(db)@, final(db)@),
        forall|id: i32| #[trigger]
            final(db)@.dirs.contains_key(id) <==> old(db)@.dirs.contains_key(id),
        old(op).stage matches OpenStage::Updating { keys, next } ==> {
            &&& next < keys@.len() ==> final(db)@ == old(db)@ && (r is Ok <==> reply is Ok
                && reply->Ok_0.changes == 1)
            &&& next == keys@.len() && r is Ok ==> forall|id: i32| #[trigger]
                final(db)@.dirs.contains_key(id) ==> {
                    let before = old(db)@.dirs[id];
                    let after = final(db)@.dirs[id];
                    &&& after.last_complete_open == if old(op).pending().contains(id) {
                        old(db)@.open
                    } else {
                        before.last_complete_open
                    }
                    &&& after.dir == before.dir
                    &&& after.uuid == before.uuid && after.path == before.path
                }
        },
        old(op).stage matches OpenStage::Writing { keys, next } ==> {
            let id = keys@[next as int];
            r is Ok ==> {
                &&& same_other_dirs(old(db)@, final(db)@, id)
                &&& final(db)@.dirs[id].dir == Some(old(op).in_progress@[id].1)
                &&& final(db)@.dirs[id].uuid == old(db)@.dirs[id].uuid
                &&& final(db)@.dirs[id].path == old(db)@.dirs[id].path
                &&& final(db)@.dirs[id].last_complete_open == old(db)@.dirs[id].last_complete_open
            }
        },
{
    if old(op).stage is Writing {
        let keys = old(op).stage->Writing_keys;
        let id = keys@[old(op).stage->Writing_next as int];
        assert(keys@.contains(id));
        assert(old(op).pending().contains(id));
    }
}

/// A directory that was added is known by the id of its row from when the row is inserted: with its
/// path, the uuid in its row and its metadata, open, and with the current period of writing as its
/// last complete open. Other directories are as they were.
pub proof fn lemma_dir_added(
    op: &mut AddSampleFileDir,
    db: &mut LockedDatabase,
    reply: Reply,
    r: Result<Option<i32>, Error>,
)
    requires
        !(old(op).stage is Create),
        call_ensures(AddSampleFileDir::advance, (op, db, reply), r),
    ensures
        r is Err ==> final(db)@ == old(db)@,
        same_but_dirs(old(db)@, final(db)@),
        old(op).stage matches AddDirStage::Insert { dir } ==> (r is Ok ==> {
            let id = reply->Ok_0.last_insert_rowid as i32;
            &&& !old(db)@.dirs.contains_key(id)
            &&& final(db)@.dirs.contains_key(id)
            &&& final(db)@.dirs[id].id == id
            &&& final(db)@.dirs[id].path == old(op).path@
            &&& final(db)@.dirs[id].uuid == old(op).meta.dir_uuid
            &&& final(db)@.dirs[id].dir == Some(dir)
            &&& final(db)@.dirs[id].last_complete_open == Some(old(op).open)
            &&& same_other_dirs(old(db)@, final(db)@, id)
            &&& final(op).stage == (AddDirStage::WriteMeta { dir, id })
        }),
        old(op).stage matches AddDirStage::WriteMeta { id, .. } ==> {
            &&& final(db)@ == old(db)@
            &&& r is Ok <==> reply is Ok
            &&& r is Ok ==> r == Ok::<Option<i32>, Error>(Some(id))
        },
{
}

/// A directory that was deleted is no longer known; others are as they were. It has to have had a
/// row.
pub proof fn lemma_dir_deleted(
    op: DeleteSampleFileDir,
    statement: Statement<'_>,
    db: &mut LockedDatabase,
    reply: Reply,
    r: Result<(), Error>,
)
    requires
        reply matches Ok(done) ==> done.changes == 1 ==> old(db)@.dirs.contains_key(op.dir_id),
        call_ensures(DeleteSampleFileDir::statement, (&op,), statement),
        call_ensures(DeleteSampleFileDir::finish, (op, db, reply), r),
    ensures
        statement matches Statement::DeleteSampleFileDir { dir_id } && dir_id == op.dir_id,
        r is Ok <==> reply is Ok && reply->Ok_0.changes == 1,
        r is Err ==> final(db)@ == old(db)@,
        r is Ok ==> {
            &&& same_but_dirs(old(db)@, final(db)@)
            &&& !final(db)@.dirs.contains_key(op.dir_id)
            &&& same_other_dirs(old(db)@, final(db)@, op.dir_id)
        },
{
}

/// A video sample entry that was inserted is known by the id of its row, as it was given. Others
/// are as they were.
pub proof fn lemma_entry_inserted(
    op: InsertVideoSampleEntry,
    statement: Statement<'_>,
    db: &mut LockedDatabase,
    reply: Reply,
    r: Result<i32, Error>,
)
    requires
        call_ensures(InsertVideoSampleEntry::statement, (&op,), statement),
        call_ensures(InsertVideoSampleEntry::finish, (op, db, reply), r),
    ensures
        statement matches Statement::InsertVideoSampleEntry {
            sha1,
            width,
            height,
            rfc6381_codec,
            data,
        } && sha1@ == op.sha1@ && width == op.width && height == op.height && rfc6381_codec@
            == op.rfc6381_codec@ && data@ == op.data@,
        r is Ok <==> reply is Ok,
        r is Err ==> final(db)@ == old(db)@,
        r matches Ok(id) ==> {
            let e = final(db)@.entries[id];
            &&& id == reply->Ok_0.last_insert_rowid as i32
            &&& final(db)@ == StateView { entries: final(db)@.entries, ..old(db)@ }
            &&& final(db)@.entries.contains_key(id)
            &&& e.id == id && e.sha1 == op.sha1@ && e.width == op.width && e.height == op.height
            &&& e.data == op.data@ && e.rfc6381_codec == op.rfc6381_codec@
            &&& forall|k: i32|
                k != id ==> (#[trigger] final(db)@.entries.contains_key(k) <==> old(
                    db,
                )@.entries.contains_key(k)) && final(db)@.entries[k] == old(db)@.entries[k]
        },
{
}

/// The statement about a camera's stream is about the stream whose turn it is, and does what is
/// wanted of it.
pub proof fn lemma_stream_statement(
    c: StreamStateChanger,
    streams: BTreeMap<i32, Stream>,
    change: CameraChange,
    statement: Option<Statement<'_>>,
)
    requires
        c.valid(streams_view(streams@), change),
        call_ensures(StreamStateChanger::statement, (&c, &streams, &change), statement),
    ensures
        statement is Some <==> c.next < 2,
        c.next < 2 ==> {
            let i = c.next as int;
            match stream_plan(streams_view(streams@), c.existing@[i], change.streams@[i]) {
                Ok(StreamPlan::Delete { stream_id: sid }) => statement->0 matches
                    Statement::DeleteStream { stream_id } && stream_id == sid,
                Ok(StreamPlan::Update { stream_id: sid }) => statement->0 matches
                    Statement::UpdateStream { stream_id, change: sc } && stream_id == sid && *sc
                    == change.streams@[i],
                Ok(StreamPlan::Insert) => statement->0 matches Statement::InsertStream {
                    camera_id,
                    type_,
                    change: sc,
                } && camera_id == c.camera_id && type_.position() == i && *sc == change.streams@[i],
                _ => false,
            }
        },
{
}

/// A camera is added in this order: its row, the streams that are wanted, and the commit. Before
/// the commit, nothing shows; after it, the camera is known by its id and by its uuid, as
/// described.
pub proof fn lemma_camera_added(
    op: &mut AddCamera,
    db: &mut LockedDatabase,
    reply: Reply,
    r: Result<Option<i32>, Error>,
)
    requires
        old(op).valid(old(db)@),
        call_ensures(AddCamera::advance, (op, db, reply), r),
    ensures
        !(r matches Ok(Some(_))) ==> final(db)@ == old(db)@,
        r matches Ok(Some(id)) ==> {
            &&& old(op).changer matches Some(c) && c.next == 2 && c.camera_id == id
            &&& reply is Ok
            &&& final(db)@.cameras.contains_key(id)
            &&& is_described(final(db)@.cameras[id], id, old(op).uuid, old(op).camera)
            &&& final(db)@.camera_ids.contains_key(uuid_number(old(op).uuid))
            &&& final(db)@.camera_ids[uuid_number(old(op).uuid)] == id
            &&& same_but_cameras(old(db)@, final(db)@)
            &&& forall|k: i32|
                k != id ==> (#[trigger] final(db)@.cameras.contains_key(k) <==> old(
                    db,
                )@.cameras.contains_key(k)) && final(db)@.cameras[k] == old(db)@.cameras[k]
        },
        old(op).changer is None && r is Ok ==> (final(op).changer matches Some(c) && c.camera_id
            == reply->Ok_0.last_insert_rowid as i32),
{
}

/// What is run to add a camera: first its row is inserted, under its uuid and as described.
pub proof fn lemma_camera_added_first(op: AddCamera, db: LockedDatabase, action: Action<'_>)
    requires
        op.valid(db@),
        call_ensures(AddCamera::action, (&op, &db), action),
    ensures
        op.changer is None ==> (action matches Action::Run(
            Statement::InsertCamera { uuid, camera },
        ) && uuid == op.uuid && *camera == op.camera),
        op.changer matches Some(c) ==> {
            &&& c.next < 2 ==> (action matches Action::Run(
                Statement::InsertStream { camera_id, type_, change },
            ) && camera_id == c.camera_id && type_.position() == c.next && *change
                == op.camera.streams@[c.next as int])
            &&& c.next == 2 ==> action is Commit
        },
{
}

/// A camera is updated in this order: its streams, its row, and the commit. Before the commit,
/// nothing shows; after it, the camera is as described, with the id and the uuid that it had.
pub proof fn lemma_camera_updated(
    op: &mut UpdateCamera,
    db: &mut LockedDatabase,
    reply: Reply,
    r: Result<Option<()>, Error>,
)
    requires
        old(op).valid(old(db)@),
        call_ensures(UpdateCamera::advance, (op, db, reply), r),
    ensures
        !(r matches Ok(Some(_))) ==> final(db)@ == old(db)@,
        r matches Ok(Some(_)) ==> {
            let id = old(op).camera_id;
            let before = old(db)@.cameras[id];
            &&& reply is Ok && old(op).updated && old(op).changer.next == 2
            &&& final(db)@.cameras.contains_key(id)
            &&& is_described(final(db)@.cameras[id], before.id, before.uuid, old(op).camera)
            &&& final(db)@.camera_ids == old(db)@.camera_ids
            &&& same_but_cameras(old(db)@, final(db)@)
            &&& forall|k: i32|
                k != id ==> (#[trigger] final(db)@.cameras.contains_key(k) <==> old(
                    db,
                )@.cameras.contains_key(k)) && final(db)@.cameras[k] == old(db)@.cameras[k]
        },
        old(op).changer.next == 2 && !old(op).updated ==> (r is Ok <==> reply is Ok
            && reply->Ok_0.changes == 1),
{
}

/// A camera is deleted in this order: its streams one by one, its row, and the commit. Each has to
/// have had a row, and no stream may have recordings. Before the commit, nothing shows.
pub proof fn lemma_camera_deleted(
    op: &mut DeleteCamera,
    action: Action<'_>,
    db: &mut LockedDatabase,
    reply: Reply,
    r: Result<Option<()>, Error>,
)
    requires
        old(op).valid(),
        call_ensures(DeleteCamera::action, (&*old(op),), action),
        call_ensures(DeleteCamera::advance, (op, db, reply), r),
    ensures
        !(r matches Ok(Some(_))) ==> final(db)@ == old(db)@,
        r matches Ok(Some(_)) ==> {
            &&& old(op).deleted == old(op).streams@.len() && old(op).camera_deleted
            &&& forall|i: int|
                0 <= i < old(op).streams@.len() ==> !(#[trigger] old(op).streams@[i]).1
            &&& !final(db)@.cameras.contains_key(old(op).camera_id)
            &&& !final(db)@.camera_ids.contains_key(uuid_number(old(op).uuid))
            &&& same_but_cameras(old(db)@, final(db)@)
            &&& forall|i: int|
                0 <= i < old(op).streams@.len() ==> !final(db)@.streams.contains_key(
                    (#[trigger] old(op).streams@[i]).0,
                )
        },
        old(op).deleted < old(op).streams@.len() ==> {
            let next = old(op).deleted + 1;
            &&& action matches Action::Run(Statement::DeleteStream { stream_id }) && stream_id
                == old(op).streams@[old(op).deleted as int].0
            &&& r is Ok <==> {
                &&& reply is Ok && reply->Ok_0.changes == 1
                &&& next < old(op).streams@.len() ==> !old(op).streams@[next].1
            }
        },
        old(op).deleted == old(op).streams@.len() && !old(op).camera_deleted ==> {
            &&& action matches Action::Run(Statement::DeleteCamera { camera_id }) && camera_id
                == old(op).camera_id
            &&& r is Ok <==> reply is Ok && reply->Ok_0.changes == 1
        },
        old(op).deleted == old(op).streams@.len() && old(op).camera_deleted ==> action is Commit,
{
    let keys = old(op).streams@.map_values(|x: (i32, bool)| x.0);
    assert forall|i: int| 0 <= i < old(op).streams@.len() implies keys.to_set().contains(
        (#[trigger] old(op).streams@[i]).0,
    ) by {
        assert(keys[i] == old(op).streams@[i].0);
    }
}

/// The camera with a uuid is the one whose id is known for the uuid, if any.
pub proof fn lemma_camera_by_uuid(db: LockedDatabase, uuid: Uuid, r: Option<&Camera>)
    requires
        db@.cameras_linked(),
        call_ensures(LockedDatabase::get_camera, (&db, uuid), r),
    ensures
        r is Some <==> db@.camera_ids.contains_key(uuid_number(uuid)),
        r matches Some(c) ==> {
            let id = db@.camera_ids[uuid_number(uuid)];
            &&& db@.cameras.contains_key(id)
            &&& c@ == db@.cameras[id]
            &&& c.uuid == uuid
        },
{
}

/// An update of a camera starts with the first of its streams that something is to be done with. It
/// is refused exactly if there is no such camera, or if a stream would be taken out of the
/// directory that its recordings are in before anything is to be done.
pub proof fn lemma_camera_update_starts(
    db: LockedDatabase,
    camera_id: i32,
    change: CameraChange,
    r: Result<UpdateCamera, Error>,
)
    requires
        call_ensures(LockedDatabase::update_camera, (&db, camera_id, change), r),
    ensures
        !db@.cameras.contains_key(camera_id) ==> r == Err::<UpdateCamera, Error>(
            Error::NoSuchCamera(camera_id),
        ),
        r matches Ok(op) ==> {
            let existing = db@.cameras[camera_id].streams;
            &&& db@.cameras.contains_key(camera_id)
            &&& op.camera_id == camera_id && op.changer.camera_id == camera_id
            &&& op.camera == change
            &&& op.changer.existing@ == existing
            &&& !op.updated
            &&& op.changer.next <= 2
            &&& forall|i: int|
                0 <= i < op.changer.next ==> {
                    let plan = stream_plan(db@.streams, #[trigger] existing[i], change.streams@[i]);
                    plan is Ok && plan->Ok_0 is Nothing
                }
        },
        r is Err && db@.cameras.contains_key(camera_id) ==> exists|i: int|
            0 <= i < 2 && stream_plan(
                db@.streams,
                #[trigger] db@.cameras[camera_id].streams[i],
                change.streams@[i],
            ) == Err::<StreamPlan, Error>(r->Err_0),
{
    if db@.cameras.contains_key(camera_id) {
        lemma_seek_passes_over_nothing_else(
            db@.streams,
            db@.cameras[camera_id].streams,
            change.streams@,
            0,
        );
    }
}

} // verus!
