//! Adding, updating and deleting cameras.
use crate::changer::{
    outcomes_applied, outcomes_view, seek_plan, streams_known, type_at, StreamOutcome, StreamPlan,
    StreamStateChanger,
};
use crate::error::Error;
use crate::keys::{ascending, ascending_keys};
use crate::model::{Camera, CameraView, LockedDatabase, StateView, StreamView};
use crate::statement::{Action, CameraChange, Reply, Statement};
use crate::uuids::{may_be_random, uuid_number, Uuid};
use vstd::prelude::*;

verus! {

broadcast use {
    vstd::std_specs::btree::group_btree_axioms,
    vstd::laws_cmp::group_laws_cmp,
};

/// The streams of a camera that has none.
pub open spec fn no_streams() -> Seq<Option<i32>> {
    seq![None, None]
}

/// A camera as `change` describes it.
pub open spec fn camera_view_of(
    id: i32,
    uuid: Uuid,
    change: CameraChange,
    streams: Seq<Option<i32>>,
) -> CameraView {
    CameraView {
        id,
        uuid,
        short_name: change.short_name@,
        description: change.description@,
        host: change.host@,
        username: change.username@,
        password: change.password@,
        streams,
    }
}

/// The success or the error of a step.
pub open spec fn step_result<T>(r: Result<Option<T>, Error>) -> Result<(), Error> {
    match r {
        Ok(_) => Ok(()),
        Err(e) => Err(e),
    }
}

/// A camera being added.
pub struct AddCamera {
    pub uuid: Uuid,
    pub camera: CameraChange,
    /// The changes to its streams, once the camera itself is inserted.
    pub changer: Option<StreamStateChanger>,
}

/// `db` after a camera was added.
pub open spec fn camera_added(
    db: StateView,
    uuid: Uuid,
    change: CameraChange,
    changer: StreamStateChanger,
) -> StateView {
    StateView {
        streams: outcomes_applied(db.streams, outcomes_view(changer.streams@)),
        cameras: db.cameras.insert(
            changer.camera_id,
            camera_view_of(changer.camera_id, uuid, change, changer.sids@),
        ),
        camera_ids: db.camera_ids.insert(uuid_number(uuid), changer.camera_id),
        ..db
    }
}

/// A copy of a camera's description.
fn camera_of(id: i32, uuid: Uuid, change: &CameraChange, streams: [Option<i32>; 2]) -> (r: Camera)
    ensures
        r@ == camera_view_of(id, uuid, *change, streams@),
{
    Camera {
        id,
        uuid,
        short_name: change.short_name.clone(),
        description: change.description.clone(),
        host: change.host.clone(),
        username: change.username.clone(),
        password: change.password.clone(),
        streams,
    }
}

impl LockedDatabase {
    /// Adds a camera under a uuid made at random. This starts the addition.
    pub fn add_camera(&self, camera: CameraChange) -> (r: AddCamera)
        ensures
            r.camera == camera,
            r.changer is None,
            may_be_random(r.uuid),
            r.uuid@[6] / 16 == 4,
            r.uuid@[8] / 64 == 2,
    {
        self.add_camera_with(Uuid::new_v4(), camera)
    }

    /// Adds a camera under the given uuid. This starts the addition.
    pub fn add_camera_with(&self, uuid: Uuid, camera: CameraChange) -> (r: AddCamera)
        ensures
            r == (AddCamera { uuid, camera, changer: None }),
    {
        AddCamera { uuid, camera, changer: None }
    }
}

impl AddCamera {
    /// Whether the changes to the streams, once they have begun, are valid.
    pub open spec fn valid(self, db: StateView) -> bool {
        self.changer matches Some(c) ==> c.valid(db.streams, self.camera) && c.existing@
            == no_streams()
    }

    /// What to do next.
    pub fn action(&self, db: &LockedDatabase) -> (r: Action<'_>)
        requires
            self.valid(db@),
        ensures
            match self.changer {
                None => r == Action::Run(
                    Statement::InsertCamera { uuid: self.uuid, camera: &self.camera },
                ),
                Some(c) => if c.next < 2 {
                    r == Action::Run(
                        (Statement::InsertStream {
                            camera_id: c.camera_id,
                            type_: type_at(c.next as int),
                            change: &self.camera.streams@[c.next as int],
                        }),
                    )
                } else {
                    r == Action::Commit
                },
            },
    {
        match &self.changer {
            None => Action::Run(
                Statement::InsertCamera { uuid: self.uuid, camera: &self.camera },
            ),
            Some(c) => {
                assert(c.next < 2 ==> c.existing@[c.next as int] == no_streams()[c.next as int]);
                match c.statement(&db.state.streams_by_id, &self.camera) {
                    Some(s) => Action::Run(s),
                    None => Action::Commit,
                }
            },
        }
    }

    /// Takes the reply to the action. Returns the id of the camera when all is done.
    pub fn advance(&mut self, db: &mut LockedDatabase, reply: Reply) -> (r: Result<
        Option<i32>,
        Error,
    >)
        requires
            old(self).valid(old(db)@),
        ensures
            final(self).uuid == old(self).uuid,
            final(self).camera == old(self).camera,
            !(r matches Ok(Some(_))) ==> final(db)@ == old(db)@,
            r matches Ok(None) ==> final(self).valid(final(db)@),
            match old(self).changer {
                None => match reply {
                    Err(e) => r == Err::<Option<i32>, Error>(Error::Sql(e)),
                    Ok(done) => r == Ok::<Option<i32>, Error>(None) && {
                        let n = seek_plan(
                            old(db)@.streams,
                            no_streams(),
                            old(self).camera.streams@,
                            0,
                        )->Ok_0;
                        &&& final(self).changer matches Some(c)
                        &&& c.camera_id == done.last_insert_rowid as i32
                        &&& c.sids@ == no_streams()
                        &&& outcomes_view(c.streams@) == Seq::<StreamOutcome>::empty()
                        &&& c.next == n
                    },
                },
                Some(c) => if c.next < 2 {
                    &&& !(r matches Ok(Some(_)))
                    &&& final(self).changer matches Some(after)
                    &&& c.advanced(
                        after,
                        old(db)@.streams,
                        old(self).camera,
                        reply,
                        step_result(r),
                    )
                } else {
                    match reply {
                        Err(e) => r == Err::<Option<i32>, Error>(Error::Sql(e)),
                        Ok(_) => r == Ok::<Option<i32>, Error>(Some(c.camera_id)) && final(db)@
                            == camera_added(old(db)@, old(self).uuid, old(self).camera, c),
                    }
                },
            },
    {
        let changer = match self.changer.take() {
            None => {
                let done = match reply {
                    Err(e) => return Err(Error::Sql(e)),
                    Ok(done) => done,
                };
                #[verifier::truncate]
                let camera_id: i32 = done.last_insert_rowid as i32;
                let existing: [Option<i32>; 2] = [None, None];
                assert(existing@ =~= no_streams());
                proof {
                    lemma_seek_without_streams(db@.streams, self.camera.streams@, 0);
                }
                return match StreamStateChanger::new(
                    camera_id,
                    existing,
                    &db.state.streams_by_id,
                    &self.camera,
                ) {
                    Err(e) => Err(e),
                    Ok(c) => {
                        self.changer = Some(c);
                        Ok(None)
                    },
                };
            },
            Some(changer) => changer,
        };
        let mut changer = changer;
        if changer.next < 2 {
            let r = changer.advance(&db.state.streams_by_id, &self.camera, reply);
            self.changer = Some(changer);
            return match r {
                Err(e) => Err(e),
                Ok(()) => Ok(None),
            };
        }
        match reply {
            Err(e) => return Err(Error::Sql(e)),
            Ok(_) => {},
        }
        let camera_id: i32 = changer.camera_id;
        let streams = changer.apply(&mut db.state.streams_by_id);
        let camera = camera_of(camera_id, self.uuid, &self.camera, streams);
        let ghost view = camera@;
        db.state.cameras_by_id.insert(camera_id, camera);
        assert(db@.cameras =~= old(db)@.cameras.insert(camera_id, view));
        db.state.cameras_by_uuid.insert(self.uuid.number(), camera_id);
        Ok(Some(camera_id))
    }
}

proof fn lemma_seek_without_streams(
    streams: Map<i32, StreamView>,
    changes: Seq<crate::statement::StreamChange>,
    from: int,
)
    requires
        0 <= from <= 2,
    ensures
        seek_plan(streams, no_streams(), changes, from) is Ok,
    decreases 2 - from,
{
    if from < 2 {
        assert(no_streams()[from] is None);
        lemma_seek_without_streams(streams, changes, from + 1);
    }
}

/// A camera being updated.
pub struct UpdateCamera {
    pub camera_id: i32,
    pub camera: CameraChange,
    /// The changes to its streams.
    pub changer: StreamStateChanger,
    /// Whether the camera itself is updated, once its streams are.
    pub updated: bool,
}

/// `db` after a camera was updated.
pub open spec fn camera_updated(
    db: StateView,
    camera_id: i32,
    change: CameraChange,
    changer: StreamStateChanger,
) -> StateView {
    let c = db.cameras[camera_id];
    StateView {
        streams: outcomes_applied(db.streams, outcomes_view(changer.streams@)),
        cameras: db.cameras.insert(
            camera_id,
            camera_view_of(c.id, c.uuid, change, changer.sids@),
        ),
        ..db
    }
}

/// Where cameras and streams name each other, every stream of a camera is known.
pub proof fn lemma_linked_known(db: StateView, camera_id: i32)
    requires
        db.streams_linked(),
        db.cameras.contains_key(camera_id),
        db.cameras[camera_id].streams.len() == 2,
    ensures
        streams_known(db.streams, db.cameras[camera_id].streams),
{
    let existing = db.cameras[camera_id].streams;
    assert forall|i: int| 0 <= i < existing.len() && (
    #[trigger] existing[i]) is Some implies db.streams.contains_key(existing[i]->0) by {
        assert(db.cameras[camera_id].streams[i] is Some);
        assert(db.stream_at_home(camera_id, i));
    }
}

impl LockedDatabase {
    /// Updates a camera. This starts the update.
    pub fn update_camera(&self, camera_id: i32, camera: CameraChange) -> (r: Result<
        UpdateCamera,
        Error,
    >)
        requires
            self@.cameras.contains_key(camera_id) ==> streams_known(
                self@.streams,
                self@.cameras[camera_id].streams,
            ),
        ensures
            if !self@.cameras.contains_key(camera_id) {
                r == Err::<UpdateCamera, Error>(Error::NoSuchCamera(camera_id))
            } else {
                let existing = self@.cameras[camera_id].streams;
                match seek_plan(self@.streams, existing, camera.streams@, 0) {
                    Err(e) => r == Err::<UpdateCamera, Error>(e),
                    Ok(n) => r matches Ok(op) && {
                        &&& op.valid(self@)
                        &&& op.camera_id == camera_id
                        &&& op.camera == camera
                        &&& !op.updated
                        &&& op.changer.camera_id == camera_id
                        &&& op.changer.existing@ == existing
                        &&& op.changer.sids@ == no_streams()
                        &&& outcomes_view(op.changer.streams@) == Seq::<StreamOutcome>::empty()
                        &&& op.changer.next == n
                    },
                }
            },
    {
        let existing: [Option<i32>; 2] = match self.state.cameras_by_id.get(&camera_id) {
            None => return Err(Error::NoSuchCamera(camera_id)),
            Some(c) => {
                assert(c@ == self@.cameras[camera_id]);
                c.streams
            },
        };
        match StreamStateChanger::new(camera_id, existing, &self.state.streams_by_id, &camera) {
            Err(e) => Err(e),
            Ok(changer) => Ok(UpdateCamera { camera_id, camera, changer, updated: false }),
        }
    }
}

impl UpdateCamera {
    /// Whether the camera is known and the changes to the streams are valid.
    pub open spec fn valid(self, db: StateView) -> bool {
        &&& db.cameras.contains_key(self.camera_id)
        &&& self.changer.valid(db.streams, self.camera)
        &&& self.updated ==> self.changer.next == 2
    }

    /// What to do next.
    pub fn action(&self, db: &LockedDatabase) -> (r: Action<'_>)
        requires
            self.valid(db@),
        ensures
            if self.changer.next < 2 {
                r == Action::Run(
                    match self.changer.plan(db@.streams, self.camera)->Ok_0 {
                        StreamPlan::Delete { stream_id } => Statement::DeleteStream { stream_id },
                        StreamPlan::Update { stream_id } => Statement::UpdateStream {
                            stream_id,
                            change: &self.camera.streams@[self.changer.next as int],
                        },
                        _ => Statement::InsertStream {
                            camera_id: self.changer.camera_id,
                            type_: type_at(self.changer.next as int),
                            change: &self.camera.streams@[self.changer.next as int],
                        },
                    },
                )
            } else if !self.updated {
                r == Action::Run(
                    Statement::UpdateCamera { camera_id: self.camera_id, camera: &self.camera },
                )
            } else {
                r == Action::Commit
            },
    {
        match self.changer.statement(&db.state.streams_by_id, &self.camera) {
            Some(s) => Action::Run(s),
            None => if !self.updated {
                Action::Run(
                    Statement::UpdateCamera { camera_id: self.camera_id, camera: &self.camera },
                )
            } else {
                Action::Commit
            },
        }
    }

    /// Takes the reply to the action. Returns something when all is done.
    pub fn advance(&mut self, db: &mut LockedDatabase, reply: Reply) -> (r: Result<
        Option<()>,
        Error,
    >)
        requires
            old(self).valid(old(db)@),
        ensures
            final(self).camera_id == old(self).camera_id,
            final(self).camera == old(self).camera,
            !(r matches Ok(Some(_))) ==> final(db)@ == old(db)@,
            r matches Ok(None) ==> final(self).valid(final(db)@),
            if old(self).changer.next < 2 {
                &&& !(r matches Ok(Some(_)))
                &&& final(self).updated == old(self).updated
                &&& old(self).changer.advanced(
                    final(self).changer,
                    old(db)@.streams,
                    old(self).camera,
                    reply,
                    step_result(r),
                )
            } else {
                match reply {
                    Err(e) => r == Err::<Option<()>, Error>(Error::Sql(e)),
                    Ok(done) => if !old(self).updated {
                        &&& final(self).changer == old(self).changer
                        &&& if done.changes != 1 {
                            r == Err::<Option<()>, Error>(
                                Error::CameraMissing(old(self).camera_id),
                            )
                        } else {
                            r == Ok::<Option<()>, Error>(None) && final(self).updated
                        }
                    } else {
                        &&& r == Ok::<Option<()>, Error>(Some(()))
                        &&& final(db)@ == camera_updated(
                            old(db)@,
                            old(self).camera_id,
                            old(self).camera,
                            old(self).changer,
                        )
                    },
                }
            },
    {
        if self.changer.next < 2 {
            return match self.changer.advance(&db.state.streams_by_id, &self.camera, reply) {
                Err(e) => Err(e),
                Ok(()) => Ok(None),
            };
        }
        let done = match reply {
            Err(e) => return Err(Error::Sql(e)),
            Ok(done) => done,
        };
        if !self.updated {
            if done.changes != 1 {
                return Err(Error::CameraMissing(self.camera_id));
            }
            self.updated = true;
            return Ok(None);
        }
        let mut changer = StreamStateChanger {
            camera_id: self.camera_id,
            existing: [None, None],
            sids: [None, None],
            streams: Vec::new(),
            next: 2,
        };
        std::mem::swap(&mut changer, &mut self.changer);
        let (id, uuid) = match db.state.cameras_by_id.get(&self.camera_id) {
            Some(c) => {
                assert(c@ == db@.cameras[self.camera_id]);
                (c.id, c.uuid)
            },
            None => vstd::pervasive::unreached(),
        };
        let streams = changer.apply(&mut db.state.streams_by_id);
        let camera = camera_of(id, uuid, &self.camera, streams);
        let ghost view = camera@;
        db.state.cameras_by_id.insert(self.camera_id, camera);
        assert(db@.cameras =~= old(db)@.cameras.insert(self.camera_id, view));
        Ok(Some(()))
    }
}

/// A camera being deleted.
pub struct DeleteCamera {
    pub camera_id: i32,
    pub uuid: Uuid,
    /// The camera's streams in ascending order, and whether they have recordings.
    pub streams: Vec<(i32, bool)>,
    /// How many of the streams are deleted.
    pub deleted: usize,
    /// Whether the camera itself is deleted, once its streams are.
    pub camera_deleted: bool,
}

/// Whether `list` holds the streams of a camera, in ascending order, and whether they have
/// recordings.
pub open spec fn lists_streams(
    streams: Map<i32, StreamView>,
    camera_id: i32,
    list: Seq<(i32, bool)>,
) -> bool {
    &&& ascending(list.map_values(|x: (i32, bool)| x.0))
    &&& forall|i: int|
        0 <= i < list.len() ==> {
            let (sid, has_recordings) = #[trigger] list[i];
            &&& streams.contains_key(sid)
            &&& streams[sid].camera_id == camera_id
            &&& has_recordings == streams[sid].range is Some
        }
    &&& forall|sid: i32| #[trigger]
        streams.contains_key(sid) && streams[sid].camera_id == camera_id ==> exists|i: int|
            0 <= i < list.len() && (#[trigger] list[i]).0 == sid
}

/// `db` after a camera and its streams were deleted.
pub open spec fn camera_deleted(
    db: StateView,
    camera_id: i32,
    uuid: Uuid,
    streams: Set<i32>,
) -> StateView {
    StateView {
        streams: db.streams.remove_keys(streams),
        cameras: db.cameras.remove(camera_id),
        camera_ids: db.camera_ids.remove(uuid_number(uuid)),
        ..db
    }
}

/// The streams in a list.
pub open spec fn listed(list: Seq<(i32, bool)>) -> Set<i32> {
    list.map_values(|x: (i32, bool)| x.0).to_set()
}

impl LockedDatabase {
    /// The streams of a camera in ascending order, and whether they have recordings.
    fn streams_of(&self, camera_id: i32) -> (r: Vec<(i32, bool)>)
        ensures
            lists_streams(self@.streams, camera_id, r@),
    {
        let ids = ascending_keys(&self.state.streams_by_id);
        let mut r: Vec<(i32, bool)> = Vec::new();
        let mut i: usize = 0;
        while i < ids.len()
            invariant
                i <= ids@.len(),
                ascending(ids@),
                forall|k: i32| #[trigger]
                    ids@.contains(k) <==> self.state.streams_by_id@.contains_key(k),
                forall|a: int, b: int|
                    0 <= a < b < r@.len() ==> (#[trigger] r@[a]).0 < (#[trigger] r@[b]).0,
                forall|a: int|
                    0 <= a < r@.len() ==> {
                        let (sid, has_recordings) = #[trigger] r@[a];
                        &&& self@.streams.contains_key(sid)
                        &&& self@.streams[sid].camera_id == camera_id
                        &&& has_recordings == self@.streams[sid].range is Some
                        &&& exists|j: int| 0 <= j < i && #[trigger] ids@[j] == sid
                    },
                forall|j: int|
                    0 <= j < i && self@.streams[#[trigger] ids@[j]].camera_id == camera_id
                        ==> exists|a: int| 0 <= a < r@.len() && (#[trigger] r@[a]).0 == ids@[j],
            decreases ids@.len() - i,
        {
            let id: i32 = ids[i];
            let ghost before = r@;
            assert(ids@.contains(id));
            match self.state.streams_by_id.get(&id) {
                Some(s) => {
                    assert(s@ == self@.streams[id]);
                    if s.camera_id == camera_id {
                        r.push((id, s.range.is_some()));
                        assert(r@[before.len() as int].0 == id);
                        assert forall|j: int| 0 <= j < i && self@.streams[
                        #[trigger] ids@[j]].camera_id == camera_id implies exists|a: int|
                            0 <= a < r@.len() && (#[trigger] r@[a]).0 == ids@[j] by {
                            let a = choose|a: int|
                                0 <= a < before.len() && (#[trigger] before[a]).0 == ids@[j];
                            assert(r@[a].0 == ids@[j]);
                        }
                    }
                },
                None => {},
            }
            i += 1;
        }
        proof {
            let keys = r@.map_values(|x: (i32, bool)| x.0);
            assert forall|a: int, b: int| 0 <= a < b < keys.len() implies keys[a] < keys[b] by {
                assert(r@[a].0 < r@[b].0);
            }
            assert forall|sid: i32| #[trigger]
                self@.streams.contains_key(sid) && self@.streams[sid].camera_id
                    == camera_id implies exists|a: int|
                0 <= a < r@.len() && (#[trigger] r@[a]).0 == sid by {
                assert(ids@.contains(sid));
                let j = choose|j: int| 0 <= j < ids@.len() && ids@[j] == sid;
                assert(self@.streams[ids@[j]].camera_id == camera_id);
            }
        }
        r
    }

    /// Deletes a camera and its streams. The camera must have no recordings. This starts the
    /// deletion.
    pub fn delete_camera(&self, id: i32) -> (r: Result<DeleteCamera, Error>)
        ensures
            if !self@.cameras.contains_key(id) {
                r == Err::<DeleteCamera, Error>(Error::NoSuchCameraToRemove(id))
            } else {
                match r {
                    Ok(op) => {
                        &&& op.valid()
                        &&& op.camera_id == id
                        &&& op.uuid == self@.cameras[id].uuid
                        &&& lists_streams(self@.streams, id, op.streams@)
                        &&& op.deleted == 0
                        &&& !op.camera_deleted
                        &&& op.streams@.len() > 0 ==> !op.streams@[0].1
                    },
                    Err(e) => e == Error::CameraHasRecordings(id) && exists|list: Seq<(i32, bool)>|
                        #[trigger] lists_streams(self@.streams, id, list) && list.len() > 0
                            && list[0].1,
                }
            },
    {
        let uuid = match self.state.cameras_by_id.get(&id) {
            None => return Err(Error::NoSuchCameraToRemove(id)),
            Some(c) => {
                assert(c@ == self@.cameras[id]);
                c.uuid
            },
        };
        let streams = self.streams_of(id);
        if streams.len() > 0 && streams[0].1 {
            return Err(Error::CameraHasRecordings(id));
        }
        Ok(DeleteCamera { camera_id: id, uuid, streams, deleted: 0, camera_deleted: false })
    }
}

impl DeleteCamera {
    /// Whether neither the streams that are deleted nor the next one have recordings.
    pub open spec fn valid(self) -> bool {
        &&& self.deleted <= self.streams@.len()
        &&& forall|i: int|
            0 <= i <= self.deleted && i < self.streams@.len() ==> !(#[trigger] self.streams@[i]).1
        &&& self.camera_deleted ==> self.deleted == self.streams@.len()
    }

    /// What to do next.
    pub fn action(&self) -> (r: Action<'_>)
        requires
            self.valid(),
        ensures
            r == if self.deleted < self.streams@.len() {
                Action::Run(
                    Statement::DeleteStream { stream_id: self.streams@[self.deleted as int].0 },
                )
            } else if !self.camera_deleted {
                Action::Run(Statement::DeleteCamera { camera_id: self.camera_id })
            } else {
                Action::Commit
            },
    {
        if self.deleted < self.streams.len() {
            Action::Run(Statement::DeleteStream { stream_id: self.streams[self.deleted].0 })
        } else if !self.camera_deleted {
            Action::Run(Statement::DeleteCamera { camera_id: self.camera_id })
        } else {
            Action::Commit
        }
    }

    /// Takes the reply to the action. Returns something when all is done.
    pub fn advance(&mut self, db: &mut LockedDatabase, reply: Reply) -> (r: Result<
        Option<()>,
        Error,
    >)
        requires
            old(self).valid(),
        ensures
            final(self).camera_id == old(self).camera_id,
            final(self).uuid == old(self).uuid,
            final(self).streams == old(self).streams,
            !(r matches Ok(Some(_))) ==> final(db)@ == old(db)@,
            r matches Ok(None) ==> final(self).valid(),
            r matches Ok(Some(_)) ==> forall|i: int|
                0 <= i < old(self).streams@.len() ==> !(#[trigger] old(self).streams@[i]).1,
            match reply {
                Err(e) => r == Err::<Option<()>, Error>(Error::Sql(e)),
                Ok(done) => if old(self).deleted < old(self).streams@.len() {
                    let next = old(self).deleted + 1;
                    if done.changes != 1 {
                        r == Err::<Option<()>, Error>(
                            Error::StreamMissing { camera_id: old(self).camera_id },
                        )
                    } else if next < old(self).streams@.len() && old(self).streams@[next].1 {
                        r == Err::<Option<()>, Error>(
                            Error::CameraHasRecordings(old(self).camera_id),
                        )
                    } else {
                        r == Ok::<Option<()>, Error>(None) && final(self).deleted == next
                            && final(self).camera_deleted == old(self).camera_deleted
                    }
                } else if !old(self).camera_deleted {
                    if done.changes != 1 {
                        r == Err::<Option<()>, Error>(
                            Error::CameraMissing(old(self).camera_id),
                        )
                    } else {
                        r == Ok::<Option<()>, Error>(None) && final(self).camera_deleted
                            && final(self).deleted == old(self).deleted
                    }
                } else {
                    &&& r == Ok::<Option<()>, Error>(Some(()))
                    &&& final(db)@ == camera_deleted(
                        old(db)@,
                        old(self).camera_id,
                        old(self).uuid,
                        listed(old(self).streams@),
                    )
                },
            },
    {
        let done = match reply {
            Err(e) => return Err(Error::Sql(e)),
            Ok(done) => done,
        };
        let n: usize = self.streams.len();
        if self.deleted < n {
            if done.changes != 1 {
                return Err(Error::StreamMissing { camera_id: self.camera_id });
            }
            let next: usize = self.deleted + 1;
            if next < n && self.streams[next].1 {
                return Err(Error::CameraHasRecordings(self.camera_id));
            }
            self.deleted = next;
            return Ok(None);
        }
        if !self.camera_deleted {
            if done.changes != 1 {
                return Err(Error::CameraMissing(self.camera_id));
            }
            self.camera_deleted = true;
            return Ok(None);
        }
        let ghost all = listed(self.streams@);
        let mut i: usize = 0;
        assert(self.streams@.take(0) =~= Seq::<(i32, bool)>::empty());
        assert(listed(self.streams@.take(0)) =~= Set::<i32>::empty());
        assert(db@.streams.remove_keys(Set::<i32>::empty()) =~= db@.streams);
        while i < self.streams.len()
            invariant
                i <= self.streams@.len(),
                db@ == (StateView {
                    streams: old(db)@.streams.remove_keys(listed(self.streams@.take(i as int))),
                    ..old(db)@
                }),
            decreases self.streams@.len() - i,
        {
            let id: i32 = self.streams[i].0;
            let ghost now = db@.streams;
            db.state.streams_by_id.remove(&id);
            proof {
                assert(db@.streams =~= now.remove(id));
                lemma_listed_next(self.streams@, i as int);
                assert(db@.streams =~= old(db)@.streams.remove_keys(
                    listed(self.streams@.take(i + 1)),
                ));
            }
            i += 1;
        }
        assert(self.streams@.take(i as int) =~= self.streams@);
        let ghost before = db@;
        db.state.cameras_by_id.remove(&self.camera_id);
        assert(db@.cameras =~= before.cameras.remove(self.camera_id));
        db.state.cameras_by_uuid.remove(&self.uuid.number());
        Ok(Some(()))
    }
}

proof fn lemma_listed_next(list: Seq<(i32, bool)>, i: int)
    requires
        0 <= i < list.len(),
    ensures
        listed(list.take(i + 1)) == listed(list.take(i)).insert(list[i].0),
{
    let f = |x: (i32, bool)| x.0;
    let a = list.take(i).map_values(f);
    let b = list.take(i + 1).map_values(f);
    assert(b =~= a.push(list[i].0));
    assert forall|k: i32| b.contains(k) <==> #[trigger] a.to_set().insert(list[i].0).contains(
        k,
    ) by {
        if a.contains(k) {
            let j = choose|j: int| 0 <= j < a.len() && a[j] == k;
            assert(b[j] == k);
        }
        if k == list[i].0 {
            assert(b[i] == k);
        }
        if b.contains(k) && k != list[i].0 {
            let j = choose|j: int| 0 <= j < b.len() && b[j] == k;
            assert(a[j] == k);
        }
    }
    assert(b.to_set() =~= a.to_set().insert(list[i].0));
}

} // verus!
