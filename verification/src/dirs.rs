//! Opening, adding and deleting sample file directories.
use crate::collections::{fnv_get, fnv_insert, fnv_key_list, fnv_new};
use crate::error::Error;
use crate::keys::{ascending, ascending_keys};
use crate::model::{DirHandle, DirView, LockedDatabase, Open, SampleFileDir, StateView, StreamView};
use crate::statement::{Reply, Statement};
use crate::uuids::{may_be_random, Uuid};
use fnv::FnvHashMap;
use vstd::prelude::*;

verus! {

broadcast use {
    vstd::std_specs::btree::group_btree_axioms,
    vstd::laws_cmp::group_laws_cmp,
};

/// What a sample file directory says of itself: which database it belongs to, which directory it
/// is, and when it was opened.
#[derive(Copy, Clone, Debug)]
pub struct DirMeta {
    pub db_uuid: Uuid,
    pub dir_uuid: Uuid,
    pub last_complete_open: Option<Open>,
    pub in_progress_open: Option<Open>,
}

impl DirMeta {
    /// The metadata once the open that was in progress is complete.
    pub open spec fn spec_completed(self) -> DirMeta {
        DirMeta { last_complete_open: self.in_progress_open, in_progress_open: None, ..self }
    }

    /// The metadata once the open that was in progress is complete.
    pub fn completed(self) -> (r: DirMeta)
        ensures
            r == self.spec_completed(),
    {
        DirMeta { last_complete_open: self.in_progress_open, in_progress_open: None, ..self }
    }
}

/// Once an open is complete, the metadata still name the same database and the same directory. The
/// last complete open is the one that was in progress, and none is in progress any more.
pub proof fn lemma_completing_keeps_names(meta: DirMeta)
    ensures
        meta.spec_completed().db_uuid == meta.db_uuid,
        meta.spec_completed().dir_uuid == meta.dir_uuid,
        meta.spec_completed().last_complete_open == meta.in_progress_open,
        meta.spec_completed().in_progress_open is None,
{
}

/// Something to do with sample file directories.
#[derive(Debug)]
pub enum DirAction<'a> {
    /// Open the directory, after locking it and checking that its metadata match.
    Open { path: &'a String, meta: DirMeta },
    /// Create the directory with the given metadata.
    Create { path: &'a String, meta: DirMeta },
    /// Write the directory's metadata.
    WriteMeta { dir: DirHandle, meta: DirMeta },
    /// Run a statement.
    Run(Statement<'a>),
    /// Commit the statements that were run.
    Commit,
}

/// The step that opening directories has come to.
pub enum OpenStage {
    /// The directory at this place in the list is to be opened.
    Opening(usize),
    /// The row of the directory at this place among the keys is to be updated, or all of them are
    /// and the updates are to be committed.
    Updating { keys: Vec<i32>, next: usize },
    /// The metadata of the directory at this place among the keys are to be written.
    Writing { keys: Vec<i32>, next: usize },
    /// All is done.
    Done,
}

/// Directories being opened.
pub struct OpenSampleFileDirs<'r> {
    pub ids: &'r [i32],
    pub in_progress: FnvHashMap<i32, (DirMeta, DirHandle)>,
    pub stage: OpenStage,
}

/// The metadata that a directory has to match in order to be opened.
pub open spec fn meta_of(db: StateView, id: i32) -> DirMeta {
    DirMeta {
        db_uuid: db.uuid,
        dir_uuid: db.dirs[id].uuid,
        last_complete_open: db.dirs[id].last_complete_open,
        in_progress_open: db.open,
    }
}

/// What a directory is asked to match names the database and the directory as the database knows
/// them, when it was last open, and the current period of writing.
pub proof fn lemma_open_asks_for_names(
    op: OpenSampleFileDirs<'_>,
    db: LockedDatabase,
    action: Option<DirAction<'_>>,
)
    requires
        op.valid(db@),
        call_ensures(OpenSampleFileDirs::action, (&op, &db), action),
    ensures
        op.stage matches OpenStage::Opening(n) ==> (action matches Some(
            DirAction::Open { path, meta },
        ) && {
            let dir = db@.dirs[op.ids@[n as int]];
            &&& path@ == dir.path
            &&& meta.db_uuid == db@.uuid
            &&& meta.dir_uuid == dir.uuid
            &&& meta.last_complete_open == dir.last_complete_open
            &&& meta.in_progress_open == db@.open
        }),
{
}

/// The metadata that are written at the end of an open name the database and the directory, and say
/// that the current period of writing is the last complete open, with none in progress. They go to
/// the directory whose turn it is.
pub proof fn lemma_written_meta(
    op: OpenSampleFileDirs<'_>,
    db: LockedDatabase,
    action: Option<DirAction<'_>>,
)
    requires
        op.valid(db@),
        op.describes(db@),
        call_ensures(OpenSampleFileDirs::action, (&op, &db), action),
    ensures
        op.stage matches OpenStage::Writing { keys, next } ==> (action matches Some(
            DirAction::WriteMeta { dir, meta },
        ) && {
            let id = keys@[next as int];
            &&& dir == op.in_progress@[id].1
            &&& meta.db_uuid == db@.uuid
            &&& meta.dir_uuid == db@.dirs[id].uuid
            &&& meta.last_complete_open == db@.open
            &&& meta.in_progress_open is None
        }),
{
    if let OpenStage::Writing { keys, next } = op.stage {
        assert(keys@.contains(keys@[next as int]));
        assert(op.pending().contains(keys@[next as int]));
    }
}

/// What is written to a directory is what the next open of the database asks for: the same
/// database, the same directory, and the same last complete open. `later` is the database when it
/// is opened again: its uuid and what it knows of the directory are what the tables say, and they
/// say what was known when the metadata were written.
pub proof fn lemma_written_meta_matches_next_open(
    op: OpenSampleFileDirs<'_>,
    db: LockedDatabase,
    action: Option<DirAction<'_>>,
    id: i32,
    later: StateView,
)
    requires
        op.valid(db@),
        op.describes(db@),
        call_ensures(OpenSampleFileDirs::action, (&op, &db), action),
        op.stage matches OpenStage::Writing { keys, next } && keys@[next as int] == id,
        later.uuid == db@.uuid,
        later.dirs[id] == (DirView { dir: None::<DirHandle>, ..db@.dirs[id] }),
    ensures
        action matches Some(DirAction::WriteMeta { meta, .. }) && {
            let asked = meta_of(later, id);
            &&& asked.db_uuid == meta.db_uuid
            &&& asked.dir_uuid == meta.dir_uuid
            &&& asked.last_complete_open == meta.last_complete_open
            &&& asked.in_progress_open == later.open
        },
{
    lemma_written_meta(op, db, action);
    if let OpenStage::Writing { keys, next } = op.stage {
        assert(keys@.contains(keys@[next as int]));
        assert(op.pending().contains(id));
    }
}

/// A directory that is added is created with metadata that name the database and the directory, and
/// say that the current period of writing is in progress. In the end the metadata say that it is
/// complete; the row that is inserted says the same.
pub proof fn lemma_added_dir_is_named(
    db: LockedDatabase,
    uuid: Uuid,
    path: String,
    added: Result<AddSampleFileDir, Error>,
    op: AddSampleFileDir,
    action: DirAction<'_>,
)
    requires
        call_ensures(LockedDatabase::add_sample_file_dir_with, (&db, uuid, path), added),
        added is Ok,
        op.path == added->Ok_0.path,
        op.meta == added->Ok_0.meta,
        op.open == added->Ok_0.open,
        call_ensures(AddSampleFileDir::action, (&op,), action),
    ensures
        db@.open is Some,
        match op.stage {
            AddDirStage::Create => action matches DirAction::Create { path: p, meta } && {
                &&& p@ == path@
                &&& meta.db_uuid == db@.uuid
                &&& meta.dir_uuid == uuid
                &&& meta.last_complete_open is None
                &&& meta.in_progress_open == db@.open
            },
            AddDirStage::Insert { .. } => action matches DirAction::Run(
                Statement::InsertSampleFileDir { path: p, uuid: u, last_complete_open_id },
            ) && p@ == path@ && u == uuid && last_complete_open_id == db@.open->0.id,
            AddDirStage::WriteMeta { dir, .. } => action matches DirAction::WriteMeta {
                dir: d,
                meta,
            } && {
                &&& d == dir
                &&& meta.db_uuid == db@.uuid
                &&& meta.dir_uuid == uuid
                &&& meta.last_complete_open == db@.open
                &&& meta.in_progress_open is None
            },
        },
{
}

/// The first place from `from` on with a directory that is neither open nor being opened, or the
/// number of places if there is none. A directory on the way there that is not known is an error.
pub open spec fn seek_dir(
    dirs: Map<i32, DirView>,
    in_progress: Set<i32>,
    ids: Seq<i32>,
    from: int,
) -> Result<int, Error>
    decreases ids.len() - from,
{
    if from < 0 || from >= ids.len() {
        Ok(ids.len() as int)
    } else if in_progress.contains(ids[from]) {
        seek_dir(dirs, in_progress, ids, from + 1)
    } else if !dirs.contains_key(ids[from]) {
        Err(Error::NoSuchDir(ids[from]))
    } else if dirs[ids[from]].dir is Some {
        seek_dir(dirs, in_progress, ids, from + 1)
    } else {
        Ok(from)
    }
}

/// Whether the directory `id` is known and open.
pub open spec fn is_open(dirs: Map<i32, DirView>, id: i32) -> bool {
    dirs.contains_key(id) && dirs[id].dir is Some
}

/// Whether `keys` are the members of `s`, each once.
pub open spec fn enumerates(keys: Seq<i32>, s: Set<i32>) -> bool {
    &&& keys.no_duplicates()
    &&& forall|k: i32| #[trigger] keys.contains(k) <==> s.contains(k)
}

impl<'r> OpenSampleFileDirs<'r> {
    /// The directories that are being opened.
    pub open spec fn pending(self) -> Set<i32> {
        self.in_progress@.dom()
    }

    /// Whether the directories at the first `n` places are open or being opened.
    pub open spec fn handled(self, db: StateView, n: int) -> bool {
        forall|i: int|
            0 <= i < n ==> is_open(db.dirs, #[trigger] self.ids@[i]) || self.pending().contains(
                self.ids@[i],
            )
    }

    /// Whether the metadata of each directory that is being opened name the database, the directory
    /// and the period of writing that is in progress. Once they are being written, the latter is
    /// the last complete open as far as the database knows.
    pub open spec fn describes(self, db: StateView) -> bool {
        forall|id: i32| #[trigger]
            self.pending().contains(id) ==> {
                let meta = self.in_progress@[id].0;
                &&& meta.db_uuid == db.uuid
                &&& meta.dir_uuid == db.dirs[id].uuid
                &&& meta.in_progress_open == db.open
                &&& self.stage is Writing ==> db.dirs[id].last_complete_open == db.open
            }
    }

    /// What holds at each step. The directories that are being opened are known; none are if the
    /// database is read-only.
    pub open spec fn valid(self, db: StateView) -> bool {
        &&& forall|id: i32| #[trigger] self.pending().contains(id) ==> db.dirs.contains_key(id)
        &&& db.open is None ==> self.pending() == Set::<i32>::empty()
        &&& match self.stage {
            OpenStage::Opening(n) => {
                &&& n < self.ids@.len()
                &&& self.handled(db, n as int)
                &&& db.dirs.contains_key(self.ids@[n as int])
                &&& db.dirs[self.ids@[n as int]].dir is None
                &&& !self.pending().contains(self.ids@[n as int])
            },
            OpenStage::Updating { keys, next } => {
                &&& db.open is Some
                &&& self.handled(db, self.ids@.len() as int)
                &&& enumerates(keys@, self.pending())
                &&& next <= keys@.len()
            },
            OpenStage::Writing { keys, next } => {
                &&& self.handled(db, self.ids@.len() as int)
                &&& enumerates(keys@, self.pending())
                &&& next < keys@.len()
                &&& forall|i: int| 0 <= i < next ==> is_open(db.dirs, #[trigger] keys@[i])
            },
            OpenStage::Done => forall|i: int|
                0 <= i < self.ids@.len() ==> is_open(db.dirs, #[trigger] self.ids@[i]),
        }
    }

    /// What to do next, or nothing if all is done.
    pub fn action<'d>(&self, db: &'d LockedDatabase) -> (r: Option<DirAction<'d>>)
        requires
            self.valid(db@),
        ensures
            match self.stage {
                OpenStage::Opening(n) => r matches Some(DirAction::Open { path, meta }) && path@
                    == db@.dirs[self.ids@[n as int]].path && meta == meta_of(
                    db@,
                    self.ids@[n as int],
                ),
                OpenStage::Updating { keys, next } => r == Some(
                    if next < keys@.len() {
                        DirAction::Run(
                            Statement::UpdateLastCompleteOpen {
                                dir_id: keys@[next as int],
                                open_id: db@.open->0.id,
                            },
                        )
                    } else {
                        DirAction::Commit
                    },
                ),
                OpenStage::Writing { keys, next } => {
                    let (meta, dir) = self.in_progress@[keys@[next as int]];
                    r == Some(DirAction::WriteMeta { dir, meta: meta.spec_completed() })
                },
                OpenStage::Done => r is None,
            },
            self.describes(db@) ==> (self.stage matches OpenStage::Writing { keys, next } ==> (
            r matches Some(DirAction::WriteMeta { meta, .. }) && {
                &&& meta.db_uuid == db@.uuid
                &&& meta.dir_uuid == db@.dirs[keys@[next as int]].uuid
                &&& meta.last_complete_open == db@.open
                &&& meta.in_progress_open is None
            })),
    {
        match &self.stage {
            OpenStage::Opening(n) => {
                let id: i32 = self.ids[*n];
                match db.state.sample_file_dirs_by_id.get(&id) {
                    Some(d) => {
                        assert(d@ == db@.dirs[id]);
                        Some(
                            DirAction::Open {
                                path: &d.path,
                                meta: DirMeta {
                                    db_uuid: db.state.uuid,
                                    dir_uuid: d.uuid,
                                    last_complete_open: d.last_complete_open,
                                    in_progress_open: db.state.open,
                                },
                            },
                        )
                    },
                    None => vstd::pervasive::unreached(),
                }
            },
            OpenStage::Updating { keys, next } => {
                if *next < keys.len() {
                    let o = match db.state.open {
                        Some(o) => o,
                        None => vstd::pervasive::unreached(),
                    };
                    Some(
                        DirAction::Run(
                            Statement::UpdateLastCompleteOpen {
                                dir_id: keys[*next],
                                open_id: o.id,
                            },
                        ),
                    )
                } else {
                    Some(DirAction::Commit)
                }
            },
            OpenStage::Writing { keys, next } => {
                let id: i32 = keys[*next];
                assert(keys@.contains(keys@[*next as int]));
                assert(self.pending().contains(id));
                match fnv_get(&self.in_progress, id) {
                    Some((meta, dir)) => Some(
                        DirAction::WriteMeta { dir: *dir, meta: meta.completed() },
                    ),
                    None => vstd::pervasive::unreached(),
                }
            },
            OpenStage::Done => None,
        }
    }

    /// Goes on to the first directory from `from` on that is still to be opened.
    fn seek(&mut self, db: &LockedDatabase, from: usize) -> (r: Result<(), Error>)
        requires
            from <= old(self).ids@.len(),
            old(self).handled(db@, from as int),
            forall|id: i32| #[trigger]
                old(self).pending().contains(id) ==> db@.dirs.contains_key(id),
            db@.open is None ==> old(self).pending() == Set::<i32>::empty(),
        ensures
            final(self).ids == old(self).ids,
            final(self).in_progress == old(self).in_progress,
            match seek_dir(db@.dirs, old(self).pending(), old(self).ids@, from as int) {
                Err(e) => r == Err::<(), Error>(e),
                Ok(n) => {
                    &&& r == Ok::<(), Error>(())
                    &&& final(self).valid(db@)
                    &&& if n < old(self).ids@.len() {
                        final(self).stage == OpenStage::Opening(n as usize)
                    } else if db@.open is None {
                        final(self).stage is Done
                    } else {
                        final(self).stage matches OpenStage::Updating { keys, next } && next == 0
                    }
                },
            },
    {
        let mut i: usize = from;
        while i < self.ids.len()
            invariant
                *self == *old(self),
                from <= i <= self.ids@.len(),
                self.handled(db@, i as int),
                forall|id: i32| #[trigger]
                    self.pending().contains(id) ==> db@.dirs.contains_key(id),
                db@.open is None ==> self.pending() == Set::<i32>::empty(),
                seek_dir(db@.dirs, self.pending(), self.ids@, i as int) == seek_dir(
                    db@.dirs,
                    self.pending(),
                    self.ids@,
                    from as int,
                ),
            decreases self.ids@.len() - i,
        {
            let id: i32 = self.ids[i];
            assert(self.pending().contains(id) <==> self.in_progress@.contains_key(id));
            if fnv_get(&self.in_progress, id).is_none() {
                let dir = match db.state.sample_file_dirs_by_id.get(&id) {
                    None => return Err(Error::NoSuchDir(id)),
                    Some(d) => {
                        assert(d@ == db@.dirs[id]);
                        d
                    },
                };
                if dir.dir.is_none() {
                    self.stage = OpenStage::Opening(i);
                    return Ok(());
                }
            }
            i += 1;
        }
        if db.state.open.is_none() {
            // Read-only mode; all done.
            self.stage = OpenStage::Done;
            return Ok(());
        }
        let keys = fnv_key_list(&self.in_progress);
        assert forall|k: i32| #[trigger] keys@.contains(k) <==> self.pending().contains(k) by {
            assert(self.pending().contains(k) <==> self.in_progress@.contains_key(k));
        }
        self.stage = OpenStage::Updating { keys, next: 0 };
        Ok(())
    }

    /// Takes the directory that was opened.
    pub fn opened(&mut self, db: &mut LockedDatabase, reply: Result<DirHandle, String>) -> (r:
        Result<(), Error>)
        requires
            old(self).valid(old(db)@),
            old(self).stage is Opening,
        ensures
            final(self).ids == old(self).ids,
            r is Ok && old(self).describes(old(db)@) ==> final(self).describes(final(db)@),
            match reply {
                Err(e) => r == Err::<(), Error>(Error::Dir(e)) && final(db)@ == old(db)@,
                Ok(dir) => {
                    let n = old(self).stage->Opening_0 as int;
                    let id = old(self).ids@[n];
                    // In read-only mode, the directory is fully opened. In read-write mode, there
                    // are more steps to do.
                    &&& final(db)@ == if old(db)@.open is None {
                        dir_opened(old(db)@, id, dir)
                    } else {
                        old(db)@
                    }
                    &&& final(self).in_progress@ == if old(db)@.open is None {
                        old(self).in_progress@
                    } else {
                        old(self).in_progress@.insert(id, (meta_of(old(db)@, id), dir))
                    }
                    &&& match seek_dir(
                        final(db)@.dirs,
                        final(self).pending(),
                        old(self).ids@,
                        n + 1,
                    ) {
                        Err(e) => r == Err::<(), Error>(e),
                        Ok(m) => {
                            &&& r == Ok::<(), Error>(())
                            &&& final(self).valid(final(db)@)
                            &&& if m < old(self).ids@.len() {
                                final(self).stage == OpenStage::Opening(m as usize)
                            } else if old(db)@.open is None {
                                final(self).stage is Done
                            } else {
                                final(self).stage matches OpenStage::Updating { keys, next }
                                    && next == 0
                            }
                        },
                    }
                },
            },
    {
        let dir = match reply {
            Err(e) => return Err(Error::Dir(e)),
            Ok(dir) => dir,
        };
        let n: usize = match &self.stage {
            OpenStage::Opening(n) => *n,
            _ => vstd::pervasive::unreached(),
        };
        let id: i32 = self.ids[n];
        let d = match db.state.sample_file_dirs_by_id.get(&id) {
            Some(d) => d,
            None => vstd::pervasive::unreached(),
        };
        assert(d@ == db@.dirs[id]);
        match db.state.open {
            None => {
                set_open(db, id, dir);
            },
            Some(o) => {
                let meta = DirMeta {
                    db_uuid: db.state.uuid,
                    dir_uuid: d.uuid,
                    last_complete_open: d.last_complete_open,
                    in_progress_open: Some(o),
                };
                fnv_insert(&mut self.in_progress, id, (meta, dir));
            },
        }
        proof {
            assert forall|i: int| 0 <= i < n + 1 implies is_open(db@.dirs, #[trigger] self.ids@[i])
                || self.pending().contains(self.ids@[i]) by {
                if i < n {
                    assert(is_open(old(db)@.dirs, old(self).ids@[i]) || old(
                        self,
                    ).pending().contains(old(self).ids@[i]));
                }
            }
            if db@.open is None {
                assert(self.pending() =~= Set::<i32>::empty());
            }
        }
        self.seek(db, n + 1)
    }

    /// Takes the reply to a statement, a commit or a write.
    pub fn advance(&mut self, db: &mut LockedDatabase, reply: Reply) -> (r: Result<(), Error>)
        requires
            old(self).valid(old(db)@),
            old(self).stage is Updating || old(self).stage is Writing,
        ensures
            final(self).ids == old(self).ids,
            final(self).in_progress == old(self).in_progress,
            r is Ok ==> final(self).valid(final(db)@),
            old(self).describes(old(db)@) ==> final(self).describes(final(db)@),
            match old(self).stage {
                OpenStage::Updating { keys, next } => match reply {
                    Err(e) => r == Err::<(), Error>(Error::Sql(e)) && final(db)@ == old(db)@,
                    Ok(done) => if next < keys@.len() {
                        &&& final(db)@ == old(db)@
                        &&& if done.changes != 1 {
                            r == Err::<(), Error>(Error::DirNotUpdated(keys@[next as int]))
                        } else {
                            &&& r == Ok::<(), Error>(())
                            &&& final(self).stage matches OpenStage::Updating {
                                keys: keys2,
                                next: next2,
                            } && keys2@ == keys@ && next2 == next + 1
                        }
                    } else {
                        &&& r == Ok::<(), Error>(())
                        &&& final(db)@ == opens_completed(old(db)@, old(self).pending())
                        &&& if keys@.len() == 0 {
                            final(self).stage is Done
                        } else {
                            final(self).stage matches OpenStage::Writing {
                                keys: keys2,
                                next: next2,
                            } && keys2@ == keys@ && next2 == 0
                        }
                    },
                },
                OpenStage::Writing { keys, next } => match reply {
                    Err(e) => r == Err::<(), Error>(Error::Dir(e)) && final(db)@ == old(db)@,
                    Ok(_) => {
                        let id = keys@[next as int];
                        &&& r == Ok::<(), Error>(())
                        &&& final(db)@ == dir_opened(old(db)@, id, old(self).in_progress@[id].1)
                        &&& if next + 1 == keys@.len() {
                            final(self).stage is Done
                        } else {
                            final(self).stage matches OpenStage::Writing {
                                keys: keys2,
                                next: next2,
                            } && keys2@ == keys@ && next2 == next + 1
                        }
                    },
                },
                _ => true,
            },
    {
        let mut stage = OpenStage::Done;
        std::mem::swap(&mut stage, &mut self.stage);
        match stage {
            OpenStage::Updating { keys, next } => {
                let done = match reply {
                    Err(e) => return Err(Error::Sql(e)),
                    Ok(done) => done,
                };
                if next < keys.len() {
                    if done.changes != 1 {
                        return Err(Error::DirNotUpdated(keys[next]));
                    }
                    self.stage = OpenStage::Updating { keys, next: next + 1 };
                } else if keys.len() == 0 {
                    proof {
                        assert forall|id: i32| !self.pending().contains(id) by {
                            assert(!keys@.contains(id));
                        }
                        assert(opens_completed(db@, self.pending()).dirs =~= db@.dirs);
                    }
                    assert forall|i: int| 0 <= i < self.ids@.len() implies is_open(
                        db@.dirs,
                        #[trigger] self.ids@[i],
                    ) by {
                        if self.pending().contains(self.ids@[i]) {
                            assert(keys@.contains(self.ids@[i]));
                        }
                    }
                    self.stage = OpenStage::Done;
                } else {
                    assert forall|i: int| 0 <= i < keys@.len() implies db@.dirs.contains_key(
                        #[trigger] keys@[i],
                    ) by {
                        assert(keys@.contains(keys@[i]));
                        assert(self.pending().contains(keys@[i]));
                    }
                    complete_opens(db, &keys);
                    proof {
                        assert(keys@.to_set() =~= self.pending()) by {
                            assert forall|id: i32| #[trigger]
                                keys@.to_set().contains(id) <==> self.pending().contains(id) by {
                                assert(keys@.contains(id) <==> self.pending().contains(id));
                            }
                        }
                        assert forall|i: int| 0 <= i < self.ids@.len() implies is_open(
                            db@.dirs,
                            #[trigger] self.ids@[i],
                        ) || self.pending().contains(self.ids@[i]) by {
                            assert(is_open(old(db)@.dirs, self.ids@[i]) || self.pending().contains(
                                self.ids@[i],
                            ));
                        }
                    }
                    self.stage = OpenStage::Writing { keys, next: 0 };
                }
                Ok(())
            },
            OpenStage::Writing { keys, next } => {
                match reply {
                    Err(e) => return Err(Error::Dir(e)),
                    Ok(_) => {},
                }
                let id: i32 = keys[next];
                assert(keys@.contains(keys@[next as int]));
                assert(self.pending().contains(id));
                let dir: DirHandle = match fnv_get(&self.in_progress, id) {
                    Some((_, dir)) => *dir,
                    None => vstd::pervasive::unreached(),
                };
                set_open(db, id, dir);
                let len: usize = keys.len();
                if next + 1 == len {
                    assert forall|i: int| 0 <= i < self.ids@.len() implies is_open(
                        db@.dirs,
                        #[trigger] self.ids@[i],
                    ) by {
                        let k = self.ids@[i];
                        if self.pending().contains(k) {
                            assert(keys@.contains(k));
                            let j = choose|j: int| 0 <= j < keys@.len() && keys@[j] == k;
                            if j < next {
                                assert(is_open(old(db)@.dirs, keys@[j]));
                            }
                        } else {
                            assert(is_open(old(db)@.dirs, self.ids@[i]));
                        }
                    }
                    self.stage = OpenStage::Done;
                } else {
                    assert forall|i: int| 0 <= i < next + 1 implies is_open(
                        db@.dirs,
                        #[trigger] keys@[i],
                    ) by {
                        if i < next {
                            assert(is_open(old(db)@.dirs, keys@[i]));
                        }
                    }
                    self.stage = OpenStage::Writing { keys, next: next + 1 };
                }
                Ok(())
            },
            _ => vstd::pervasive::unreached(),
        }
    }
}

/// `db` after the current open of the directories `ids` is complete.
pub open spec fn opens_completed(db: StateView, ids: Set<i32>) -> StateView {
    StateView {
        dirs: Map::new(
            |id: i32| db.dirs.contains_key(id),
            |id: i32|
                if ids.contains(id) {
                    DirView { last_complete_open: db.open, ..db.dirs[id] }
                } else {
                    db.dirs[id]
                },
        ),
        ..db
    }
}

fn complete_opens(db: &mut LockedDatabase, ids: &Vec<i32>)
    requires
        forall|i: int| 0 <= i < ids@.len() ==> old(db)@.dirs.contains_key(#[trigger] ids@[i]),
    ensures
        final(db)@ == opens_completed(old(db)@, ids@.to_set()),
{
    let ghost before = db@;
    let mut i: usize = 0;
    assert(db@.dirs =~= opens_completed(before, ids@.take(0).to_set()).dirs);
    while i < ids.len()
        invariant
            i <= ids@.len(),
            forall|j: int| 0 <= j < ids@.len() ==> before.dirs.contains_key(#[trigger] ids@[j]),
            db@ == opens_completed(before, ids@.take(i as int).to_set()),
        decreases ids@.len() - i,
    {
        let id: i32 = ids[i];
        let ghost now = db@;
        assert(before.dirs.contains_key(ids@[i as int]));
        assert(db.state.sample_file_dirs_by_id@.contains_key(id)) by {
            assert(now.dirs.contains_key(id));
        }
        match db.state.sample_file_dirs_by_id.remove(&id) {
            Some(d) => {
                assert(d@ == now.dirs[id]);
                let d = SampleFileDir { last_complete_open: db.state.open, ..d };
                let ghost view = d@;
                db.state.sample_file_dirs_by_id.insert(id, d);
                assert(db@.dirs =~= now.dirs.insert(id, view));
                assert(view == (DirView { last_complete_open: before.open, ..before.dirs[id] }));
            },
            None => vstd::pervasive::unreached(),
        }
        proof {
            let done = ids@.take(i as int);
            let next = ids@.take(i + 1);
            assert(next =~= done.push(id));
            assert forall|k: i32| #[trigger] next.to_set().contains(k) <==> done.to_set().contains(
                k,
            ) || k == id by {
                if done.contains(k) {
                    let j = choose|j: int| 0 <= j < done.len() && done[j] == k;
                    assert(next[j] == k);
                }
                if k == id {
                    assert(next[i as int] == k);
                }
                if next.contains(k) && k != id {
                    let j = choose|j: int| 0 <= j < next.len() && next[j] == k;
                    assert(done[j] == k);
                }
            }
            let after = opens_completed(before, next.to_set());
            assert forall|k: i32| #[trigger] db@.dirs.contains_key(k) implies db@.dirs[k]
                == after.dirs[k] by {
                assert(next.to_set().contains(k) <==> done.to_set().contains(k) || k == id);
            }
            assert(db@.dirs =~= after.dirs);
        }
        i += 1;
    }
    assert(ids@.take(ids@.len() as int) =~= ids@);
}

/// `db` after the directory `id` was opened.
pub open spec fn dir_opened(db: StateView, id: i32, dir: DirHandle) -> StateView {
    StateView {
        dirs: db.dirs.insert(id, DirView { dir: Some(dir), ..db.dirs[id] }),
        ..db
    }
}

fn set_open(db: &mut LockedDatabase, id: i32, dir: DirHandle)
    requires
        old(db)@.dirs.contains_key(id),
    ensures
        final(db)@ == dir_opened(old(db)@, id, dir),
{
    match db.state.sample_file_dirs_by_id.remove(&id) {
        Some(d) => {
            let d = SampleFileDir { dir: Some(dir), ..d };
            let ghost view = d@;
            db.state.sample_file_dirs_by_id.insert(id, d);
            assert(db@.dirs =~= old(db)@.dirs.insert(id, view));
        },
        None => {
            assert(old(db)@.dirs.contains_key(id) <==> old(
                db,
            ).state.sample_file_dirs_by_id@.contains_key(id));
        },
    }
}

impl LockedDatabase {
    /// Opens the given sample file directories.
    ///
    /// `ids` is implicitly de-duplicated.
    ///
    /// When the database is in read-only mode, this simply opens all the directories after
    /// locking and verifying their metadata matches the database state. In read-write mode, it
    /// performs a single database transaction to update metadata for all dirs, then performs a
    /// like update to the directories' on-disk metadata. This starts it.
    pub fn open_sample_file_dirs<'r>(&self, ids: &'r [i32]) -> (r: Result<
        OpenSampleFileDirs<'r>,
        Error,
    >)
        ensures
            match seek_dir(self@.dirs, Set::<i32>::empty(), ids@, 0) {
                Err(e) => r == Err::<OpenSampleFileDirs<'r>, Error>(e),
                Ok(n) => r matches Ok(op) && {
                    &&& op.valid(self@)
                    &&& op.describes(self@)
                    &&& op.ids == ids
                    &&& op.pending() == Set::<i32>::empty()
                    &&& if n < ids@.len() {
                        op.stage == OpenStage::Opening(n as usize)
                    } else if self@.open is None {
                        op.stage is Done
                    } else {
                        op.stage matches OpenStage::Updating { keys, next } && next == 0
                    }
                },
            },
    {
        let mut op = OpenSampleFileDirs { ids, in_progress: fnv_new(), stage: OpenStage::Done };
        assert(op.pending() =~= Set::<i32>::empty());
        match op.seek(self, 0) {
            Err(e) => Err(e),
            Ok(()) => Ok(op),
        }
    }
}

/// The step that adding a directory has come to.
#[derive(Copy, Clone, Debug)]
pub enum AddDirStage {
    /// The directory is to be created.
    Create,
    /// The directory's row is to be inserted.
    Insert { dir: DirHandle },
    /// The directory's metadata are to be written.
    WriteMeta { dir: DirHandle, id: i32 },
}

/// A directory being added.
pub struct AddSampleFileDir {
    pub path: String,
    pub meta: DirMeta,
    /// The current open.
    pub open: Open,
    pub stage: AddDirStage,
}

impl LockedDatabase {
    /// Adds a sample file directory under a uuid made at random. This starts it.
    pub fn add_sample_file_dir(&self, path: String) -> (r: Result<AddSampleFileDir, Error>)
        ensures
            match self@.open {
                None => r == Err::<AddSampleFileDir, Error>(Error::ReadOnly),
                Some(o) => r matches Ok(op) && op.path == path && op.open == o && op.stage
                    == AddDirStage::Create && op.meta == (DirMeta {
                    db_uuid: self@.uuid,
                    dir_uuid: op.meta.dir_uuid,
                    last_complete_open: None,
                    in_progress_open: Some(o),
                }) && may_be_random(op.meta.dir_uuid) && op.meta.dir_uuid@[6] / 16 == 4
                    && op.meta.dir_uuid@[8] / 64 == 2,
            },
    {
        let uuid = Uuid::new_v4();
        self.add_sample_file_dir_with(uuid, path)
    }

    /// Adds a sample file directory under the given uuid. This starts it.
    pub fn add_sample_file_dir_with(&self, uuid: Uuid, path: String) -> (r: Result<
        AddSampleFileDir,
        Error,
    >)
        ensures
            r == match self@.open {
                None => Err::<AddSampleFileDir, Error>(Error::ReadOnly),
                Some(o) => Ok(
                    AddSampleFileDir {
                        path,
                        meta: DirMeta {
                            db_uuid: self@.uuid,
                            dir_uuid: uuid,
                            last_complete_open: None,
                            in_progress_open: Some(o),
                        },
                        open: o,
                        stage: AddDirStage::Create,
                    },
                ),
            },
    {
        match self.state.open {
            None => Err(Error::ReadOnly),
            Some(o) => Ok(
                AddSampleFileDir {
                    path,
                    meta: DirMeta {
                        db_uuid: self.state.uuid,
                        dir_uuid: uuid,
                        last_complete_open: None,
                        in_progress_open: Some(o),
                    },
                    open: o,
                    stage: AddDirStage::Create,
                },
            ),
        }
    }
}

impl AddSampleFileDir {
    /// What to do next.
    pub fn action(&self) -> (r: DirAction<'_>)
        ensures
            r == match self.stage {
                AddDirStage::Create => DirAction::Create { path: &self.path, meta: self.meta },
                AddDirStage::Insert { .. } => DirAction::Run(
                    Statement::InsertSampleFileDir {
                        path: &self.path,
                        uuid: self.meta.dir_uuid,
                        last_complete_open_id: self.open.id,
                    },
                ),
                AddDirStage::WriteMeta { dir, .. } => DirAction::WriteMeta {
                    dir,
                    meta: self.meta.spec_completed(),
                },
            },
    {
        match self.stage {
            AddDirStage::Create => DirAction::Create { path: &self.path, meta: self.meta },
            AddDirStage::Insert { .. } => DirAction::Run(
                Statement::InsertSampleFileDir {
                    path: &self.path,
                    uuid: self.meta.dir_uuid,
                    last_complete_open_id: self.open.id,
                },
            ),
            AddDirStage::WriteMeta { dir, .. } => DirAction::WriteMeta {
                dir,
                meta: self.meta.completed(),
            },
        }
    }

    /// Takes the directory that was created.
    pub fn created(&mut self, reply: Result<DirHandle, String>) -> (r: Result<(), Error>)
        ensures
            final(self).path == old(self).path,
            final(self).meta == old(self).meta,
            final(self).open == old(self).open,
            match reply {
                Err(e) => r == Err::<(), Error>(Error::Dir(e)) && final(self).stage == old(
                    self,
                ).stage,
                Ok(dir) => r == Ok::<(), Error>(()) && final(self).stage == (AddDirStage::Insert {
                    dir,
                }),
            },
    {
        match reply {
            Err(e) => Err(Error::Dir(e)),
            Ok(dir) => {
                self.stage = AddDirStage::Insert { dir };
                Ok(())
            },
        }
    }

    /// Takes the reply to the statement or to the write. Returns the id of the directory when all
    /// is done. The directory is known from when its row is inserted, even if its metadata can't
    /// be written afterwards.
    pub fn advance(&mut self, db: &mut LockedDatabase, reply: Reply) -> (r: Result<
        Option<i32>,
        Error,
    >)
        requires
            !(old(self).stage is Create),
        ensures
            final(self).path == old(self).path,
            final(self).meta == old(self).meta,
            final(self).open == old(self).open,
            match old(self).stage {
                AddDirStage::Insert { dir } => match reply {
                    Err(e) => r == Err::<Option<i32>, Error>(Error::Sql(e)) && final(db)@ == old(
                        db,
                    )@,
                    Ok(done) => {
                        let id = done.last_insert_rowid as i32;
                        if old(db)@.dirs.contains_key(id) {
                            r == Err::<Option<i32>, Error>(Error::DuplicateDir(id)) && final(db)@
                                == old(db)@
                        } else {
                            &&& r == Ok::<Option<i32>, Error>(None)
                            &&& final(self).stage == (AddDirStage::WriteMeta { dir, id })
                            &&& final(db)@ == (StateView {
                                dirs: old(db)@.dirs.insert(
                                    id,
                                    DirView {
                                        id,
                                        path: old(self).path@,
                                        uuid: old(self).meta.dir_uuid,
                                        dir: Some(dir),
                                        last_complete_open: Some(old(self).open),
                                    },
                                ),
                                ..old(db)@
                            })
                        }
                    },
                },
                AddDirStage::WriteMeta { id, .. } => final(db)@ == old(db)@ && match reply {
                    Err(e) => r == Err::<Option<i32>, Error>(Error::Dir(e)),
                    Ok(_) => r == Ok::<Option<i32>, Error>(Some(id)),
                },
                AddDirStage::Create => true,
            },
    {
        match self.stage {
            AddDirStage::Insert { dir } => {
                let done = match reply {
                    Err(e) => return Err(Error::Sql(e)),
                    Ok(done) => done,
                };
                #[verifier::truncate]
                let id: i32 = done.last_insert_rowid as i32;
                if db.state.sample_file_dirs_by_id.contains_key(&id) {
                    assert(db@.dirs.contains_key(id));
                    return Err(Error::DuplicateDir(id));
                }
                let d = SampleFileDir {
                    id,
                    path: self.path.clone(),
                    uuid: self.meta.dir_uuid,
                    dir: Some(dir),
                    last_complete_open: Some(self.open),
                };
                let ghost view = d@;
                db.state.sample_file_dirs_by_id.insert(id, d);
                assert(db@.dirs =~= old(db)@.dirs.insert(id, view));
                self.stage = AddDirStage::WriteMeta { dir, id };
                Ok(None)
            },
            AddDirStage::WriteMeta { id, .. } => match reply {
                Err(e) => Err(Error::Dir(e)),
                Ok(_) => Ok(Some(id)),
            },
            AddDirStage::Create => vstd::pervasive::unreached(),
        }
    }
}

/// Whether the stream `id` keeps its sample files in the directory `dir_id`.
pub open spec fn uses_dir(streams: Map<i32, StreamView>, id: i32, dir_id: i32) -> bool {
    streams.contains_key(id) && streams[id].sample_file_dir_id == Some(dir_id)
}

/// A directory being deleted.
#[derive(Copy, Clone, Debug)]
pub struct DeleteSampleFileDir {
    pub dir_id: i32,
}

impl LockedDatabase {
    /// Deletes a sample file directory, which no stream may refer to. This starts it.
    pub fn delete_sample_file_dir(&self, dir_id: i32) -> (r: Result<DeleteSampleFileDir, Error>)
        ensures
            match r {
                Ok(op) => op.dir_id == dir_id && forall|id: i32|
                    !#[trigger] uses_dir(self@.streams, id, dir_id),
                Err(e) => exists|stream_id: i32|
                    {
                        &&& #[trigger] uses_dir(self@.streams, stream_id, dir_id)
                        &&& forall|id: i32|
                            id < stream_id ==> !#[trigger] uses_dir(self@.streams, id, dir_id)
                        &&& e == Error::DirInUse { stream_id }
                    },
            },
    {
        let ids = ascending_keys(&self.state.streams_by_id);
        let mut i: usize = 0;
        while i < ids.len()
            invariant
                i <= ids@.len(),
                ascending(ids@),
                forall|k: i32| #[trigger]
                    ids@.contains(k) <==> self.state.streams_by_id@.contains_key(k),
                forall|j: int| 0 <= j < i ==> !uses_dir(self@.streams, #[trigger] ids@[j], dir_id),
            decreases ids@.len() - i,
        {
            let stream_id: i32 = ids[i];
            assert(ids@.contains(stream_id));
            match self.state.streams_by_id.get(&stream_id) {
                Some(s) => {
                    assert(s@ == self@.streams[stream_id]);
                    if let Some(d) = s.sample_file_dir_id {
                        if d == dir_id {
                            assert forall|id: i32| id < stream_id implies !#[trigger] uses_dir(
                                self@.streams,
                                id,
                                dir_id,
                            ) by {
                                if uses_dir(self@.streams, id, dir_id) {
                                    assert(ids@.contains(id));
                                    let j = choose|j: int| 0 <= j < ids@.len() && ids@[j] == id;
                                    assert(!uses_dir(self@.streams, ids@[j], dir_id));
                                }
                            }
                            assert(uses_dir(self@.streams, stream_id, dir_id));
                            return Err(Error::DirInUse { stream_id });
                        }
                    }
                },
                None => {},
            }
            i += 1;
        }
        assert forall|id: i32| !#[trigger] uses_dir(self@.streams, id, dir_id) by {
            if uses_dir(self@.streams, id, dir_id) {
                assert(ids@.contains(id));
                let j = choose|j: int| 0 <= j < ids@.len() && ids@[j] == id;
                assert(!uses_dir(self@.streams, ids@[j], dir_id));
            }
        }
        Ok(DeleteSampleFileDir { dir_id })
    }
}

impl DeleteSampleFileDir {
    /// The statement to run.
    pub fn statement(&self) -> (r: Statement<'_>)
        ensures
            r == (Statement::DeleteSampleFileDir { dir_id: self.dir_id }),
    {
        Statement::DeleteSampleFileDir { dir_id: self.dir_id }
    }

    /// Takes the reply to the statement.
    pub fn finish(self, db: &mut LockedDatabase, reply: Reply) -> (r: Result<(), Error>)
        requires
            reply matches Ok(done) ==> done.changes == 1 ==> old(db)@.dirs.contains_key(
                self.dir_id,
            ),
        ensures
            match reply {
                Err(e) => r == Err::<(), Error>(Error::Sql(e)),
                Ok(done) => r == if done.changes != 1 {
                    Err::<(), Error>(Error::NoSuchDirToRemove(self.dir_id))
                } else {
                    Ok(())
                },
            },
            final(db)@ == if r is Ok {
                StateView { dirs: old(db)@.dirs.remove(self.dir_id), ..old(db)@ }
            } else {
                old(db)@
            },
    {
        match reply {
            Err(e) => Err(Error::Sql(e)),
            Ok(done) => {
                if done.changes != 1 {
                    return Err(Error::NoSuchDirToRemove(self.dir_id));
                }
                db.state.sample_file_dirs_by_id.remove(&self.dir_id);
                assert(db@.dirs =~= old(db)@.dirs.remove(self.dir_id));
                Ok(())
            },
        }
    }
}

} // verus!
