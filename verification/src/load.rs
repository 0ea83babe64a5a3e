//! Building up the in-memory state from the database.
use crate::collections::cache_new;
use crate::days::DayMap;
use crate::error::Error;
use crate::ids::{lemma_stream_types_distinct, StreamType};
use crate::model::{
    Camera, CameraView, DirView, EntryView, LockedDatabase, Open, SampleFileDir, State, StateView,
    Stream, StreamView, VideoSampleEntry,
};
use crate::recording::{Duration, MAX_RECORDING_DURATION};
use crate::statement::{Reply, Statement};
use crate::stream::{
    can_init_recordings, init_recordings, possible_splits, recordings_added, recordings_fit,
    RecordingSummary,
};
use crate::text::{decimal, decimal_text, joined};
use crate::uuids::{may_be_random, uuid_number, Uuid};
use std::collections::BTreeMap;
use std::sync::Arc;
use vstd::prelude::*;

verus! {

broadcast use {
    vstd::std_specs::btree::group_btree_axioms,
    vstd::laws_cmp::group_laws_cmp,
};

/// Expected schema version.
pub const EXPECTED_VERSION: i32 = 3;

/// How many video indexes the cache can hold.
pub const CACHED_VIDEO_INDEXES: usize = 1024;

/// Whether the database has a version table, given the number of tables of that name. One that has
/// none is empty or predates schema versioning.
pub fn has_version_table(ver_tables: i32) -> (r: bool)
    ensures
        r == (ver_tables != 0),
{
    ver_tables != 0
}

/// Checks the version of the schema, if the database has a version table.
pub fn check_schema_version(version: Option<i32>) -> (r: Result<(), Error>)
    ensures
        r == match version {
            None => Err::<(), Error>(Error::NoVersion),
            Some(v) => if v < EXPECTED_VERSION {
                Err(Error::VersionTooOld(v))
            } else if v > EXPECTED_VERSION {
                Err(Error::VersionTooNew(v))
            } else {
                Ok(())
            },
        },
{
    match version {
        None => Err(Error::NoVersion),
        Some(v) => {
            if v < EXPECTED_VERSION {
                Err(Error::VersionTooOld(v))
            } else if v > EXPECTED_VERSION {
                Err(Error::VersionTooNew(v))
            } else {
                Ok(())
            }
        },
    }
}

/// The query for recordings by time, up to how far it reaches back from the desired start.
pub const BY_TIME_SQL_HEAD: &'static str = "\
    select \
    recording.composite_id, \
    recording.run_offset, \
    recording.flags, \
    recording.start_time_90k, \
    recording.duration_90k, \
    recording.sample_file_bytes, \
    recording.video_samples, \
    recording.video_sync_samples, \
    recording.video_sample_entry_id \
    from recording \
    where stream_id = :stream_id and \
    recording.start_time_90k > :start_time_90k - ";

/// The rest of the query for recordings by time.
pub const BY_TIME_SQL_TAIL: &'static str = " and \
    recording.start_time_90k < :end_time_90k and \
    recording.start_time_90k + recording.duration_90k > :start_time_90k \
    order by recording.start_time_90k";

/// The query for recordings by time. Recordings are found by start time, so it reaches back from
/// the desired start by as long as a recording can last.
pub open spec fn list_recordings_by_time_text() -> Seq<char> {
    BY_TIME_SQL_HEAD@ + decimal(MAX_RECORDING_DURATION as int) + BY_TIME_SQL_TAIL@
}

fn list_recordings_by_time_sql() -> (r: String)
    ensures
        r@ == list_recordings_by_time_text(),
{
    let head = joined(
        BY_TIME_SQL_HEAD.to_owned(),
        decimal_text(MAX_RECORDING_DURATION).as_str(),
    );
    joined(head, BY_TIME_SQL_TAIL)
}

/// What is known of a database before anything is loaded.
pub open spec fn fresh_state(uuid: Uuid, open: Option<Open>) -> StateView {
    StateView {
        uuid,
        open,
        dirs: Map::empty(),
        cameras: Map::empty(),
        streams: Map::empty(),
        camera_ids: Map::empty(),
        entries: Map::empty(),
        list_recordings_by_time_sql: list_recordings_by_time_text(),
        cache: Seq::empty(),
        cache_capacity: CACHED_VIDEO_INDEXES as nat,
    }
}

/// A period of writing that is about to start.
#[derive(Copy, Clone, Debug)]
pub struct OpenForWriting {
    pub uuid: Uuid,
}

impl OpenForWriting {
    /// A period of writing under a uuid made at random.
    pub fn new() -> (r: Self)
        ensures
            may_be_random(r.uuid),
            r.uuid@[6] / 16 == 4,
            r.uuid@[8] / 64 == 2,
    {
        OpenForWriting { uuid: Uuid::new_v4() }
    }

    /// The statement to run.
    pub fn statement(&self) -> (r: Statement<'_>)
        ensures
            r == (Statement::InsertOpen { uuid: self.uuid }),
    {
        Statement::InsertOpen { uuid: self.uuid }
    }

    /// Takes the reply to the statement.
    pub fn finish(self, reply: Reply) -> (r: Result<Open, Error>)
        ensures
            r == match reply {
                Err(e) => Err::<Open, Error>(Error::Sql(e)),
                Ok(done) => Ok(Open { id: done.last_insert_rowid as u32, uuid: self.uuid }),
            },
    {
        match reply {
            Err(e) => Err(Error::Sql(e)),
            Ok(done) => {
                #[verifier::truncate]
                let id: u32 = done.last_insert_rowid as u32;
                Ok(Open { id, uuid: self.uuid })
            },
        }
    }
}

/// A row of `video_sample_entry`.
#[derive(Debug)]
pub struct EntryRow {
    pub id: i32,
    pub sha1: Vec<u8>,
    pub width: i32,
    pub height: i32,
    pub rfc6381_codec: String,
    pub data: Vec<u8>,
}

/// A row of `sample_file_dir`, with the uuid of its last complete open.
#[derive(Debug)]
pub struct DirRow {
    pub id: i32,
    pub path: String,
    pub uuid: Uuid,
    pub last_complete_open_id: Option<u32>,
    pub open_uuid: Option<Uuid>,
}

/// A row of `camera`.
#[derive(Debug)]
pub struct CameraRow {
    pub id: i32,
    pub uuid: Uuid,
    pub short_name: String,
    pub description: String,
    pub host: String,
    pub username: String,
    pub password: String,
}

/// A row of `stream`.
#[derive(Debug)]
pub struct StreamRow {
    pub id: i32,
    pub type_: String,
    pub camera_id: i32,
    pub sample_file_dir_id: Option<i32>,
    pub rtsp_path: String,
    pub retain_bytes: i64,
    pub next_recording_id: i32,
    pub record: bool,
}

/// What a row of `video_sample_entry` adds to `db`.
pub open spec fn entry_loaded(db: StateView, row: EntryRow) -> Result<StateView, Error> {
    if row.sha1@.len() != 20 {
        Err(Error::WrongSha1Length { entry_id: row.id, len: row.sha1@.len() as usize })
    } else {
        Ok(
            StateView {
                entries: db.entries.insert(
                    row.id,
                    EntryView {
                        data: row.data@,
                        rfc6381_codec: row.rfc6381_codec@,
                        id: row.id,
                        width: row.width as u16,
                        height: row.height as u16,
                        sha1: row.sha1@,
                    },
                ),
                ..db
            },
        )
    }
}

/// What a row of `sample_file_dir` adds to `db`. The directory is closed.
pub open spec fn dir_loaded(db: StateView, row: DirRow) -> Result<StateView, Error> {
    if row.last_complete_open_id is Some != row.open_uuid is Some {
        Err(Error::OpenMissing { dir_id: row.id })
    } else {
        Ok(
            StateView {
                dirs: db.dirs.insert(
                    row.id,
                    DirView {
                        id: row.id,
                        path: row.path@,
                        uuid: row.uuid,
                        dir: None,
                        last_complete_open: match row.last_complete_open_id {
                            Some(id) => Some(Open { id, uuid: row.open_uuid->0 }),
                            None => None,
                        },
                    },
                ),
                ..db
            },
        )
    }
}

/// What a row of `camera` adds to `db`. The camera has no streams yet.
pub open spec fn camera_loaded(db: StateView, row: CameraRow) -> Result<StateView, Error> {
    Ok(
        StateView {
            cameras: db.cameras.insert(
                row.id,
                CameraView {
                    id: row.id,
                    uuid: row.uuid,
                    short_name: row.short_name@,
                    description: row.description@,
                    host: row.host@,
                    username: row.username@,
                    password: row.password@,
                    streams: seq![None, None],
                },
            ),
            camera_ids: db.camera_ids.insert(uuid_number(row.uuid), row.id),
            ..db
        },
    )
}

/// The stream type with the given name, if there is one.
pub open spec fn type_named(name: Seq<char>) -> Option<StreamType> {
    if name == StreamType::MAIN.name() {
        Some(StreamType::MAIN)
    } else if name == StreamType::SUB.name() {
        Some(StreamType::SUB)
    } else {
        None
    }
}

/// What a row of `stream` adds to `db`. The stream has no recordings yet.
pub open spec fn stream_loaded(db: StateView, row: StreamRow) -> Result<StateView, Error> {
    match type_named(row.type_@) {
        None => Err(Error::NoSuchStreamType(row.type_)),
        Some(type_) => if !db.cameras.contains_key(row.camera_id) {
            Err(Error::MissingCamera { camera_id: row.camera_id, stream_id: row.id })
        } else {
            let c = db.cameras[row.camera_id];
            Ok(
                StateView {
                    streams: db.streams.insert(
                        row.id,
                        StreamView {
                            id: row.id,
                            camera_id: row.camera_id,
                            sample_file_dir_id: row.sample_file_dir_id,
                            type_,
                            rtsp_path: row.rtsp_path@,
                            retain_bytes: row.retain_bytes,
                            range: None,
                            sample_file_bytes: 0,
                            duration: Duration(0),
                            days: Map::empty(),
                            record: row.record,
                            next_recording_id: row.next_recording_id,
                        },
                    ),
                    cameras: db.cameras.insert(
                        row.camera_id,
                        CameraView {
                            streams: c.streams.update(type_.position(), Some(row.id)),
                            ..c
                        },
                    ),
                    ..db
                },
            )
        },
    }
}

/// What `rows` add to `db` in turn, and the error that put an end to it, if any.
pub open spec fn rows_loaded<R>(
    db: StateView,
    rows: Seq<R>,
    load: spec_fn(StateView, R) -> Result<StateView, Error>,
) -> (StateView, Option<Error>)
    decreases rows.len(),
{
    if rows.len() == 0 {
        (db, None)
    } else {
        let (db1, error) = rows_loaded(db, rows.drop_last(), load);
        if error is Some {
            (db1, error)
        } else {
            match load(db1, rows.last()) {
                Ok(db2) => (db2, None),
                Err(e) => (db1, Some(e)),
            }
        }
    }
}

/// How rows of `video_sample_entry` are loaded.
pub open spec fn entry_loader() -> spec_fn(StateView, EntryRow) -> Result<StateView, Error> {
    |db: StateView, row: EntryRow| entry_loaded(db, row)
}

/// How rows of `sample_file_dir` are loaded.
pub open spec fn dir_loader() -> spec_fn(StateView, DirRow) -> Result<StateView, Error> {
    |db: StateView, row: DirRow| dir_loaded(db, row)
}

/// How rows of `camera` are loaded.
pub open spec fn camera_loader() -> spec_fn(StateView, CameraRow) -> Result<StateView, Error> {
    |db: StateView, row: CameraRow| camera_loaded(db, row)
}

/// How rows of `stream` are loaded.
pub open spec fn stream_loader() -> spec_fn(StateView, StreamRow) -> Result<StateView, Error> {
    |db: StateView, row: StreamRow| stream_loaded(db, row)
}

proof fn lemma_next_row<R>(
    db: StateView,
    rows: Seq<R>,
    load: spec_fn(StateView, R) -> Result<StateView, Error>,
    i: int,
)
    requires
        0 <= i < rows.len(),
        rows_loaded(db, rows.take(i), load).1 is None,
    ensures
        rows_loaded(db, rows.take(i + 1), load) == match load(
            rows_loaded(db, rows.take(i), load).0,
            rows[i],
        ) {
            Ok(db2) => (db2, None::<Error>),
            Err(e) => (rows_loaded(db, rows.take(i), load).0, Some(e)),
        },
{
    assert(rows.take(i + 1).drop_last() =~= rows.take(i));
}

proof fn lemma_error_stays<R>(
    db: StateView,
    rows: Seq<R>,
    load: spec_fn(StateView, R) -> Result<StateView, Error>,
    i: int,
)
    requires
        0 <= i <= rows.len(),
        rows_loaded(db, rows.take(i), load).1 is Some,
    ensures
        rows_loaded(db, rows, load) == rows_loaded(db, rows.take(i), load),
    decreases rows.len() - i,
{
    if i < rows.len() {
        assert(rows.take(i + 1).drop_last() =~= rows.take(i));
        lemma_error_stays(db, rows, load, i + 1);
    } else {
        assert(rows.take(i) =~= rows);
    }
}

/// Whether `r` says what the error says.
pub open spec fn says(r: Result<(), Error>, error: Option<Error>) -> bool {
    r == match error {
        None => Ok::<(), Error>(()),
        Some(e) => Err(e),
    }
}

impl LockedDatabase {
    /// The database with the given uuid, with nothing loaded. If it is open for writing, `open`
    /// says since when.
    pub fn new(uuid: Uuid, open: Option<Open>) -> (r: Self)
        ensures
            r@ == fresh_state(uuid, open),
    {
        let r = LockedDatabase {
            state: State {
                uuid,
                open,
                sample_file_dirs_by_id: BTreeMap::new(),
                cameras_by_id: BTreeMap::new(),
                cameras_by_uuid: BTreeMap::new(),
                streams_by_id: BTreeMap::new(),
                video_sample_entries: BTreeMap::new(),
                video_index_cache: cache_new(CACHED_VIDEO_INDEXES),
                list_recordings_by_time_sql: list_recordings_by_time_sql(),
            },
        };
        assert(r@.dirs =~= Map::<i32, DirView>::empty());
        assert(r@.cameras =~= Map::<i32, CameraView>::empty());
        assert(r@.streams =~= Map::<i32, StreamView>::empty());
        assert(r@.entries =~= Map::<i32, EntryView>::empty());
        assert(r@.cache =~= Seq::<(i64, Seq<u8>)>::empty());
        r
    }

    /// Adds a video sample entry.
    pub fn init_video_sample_entry(&mut self, row: EntryRow) -> (r: Result<(), Error>)
        ensures
            match entry_loaded(old(self)@, row) {
                Ok(db) => r == Ok::<(), Error>(()) && final(self)@ == db,
                Err(e) => r == Err::<(), Error>(e) && final(self)@ == old(self)@,
            },
    {
        if row.sha1.len() != 20 {
            return Err(Error::WrongSha1Length { entry_id: row.id, len: row.sha1.len() });
        }
        let mut sha1: [u8; 20] = [0; 20];
        let mut i: usize = 0;
        while i < 20
            invariant
                i <= 20,
                row.sha1@.len() == 20,
                forall|j: int| 0 <= j < i ==> sha1@[j] == row.sha1@[j],
            decreases 20 - i,
        {
            sha1[i] = row.sha1[i];
            i += 1;
        }
        assert(sha1@ =~= row.sha1@);
        #[verifier::truncate]
        let width: u16 = row.width as u16;
        #[verifier::truncate]
        let height: u16 = row.height as u16;
        let entry = VideoSampleEntry {
            id: row.id,
            width,
            height,
            sha1,
            data: row.data,
            rfc6381_codec: row.rfc6381_codec,
        };
        let ghost view = entry@;
        self.state.video_sample_entries.insert(row.id, Arc::new(entry));
        assert(self@.entries =~= old(self)@.entries.insert(row.id, view));
        Ok(())
    }

    /// Initializes the video sample entries. To be called during construction.
    pub fn init_video_sample_entries(&mut self, rows: Vec<EntryRow>) -> (r: Result<(), Error>)
        ensures
            final(self)@ == rows_loaded(old(self)@, rows@, entry_loader()).0,
            says(r, rows_loaded(old(self)@, rows@, entry_loader()).1),
    {
        let ghost before = self@;
        let ghost all = rows@;
        assert(all.take(0) =~= Seq::<EntryRow>::empty());
        for row in it: rows
            invariant
                it.seq() == all,
                before == old(self)@,
                all == rows@,
                rows_loaded(before, all.take(it.index() as int), entry_loader()) == (
                    self@,
                    None::<Error>,
                ),
        {
            proof {
                lemma_next_row(before, all, entry_loader(), it.index() as int);
            }
            match self.init_video_sample_entry(row) {
                Ok(()) => {},
                Err(e) => {
                    proof {
                        lemma_error_stays(before, all, entry_loader(), it.index() + 1);
                    }
                    return Err(e);
                },
            }
        }
        assert(all.take(all.len() as int) =~= all);
        Ok(())
    }

    /// Adds a sample file directory.
    pub fn init_sample_file_dir(&mut self, row: DirRow) -> (r: Result<(), Error>)
        ensures
            match dir_loaded(old(self)@, row) {
                Ok(db) => r == Ok::<(), Error>(()) && final(self)@ == db,
                Err(e) => r == Err::<(), Error>(e) && final(self)@ == old(self)@,
            },
    {
        let last_complete_open = match (row.last_complete_open_id, row.open_uuid) {
            (Some(id), Some(uuid)) => Some(Open { id, uuid }),
            (None, None) => None,
            _ => return Err(Error::OpenMissing { dir_id: row.id }),
        };
        let dir = SampleFileDir {
            id: row.id,
            uuid: row.uuid,
            path: row.path,
            dir: None,
            last_complete_open,
        };
        let ghost view = dir@;
        self.state.sample_file_dirs_by_id.insert(row.id, dir);
        assert(self@.dirs =~= old(self)@.dirs.insert(row.id, view));
        Ok(())
    }

    /// Initializes the sample file directories. To be called during construction.
    pub fn init_sample_file_dirs(&mut self, rows: Vec<DirRow>) -> (r: Result<(), Error>)
        ensures
            final(self)@ == rows_loaded(old(self)@, rows@, dir_loader()).0,
            says(r, rows_loaded(old(self)@, rows@, dir_loader()).1),
    {
        let ghost before = self@;
        let ghost all = rows@;
        assert(all.take(0) =~= Seq::<DirRow>::empty());
        for row in it: rows
            invariant
                it.seq() == all,
                before == old(self)@,
                all == rows@,
                rows_loaded(before, all.take(it.index() as int), dir_loader()) == (
                    self@,
                    None::<Error>,
                ),
        {
            proof {
                lemma_next_row(before, all, dir_loader(), it.index() as int);
            }
            match self.init_sample_file_dir(row) {
                Ok(()) => {},
                Err(e) => {
                    proof {
                        lemma_error_stays(before, all, dir_loader(), it.index() + 1);
                    }
                    return Err(e);
                },
            }
        }
        assert(all.take(all.len() as int) =~= all);
        Ok(())
    }

    /// Adds a camera, but not its streams.
    pub fn init_camera(&mut self, row: CameraRow)
        ensures
            camera_loaded(old(self)@, row) == Ok::<StateView, Error>(final(self)@),
    {
        let streams: [Option<i32>; 2] = [None, None];
        assert(streams@ =~= seq![None, None]);
        let camera = Camera {
            id: row.id,
            uuid: row.uuid,
            short_name: row.short_name,
            description: row.description,
            host: row.host,
            username: row.username,
            password: row.password,
            streams,
        };
        let ghost view = camera@;
        self.state.cameras_by_id.insert(row.id, camera);
        assert(self@.cameras =~= old(self)@.cameras.insert(row.id, view));
        self.state.cameras_by_uuid.insert(row.uuid.number(), row.id);
    }

    /// Initializes the cameras, but not their matching recordings. To be called during
    /// construction.
    pub fn init_cameras(&mut self, rows: Vec<CameraRow>)
        ensures
            rows_loaded(old(self)@, rows@, camera_loader()) == (final(self)@, None::<Error>),
    {
        let ghost before = self@;
        let ghost all = rows@;
        assert(all.take(0) =~= Seq::<CameraRow>::empty());
        for row in it: rows
            invariant
                it.seq() == all,
                before == old(self)@,
                all == rows@,
                rows_loaded(before, all.take(it.index() as int), camera_loader()) == (
                    self@,
                    None::<Error>,
                ),
        {
            proof {
                lemma_next_row(before, all, camera_loader(), it.index() as int);
            }
            self.init_camera(row);
        }
        assert(all.take(all.len() as int) =~= all);
    }

    /// Adds a stream, but not its recordings.
    pub fn init_stream(&mut self, row: StreamRow) -> (r: Result<(), Error>)
        ensures
            match stream_loaded(old(self)@, row) {
                Ok(db) => r == Ok::<(), Error>(()) && final(self)@ == db,
                Err(e) => r == Err::<(), Error>(e) && final(self)@ == old(self)@,
            },
    {
        proof {
            lemma_stream_types_distinct(StreamType::MAIN, StreamType::SUB);
        }
        let type_ = match StreamType::parse(row.type_.as_str()) {
            Some(type_) => type_,
            None => return Err(Error::NoSuchStreamType(row.type_)),
        };
        let camera = match self.state.cameras_by_id.remove(&row.camera_id) {
            Some(camera) => camera,
            None => {
                assert(self@.cameras =~= old(self)@.cameras);
                return Err(
                    Error::MissingCamera { camera_id: row.camera_id, stream_id: row.id },
                );
            },
        };
        let ghost camera_before = camera@;
        let stream = Stream {
            id: row.id,
            type_,
            camera_id: row.camera_id,
            sample_file_dir_id: row.sample_file_dir_id,
            rtsp_path: row.rtsp_path,
            retain_bytes: row.retain_bytes,
            range: None,
            sample_file_bytes: 0,
            duration: Duration(0),
            days: DayMap::new(),
            next_recording_id: row.next_recording_id,
            record: row.record,
        };
        let ghost view = stream@;
        self.state.streams_by_id.insert(row.id, stream);
        assert(self@.streams =~= old(self)@.streams.insert(row.id, view));
        let mut streams = camera.streams;
        streams[type_.index()] = Some(row.id);
        let camera = Camera { streams, ..camera };
        let ghost camera_view = camera@;
        assert(camera_view.streams =~= camera_before.streams.update(
            type_.position(),
            Some(row.id),
        ));
        self.state.cameras_by_id.insert(row.camera_id, camera);
        assert(self@.cameras =~= old(self)@.cameras.insert(row.camera_id, camera_view));
        Ok(())
    }

    /// Initializes the streams, but not their matching recordings. To be called during
    /// construction.
    pub fn init_streams(&mut self, rows: Vec<StreamRow>) -> (r: Result<(), Error>)
        ensures
            final(self)@ == rows_loaded(old(self)@, rows@, stream_loader()).0,
            says(r, rows_loaded(old(self)@, rows@, stream_loader()).1),
    {
        let ghost before = self@;
        let ghost all = rows@;
        assert(all.take(0) =~= Seq::<StreamRow>::empty());
        for row in it: rows
            invariant
                it.seq() == all,
                before == old(self)@,
                all == rows@,
                rows_loaded(before, all.take(it.index() as int), stream_loader()) == (
                    self@,
                    None::<Error>,
                ),
        {
            proof {
                lemma_next_row(before, all, stream_loader(), it.index() as int);
            }
            match self.init_stream(row) {
                Ok(()) => {},
                Err(e) => {
                    proof {
                        lemma_error_stays(before, all, stream_loader(), it.index() + 1);
                    }
                    return Err(e);
                },
            }
        }
        assert(all.take(all.len() as int) =~= all);
        Ok(())
    }

    /// Whether `init_stream_recordings` can hold everything that it computes.
    pub fn can_init_stream_recordings(&self, stream_id: i32, rows: &[RecordingSummary]) -> (r:
        bool)
        ensures
            r == (self@.streams.contains_key(stream_id) && recordings_fit(
                self@.streams[stream_id],
                rows@,
            )),
    {
        match self.state.streams_by_id.get(&stream_id) {
            Some(s) => {
                assert(s@ == self@.streams[stream_id]);
                can_init_recordings(s, rows)
            },
            None => false,
        }
    }

    /// Initializes the recordings of a stream. To be called during construction.
    pub fn init_stream_recordings(&mut self, stream_id: i32, rows: &[RecordingSummary])
        requires
            old(self)@.streams.contains_key(stream_id),
            recordings_fit(old(self)@.streams[stream_id], rows@),
        ensures
            exists|splits: Seq<Option<crate::days::DaySplit>>|
                possible_splits(rows@, splits) && final(self)@ == (StateView {
                    streams: old(self)@.streams.insert(
                        stream_id,
                        #[trigger] recordings_added(old(self)@.streams[stream_id], rows@, splits),
                    ),
                    ..old(self)@
                }),
    {
        match self.state.streams_by_id.remove(&stream_id) {
            Some(s) => {
                let mut s = s;
                assert(s@ == old(self)@.streams[stream_id]);
                init_recordings(&mut s, rows);
                let ghost view = s@;
                self.state.streams_by_id.insert(stream_id, s);
                assert(self@.streams =~= old(self)@.streams.insert(stream_id, view));
            },
            None => {
                assert(old(self).state.streams_by_id@.contains_key(stream_id));
            },
        }
    }
}

/// Rows are loaded in turn. The first that can't be loaded puts an end to it: what those before it
/// have added stays, and nothing of those after it is added.
pub proof fn lemma_first_bad_row_stops<R>(
    db: StateView,
    rows: Seq<R>,
    load: spec_fn(StateView, R) -> Result<StateView, Error>,
    i: int,
)
    requires
        0 <= i < rows.len(),
        rows_loaded(db, rows.take(i), load).1 is None,
    ensures
        ({
            let so_far = rows_loaded(db, rows.take(i), load).0;
            match load(so_far, rows[i]) {
                Ok(next) => rows_loaded(db, rows.take(i + 1), load) == (next, None::<Error>),
                Err(e) => rows_loaded(db, rows, load) == (so_far, Some(e)),
            }
        }),
        rows_loaded(db, rows.take(0), load) == (db, None::<Error>),
{
    lemma_next_row(db, rows, load, i);
    if load(rows_loaded(db, rows.take(i), load).0, rows[i]) is Err {
        lemma_error_stays(db, rows, load, i + 1);
    }
}

} // verus!
