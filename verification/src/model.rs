//! The in-memory picture of the database.
use crate::collections::{cache_capacity, cache_entries, VideoIndexCache};
use crate::days::{DayMap, StreamDayValue};
use crate::error::Error;
use crate::ids::StreamType;
use crate::recording::{Duration, Time};
use crate::uuids::{lemma_uuid_number_injective, uuid_number, Uuid};
use std::collections::BTreeMap;
use std::ops::Range;
use std::sync::Arc;
use vstd::prelude::*;

verus! {

broadcast use {
    vstd::std_specs::btree::group_btree_axioms,
    vstd::laws_cmp::group_laws_cmp,
};

/// A concrete box derived from a ISO/IEC 14496-12 section 8.5.2 VisualSampleEntry box. Describes
/// the codec, width, height, etc.
#[derive(Debug)]
pub struct VideoSampleEntry {
    pub data: Vec<u8>,
    pub rfc6381_codec: String,
    pub id: i32,
    pub width: u16,
    pub height: u16,
    pub sha1: [u8; 20],
}

/// What a video sample entry holds.
#[verifier::ext_equal]
pub struct EntryView {
    pub data: Seq<u8>,
    pub rfc6381_codec: Seq<char>,
    pub id: i32,
    pub width: u16,
    pub height: u16,
    pub sha1: Seq<u8>,
}

impl View for VideoSampleEntry {
    type V = EntryView;

    open spec fn view(&self) -> EntryView {
        EntryView {
            data: self.data@,
            rfc6381_codec: self.rfc6381_codec@,
            id: self.id,
            width: self.width,
            height: self.height,
            sha1: self.sha1@,
        }
    }
}

/// A period during which the database was open for writing.
#[derive(Copy, Clone, Debug)]
pub struct Open {
    pub id: u32,
    pub uuid: Uuid,
}

/// An opened sample file directory, by the number that its opener knows it by.
#[derive(Copy, Clone, Debug, PartialEq, Eq, Structural)]
pub struct DirHandle(pub u64);

/// A directory that holds sample files.
#[derive(Debug)]
pub struct SampleFileDir {
    pub id: i32,
    pub path: String,
    pub uuid: Uuid,
    pub dir: Option<DirHandle>,
    pub last_complete_open: Option<Open>,
}

/// What is known of a sample file directory.
#[verifier::ext_equal]
pub struct DirView {
    pub id: i32,
    pub path: Seq<char>,
    pub uuid: Uuid,
    pub dir: Option<DirHandle>,
    pub last_complete_open: Option<Open>,
}

impl View for SampleFileDir {
    type V = DirView;

    open spec fn view(&self) -> DirView {
        DirView {
            id: self.id,
            path: self.path@,
            uuid: self.uuid,
            dir: self.dir,
            last_complete_open: self.last_complete_open,
        }
    }
}

impl SampleFileDir {
    /// The opened directory, or an error if it is closed. Open directories with
    /// `LockedDatabase::open_sample_file_dirs` first.
    pub fn get(&self) -> (r: Result<DirHandle, Error>)
        ensures
            r == match self.dir {
                Some(dir) => Ok::<DirHandle, Error>(dir),
                None => Err(Error::DirClosed(self.id)),
            },
    {
        match self.dir {
            Some(dir) => Ok(dir),
            None => Err(Error::DirClosed(self.id)),
        }
    }
}

/// In-memory state about a camera.
#[derive(Debug)]
pub struct Camera {
    pub id: i32,
    pub uuid: Uuid,
    pub short_name: String,
    pub description: String,
    pub host: String,
    pub username: String,
    pub password: String,
    pub streams: [Option<i32>; 2],
}

/// What is known of a camera.
#[verifier::ext_equal]
pub struct CameraView {
    pub id: i32,
    pub uuid: Uuid,
    pub short_name: Seq<char>,
    pub description: Seq<char>,
    pub host: Seq<char>,
    pub username: Seq<char>,
    pub password: Seq<char>,
    pub streams: Seq<Option<i32>>,
}

impl View for Camera {
    type V = CameraView;

    open spec fn view(&self) -> CameraView {
        CameraView {
            id: self.id,
            uuid: self.uuid,
            short_name: self.short_name@,
            description: self.description@,
            host: self.host@,
            username: self.username@,
            password: self.password@,
            streams: self.streams@,
        }
    }
}

/// In-memory state about a stream of a camera.
#[derive(Debug)]
pub struct Stream {
    pub id: i32,
    pub camera_id: i32,
    pub sample_file_dir_id: Option<i32>,
    pub type_: StreamType,
    pub rtsp_path: String,
    pub retain_bytes: i64,
    /// The time range of recorded data associated with this stream (minimum start time and maximum
    /// end time). `None` iff there are no recordings for this stream.
    pub range: Option<Range<Time>>,
    pub sample_file_bytes: i64,
    /// The total duration of recorded data. This may not be `range.end - range.start` due to
    /// gaps and overlap.
    pub duration: Duration,
    /// Mapping of calendar day (in the server's time zone) to a summary of recordings on that day.
    pub days: DayMap,
    pub record: bool,
    pub next_recording_id: i32,
}

/// What is known of a stream.
#[verifier::ext_equal]
pub struct StreamView {
    pub id: i32,
    pub camera_id: i32,
    pub sample_file_dir_id: Option<i32>,
    pub type_: StreamType,
    pub rtsp_path: Seq<char>,
    pub retain_bytes: i64,
    pub range: Option<Range<Time>>,
    pub sample_file_bytes: i64,
    pub duration: Duration,
    pub days: Map<Seq<u8>, StreamDayValue>,
    pub record: bool,
    pub next_recording_id: i32,
}

impl View for Stream {
    type V = StreamView;

    open spec fn view(&self) -> StreamView {
        StreamView {
            id: self.id,
            camera_id: self.camera_id,
            sample_file_dir_id: self.sample_file_dir_id,
            type_: self.type_,
            rtsp_path: self.rtsp_path@,
            retain_bytes: self.retain_bytes,
            range: self.range,
            sample_file_bytes: self.sample_file_bytes,
            duration: self.duration,
            days: self.days@,
            record: self.record,
            next_recording_id: self.next_recording_id,
        }
    }
}

/// A copy of a time range.
pub fn copied_range(r: &Option<Range<Time>>) -> (c: Option<Range<Time>>)
    ensures
        c == *r,
{
    match r {
        Some(r) => Some(r.start..r.end),
        None => None,
    }
}

impl Clone for Stream {
    fn clone(&self) -> (r: Self)
        ensures
            r@ == self@,
    {
        Stream {
            id: self.id,
            camera_id: self.camera_id,
            sample_file_dir_id: self.sample_file_dir_id,
            type_: self.type_,
            rtsp_path: self.rtsp_path.clone(),
            retain_bytes: self.retain_bytes,
            range: copied_range(&self.range),
            sample_file_bytes: self.sample_file_bytes,
            duration: self.duration,
            days: self.days.clone(),
            record: self.record,
            next_recording_id: self.next_recording_id,
        }
    }
}

/// In-memory state from the database.
#[derive(Debug)]
pub struct State {
    pub uuid: Uuid,
    /// If the database is open in read-write mode, the information about the current open row.
    pub open: Option<Open>,
    pub sample_file_dirs_by_id: BTreeMap<i32, SampleFileDir>,
    pub cameras_by_id: BTreeMap<i32, Camera>,
    pub streams_by_id: BTreeMap<i32, Stream>,
    /// The camera's id by the number of its uuid.
    pub cameras_by_uuid: BTreeMap<u128, i32>,
    pub video_sample_entries: BTreeMap<i32, Arc<VideoSampleEntry>>,
    pub list_recordings_by_time_sql: String,
    pub video_index_cache: VideoIndexCache,
}

/// What is known of the database.
#[verifier::ext_equal]
pub struct StateView {
    pub uuid: Uuid,
    pub open: Option<Open>,
    pub dirs: Map<i32, DirView>,
    pub cameras: Map<i32, CameraView>,
    pub streams: Map<i32, StreamView>,
    pub camera_ids: Map<u128, i32>,
    pub entries: Map<i32, EntryView>,
    pub list_recordings_by_time_sql: Seq<char>,
    pub cache: Seq<(i64, Seq<u8>)>,
    pub cache_capacity: nat,
}

/// What is known of each of the directories `m`.
pub open spec fn dirs_view(m: Map<i32, SampleFileDir>) -> Map<i32, DirView> {
    m.map_values(|d: SampleFileDir| d@)
}

/// What is known of each of the cameras `m`.
pub open spec fn cameras_view(m: Map<i32, Camera>) -> Map<i32, CameraView> {
    m.map_values(|c: Camera| c@)
}

/// What is known of each of the streams `m`.
pub open spec fn streams_view(m: Map<i32, Stream>) -> Map<i32, StreamView> {
    m.map_values(|s: Stream| s@)
}

/// What each of the entries `m` holds.
pub open spec fn entries_view(m: Map<i32, Arc<VideoSampleEntry>>) -> Map<i32, EntryView> {
    m.map_values(|e: Arc<VideoSampleEntry>| (*e)@)
}

impl View for State {
    type V = StateView;

    open spec fn view(&self) -> StateView {
        StateView {
            uuid: self.uuid,
            open: self.open,
            dirs: dirs_view(self.sample_file_dirs_by_id@),
            cameras: cameras_view(self.cameras_by_id@),
            streams: streams_view(self.streams_by_id@),
            camera_ids: self.cameras_by_uuid@,
            entries: entries_view(self.video_sample_entries@),
            list_recordings_by_time_sql: self.list_recordings_by_time_sql@,
            cache: cache_entries(self.video_index_cache),
            cache_capacity: cache_capacity(self.video_index_cache),
        }
    }
}

impl StateView {
    /// Whether every camera that can be found by a uuid can be found by its id, and has the uuid.
    pub open spec fn cameras_linked(self) -> bool {
        forall|n: u128| #[trigger]
            self.camera_ids.contains_key(n) ==> self.cameras.contains_key(self.camera_ids[n])
                && uuid_number(self.cameras[self.camera_ids[n]].uuid) == n
    }

    /// Whether every camera has room for its streams, and every stream that a camera has is
    /// known, belongs to the camera, and has the type that its place among the camera's streams
    /// says.
    pub open spec fn streams_linked(self) -> bool {
        &&& forall|c: i32| #[trigger]
            self.cameras.contains_key(c) ==> self.cameras[c].streams.len() == 2
        &&& forall|c: i32, i: int|
            #![trigger self.cameras[c].streams[i]]
            self.cameras.contains_key(c) && 0 <= i < 2 && self.cameras[c].streams[i] is Some
                ==> self.stream_at_home(c, i)
    }

    /// Whether the stream that the camera `c` has at `i` is known, belongs to the camera, and has
    /// the type that `i` stands for.
    pub open spec fn stream_at_home(self, c: i32, i: int) -> bool {
        let sid = self.cameras[c].streams[i]->0;
        &&& self.streams.contains_key(sid)
        &&& self.streams[sid].camera_id == c
        &&& self.streams[sid].type_.position() == i
    }

    /// What holds of every state that is built up from a database.
    pub open spec fn linked(self) -> bool {
        self.cameras_linked() && self.streams_linked()
    }
}

/// The database: what is known of it. Statements are run by the caller.
#[derive(Debug)]
pub struct LockedDatabase {
    pub state: State,
}

impl View for LockedDatabase {
    type V = StateView;

    open spec fn view(&self) -> StateView {
        self.state@
    }
}

impl LockedDatabase {
    /// The cameras by id.
    pub fn cameras_by_id(&self) -> (r: &BTreeMap<i32, Camera>)
        ensures
            cameras_view(r@) == self@.cameras,
    {
        &self.state.cameras_by_id
    }

    /// The sample file directories by id.
    pub fn sample_file_dirs_by_id(&self) -> (r: &BTreeMap<i32, SampleFileDir>)
        ensures
            dirs_view(r@) == self@.dirs,
    {
        &self.state.sample_file_dirs_by_id
    }

    /// The streams by id.
    pub fn streams_by_id(&self) -> (r: &BTreeMap<i32, Stream>)
        ensures
            streams_view(r@) == self@.streams,
    {
        &self.state.streams_by_id
    }

    /// The video sample entries by id.
    pub fn video_sample_entries(&self) -> (r: &BTreeMap<i32, Arc<VideoSampleEntry>>)
        ensures
            entries_view(r@) == self@.entries,
    {
        &self.state.video_sample_entries
    }

    /// The camera with the given uuid.
    pub fn get_camera(&self, uuid: Uuid) -> (r: Option<&Camera>)
        requires
            self@.camera_ids.contains_key(uuid_number(uuid)) ==> self@.cameras.contains_key(
                self@.camera_ids[uuid_number(uuid)],
            ),
        ensures
            r is Some <==> self@.camera_ids.contains_key(uuid_number(uuid)),
            r matches Some(c) ==> c@ == self@.cameras[self@.camera_ids[uuid_number(uuid)]],
            self@.cameras_linked() ==> (r matches Some(c) ==> c.uuid == uuid),
    {
        match self.state.cameras_by_uuid.get(&uuid.number()) {
            Some(id) => {
                proof {
                    assert(self@.camera_ids.contains_key(uuid_number(uuid)));
                    if self@.cameras_linked() {
                        lemma_uuid_number_injective(self@.cameras[*id].uuid, uuid);
                    }
                }
                self.state.cameras_by_id.get(id)
            },
            None => None,
        }
    }
}

} // verus!
