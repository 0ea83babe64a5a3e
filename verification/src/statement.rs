//! Statements that the database is asked to run, and its replies.
use crate::ids::{CompositeId, StreamType};
use crate::recording::{Duration, Time};
use crate::uuids::Uuid;
use std::ops::Range;
use vstd::prelude::*;

verus! {

/// What a statement that ran did.
#[derive(Copy, Clone, Debug)]
pub struct Executed {
    /// The number of rows that were inserted, updated or deleted.
    pub changes: usize,
    /// The id of the row that was inserted last.
    pub last_insert_rowid: i64,
}

/// How the attempt to run a statement came out: what it did, or what the database said against it.
pub type Reply = Result<Executed, String>;

/// A bit in the `flags` of a recording.
#[derive(Copy, Clone, Debug)]
pub enum RecordingFlags {
    TrailingZero,
}

impl RecordingFlags {
    /// The bit.
    pub fn mask(self) -> (r: i32)
        ensures
            r == match self {
                RecordingFlags::TrailingZero => 1i32,
            },
    {
        match self {
            RecordingFlags::TrailingZero => 1,
        }
    }
}

/// A recording to pass to `insert_recording`.
#[derive(Debug)]
pub struct RecordingToInsert {
    pub id: CompositeId,
    pub run_offset: i32,
    pub flags: i32,
    pub sample_file_bytes: i32,
    pub time: Range<Time>,
    pub local_time_delta: Duration,
    pub video_samples: i32,
    pub video_sync_samples: i32,
    pub video_sample_entry_id: i32,
    pub video_index: Vec<u8>,
    pub sample_file_sha1: [u8; 20],
}

/// A row used in `list_oldest_sample_files`.
#[derive(Debug)]
pub struct ListOldestSampleFilesRow {
    pub id: CompositeId,
    pub time: Range<Time>,
    pub sample_file_bytes: i32,
}

/// A change to one of a camera's streams.
#[derive(Debug)]
pub struct StreamChange {
    pub sample_file_dir_id: Option<i32>,
    pub rtsp_path: String,
    pub record: bool,
}

/// Information about a camera, used by `add_camera` and `update_camera`.
#[derive(Debug)]
pub struct CameraChange {
    pub short_name: String,
    pub description: String,
    pub host: String,
    pub username: String,
    pub password: String,
    /// `StreamType t` is represented by `streams[t.index()]`. A default stream change corresponds
    /// to no stream in the database, provided there are no existing recordings for that stream.
    pub streams: [StreamChange; 2],
}

/// A statement that changes the database.
#[derive(Debug)]
pub enum Statement<'a> {
    /// Delete from `recording_playback`.
    DeleteRecordingPlayback { composite_id: CompositeId },
    /// Delete from `recording`.
    DeleteRecording { composite_id: CompositeId },
    /// Insert into `garbage`.
    InsertGarbage { sample_file_dir_id: i32, composite_id: CompositeId },
    /// Delete from `garbage`.
    DeleteGarbage { composite_id: CompositeId },
    /// Insert into `recording`.
    InsertRecording { recording: &'a RecordingToInsert, stream_id: i32, duration_90k: i64 },
    /// Insert into `recording_playback`.
    InsertRecordingPlayback {
        composite_id: CompositeId,
        sample_file_sha1: &'a [u8; 20],
        video_index: &'a Vec<u8>,
    },
    /// Set `next_recording_id` of a stream.
    UpdateNextRecordingId { stream_id: i32, next_recording_id: i32 },
    /// Set `record` and `retain_bytes` of a stream.
    UpdateRetention { stream_id: i32, record: bool, retain_bytes: i64 },
    /// Delete from `stream`.
    DeleteStream { stream_id: i32 },
    /// Set `rtsp_path`, `record` and `sample_file_dir_id` of a stream.
    UpdateStream { stream_id: i32, change: &'a StreamChange },
    /// Insert into `stream`, with no bytes to retain and 1 as the next recording id.
    InsertStream { camera_id: i32, type_: StreamType, change: &'a StreamChange },
    /// Insert into `camera`.
    InsertCamera { uuid: Uuid, camera: &'a CameraChange },
    /// Set everything but `uuid` of a camera.
    UpdateCamera { camera_id: i32, camera: &'a CameraChange },
    /// Delete from `camera`.
    DeleteCamera { camera_id: i32 },
    /// Insert into `video_sample_entry`.
    InsertVideoSampleEntry {
        sha1: &'a [u8; 20],
        width: u16,
        height: u16,
        rfc6381_codec: &'a String,
        data: &'a Vec<u8>,
    },
    /// Insert into `sample_file_dir`.
    InsertSampleFileDir { path: &'a String, uuid: Uuid, last_complete_open_id: u32 },
    /// Set `last_complete_open_id` of a sample file directory.
    UpdateLastCompleteOpen { dir_id: i32, open_id: u32 },
    /// Delete from `sample_file_dir`.
    DeleteSampleFileDir { dir_id: i32 },
    /// Insert into `open`.
    InsertOpen { uuid: Uuid },
}

/// What to do next in a database transaction.
#[derive(Debug)]
pub enum Action<'a> {
    /// Run a statement.
    Run(Statement<'a>),
    /// Commit the statements that were run.
    Commit,
}

} // verus!
