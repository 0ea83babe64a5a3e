//! What can go wrong.
use crate::ids::{composite_text, recording_part, stream_part, CompositeId};
use crate::load::EXPECTED_VERSION;
use crate::recording::Time;
use crate::sentence::Sentence;
use crate::text::{decimal, decimal_text, joined};
use vstd::prelude::*;

verus! {

/// Why an operation failed.
#[derive(Debug)]
pub enum Error {
    /// A statement or a commit failed, with what the database said about it.
    Sql(String),
    /// A sample file directory could not be read or written, with what was said about it.
    Dir(String),
    /// A digest could not be computed, with what OpenSSL said about it.
    Hash(String),
    /// A calendar time whose month or weekday is out of range has no date, with what was said
    /// about it.
    InvalidCalendarTime(String),
    /// A date that takes more than ten characters is no day key.
    DayTooLong,
    /// An identifier takes sixteen bytes, with what was said about another number of them.
    InvalidUuid(String),
    /// An earlier step of the transaction failed halfway.
    MustRollback,
    /// No playback row was deleted for the recording, or none was found.
    NoSuchRecording(CompositeId),
    /// No recording row was deleted for the recording.
    NoSuchRecordingPlayback(CompositeId),
    /// The stream is not known, or was not updated.
    NoSuchStream(i32),
    /// The stream of a recording to insert is not known.
    NoSuchStreamId(i32),
    /// A recording was deleted from a stream without a sample file directory.
    StreamHasNoDir(i32),
    /// No garbage row was deleted for the recording.
    NoGarbageRow(CompositeId),
    /// A recording ends before it starts.
    EndBeforeStart { end: Time, start: Time },
    /// A recording's id is below the next one of its stream.
    OutOfOrder { id: CompositeId, next: i32 },
    /// A stream can't retain a negative number of bytes.
    NegativeLimit { stream_id: i32, limit: i64 },
    /// A stream has an earliest recording but no latest one.
    MissingMax { stream_id: i32, min_start: Time },
    /// A stream with recordings can't be moved to another directory.
    DirChange { from: i32, to: Option<i32>, stream_id: i32 },
    /// The stream was not deleted or updated.
    MissingStream(i32),
    /// The directory is not known.
    NoSuchDir(i32),
    /// The directory's row was not updated.
    DirNotUpdated(i32),
    /// The directory was not opened.
    DirClosed(i32),
    /// A recording's video sample entry is not known.
    NoSuchEntry { id: CompositeId, entry_id: i32 },
    /// A recording of a run does not start where the one before it ends.
    Discontinuity { stream_id: i32, last: i32, end: Time, id: CompositeId, start: Time },
    /// A video sample entry's digest does not take twenty bytes.
    WrongSha1Length { entry_id: i32, len: usize },
    /// A directory's last open is not complete.
    OpenMissing { dir_id: i32 },
    /// The stream type has no such name.
    NoSuchStreamType(String),
    /// A stream's camera is not known.
    MissingCamera { camera_id: i32, stream_id: i32 },
    /// A video sample entry with the same digest has another width or height.
    EntryMismatch {
        sha1: [u8; 20],
        known_width: u16,
        known_height: u16,
        width: u16,
        height: u16,
    },
    /// The database is not open for writing.
    ReadOnly,
    /// The id of a new directory is already taken.
    DuplicateDir(i32),
    /// The directory is still in use by a stream.
    DirInUse { stream_id: i32 },
    /// The directory's row was not deleted.
    NoSuchDirToRemove(i32),
    /// The camera to update is not known.
    NoSuchCamera(i32),
    /// The camera to delete is not known.
    NoSuchCameraToRemove(i32),
    /// The camera's row was not updated or deleted.
    CameraMissing(i32),
    /// A row of one of the camera's streams was not deleted.
    StreamMissing { camera_id: i32 },
    /// The camera still has recordings.
    CameraHasRecordings(i32),
    /// The database has no version table.
    NoVersion,
    /// The schema is older than the one that is expected.
    VersionTooOld(i32),
    /// The schema is newer than the one that is expected.
    VersionTooNew(i32),
}

/// What is said of a database without a version table.
pub const NO_VERSION_TEXT: &'static str = "\
    no such table: version. \
    If you are starting from an empty database, see README.md to complete the installation. \
    If you are starting from a database that predates schema versioning, see guide/schema.md.";

/// How an optional number is written out.
pub open spec fn optional_text(x: Option<i32>) -> Seq<char> {
    match x {
        Some(n) => "Some("@ + decimal(n as int) + ")"@,
        None => "None"@,
    }
}

/// Numbers in decimal, with a comma in between.
pub open spec fn list_text(s: Seq<u8>) -> Seq<char>
    decreases s.len(),
{
    if s.len() == 0 {
        seq![]
    } else if s.len() == 1 {
        decimal(s[0] as int)
    } else {
        list_text(s.drop_last()) + ", "@ + decimal(s.last() as int)
    }
}

/// How bytes are written out.
pub open spec fn bytes_text(s: Seq<u8>) -> Seq<char> {
    "["@ + list_text(s) + "]"@
}

fn optional_string(x: &Option<i32>) -> (r: String)
    ensures
        r@ == optional_text(*x),
{
    match x {
        Some(n) => joined(joined("Some(".to_owned(), decimal_text(*n as i64).as_str()), ")"),
        None => "None".to_owned(),
    }
}

fn bytes_string(s: &[u8; 20]) -> (r: String)
    ensures
        r@ == bytes_text(s@),
{
    let mut list = decimal_text(s[0] as i64);
    let mut i: usize = 1;
    assert(list@ =~= list_text(s@.take(1)));
    while i < 20
        invariant
            1 <= i <= 20,
            list@ == list_text(s@.take(i as int)),
        decreases 20 - i,
    {
        proof {
            assert(s@.take(i + 1).drop_last() =~= s@.take(i as int));
            assert(s@.take(i + 1).last() == s@[i as int]);
        }
        list = joined(joined(list, ", "), decimal_text(s[i] as i64).as_str());
        i += 1;
    }
    assert(s@.take(20) =~= s@);
    joined(joined("[".to_owned(), list.as_str()), "]")
}

impl Error {
    /// What the error says.
    pub open spec fn text(self) -> Seq<char> {
        match self {
            Error::Sql(e) => e@,
            Error::Dir(e) => e@,
            Error::Hash(e) => e@,
            Error::InvalidCalendarTime(e) => e@,
            Error::DayTooLong => "failed to write whole buffer"@,
            Error::InvalidUuid(e) => e@,
            Error::MustRollback => "failing due to previous error"@,
            Error::NoSuchRecording(id) => "no such recording "@ + composite_text(id),
            Error::NoSuchRecordingPlayback(id) => "no such recording_playback "@
                + composite_text(id),
            Error::NoSuchStream(id) => "no such stream "@ + decimal(id as int),
            Error::NoSuchStreamId(id) => "no such stream id "@ + decimal(id as int),
            Error::StreamHasNoDir(id) => "stream "@ + decimal(id as int) + " has no dir"@,
            Error::NoGarbageRow(id) => "no garbage row for "@ + composite_text(id),
            Error::EndBeforeStart { end, start } => "end time "@ + decimal(end.0 as int)
                + " must be >= start time "@ + decimal(start.0 as int),
            Error::OutOfOrder { id, next } => "recording "@ + composite_text(id)
                + " out of order; next id is "@ + decimal(next as int) + "!"@,
            Error::NegativeLimit { stream_id, limit } => "can't set limit for stream "@
                + decimal(stream_id as int) + " to "@ + decimal(limit as int) + "; must be >= 0"@,
            Error::MissingMax { stream_id, min_start } => "missing max for stream "@
                + decimal(stream_id as int) + " which had min "@ + decimal(min_start.0 as int),
            Error::DirChange { from, to, stream_id } => "can't change sample_file_dir_id "@
                + decimal(from as int) + "->"@ + optional_text(to) + " for non-empty stream "@
                + decimal(stream_id as int),
            Error::MissingStream(id) => "missing stream "@ + decimal(id as int),
            Error::NoSuchDir(id) => "no such dir "@ + decimal(id as int),
            Error::DirNotUpdated(id) => "unable to update dir "@ + decimal(id as int),
            Error::DirClosed(id) => "sample file dir "@ + decimal(id as int) + " is closed"@,
            Error::NoSuchEntry { id, entry_id } => "recording "@ + composite_text(id)
                + " references nonexistent video_sample_entry "@ + decimal(entry_id as int),
            Error::Discontinuity { stream_id, last, end, id, start } => "stream "@
                + decimal(stream_id as int) + " recording "@ + decimal(last as int) + " ends at "@
                + decimal(end.0 as int) + "; "@ + composite_text(id) + " starts at "@
                + decimal(start.0 as int) + "; expected same"@,
            Error::WrongSha1Length { entry_id, len } => "video sample entry id "@
                + decimal(entry_id as int) + " has sha1 "@ + decimal(len as int)
                + " of wrong length"@,
            Error::OpenMissing { dir_id } => "open table missing id "@ + decimal(dir_id as int),
            Error::NoSuchStreamType(name) => "no such stream type "@ + name@,
            Error::MissingCamera { camera_id, stream_id } => "missing camera "@
                + decimal(camera_id as int) + " for stream "@ + decimal(stream_id as int),
            Error::EntryMismatch { sha1, known_width, known_height, width, height }
                => "database entry for "@ + bytes_text(sha1@) + " is "@
                + decimal(known_width as int) + "x"@ + decimal(known_height as int) + ", not "@
                + decimal(width as int) + "x"@ + decimal(height as int),
            Error::ReadOnly => "database is read-only"@,
            Error::DuplicateDir(id) => "duplicate sample file dir id "@ + decimal(id as int),
            Error::DirInUse { stream_id } => "can't delete dir referenced by stream "@
                + decimal(stream_id as int),
            Error::NoSuchDirToRemove(id) => "no such dir "@ + decimal(id as int) + " to remove"@,
            Error::NoSuchCamera(id) => "no such camera "@ + decimal(id as int),
            Error::NoSuchCameraToRemove(id) => "No such camera "@ + decimal(id as int)
                + " to remove"@,
            Error::CameraMissing(id) => "Camera "@ + decimal(id as int) + " missing from database"@,
            Error::StreamMissing { camera_id } => "Stream "@ + decimal(camera_id as int)
                + " missing from database"@,
            Error::CameraHasRecordings(id) => "Can't remove camera "@ + decimal(id as int)
                + "; has recordings."@,
            Error::NoVersion => NO_VERSION_TEXT@,
            Error::VersionTooOld(v) => "Database schema version "@ + decimal(v as int)
                + " is too old (expected "@ + decimal(EXPECTED_VERSION as int)
                + "); see upgrade instructions in guide/upgrade.md."@,
            Error::VersionTooNew(v) => "Database schema version "@ + decimal(v as int)
                + " is too new (expected "@ + decimal(EXPECTED_VERSION as int)
                + "); must use a newer binary to match."@,
        }
    }

    /// What the error says.
    pub fn message(&self) -> (r: String)
        ensures
            r@ == self.text(),
    {
        match self {
            Error::Sql(e) => e.clone(),
            Error::Dir(e) => e.clone(),
            Error::Hash(e) => e.clone(),
            Error::InvalidCalendarTime(e) => e.clone(),
            Error::DayTooLong => "failed to write whole buffer".to_owned(),
            Error::InvalidUuid(e) => e.clone(),
            Error::MustRollback => "failing due to previous error".to_owned(),
            Error::NoSuchRecording(id) => Sentence::new("no such recording ").id(*id).end(),
            Error::NoSuchRecordingPlayback(id) => Sentence::new("no such recording_playback ")
                .id(*id).end(),
            Error::NoSuchStream(id) => Sentence::new("no such stream ").number(*id as i64).end(),
            Error::NoSuchStreamId(id) => Sentence::new("no such stream id ").number(*id as i64)
                .end(),
            Error::StreamHasNoDir(id) => Sentence::new("stream ").number(*id as i64)
                .text(" has no dir").end(),
            Error::NoGarbageRow(id) => Sentence::new("no garbage row for ").id(*id).end(),
            Error::EndBeforeStart { end, start } => Sentence::new("end time ").number(end.0)
                .text(" must be >= start time ").number(start.0).end(),
            Error::OutOfOrder { id, next } => Sentence::new("recording ").id(*id)
                .text(" out of order; next id is ").number(*next as i64).text("!").end(),
            Error::NegativeLimit { stream_id, limit } => Sentence::new(
                "can't set limit for stream ",
            ).number(*stream_id as i64).text(" to ").number(*limit).text("; must be >= 0")
                .end(),
            Error::MissingMax { stream_id, min_start } => Sentence::new("missing max for stream ")
                .number(*stream_id as i64).text(" which had min ").number(min_start.0).end(),
            Error::DirChange { from, to, stream_id } => Sentence::new(
                "can't change sample_file_dir_id ",
            ).number(*from as i64).text("->").text(optional_string(to).as_str())
                .text(" for non-empty stream ").number(*stream_id as i64).end(),
            Error::MissingStream(id) => Sentence::new("missing stream ").number(*id as i64).end(),
            Error::NoSuchDir(id) => Sentence::new("no such dir ").number(*id as i64).end(),
            Error::DirNotUpdated(id) => Sentence::new("unable to update dir ").number(*id as i64)
                .end(),
            Error::DirClosed(id) => Sentence::new("sample file dir ").number(*id as i64)
                .text(" is closed").end(),
            Error::NoSuchEntry { id, entry_id } => Sentence::new("recording ").id(*id)
                .text(" references nonexistent video_sample_entry ").number(*entry_id as i64)
                .end(),
            Error::Discontinuity { stream_id, last, end, id, start } => Sentence::new("stream ")
                .number(*stream_id as i64).text(" recording ").number(*last as i64)
                .text(" ends at ").number(end.0).text("; ").id(*id).text(" starts at ")
                .number(start.0).text("; expected same").end(),
            Error::WrongSha1Length { entry_id, len } => Sentence::new("video sample entry id ")
                .number(*entry_id as i64).text(" has sha1 ").size(*len).text(" of wrong length")
                .end(),
            Error::OpenMissing { dir_id } => Sentence::new("open table missing id ")
                .number(*dir_id as i64).end(),
            Error::NoSuchStreamType(name) => Sentence::new("no such stream type ")
                .text(name.as_str()).end(),
            Error::MissingCamera { camera_id, stream_id } => Sentence::new("missing camera ")
                .number(*camera_id as i64).text(" for stream ").number(*stream_id as i64).end(),
            Error::EntryMismatch { sha1, known_width, known_height, width, height }
                => Sentence::new("database entry for ")
                .text(bytes_string(sha1).as_str()).text(" is ").number(*known_width as i64)
                .text("x").number(*known_height as i64).text(", not ").number(*width as i64)
                .text("x").number(*height as i64).end(),
            Error::ReadOnly => "database is read-only".to_owned(),
            Error::DuplicateDir(id) => Sentence::new("duplicate sample file dir id ")
                .number(*id as i64).end(),
            Error::DirInUse { stream_id } => Sentence::new("can't delete dir referenced by stream ")
                .number(*stream_id as i64).end(),
            Error::NoSuchDirToRemove(id) => Sentence::new("no such dir ").number(*id as i64)
                .text(" to remove").end(),
            Error::NoSuchCamera(id) => Sentence::new("no such camera ").number(*id as i64).end(),
            Error::NoSuchCameraToRemove(id) => Sentence::new("No such camera ").number(*id as i64)
                .text(" to remove").end(),
            Error::CameraMissing(id) => Sentence::new("Camera ").number(*id as i64)
                .text(" missing from database").end(),
            Error::StreamMissing { camera_id } => Sentence::new("Stream ")
                .number(*camera_id as i64).text(" missing from database").end(),
            Error::CameraHasRecordings(id) => Sentence::new("Can't remove camera ")
                .number(*id as i64).text("; has recordings.").end(),
            Error::NoVersion => NO_VERSION_TEXT.to_owned(),
            Error::VersionTooOld(v) => Sentence::new("Database schema version ").number(*v as i64)
                .text(" is too old (expected ").number(EXPECTED_VERSION as i64)
                .text("); see upgrade instructions in guide/upgrade.md.").end(),
            Error::VersionTooNew(v) => Sentence::new("Database schema version ").number(*v as i64)
                .text(" is too new (expected ").number(EXPECTED_VERSION as i64)
                .text("); must use a newer binary to match.").end(),
        }
    }
}

/// Messages name what they are about: recordings by the ids of their stream and within it, and all
/// else by its id. Where another crate or the database has said something, the message is that.
pub proof fn lemma_messages_name_ids(e: Error, message: String)
    requires
        call_ensures(Error::message, (&e,), message),
    ensures
        match e {
            Error::NoSuchRecording(id) => message@ == "no such recording "@ + named(id),
            Error::NoSuchRecordingPlayback(id) => message@ == "no such recording_playback "@
                + named(id),
            Error::NoGarbageRow(id) => message@ == "no garbage row for "@ + named(id),
            Error::OutOfOrder { id, next } => message@ == "recording "@ + named(id)
                + " out of order; next id is "@ + decimal(next as int) + "!"@,
            Error::NoSuchEntry { id, entry_id } => message@ == "recording "@ + named(id)
                + " references nonexistent video_sample_entry "@ + decimal(entry_id as int),
            Error::NoSuchStream(id) => message@ == "no such stream "@ + decimal(id as int),
            Error::NoSuchStreamId(id) => message@ == "no such stream id "@ + decimal(id as int),
            Error::StreamHasNoDir(id) => message@ == "stream "@ + decimal(id as int)
                + " has no dir"@,
            Error::MissingStream(id) => message@ == "missing stream "@ + decimal(id as int),
            Error::NoSuchDir(id) => message@ == "no such dir "@ + decimal(id as int),
            Error::DirNotUpdated(id) => message@ == "unable to update dir "@ + decimal(id as int),
            Error::DirInUse { stream_id } => message@ == "can't delete dir referenced by stream "@
                + decimal(stream_id as int),
            Error::NoSuchDirToRemove(id) => message@ == "no such dir "@ + decimal(id as int)
                + " to remove"@,
            Error::NoSuchCamera(id) => message@ == "no such camera "@ + decimal(id as int),
            Error::NoSuchCameraToRemove(id) => message@ == "No such camera "@ + decimal(id as int)
                + " to remove"@,
            Error::CameraHasRecordings(id) => message@ == "Can't remove camera "@ + decimal(
                id as int,
            ) + "; has recordings."@,
            Error::DirChange { from, to, stream_id } => message@
                == "can't change sample_file_dir_id "@ + decimal(from as int) + "->"@ + (
            if to is Some {
                "Some("@ + decimal(to->0 as int) + ")"@
            } else {
                "None"@
            }) + " for non-empty stream "@ + decimal(stream_id as int),
            Error::Sql(said) => message@ == said@,
            Error::Dir(said) => message@ == said@,
            Error::Hash(said) => message@ == said@,
            Error::InvalidCalendarTime(said) => message@ == said@,
            Error::InvalidUuid(said) => message@ == said@,
            Error::DayTooLong => message@ == "failed to write whole buffer"@,
            Error::MustRollback => message@ == "failing due to previous error"@,
            Error::EndBeforeStart { end, start } => message@ == "end time "@ + decimal(
                end.0 as int,
            ) + " must be >= start time "@ + decimal(start.0 as int),
            Error::NegativeLimit { stream_id, limit } => message@ == "can't set limit for stream "@
                + decimal(stream_id as int) + " to "@ + decimal(limit as int) + "; must be >= 0"@,
            Error::MissingMax { stream_id, min_start } => message@ == "missing max for stream "@
                + decimal(stream_id as int) + " which had min "@ + decimal(min_start.0 as int),
            Error::DirClosed(id) => message@ == "sample file dir "@ + decimal(id as int)
                + " is closed"@,
            Error::Discontinuity { stream_id, last, end, id, start } => message@ == "stream "@
                + decimal(stream_id as int) + " recording "@ + decimal(last as int) + " ends at "@
                + decimal(end.0 as int) + "; "@ + named(id) + " starts at "@ + decimal(
                start.0 as int,
            ) + "; expected same"@,
            Error::WrongSha1Length { entry_id, len } => message@ == "video sample entry id "@
                + decimal(entry_id as int) + " has sha1 "@ + decimal(len as int)
                + " of wrong length"@,
            Error::OpenMissing { dir_id } => message@ == "open table missing id "@ + decimal(
                dir_id as int,
            ),
            Error::NoSuchStreamType(name) => message@ == "no such stream type "@ + name@,
            Error::MissingCamera { camera_id, stream_id } => message@ == "missing camera "@
                + decimal(camera_id as int) + " for stream "@ + decimal(stream_id as int),
            Error::EntryMismatch { sha1, known_width, known_height, width, height } => message@
                == "database entry for "@ + bytes_text(sha1@) + " is "@ + decimal(
                known_width as int,
            ) + "x"@ + decimal(known_height as int) + ", not "@ + decimal(width as int) + "x"@
                + decimal(height as int),
            Error::ReadOnly => message@ == "database is read-only"@,
            Error::DuplicateDir(id) => message@ == "duplicate sample file dir id "@ + decimal(
                id as int,
            ),
            Error::CameraMissing(id) => message@ == "Camera "@ + decimal(id as int)
                + " missing from database"@,
            Error::StreamMissing { camera_id } => message@ == "Stream "@ + decimal(
                camera_id as int,
            ) + " missing from database"@,
            Error::NoVersion => message@ == NO_VERSION_TEXT@,
            Error::VersionTooOld(v) => message@ == "Database schema version "@ + decimal(v as int)
                + " is too old (expected "@ + decimal(3) +
                "); see upgrade instructions in guide/upgrade.md."@,
            Error::VersionTooNew(v) => message@ == "Database schema version "@ + decimal(v as int)
                + " is too new (expected "@ + decimal(3) + "); must use a newer binary to match."@,
        },
{
}

/// A recording by the id of its stream and its own within it.
pub open spec fn named(id: CompositeId) -> Seq<char> {
    decimal(stream_part(id.0 as int)) + "/"@ + decimal(recording_part(id.0 as int))
}

} // verus!
