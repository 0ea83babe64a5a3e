use moonfire_db::error::Error;
use moonfire_db::ids::{CompositeId, StreamType};
use moonfire_db::load::{
    check_schema_version, has_version_table, CameraRow, DirRow, EntryRow, OpenForWriting,
    StreamRow,
};
use moonfire_db::model::LockedDatabase;
use moonfire_db::recording::{Duration, Time};
use moonfire_db::statement::{Executed, Statement};
use moonfire_db::stream::RecordingSummary;
use moonfire_db::uuids::Uuid;

fn camera(id: i32, uuid: u8) -> CameraRow {
    CameraRow {
        id,
        uuid: Uuid([uuid; 16]),
        short_name: "s".to_owned(),
        description: "d".to_owned(),
        host: "h".to_owned(),
        username: "u".to_owned(),
        password: "p".to_owned(),
    }
}

fn stream(id: i32, type_: &str, camera_id: i32) -> StreamRow {
    StreamRow {
        id,
        type_: type_.to_owned(),
        camera_id,
        sample_file_dir_id: Some(4),
        rtsp_path: "/path".to_owned(),
        retain_bytes: 5,
        next_recording_id: 6,
        record: true,
    }
}

fn entry(id: i32, sha1_len: usize) -> EntryRow {
    EntryRow {
        id,
        sha1: vec![3; sha1_len],
        width: 65536 + 1920,
        height: 1080,
        rfc6381_codec: "avc1".to_owned(),
        data: vec![1, 2],
    }
}

#[test]
fn schema_versions() {
    assert!(!has_version_table(0));
    assert!(has_version_table(1));
    assert!(matches!(check_schema_version(None), Err(Error::NoVersion)));
    assert!(matches!(check_schema_version(Some(2)), Err(Error::VersionTooOld(2))));
    assert!(matches!(check_schema_version(Some(4)), Err(Error::VersionTooNew(4))));
    check_schema_version(Some(3)).unwrap();
}

#[test]
fn opening_for_writing() {
    let op = OpenForWriting::new();
    match op.statement() {
        Statement::InsertOpen { uuid } => assert_eq!(4, uuid.as_bytes()[6] >> 4),
        other => panic!("{:?}", other),
    }
    let open = op
        .finish(Ok(Executed { changes: 1, last_insert_rowid: 0x1_0000_0007 }))
        .unwrap();
    assert_eq!((7, op.uuid), (open.id, open.uuid));
    assert!(matches!(op.finish(Err("busy".to_owned())), Err(Error::Sql(_))));
}

#[test]
fn loading() {
    let mut db = LockedDatabase::new(Uuid([1; 16]), None);
    db.init_video_sample_entries(vec![entry(7, 20)]).unwrap();
    let e = &db.video_sample_entries()[&7];
    assert_eq!((7, 1920, 1080, [3; 20]), (e.id, e.width, e.height, e.sha1));
    match db.init_video_sample_entries(vec![entry(8, 20), entry(9, 19), entry(10, 20)]) {
        Err(Error::WrongSha1Length { entry_id, len }) => assert_eq!((9, 19), (entry_id, len)),
        other => panic!("{:?}", other),
    }
    assert_eq!(2, db.video_sample_entries().len());

    db.init_cameras(vec![camera(5, 50), camera(6, 60)]);
    let c = db.get_camera(Uuid([60; 16])).unwrap();
    assert_eq!((6, [None, None], "h"), (c.id, c.streams, &c.host[..]));
    assert!(db.get_camera(Uuid([70; 16])).is_none());

    db.init_streams(vec![stream(1, "sub", 5), stream(2, "main", 5)]).unwrap();
    assert_eq!([Some(2), Some(1)], db.cameras_by_id()[&5].streams);
    let s = &db.streams_by_id()[&1];
    assert_eq!((1, 5, StreamType::SUB), (s.id, s.camera_id, s.type_));
    assert_eq!(Some(4), s.sample_file_dir_id);
    assert_eq!((5, 6, true), (s.retain_bytes, s.next_recording_id, s.record));
    match db.init_streams(vec![stream(3, "other", 5)]) {
        Err(Error::NoSuchStreamType(name)) => assert_eq!("other", name),
        other => panic!("{:?}", other),
    }
    match db.init_streams(vec![stream(3, "main", 9)]) {
        Err(Error::MissingCamera { camera_id, stream_id }) => {
            assert_eq!((9, 3), (camera_id, stream_id));
        }
        other => panic!("{:?}", other),
    }
    assert_eq!(2, db.streams_by_id().len());
    assert_eq!(2, db.cameras_by_id().len());

    let rows = [RecordingSummary {
        start: Time(100),
        duration: Duration(10),
        sample_file_bytes: 5,
    }];
    assert!(db.can_init_stream_recordings(1, &rows));
    assert!(!db.can_init_stream_recordings(3, &rows));
    db.init_stream_recordings(1, &rows);
    assert_eq!(Some(Time(100)..Time(110)), db.streams_by_id()[&1].range);
    assert_eq!(None, db.streams_by_id()[&2].range);
}

#[test]
fn directories_need_a_complete_open() {
    let dir = |last_complete_open_id, open_uuid| DirRow {
        id: 4,
        path: "/dir".to_owned(),
        uuid: Uuid([2; 16]),
        last_complete_open_id,
        open_uuid,
    };
    let mut db = LockedDatabase::new(Uuid([1; 16]), None);
    for row in [dir(Some(1), None), dir(None, Some(Uuid([3; 16])))] {
        match db.init_sample_file_dirs(vec![row]) {
            Err(Error::OpenMissing { dir_id }) => assert_eq!(4, dir_id),
            other => panic!("{:?}", other),
        }
    }
    db.init_sample_file_dirs(vec![dir(Some(1), Some(Uuid([3; 16])))]).unwrap();
    let open = db.sample_file_dirs_by_id()[&4].last_complete_open.unwrap();
    assert_eq!((1, Uuid([3; 16])), (open.id, open.uuid));
    db.init_sample_file_dirs(vec![dir(None, None)]).unwrap();
    assert!(db.sample_file_dirs_by_id()[&4].last_complete_open.is_none());
}

#[test]
fn messages() {
    let id = CompositeId::new(3, 7);
    for (e, expected) in [
        (Error::Sql("busy".to_owned()), "busy"),
        (Error::Dir("gone".to_owned()), "gone"),
        (Error::Hash("no digest".to_owned()), "no digest"),
        (Error::InvalidCalendarTime("Invalid month.".to_owned()), "Invalid month."),
        (Error::DayTooLong, "failed to write whole buffer"),
        (Error::InvalidUuid("Invalid length".to_owned()), "Invalid length"),
        (Error::MustRollback, "failing due to previous error"),
        (Error::NoSuchRecording(id), "no such recording 3/7"),
        (Error::NoSuchRecordingPlayback(id), "no such recording_playback 3/7"),
        (Error::NoSuchStream(-4), "no such stream -4"),
        (Error::NoSuchStreamId(4), "no such stream id 4"),
        (Error::StreamHasNoDir(4), "stream 4 has no dir"),
        (Error::NoGarbageRow(id), "no garbage row for 3/7"),
        (
            Error::EndBeforeStart { end: Time(1), start: Time(2) },
            "end time 1 must be >= start time 2",
        ),
        (Error::OutOfOrder { id, next: 9 }, "recording 3/7 out of order; next id is 9!"),
        (
            Error::NegativeLimit { stream_id: 3, limit: -5 },
            "can't set limit for stream 3 to -5; must be >= 0",
        ),
        (
            Error::MissingMax { stream_id: 3, min_start: Time(5) },
            "missing max for stream 3 which had min 5",
        ),
        (
            Error::DirChange { from: 1, to: Some(2), stream_id: 3 },
            "can't change sample_file_dir_id 1->Some(2) for non-empty stream 3",
        ),
        (
            Error::DirChange { from: 1, to: None, stream_id: 3 },
            "can't change sample_file_dir_id 1->None for non-empty stream 3",
        ),
        (Error::MissingStream(3), "missing stream 3"),
        (Error::NoSuchDir(3), "no such dir 3"),
        (Error::DirNotUpdated(3), "unable to update dir 3"),
        (Error::DirClosed(3), "sample file dir 3 is closed"),
        (
            Error::NoSuchEntry { id, entry_id: 9 },
            "recording 3/7 references nonexistent video_sample_entry 9",
        ),
        (
            Error::Discontinuity { stream_id: 3, last: 6, end: Time(1), id, start: Time(2) },
            "stream 3 recording 6 ends at 1; 3/7 starts at 2; expected same",
        ),
        (
            Error::WrongSha1Length { entry_id: 3, len: 19 },
            "video sample entry id 3 has sha1 19 of wrong length",
        ),
        (Error::OpenMissing { dir_id: 3 }, "open table missing id 3"),
        (Error::NoSuchStreamType("x".to_owned()), "no such stream type x"),
        (Error::MissingCamera { camera_id: 3, stream_id: 4 }, "missing camera 3 for stream 4"),
        (Error::ReadOnly, "database is read-only"),
        (Error::DuplicateDir(3), "duplicate sample file dir id 3"),
        (Error::DirInUse { stream_id: 3 }, "can't delete dir referenced by stream 3"),
        (Error::NoSuchDirToRemove(3), "no such dir 3 to remove"),
        (Error::NoSuchCamera(3), "no such camera 3"),
        (Error::NoSuchCameraToRemove(3), "No such camera 3 to remove"),
        (Error::CameraMissing(3), "Camera 3 missing from database"),
        (Error::StreamMissing { camera_id: 3 }, "Stream 3 missing from database"),
        (Error::CameraHasRecordings(3), "Can't remove camera 3; has recordings."),
        (
            Error::VersionTooOld(2),
            "Database schema version 2 is too old (expected 3); see upgrade instructions in \
             guide/upgrade.md.",
        ),
        (
            Error::VersionTooNew(4),
            "Database schema version 4 is too new (expected 3); must use a newer binary to match.",
        ),
    ] {
        assert_eq!(expected, e.message());
    }
    assert!(Error::NoVersion.message().starts_with("no such table: version. If you are"));
}
