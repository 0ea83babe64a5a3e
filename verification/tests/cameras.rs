use moonfire_db::error::Error;
use moonfire_db::load::{CameraRow, StreamRow};
use moonfire_db::model::LockedDatabase;
use moonfire_db::recording::{Duration, Time};
use moonfire_db::statement::{Action, CameraChange, Executed, Reply, Statement, StreamChange};
use moonfire_db::stream::RecordingSummary;
use moonfire_db::uuids::Uuid;

const UUID: Uuid = Uuid([2; 16]);

fn done(changes: usize, last_insert_rowid: i64) -> Reply {
    Ok(Executed { changes, last_insert_rowid })
}

fn stream_row(id: i32, type_: &str, camera_id: i32) -> StreamRow {
    StreamRow {
        id,
        type_: type_.to_owned(),
        camera_id,
        sample_file_dir_id: Some(1),
        rtsp_path: "/old".to_owned(),
        retain_bytes: 77,
        next_recording_id: 10,
        record: true,
    }
}

fn database() -> LockedDatabase {
    let mut db = LockedDatabase::new(Uuid([1; 16]), None);
    for (id, uuid) in [(5, UUID), (6, Uuid([3; 16]))] {
        db.init_camera(CameraRow {
            id,
            uuid,
            short_name: "cam".to_owned(),
            description: "".to_owned(),
            host: "".to_owned(),
            username: "".to_owned(),
            password: "".to_owned(),
        });
    }
    db.init_streams(vec![
        stream_row(3, "main", 5),
        stream_row(4, "sub", 5),
        stream_row(7, "main", 6),
    ])
    .unwrap();
    db
}

fn add_recording(db: &mut LockedDatabase, stream_id: i32) {
    let rows = [RecordingSummary {
        start: Time(100),
        duration: Duration(10),
        sample_file_bytes: 5,
    }];
    db.init_stream_recordings(stream_id, &rows);
}

fn wanted(path: &str, dir: Option<i32>, record: bool) -> StreamChange {
    StreamChange { sample_file_dir_id: dir, rtsp_path: path.to_owned(), record }
}

fn change(main: StreamChange, sub: StreamChange) -> CameraChange {
    CameraChange {
        short_name: "new".to_owned(),
        description: "d".to_owned(),
        host: "h".to_owned(),
        username: "u".to_owned(),
        password: "p".to_owned(),
        streams: [main, sub],
    }
}

#[test]
fn add_camera_with_one_stream() {
    let mut db = database();
    let uuid = Uuid([9; 16]);
    let mut op =
        db.add_camera_with(uuid, change(StreamChange::default(), wanted("", None, true)));
    match op.action(&db) {
        Action::Run(Statement::InsertCamera { uuid: u, camera }) => {
            assert_eq!(uuid, u);
            assert_eq!("new", camera.short_name);
        }
        other => panic!("{:?}", other),
    }
    assert_eq!(None, op.advance(&mut db, done(1, 20)).unwrap());
    match op.action(&db) {
        Action::Run(Statement::InsertStream { camera_id, type_, change }) => {
            assert_eq!((20, "sub", true), (camera_id, type_.as_str(), change.record));
        }
        other => panic!("{:?}", other),
    }
    assert_eq!(None, op.advance(&mut db, done(1, 0x1_0000_0000 + 30)).unwrap());
    assert!(matches!(op.action(&db), Action::Commit));
    assert!(db.get_camera(uuid).is_none());
    assert_eq!(Some(20), op.advance(&mut db, done(0, 0)).unwrap());
    let c = db.get_camera(uuid).unwrap();
    assert_eq!((20, [None, Some(30)]), (c.id, c.streams));
    assert_eq!(("new", "d", "h"), (&c.short_name[..], &c.description[..], &c.host[..]));
    assert_eq!(("u", "p"), (&c.username[..], &c.password[..]));
    let s = &db.streams_by_id()[&30];
    assert_eq!((30, 20, "sub", true), (s.id, s.camera_id, s.type_.as_str(), s.record));
    assert_eq!((0, 1, None), (s.retain_bytes, s.next_recording_id, s.range.clone()));
    assert_eq!(0, s.days.len());

    // Random uuids are marked as such.
    let op = db.add_camera(change(StreamChange::default(), StreamChange::default()));
    assert_eq!((4, 2), (op.uuid.as_bytes()[6] >> 4, op.uuid.as_bytes()[8] >> 6));
    let other = db.add_camera(change(StreamChange::default(), StreamChange::default()));
    assert_ne!(op.uuid, other.uuid);
}

#[test]
fn add_camera_fails() {
    let mut db = database();
    let both = || change(wanted("/main", None, true), wanted("/sub", None, true));
    for failing in 0..4 {
        let mut op = db.add_camera_with(Uuid([9; 16]), both());
        for i in 0..failing {
            assert_eq!(None, op.advance(&mut db, done(1, 20 + i)).unwrap());
        }
        match op.advance(&mut db, Err("busy".to_owned())).err().unwrap() {
            Error::Sql(e) => assert_eq!("busy", e),
            other => panic!("{:?}", other),
        }
        assert_eq!((2, 3), (db.cameras_by_id().len(), db.streams_by_id().len()));
    }
}

#[test]
fn update_camera_updates_and_deletes_streams() {
    let mut db = database();
    add_recording(&mut db, 3);
    let mut op = db
        .update_camera(5, change(wanted("", Some(1), false), StreamChange::default()))
        .unwrap();
    match op.action(&db) {
        Action::Run(Statement::UpdateStream { stream_id, change }) => {
            assert_eq!((3, Some(1), false), (stream_id, change.sample_file_dir_id, change.record));
        }
        other => panic!("{:?}", other),
    }
    assert!(op.advance(&mut db, done(1, 0)).unwrap().is_none());
    match op.action(&db) {
        Action::Run(Statement::DeleteStream { stream_id }) => assert_eq!(4, stream_id),
        other => panic!("{:?}", other),
    }
    assert!(op.advance(&mut db, done(1, 0)).unwrap().is_none());
    match op.action(&db) {
        Action::Run(Statement::UpdateCamera { camera_id, camera }) => {
            assert_eq!((5, "new"), (camera_id, &camera.short_name[..]));
        }
        other => panic!("{:?}", other),
    }
    assert!(op.advance(&mut db, done(1, 0)).unwrap().is_none());
    assert!(matches!(op.action(&db), Action::Commit));
    assert_eq!("cam", db.cameras_by_id()[&5].short_name);
    assert!(op.advance(&mut db, done(0, 0)).unwrap().is_some());
    let c = &db.cameras_by_id()[&5];
    assert_eq!(("new", [Some(3), None], UUID), (&c.short_name[..], c.streams, c.uuid));
    assert!(!db.streams_by_id().contains_key(&4));
    let s = &db.streams_by_id()[&3];
    assert_eq!(("", false), (&s.rtsp_path[..], s.record));
    assert_eq!((77, 10), (s.retain_bytes, s.next_recording_id));
    assert_eq!(Some(Time(100)..Time(110)), s.range);
}

#[test]
fn update_camera_inserts_and_keeps_streams() {
    let mut db = database();
    let mut op = db
        .update_camera(6, change(wanted("/x", None, false), wanted("/y", None, false)))
        .unwrap();
    assert!(matches!(op.action(&db), Action::Run(Statement::UpdateStream { stream_id: 7, .. })));
    assert!(op.advance(&mut db, done(1, 0)).unwrap().is_none());
    assert!(matches!(op.action(&db), Action::Run(Statement::InsertStream { camera_id: 6, .. })));
    assert!(op.advance(&mut db, done(1, 8)).unwrap().is_none());
    assert!(op.advance(&mut db, done(1, 0)).unwrap().is_none());
    assert!(op.advance(&mut db, done(0, 0)).unwrap().is_some());
    assert_eq!([Some(7), Some(8)], db.cameras_by_id()[&6].streams);
    assert_eq!("/x", db.streams_by_id()[&7].rtsp_path);
    assert_eq!(None, db.streams_by_id()[&7].sample_file_dir_id);
    assert_eq!("/y", db.streams_by_id()[&8].rtsp_path);
}

#[test]
fn update_camera_fails() {
    let mut db = database();
    assert!(matches!(
        db.update_camera(9, change(StreamChange::default(), StreamChange::default())),
        Err(Error::NoSuchCamera(9))
    ));
    let mut op = db
        .update_camera(5, change(StreamChange::default(), wanted("/y", Some(1), true)))
        .unwrap();
    assert!(matches!(op.advance(&mut db, done(0, 0)), Err(Error::MissingStream(3))));
    assert!(op.advance(&mut db, done(1, 0)).unwrap().is_none());
    assert!(matches!(op.advance(&mut db, done(0, 0)), Err(Error::MissingStream(4))));
    assert!(op.advance(&mut db, done(1, 0)).unwrap().is_none());
    assert!(matches!(op.advance(&mut db, done(0, 0)), Err(Error::CameraMissing(5))));
    assert!(op.advance(&mut db, done(1, 0)).unwrap().is_none());
    assert!(matches!(op.advance(&mut db, Err("busy".to_owned())), Err(Error::Sql(_))));
    assert_eq!(3, db.streams_by_id().len());
    assert_eq!("cam", db.cameras_by_id()[&5].short_name);

    // A stream with recordings stays in its directory.
    add_recording(&mut db, 4);
    let mut op = db
        .update_camera(5, change(wanted("/x", Some(2), true), wanted("/y", None, true)))
        .unwrap();
    match op.advance(&mut db, done(1, 0)).err().unwrap() {
        Error::DirChange { from, to, stream_id } => assert_eq!((1, None, 4), (from, to, stream_id)),
        other => panic!("{:?}", other),
    }
    add_recording(&mut db, 3);
    assert!(matches!(
        db.update_camera(5, change(wanted("/x", Some(2), true), StreamChange::default())),
        Err(Error::DirChange { from: 1, to: Some(2), stream_id: 3 })
    ));
}

#[test]
fn delete_camera_deletes_its_streams() {
    let mut db = database();
    let mut op = db.delete_camera(5).unwrap();
    assert!(matches!(op.action(), Action::Run(Statement::DeleteStream { stream_id: 3 })));
    assert!(op.advance(&mut db, done(1, 0)).unwrap().is_none());
    assert!(matches!(op.action(), Action::Run(Statement::DeleteStream { stream_id: 4 })));
    assert!(op.advance(&mut db, done(1, 0)).unwrap().is_none());
    assert!(matches!(op.action(), Action::Run(Statement::DeleteCamera { camera_id: 5 })));
    assert!(op.advance(&mut db, done(1, 0)).unwrap().is_none());
    assert!(matches!(op.action(), Action::Commit));
    assert!(matches!(op.advance(&mut db, Err("busy".to_owned())), Err(Error::Sql(_))));
    assert!(db.get_camera(UUID).is_some());
    assert!(op.advance(&mut db, done(0, 0)).unwrap().is_some());
    assert!(db.get_camera(UUID).is_none());
    assert_eq!(vec![6], db.cameras_by_id().keys().cloned().collect::<Vec<i32>>());
    assert_eq!(vec![7], db.streams_by_id().keys().cloned().collect::<Vec<i32>>());
    assert_eq!(6, db.get_camera(Uuid([3; 16])).unwrap().id);
}

#[test]
fn delete_camera_fails() {
    let mut db = database();
    assert!(matches!(db.delete_camera(9), Err(Error::NoSuchCameraToRemove(9))));
    let mut op = db.delete_camera(5).unwrap();
    assert!(matches!(
        op.advance(&mut db, done(0, 0)),
        Err(Error::StreamMissing { camera_id: 5 })
    ));
    assert!(op.advance(&mut db, done(1, 0)).unwrap().is_none());
    assert!(op.advance(&mut db, done(1, 0)).unwrap().is_none());
    assert!(matches!(op.advance(&mut db, done(0, 0)), Err(Error::CameraMissing(5))));

    // Recordings on the second stream show once the first stream is deleted.
    add_recording(&mut db, 4);
    let mut op = db.delete_camera(5).unwrap();
    assert!(matches!(op.advance(&mut db, done(1, 0)), Err(Error::CameraHasRecordings(5))));
    add_recording(&mut db, 3);
    assert!(matches!(db.delete_camera(5), Err(Error::CameraHasRecordings(5))));
    assert_eq!(3, db.streams_by_id().len());
}
