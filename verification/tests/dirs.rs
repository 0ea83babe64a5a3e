use moonfire_db::dirs::DirAction;
use moonfire_db::error::Error;
use moonfire_db::load::{CameraRow, DirRow, StreamRow};
use moonfire_db::model::{DirHandle, LockedDatabase, Open};
use moonfire_db::statement::{Executed, Reply, Statement};
use moonfire_db::uuids::Uuid;
use std::collections::BTreeSet;

const DB: Uuid = Uuid([1; 16]);
const OPEN: Open = Open { id: 5, uuid: Uuid([5; 16]) };

fn done(changes: usize, last_insert_rowid: i64) -> Reply {
    Ok(Executed { changes, last_insert_rowid })
}

fn database(open: Option<Open>) -> LockedDatabase {
    let mut db = LockedDatabase::new(DB, open);
    db.init_sample_file_dirs(vec![
        DirRow {
            id: 1,
            path: "/one".to_owned(),
            uuid: Uuid([11; 16]),
            last_complete_open_id: Some(4),
            open_uuid: Some(Uuid([4; 16])),
        },
        DirRow {
            id: 2,
            path: "/two".to_owned(),
            uuid: Uuid([12; 16]),
            last_complete_open_id: None,
            open_uuid: None,
        },
    ])
    .unwrap();
    db
}

#[test]
fn open_read_only() {
    let mut db = database(None);
    assert!(matches!(db.sample_file_dirs_by_id()[&1].get(), Err(Error::DirClosed(1))));
    let ids = [1, 1, 2, 1];
    let mut op = db.open_sample_file_dirs(&ids).unwrap();
    for (path, dir_uuid, last, handle) in
        [("/one", 11, Some((4, Uuid([4; 16]))), 100), ("/two", 12, None, 101)]
    {
        match op.action(&db) {
            Some(DirAction::Open { path: p, meta }) => {
                assert_eq!(path, p);
                assert_eq!((DB, Uuid([dir_uuid; 16])), (meta.db_uuid, meta.dir_uuid));
                assert_eq!(last, meta.last_complete_open.map(|o| (o.id, o.uuid)));
                assert!(meta.in_progress_open.is_none());
            }
            other => panic!("{:?}", other),
        }
        op.opened(&mut db, Ok(DirHandle(handle))).unwrap();
    }
    assert!(op.action(&db).is_none());
    assert_eq!(DirHandle(100), db.sample_file_dirs_by_id()[&1].get().unwrap());
    assert_eq!(DirHandle(101), db.sample_file_dirs_by_id()[&2].get().unwrap());
    assert!(db.open_sample_file_dirs(&ids).unwrap().action(&db).is_none());
}

#[test]
fn open_read_write() {
    let mut db = database(Some(OPEN));
    let ids = [2, 1, 2];
    let mut op = db.open_sample_file_dirs(&ids).unwrap();
    for handle in [100, 101] {
        match op.action(&db) {
            Some(DirAction::Open { meta, .. }) => {
                let o = meta.in_progress_open.unwrap();
                assert_eq!((5, Uuid([5; 16])), (o.id, o.uuid));
            }
            other => panic!("{:?}", other),
        }
        op.opened(&mut db, Ok(DirHandle(handle))).unwrap();
    }
    let mut updated = BTreeSet::new();
    for _ in 0..2 {
        match op.action(&db) {
            Some(DirAction::Run(Statement::UpdateLastCompleteOpen { dir_id, open_id })) => {
                assert_eq!(5, open_id);
                updated.insert(dir_id);
            }
            other => panic!("{:?}", other),
        }
        op.advance(&mut db, done(1, 0)).unwrap();
    }
    assert_eq!(vec![1, 2], updated.into_iter().collect::<Vec<i32>>());
    assert!(matches!(op.action(&db), Some(DirAction::Commit)));
    let last = |db: &LockedDatabase, id| {
        db.sample_file_dirs_by_id()[&id].last_complete_open.map(|o| o.id)
    };
    assert_eq!((Some(4), None), (last(&db, 1), last(&db, 2)));
    op.advance(&mut db, done(0, 0)).unwrap();
    assert_eq!((Some(5), Some(5)), (last(&db, 1), last(&db, 2)));
    let mut written = BTreeSet::new();
    for _ in 0..2 {
        match op.action(&db) {
            Some(DirAction::WriteMeta { dir, meta }) => {
                written.insert(dir.0);
                assert!(meta.in_progress_open.is_none());
                assert_eq!(5, meta.last_complete_open.unwrap().id);
                let expected = if dir.0 == 100 { 12 } else { 11 };
                assert_eq!(Uuid([expected; 16]), meta.dir_uuid);
            }
            other => panic!("{:?}", other),
        }
        op.advance(&mut db, done(0, 0)).unwrap();
    }
    assert_eq!(vec![100, 101], written.into_iter().collect::<Vec<u64>>());
    assert!(op.action(&db).is_none());
    assert_eq!(DirHandle(100), db.sample_file_dirs_by_id()[&2].get().unwrap());
    assert_eq!(DirHandle(101), db.sample_file_dirs_by_id()[&1].get().unwrap());

    // Nothing is left to open, but an empty transaction is committed all the same.
    let mut op = db.open_sample_file_dirs(&ids).unwrap();
    assert!(matches!(op.action(&db), Some(DirAction::Commit)));
    op.advance(&mut db, done(0, 0)).unwrap();
    assert!(op.action(&db).is_none());
}

#[test]
fn open_fails() {
    let mut db = database(Some(OPEN));
    assert!(matches!(db.open_sample_file_dirs(&[9, 1]), Err(Error::NoSuchDir(9))));
    let mut op = db.open_sample_file_dirs(&[1, 9]).unwrap();
    assert!(matches!(op.opened(&mut db, Err("gone".to_owned())), Err(Error::Dir(_))));
    assert!(matches!(op.opened(&mut db, Ok(DirHandle(1))), Err(Error::NoSuchDir(9))));
    let mut op = db.open_sample_file_dirs(&[1]).unwrap();
    op.opened(&mut db, Ok(DirHandle(1))).unwrap();
    assert!(matches!(op.advance(&mut db, done(0, 0)), Err(Error::DirNotUpdated(1))));
    let mut op = db.open_sample_file_dirs(&[1]).unwrap();
    op.opened(&mut db, Ok(DirHandle(1))).unwrap();
    assert!(matches!(op.advance(&mut db, Err("busy".to_owned())), Err(Error::Sql(_))));
    let mut op = db.open_sample_file_dirs(&[1]).unwrap();
    op.opened(&mut db, Ok(DirHandle(1))).unwrap();
    op.advance(&mut db, done(1, 0)).unwrap();
    op.advance(&mut db, done(0, 0)).unwrap();
    assert!(matches!(op.advance(&mut db, Err("full".to_owned())), Err(Error::Dir(_))));
    assert!(matches!(db.sample_file_dirs_by_id()[&1].get(), Err(Error::DirClosed(1))));
}

#[test]
fn add_sample_file_dir_inserts_and_writes() {
    let mut db = database(Some(OPEN));
    let mut op = db.add_sample_file_dir_with(Uuid([7; 16]), "/three".to_owned()).unwrap();
    match op.action() {
        DirAction::Create { path, meta } => {
            assert_eq!(("/three", DB, Uuid([7; 16])), (&path[..], meta.db_uuid, meta.dir_uuid));
            assert_eq!(5, meta.in_progress_open.unwrap().id);
            assert!(meta.last_complete_open.is_none());
        }
        other => panic!("{:?}", other),
    }
    assert!(matches!(op.created(Err("exists".to_owned())), Err(Error::Dir(_))));
    op.created(Ok(DirHandle(3))).unwrap();
    match op.action() {
        DirAction::Run(Statement::InsertSampleFileDir { path, uuid, last_complete_open_id }) => {
            assert_eq!(("/three", Uuid([7; 16]), 5), (&path[..], uuid, last_complete_open_id));
        }
        other => panic!("{:?}", other),
    }
    assert!(matches!(op.advance(&mut db, Err("busy".to_owned())), Err(Error::Sql(_))));
    assert!(matches!(op.advance(&mut db, done(1, 2)), Err(Error::DuplicateDir(2))));
    assert_eq!(None, op.advance(&mut db, done(1, 3)).unwrap());
    match op.action() {
        DirAction::WriteMeta { dir, meta } => {
            assert_eq!(DirHandle(3), dir);
            assert_eq!(5, meta.last_complete_open.unwrap().id);
            assert!(meta.in_progress_open.is_none());
        }
        other => panic!("{:?}", other),
    }
    assert!(matches!(op.advance(&mut db, Err("full".to_owned())), Err(Error::Dir(_))));
    assert_eq!(Some(3), op.advance(&mut db, done(0, 0)).unwrap());
    let d = &db.sample_file_dirs_by_id()[&3];
    assert_eq!((3, "/three", Uuid([7; 16])), (d.id, &d.path[..], d.uuid));
    assert_eq!(DirHandle(3), d.get().unwrap());
    assert_eq!(5, d.last_complete_open.unwrap().id);

    let mut op = db.add_sample_file_dir("/four".to_owned()).unwrap();
    assert_eq!(4, op.meta.dir_uuid.as_bytes()[6] >> 4);
    op.created(Ok(DirHandle(4))).unwrap();
    assert_eq!(None, op.advance(&mut db, done(1, 4)).unwrap());
    assert_eq!(op.meta.dir_uuid, db.sample_file_dirs_by_id()[&4].uuid);
    let db = database(None);
    assert!(matches!(db.add_sample_file_dir("/five".to_owned()), Err(Error::ReadOnly)));
}

#[test]
fn delete_sample_file_dir_unless_in_use() {
    let mut db = database(None);
    db.init_cameras(vec![CameraRow {
        id: 5,
        uuid: Uuid([2; 16]),
        short_name: "cam".to_owned(),
        description: "".to_owned(),
        host: "".to_owned(),
        username: "".to_owned(),
        password: "".to_owned(),
    }]);
    for (id, type_) in [(4, "sub"), (3, "main")] {
        db.init_stream(StreamRow {
            id,
            type_: type_.to_owned(),
            camera_id: 5,
            sample_file_dir_id: Some(1),
            rtsp_path: "".to_owned(),
            retain_bytes: 0,
            next_recording_id: 1,
            record: false,
        })
        .unwrap();
    }
    assert!(matches!(db.delete_sample_file_dir(1), Err(Error::DirInUse { stream_id: 3 })));
    let op = db.delete_sample_file_dir(2).unwrap();
    assert!(matches!(op.statement(), Statement::DeleteSampleFileDir { dir_id: 2 }));
    assert!(matches!(op.finish(&mut db, done(0, 0)), Err(Error::NoSuchDirToRemove(2))));
    assert!(matches!(op.finish(&mut db, Err("busy".to_owned())), Err(Error::Sql(_))));
    assert_eq!(2, db.sample_file_dirs_by_id().len());
    op.finish(&mut db, done(1, 0)).unwrap();
    assert_eq!(1, db.sample_file_dirs_by_id().len());
    let op = db.delete_sample_file_dir(9).unwrap();
    assert!(matches!(op.finish(&mut db, done(0, 0)), Err(Error::NoSuchDirToRemove(9))));
}
