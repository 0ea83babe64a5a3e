use moonfire_db::commit::{MaxScan, StreamExtent};
use moonfire_db::days::{DaySplit, StreamDayKey, StreamDayValue};
use moonfire_db::error::Error;
use moonfire_db::ids::CompositeId;
use moonfire_db::load::{CameraRow, StreamRow};
use moonfire_db::model::LockedDatabase;
use moonfire_db::playback::{Lookup, RecordingPlayback, VideoIndex};
use moonfire_db::recording::{Duration, Time, MAX_RECORDING_DURATION};
use moonfire_db::statement::{
    Executed, ListOldestSampleFilesRow, RecordingFlags, RecordingToInsert, Reply, Statement,
};
use moonfire_db::uuids::Uuid;

fn database(dir: Option<i32>) -> LockedDatabase {
    let mut db = LockedDatabase::new(Uuid([1; 16]), None);
    db.init_camera(CameraRow {
        id: 5,
        uuid: Uuid([2; 16]),
        short_name: "cam".to_owned(),
        description: "".to_owned(),
        host: "".to_owned(),
        username: "".to_owned(),
        password: "".to_owned(),
    });
    db.init_stream(StreamRow {
        id: 3,
        type_: "main".to_owned(),
        camera_id: 5,
        sample_file_dir_id: dir,
        rtsp_path: "/main".to_owned(),
        retain_bytes: 0,
        next_recording_id: 10,
        record: false,
    })
    .unwrap();
    db
}

fn done(changes: usize) -> Reply {
    Ok(Executed { changes, last_insert_rowid: 0 })
}

fn recording(id: CompositeId, start: i64, end: i64) -> RecordingToInsert {
    RecordingToInsert {
        id,
        run_offset: 0,
        flags: RecordingFlags::TrailingZero.mask(),
        sample_file_bytes: 100,
        time: Time(start)..Time(end),
        local_time_delta: Duration(0),
        video_samples: 2,
        video_sync_samples: 1,
        video_sample_entry_id: 1,
        video_index: vec![9],
        sample_file_sha1: [3; 20],
    }
}

fn row(id: CompositeId, start: i64, end: i64) -> ListOldestSampleFilesRow {
    ListOldestSampleFilesRow { id, time: Time(start)..Time(end), sample_file_bytes: 40 }
}

const DAY: StreamDayKey = StreamDayKey(*b"2015-04-26");

fn split() -> Option<DaySplit> {
    Some(DaySplit { first: Some(DAY), boundary: Time(1_000_000), second: None })
}

#[test]
fn insert_runs_three_statements() {
    let mut db = database(Some(1));
    let id = CompositeId::new(3, 12);
    let r = recording(id, 500, 800);
    let mut tx = db.tx();
    let mut op = tx.insert_recording(&r).unwrap();
    match op.statement() {
        Statement::InsertRecording { recording, stream_id, duration_90k } => {
            assert_eq!(id, recording.id);
            assert_eq!(1, recording.flags);
            assert_eq!((3, 300), (stream_id, duration_90k));
        }
        other => panic!("{:?}", other),
    }
    assert!(tx.check_must_rollback().is_err());
    assert!(!op.advance_at(&mut tx, done(1), split()).unwrap());
    match op.statement() {
        Statement::InsertRecordingPlayback { composite_id, sample_file_sha1, video_index } => {
            assert_eq!(id, composite_id);
            assert_eq!(&[3; 20], sample_file_sha1);
            assert_eq!(&vec![9], video_index);
        }
        other => panic!("{:?}", other),
    }
    assert!(!op.advance_at(&mut tx, done(1), split()).unwrap());
    match op.statement() {
        Statement::UpdateNextRecordingId { stream_id, next_recording_id } => {
            assert_eq!((3, 13), (stream_id, next_recording_id));
        }
        other => panic!("{:?}", other),
    }
    assert!(op.advance_at(&mut tx, done(1), split()).unwrap());
    tx.check_must_rollback().unwrap();
    assert_eq!(vec![3], tx.modified_streams());

    // The next recording has to come after.
    match tx.insert_recording(&recording(CompositeId::new(3, 12), 0, 1)).err().unwrap() {
        Error::OutOfOrder { id: refused, next } => assert_eq!((id, 13), (refused, next)),
        other => panic!("{:?}", other),
    }
    assert!(tx.check_must_rollback().is_err());
}

#[test]
fn commit_shows_in_memory_only_once_the_database_has_committed() {
    let mut db = database(Some(1));
    for (committed, expected) in [(Err("disk full".to_owned()), 0), (Ok(()), 300)] {
        let r = recording(CompositeId::new(3, 12), 500, 800);
        let mut tx = db.tx();
        let mut op = tx.insert_recording(&r).unwrap();
        while !op.advance_at(&mut tx, done(1), split()).unwrap() {}
        let extents =
            [StreamExtent { stream_id: 3, min_start: Some(Time(500)), max_end: Some(Time(800)) }];
        let ready = tx.commit(&extents).unwrap();
        assert!(ready.can_finish());
        match ready.finish(committed) {
            Ok(()) => assert_eq!(300, expected),
            Err(Error::Sql(e)) => assert_eq!("disk full", e),
            Err(other) => panic!("{:?}", other),
        }
        let s = &db.streams_by_id()[&3];
        assert_eq!(Duration(expected), s.duration);
        assert_eq!(if expected == 0 { 10 } else { 13 }, s.next_recording_id);
    }
    let s = &db.streams_by_id()[&3];
    assert_eq!(Some(Time(500)..Time(800)), s.range);
    assert_eq!(100, s.sample_file_bytes);
    assert_eq!(
        vec![(DAY, StreamDayValue { recordings: 1, duration: Duration(300) })],
        s.days.entries()
    );

    // Deleting it again restores the stream, but for the next recording id.
    let rows = [ListOldestSampleFilesRow {
        id: CompositeId::new(3, 12),
        time: Time(500)..Time(800),
        sample_file_bytes: 100,
    }];
    let mut tx = db.tx();
    let mut op = tx.delete_recordings(&rows).unwrap().unwrap();
    while !op.advance_at(&mut tx, done(1), split()).unwrap() {}
    let extents = [StreamExtent { stream_id: 3, min_start: None, max_end: None }];
    tx.commit(&extents).unwrap().finish(Ok(())).unwrap();
    let s = &db.streams_by_id()[&3];
    assert_eq!(None, s.range);
    assert_eq!((0, Duration(0)), (s.sample_file_bytes, s.duration));
    assert_eq!(0, s.days.len());
    assert_eq!(13, s.next_recording_id);
}

#[test]
fn insert_is_refused() {
    let mut db = database(Some(1));
    let mut tx = db.tx();
    match tx.insert_recording(&recording(CompositeId::new(3, 12), 5, 4)).err().unwrap() {
        Error::EndBeforeStart { end, start } => assert_eq!((Time(4), Time(5)), (end, start)),
        other => panic!("{:?}", other),
    }
    assert!(matches!(
        tx.insert_recording(&recording(CompositeId::new(4, 12), 4, 5)),
        Err(Error::NoSuchStreamId(4))
    ));
    // What is refused need not have a length or a next id that can be held.
    let backwards = recording(CompositeId::new(3, 12), i64::max_value(), i64::min_value());
    assert!(tx.can_insert(&backwards));
    assert!(matches!(tx.insert_recording(&backwards), Err(Error::EndBeforeStart { .. })));
    let last = recording(CompositeId::new(4, i32::max_value()), i64::min_value(), i64::max_value());
    assert!(tx.can_insert(&last));
    assert!(matches!(tx.insert_recording(&last), Err(Error::NoSuchStreamId(4))));
    tx.check_must_rollback().unwrap();
    assert!(!tx.can_insert(&recording(CompositeId::new(3, i32::max_value()), 4, 5)));
    assert!(!tx.can_insert(&recording(CompositeId::new(3, 12), -2, i64::max_value())));
    assert!(tx.can_insert(&recording(CompositeId::new(3, 12), 4, 5)));
    assert!(matches!(
        tx.insert_recording(&recording(CompositeId::new(3, 9), 4, 5)),
        Err(Error::OutOfOrder { next: 10, .. })
    ));
    assert!(matches!(
        tx.insert_recording(&recording(CompositeId::new(3, 12), 4, 5)),
        Err(Error::MustRollback)
    ));
    let extents = [StreamExtent { stream_id: 3, min_start: None, max_end: None }];
    assert!(matches!(tx.commit(&extents), Err(Error::MustRollback)));
}

#[test]
fn insert_fails_halfway() {
    let mut db = database(Some(1));
    let mut tx = db.tx();
    let r = recording(CompositeId::new(3, 10), 4, 5);
    let mut op = tx.insert_recording(&r).unwrap();
    assert!(!op.advance(&mut tx, done(1)).unwrap());
    assert!(op.can_advance(&tx));
    assert!(matches!(op.advance(&mut tx, Err("busy".to_owned())), Err(Error::Sql(_))));
    assert!(matches!(tx.check_must_rollback(), Err(Error::MustRollback)));
}

#[test]
fn delete_runs_three_statements_per_recording() {
    let mut db = database(Some(8));
    let rows = [row(CompositeId::new(3, 1), 0, 50), row(CompositeId::new(3, 2), 50, 60)];
    let mut tx = db.tx();
    let mut op = tx.delete_recordings(&rows).unwrap().unwrap();
    for r in &rows {
        match op.statement() {
            Statement::DeleteRecordingPlayback { composite_id } => assert_eq!(r.id, composite_id),
            other => panic!("{:?}", other),
        }
        assert!(!op.advance_at(&mut tx, done(1), split()).unwrap());
        match op.statement() {
            Statement::DeleteRecording { composite_id } => assert_eq!(r.id, composite_id),
            other => panic!("{:?}", other),
        }
        assert!(!op.advance_at(&mut tx, done(1), split()).unwrap());
        match op.statement() {
            Statement::InsertGarbage { sample_file_dir_id, composite_id } => {
                assert_eq!((8, r.id), (sample_file_dir_id, composite_id));
            }
            other => panic!("{:?}", other),
        }
        assert!(op.can_advance(&tx));
        let last = r.id == rows[1].id;
        assert_eq!(last, op.advance_at(&mut tx, done(1), split()).unwrap());
        assert_eq!(last, tx.check_must_rollback().is_ok());
    }
    let m = &tx.mods_by_stream[&3];
    assert_eq!(Duration(-60), m.duration);
    assert_eq!(-80, m.sample_file_bytes);
    assert_eq!(
        vec![(DAY, StreamDayValue { recordings: -2, duration: Duration(-60) })],
        m.days.entries()
    );
    assert!(tx.delete_recordings(&[]).unwrap().is_none());
}

#[test]
fn delete_fails() {
    let id = CompositeId::new(3, 1);
    for step in 0..4 {
        let mut db = database(if step == 3 { None } else { Some(8) });
        let rows = [row(id, 0, 50)];
        let mut tx = db.tx();
        let mut op = tx.delete_recordings(&rows).unwrap().unwrap();
        if step == 0 {
            assert!(
                matches!(op.advance(&mut tx, done(0)), Err(Error::NoSuchRecording(i)) if i == id)
            );
        } else {
            assert!(!op.advance(&mut tx, done(1)).unwrap());
            match step {
                1 => assert!(matches!(
                    op.advance(&mut tx, done(2)),
                    Err(Error::NoSuchRecordingPlayback(i)) if i == id
                )),
                2 => assert!(matches!(
                    op.advance(&mut tx, Err("busy".to_owned())),
                    Err(Error::Sql(_))
                )),
                _ => assert!(matches!(op.advance(&mut tx, done(1)), Err(Error::StreamHasNoDir(3)))),
            }
        }
        assert!(matches!(tx.delete_recordings(&rows), Err(Error::MustRollback)));
    }
    let mut db = database(Some(8));
    let rows = [row(CompositeId::new(4, 1), 0, 50)];
    let mut tx = db.tx();
    let mut op = tx.delete_recordings(&rows).unwrap().unwrap();
    assert!(!op.advance(&mut tx, done(1)).unwrap());
    assert!(matches!(op.advance(&mut tx, done(1)), Err(Error::NoSuchStream(4))));
}

#[test]
fn mark_sample_files_deleted_deletes_each_row() {
    let mut db = database(None);
    let mut tx = db.tx();
    assert!(tx.mark_sample_files_deleted(&[]).is_none());
    let ids = [CompositeId::new(3, 1), CompositeId::new(3, 2)];
    let mut op = tx.mark_sample_files_deleted(&ids).unwrap();
    match op.statement() {
        Statement::DeleteGarbage { composite_id } => assert_eq!(ids[0], composite_id),
        other => panic!("{:?}", other),
    }
    assert!(!op.advance(done(1)).unwrap());
    match op.statement() {
        Statement::DeleteGarbage { composite_id } => assert_eq!(ids[1], composite_id),
        other => panic!("{:?}", other),
    }
    assert!(matches!(op.advance(done(0)), Err(Error::NoGarbageRow(i)) if i == ids[1]));
    assert!(matches!(op.advance(Err("busy".to_owned())), Err(Error::Sql(_))));
    assert!(op.advance(done(1)).unwrap());
    tx.check_must_rollback().unwrap();
}

#[test]
fn update_retention_resets() {
    let mut db = database(None);
    let mut tx = db.tx();
    assert!(matches!(
        tx.update_retention(3, true, -1),
        Err(Error::NegativeLimit { stream_id: 3, limit: -1 })
    ));
    let op = tx.update_retention(3, true, 42).unwrap();
    match op.statement() {
        Statement::UpdateRetention { stream_id, record, retain_bytes } => {
            assert_eq!((3, true, 42), (stream_id, record, retain_bytes));
        }
        other => panic!("{:?}", other),
    }
    assert!(matches!(op.finish(&mut tx, done(0)), Err(Error::NoSuchStream(3))));
    assert!(matches!(op.finish(&mut tx, Err("busy".to_owned())), Err(Error::Sql(_))));
    assert!(tx.modified_streams().is_empty());
    op.finish(&mut tx, done(1)).unwrap();
    let extents =
        [StreamExtent { stream_id: 3, min_start: Some(Time(1)), max_end: Some(Time(2)) }];
    tx.commit(&extents).unwrap().finish(Ok(())).unwrap();
    let s = &db.streams_by_id()[&3];
    assert_eq!((true, 42, 10), (s.record, s.retain_bytes, s.next_recording_id));
    assert_eq!(Some(Time(1)..Time(2)), s.range);
    let mut tx = db.tx();
    let _ = tx.insert_recording(&recording(CompositeId::new(3, 1), 4, 5));
    assert!(matches!(tx.update_retention(3, true, 42), Err(Error::MustRollback)));
}

#[test]
fn commit_needs_a_maximum() {
    let mut db = database(None);
    let mut tx = db.tx();
    let op = tx.update_retention(3, true, 42).unwrap();
    op.finish(&mut tx, done(1)).unwrap();
    let extents = [StreamExtent { stream_id: 3, min_start: Some(Time(7)), max_end: None }];
    match tx.commit(&extents).err().unwrap() {
        Error::MissingMax { stream_id, min_start } => {
            assert_eq!((3, Time(7)), (stream_id, min_start))
        }
        other => panic!("{:?}", other),
    }
    assert_eq!(0, db.streams_by_id()[&3].retain_bytes);
}

#[test]
fn commit_needs_the_modified_streams() {
    let mut db = database(None);
    let mut tx = db.tx();
    let op = tx.update_retention(99, true, 42).unwrap();
    op.finish(&mut tx, done(1)).unwrap();
    let extents = [StreamExtent { stream_id: 99, min_start: None, max_end: None }];
    assert!(!tx.commit(&extents).unwrap().can_finish());
}

#[test]
fn scan_finds_the_latest_end_and_stops_early() {
    let mut scan = MaxScan::new();
    assert_eq!(None, scan.max_end());
    let latest = 100 * MAX_RECORDING_DURATION;
    assert!(scan.add(Time(latest), 5));
    assert!(scan.add(Time(latest - 10), MAX_RECORDING_DURATION));
    assert!(scan.add(Time(latest - MAX_RECORDING_DURATION + 1), MAX_RECORDING_DURATION));
    assert_eq!(Some(Time(latest - 10 + MAX_RECORDING_DURATION)), scan.max_end());
    assert!(!scan.add(Time(latest - MAX_RECORDING_DURATION), 10 * MAX_RECORDING_DURATION));
    assert_eq!(Some(Time(latest - 10 + MAX_RECORDING_DURATION)), scan.max_end());
}

#[test]
fn scan_takes_what_can_be_held() {
    let mut scan = MaxScan::new();
    let none = scan.extent(4, None);
    assert_eq!((4, None, None), (none.stream_id, none.min_start, none.max_end));
    assert!(scan.can_add(Time(i64::MAX - 5), 5));
    assert!(!scan.can_add(Time(i64::MAX - 5), 6));
    assert!(scan.can_add(Time(i64::MIN + MAX_RECORDING_DURATION), 0));
    assert!(!scan.can_add(Time(i64::MIN + MAX_RECORDING_DURATION - 1), 0));
    assert!(scan.add(Time(100), 5));
    assert!(scan.can_add(Time(i64::MIN), 0));
    assert!(scan.add(Time(90), 20));
    let e = scan.extent(4, Some(Time(90)));
    assert_eq!((4, Some(Time(90)), Some(Time(110))), (e.stream_id, e.min_start, e.max_end));
}

fn insert(db: &mut LockedDatabase, r: &RecordingToInsert) {
    let mut tx = db.tx();
    let mut op = tx.insert_recording(r).unwrap();
    while !op.advance_at(&mut tx, done(1), split()).unwrap() {}
    let extents =
        [StreamExtent { stream_id: 3, min_start: Some(r.time.start), max_end: Some(r.time.end) }];
    tx.commit(&extents).unwrap().finish(Ok(())).unwrap();
}

/// One transaction replaces the only recording of a day by one of another length.
#[test]
fn replacing_a_recording_replaces_its_duration() {
    for delete_first in [true, false] {
        let mut db = database(Some(8));
        insert(&mut db, &recording(CompositeId::new(3, 12), 500, 800));
        let days = |db: &LockedDatabase| db.streams_by_id()[&3].days.entries();
        assert_eq!(
            vec![(DAY, StreamDayValue { recordings: 1, duration: Duration(300) })],
            days(&db)
        );
        let rows = [ListOldestSampleFilesRow {
            id: CompositeId::new(3, 12),
            time: Time(500)..Time(800),
            sample_file_bytes: 100,
        }];
        let r = recording(CompositeId::new(3, 13), 500, 570);
        let mut tx = db.tx();
        for delete in [delete_first, !delete_first] {
            if delete {
                let mut op = tx.delete_recordings(&rows).unwrap().unwrap();
                while !op.advance_at(&mut tx, done(1), split()).unwrap() {}
            } else {
                let mut op = tx.insert_recording(&r).unwrap();
                while !op.advance_at(&mut tx, done(1), split()).unwrap() {}
            }
        }
        assert_eq!(
            vec![(DAY, StreamDayValue { recordings: 0, duration: Duration(-230) })],
            tx.mods_by_stream[&3].days.entries()
        );
        let extents =
            [StreamExtent { stream_id: 3, min_start: Some(Time(500)), max_end: Some(Time(570)) }];
        tx.commit(&extents).unwrap().finish(Ok(())).unwrap();
        assert_eq!(
            vec![(DAY, StreamDayValue { recordings: 1, duration: Duration(70) })],
            days(&db)
        );
        let s = &db.streams_by_id()[&3];
        assert_eq!((Duration(70), 100, 14), (s.duration, s.sample_file_bytes, s.next_recording_id));
    }
}

fn cached(db: &mut LockedDatabase, id: CompositeId) -> Option<Vec<u8>> {
    match db.with_recording_playback(id, |p: &RecordingPlayback<'_>| Ok(p.video_index.to_vec())) {
        Lookup::Hit(r) => Some(r.unwrap()),
        Lookup::Miss(_) => None,
    }
}

/// A recording that is deleted is not served from the cache once the deletion is committed.
#[test]
fn deleted_recordings_leave_the_cache() {
    let mut db = database(Some(8));
    let ids = [1, 2, 3].map(|n| CompositeId::new(3, n));
    for (i, id) in ids.iter().enumerate() {
        db.with_fetched_playback(*id, Some(VideoIndex(vec![i as u8])), |_: &RecordingPlayback<'_>| {
            Ok(())
        })
        .unwrap();
    }
    let rows = [row(ids[0], 0, 50), row(ids[2], 60, 70)];
    for committed in [Err("disk full".to_owned()), Ok(())] {
        assert_eq!(Some(vec![0]), cached(&mut db, ids[0]));
        let mut tx = db.tx();
        let mut op = tx.delete_recordings(&rows).unwrap().unwrap();
        while !op.advance_at(&mut tx, done(1), split()).unwrap() {}
        assert_eq!(vec![ids[0], ids[2]], tx.deleted);
        let extents =
            [StreamExtent { stream_id: 3, min_start: Some(Time(50)), max_end: Some(Time(60)) }];
        let _ = tx.commit(&extents).unwrap().finish(committed);
    }
    assert_eq!(None, cached(&mut db, ids[0]));
    assert_eq!(Some(vec![1]), cached(&mut db, ids[1]));
    assert_eq!(None, cached(&mut db, ids[2]));
    let missing =
        db.with_fetched_playback(ids[0], None, |p: &RecordingPlayback<'_>| Ok(p.video_index.len()));
    assert!(matches!(missing, Err(Error::NoSuchRecording(id)) if id == ids[0]));
}

/// A commit adds everything that was inserted, less everything that was deleted.
#[test]
fn commit_adds_up_all_steps() {
    let mut db = database(Some(8));
    insert(&mut db, &recording(CompositeId::new(3, 12), 500, 800));
    let mut tx = db.tx();
    for (n, start, end) in [(13, 800, 850), (15, 900, 907)] {
        let r = recording(CompositeId::new(3, n), start, end);
        let mut op = tx.insert_recording(&r).unwrap();
        while !op.advance_at(&mut tx, done(1), split()).unwrap() {}
    }
    for limit in [5, 42] {
        tx.update_retention(3, limit == 42, limit).unwrap().finish(&mut tx, done(1)).unwrap();
    }
    let rows = [row(CompositeId::new(3, 13), 800, 850)];
    let mut op = tx.delete_recordings(&rows).unwrap().unwrap();
    while !op.advance_at(&mut tx, done(1), split()).unwrap() {}
    let extents =
        [StreamExtent { stream_id: 3, min_start: Some(Time(500)), max_end: Some(Time(907)) }];
    tx.commit(&extents).unwrap().finish(Ok(())).unwrap();
    let s = &db.streams_by_id()[&3];
    assert_eq!(Duration(300 + 50 + 7 - 50), s.duration);
    assert_eq!(100 + 100 + 100 - 40, s.sample_file_bytes);
    assert_eq!((16, true, 42), (s.next_recording_id, s.record, s.retain_bytes));
}
