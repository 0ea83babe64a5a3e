use moonfire_db::entries::EntryInsertion;
use moonfire_db::error::Error;
use moonfire_db::ids::CompositeId;
use moonfire_db::listing::{oldest_sample_file, ListRecordingsRow, Query, RecordingRow};
use moonfire_db::load::EntryRow;
use moonfire_db::model::LockedDatabase;
use moonfire_db::playback::{Lookup, RecordingPlayback, VideoIndex};
use moonfire_db::recording::{Duration, Time};
use moonfire_db::statement::{Executed, Statement};
use moonfire_db::uuids::{FromSqlUuid, Uuid};

fn database() -> LockedDatabase {
    let mut db = LockedDatabase::new(Uuid([1; 16]), None);
    for id in [1, 2] {
        db.init_video_sample_entry(EntryRow {
            id,
            sha1: vec![id as u8; 20],
            width: 1920,
            height: 1080,
            rfc6381_codec: "avc1".to_owned(),
            data: vec![7],
        })
        .unwrap();
    }
    db
}

fn raw(recording: i32, run_offset: i32, start: i64, duration: i32, entry: i32) -> RecordingRow {
    RecordingRow {
        composite_id: CompositeId::new(3, recording).0,
        run_offset,
        flags: 1,
        start_time_90k: start,
        duration_90k: duration,
        sample_file_bytes: 100,
        video_samples: 10,
        video_sync_samples: 2,
        video_sample_entry_id: entry,
    }
}

fn row(
    db: &LockedDatabase,
    recording: i32,
    run_offset: i32,
    start: i64,
    duration: i32,
    entry: i32,
) -> ListRecordingsRow {
    db.list_recordings_inner(&raw(recording, run_offset, start, duration, entry)).unwrap()
}

#[test]
fn rows_come_with_their_entries() {
    let db = database();
    let r = row(&db, 8, 1, 500, 20, 2);
    assert_eq!((CompositeId::new(3, 8), 1, 1), (r.id, r.run_offset, r.flags));
    assert_eq!((Time(500), 20, 100), (r.start, r.duration_90k, r.sample_file_bytes));
    assert_eq!((10, 2), (r.video_samples, r.video_sync_samples));
    assert_eq!((2, [2; 20]), (r.video_sample_entry.id, r.video_sample_entry.sha1));
    match db.list_recordings_inner(&raw(8, 1, 500, 20, 9)).err().unwrap() {
        Error::NoSuchEntry { id, entry_id } => {
            assert_eq!((CompositeId::new(3, 8), 9), (id, entry_id));
        }
        other => panic!("{:?}", other),
    }
}

#[test]
fn queries() {
    let db = database();
    match db.list_recordings_by_time(3, Time(5)..Time(9)) {
        Query::RecordingsByTime { sql, stream_id, start_time, end_time } => {
            assert!(sql.contains("recording.start_time_90k > :start_time_90k - 27000000 and"));
            assert_eq!((3, Time(5), Time(9)), (stream_id, start_time, end_time));
        }
        other => panic!("{:?}", other),
    }
    match db.list_recordings_by_id(3, 5..9) {
        Query::RecordingsById { start, end } => {
            assert_eq!((CompositeId::new(3, 5), CompositeId::new(3, 9)), (start, end));
        }
        other => panic!("{:?}", other),
    }
    match db.list_oldest_sample_files(3) {
        Query::OldestSampleFiles { start, end } => {
            assert_eq!((CompositeId::new(3, 0), CompositeId::new(4, 0)), (start, end));
        }
        other => panic!("{:?}", other),
    }
    assert!(matches!(db.list_garbage(6), Query::Garbage { dir_id: 6 }));
    let r = oldest_sample_file(CompositeId(4), Time(10), Duration(5), 7);
    assert_eq!((CompositeId(4), Time(10)..Time(15), 7), (r.id, r.time, r.sample_file_bytes));
}

#[test]
fn aggregation_joins_and_splits() {
    let db = database();
    let (query, mut g) = db.list_aggregated_recordings(3, Time(0)..Time(9_999), Duration(100));
    assert!(matches!(query, Query::RecordingsByTime { stream_id: 3, .. }));
    // Two runs, interleaved.
    assert!(g.add(row(&db, 1, 0, 0, 30, 1)).unwrap().is_none());
    assert!(g.add(row(&db, 10, 0, 5, 30, 1)).unwrap().is_none());
    assert!(g.add(row(&db, 2, 1, 30, 30, 1)).unwrap().is_none());
    // The limit is reached.
    let a = g.add(row(&db, 3, 2, 60, 40, 1)).unwrap().unwrap();
    assert_eq!((Time(0)..Time(60), 1..3, 1), (a.time.clone(), a.ids.clone(), a.run_start_id));
    assert_eq!((20, 4, 200), (a.video_samples, a.video_sync_samples, a.sample_file_bytes));
    assert_eq!((3, 1, 1), (a.stream_id, a.flags, a.video_sample_entry.id));
    // An id is missing.
    let a = g.add(row(&db, 12, 2, 65, 5, 1)).unwrap().unwrap();
    assert_eq!((10..11, 10), (a.ids.clone(), a.run_start_id));
    // The entry changes.
    let a = g.add(row(&db, 13, 3, 70, 5, 2)).unwrap().unwrap();
    assert_eq!(12..13, a.ids);
    let rest = g.finish();
    assert_eq!(2, rest.len());
    assert_eq!((1, 3..4), (rest[0].run_start_id, rest[0].ids.clone()));
    assert_eq!((10, 13..14), (rest[1].run_start_id, rest[1].ids.clone()));
    assert_eq!(Time(60)..Time(100), rest[0].time);
}

#[test]
fn aggregation_refuses_gaps() {
    let db = database();
    let (_, mut g) = db.list_aggregated_recordings(3, Time(0)..Time(9_999), Duration(1_000));
    assert!(g.add(row(&db, 1, 0, 0, 30, 1)).unwrap().is_none());
    match g.add(row(&db, 2, 1, 31, 30, 1)).err().unwrap() {
        Error::Discontinuity { stream_id, last, end, id, start } => {
            assert_eq!((3, 1, Time(30)), (stream_id, last, end));
            assert_eq!((CompositeId::new(3, 2), Time(31)), (id, start));
        }
        other => panic!("{:?}", other),
    }
    assert!(g.can_add(&row(&db, 2, 1, 30, 30, 1)));
    assert!(!g.can_add(&row(&db, i32::MAX, 1, 30, 30, 1)));
    assert!(!g.can_add(&row(&db, i32::MAX - 1, i32::MIN, 30, 30, 1)));
    assert!(!g.can_add(&row(&db, 5, 1, i64::MAX, 30, 1)));
    assert_eq!(1, g.finish().len());
}

#[test]
fn aggregates_partition_the_ids() {
    let db = database();
    let (_, mut g) = db.list_aggregated_recordings(3, Time(0)..Time(9_999), Duration(100));
    let listed = [(1, 0, 0), (10, 0, 5), (2, 1, 30), (3, 2, 60), (12, 2, 65), (4, 3, 90)];
    let mut batches = Vec::new();
    for (id, run_offset, start) in listed {
        if let Some(a) = g.add(row(&db, id, run_offset, start, 30, 1)).unwrap() {
            batches.push(a);
        }
    }
    batches.extend(g.finish());
    for id in 0..20 {
        let holders: Vec<_> =
            batches.iter().filter(|a| a.ids.start <= id && id < a.ids.end).collect();
        assert_eq!(listed.iter().filter(|r| r.0 == id).count(), holders.len());
    }
    for a in &batches {
        let rows: Vec<_> =
            listed.iter().filter(|r| a.ids.start <= r.0 && r.0 < a.ids.end).collect();
        assert_eq!(rows[0].2, a.time.start.0);
        assert_eq!(rows[rows.len() - 1].2 + 30, a.time.end.0);
        assert_eq!(10 * rows.len() as i64, a.video_samples);
        assert_eq!(2 * rows.len() as i64, a.video_sync_samples);
        assert_eq!(100 * rows.len() as i64, a.sample_file_bytes);
    }
}

/// A recording that puts an end to a batch is not added to it, so no sum stands in its way.
#[test]
fn a_batch_that_ends_need_not_hold_the_sums() {
    let db = database();
    let (_, mut g) = db.list_aggregated_recordings(3, Time(0)..Time(9_999), Duration(1_000));
    assert!(g.add(row(&db, 1, 0, 0, 30, 1)).unwrap().is_none());
    let mut a = g.aggs.remove(&1).unwrap();
    a.sample_file_bytes = i64::max_value();
    a.time.end = Time(i64::max_value());
    g.aggs.insert(1, a);
    assert!(!g.can_add(&row(&db, 2, 1, 30, 30, 1)));
    // An id is missing.
    assert!(g.can_add(&row(&db, 3, 2, 60, 30, 1)));
    assert_eq!(1..2, g.add(row(&db, 3, 2, 60, 30, 1)).unwrap().unwrap().ids);
}

#[test]
fn entries_are_found_by_digest() {
    let mut db = database();
    let data = b"abc".to_vec();
    let op = match db
        .insert_video_sample_entry(640, 480, data.clone(), "avc1".to_owned())
        .unwrap()
    {
        EntryInsertion::New(op) => op,
        other => panic!("{:?}", other),
    };
    // The SHA-1 of "abc".
    let sha1 = [
        0xa9, 0x99, 0x3e, 0x36, 0x47, 0x06, 0x81, 0x6a, 0xba, 0x3e, 0x25, 0x71, 0x78, 0x50, 0xc2,
        0x6c, 0x9c, 0xd0, 0xd8, 0x9d,
    ];
    match op.statement() {
        Statement::InsertVideoSampleEntry { sha1: s, width, height, rfc6381_codec, data: d } => {
            assert_eq!((&sha1, 640, 480), (s, width, height));
            assert_eq!(("avc1", &data), (&rfc6381_codec[..], d));
        }
        other => panic!("{:?}", other),
    }
    let reply = Ok(Executed { changes: 1, last_insert_rowid: 9 });
    assert_eq!(9, op.finish(&mut db, reply).unwrap());
    let e = &db.video_sample_entries()[&9];
    assert_eq!((9, 640, 480, sha1), (e.id, e.width, e.height, e.sha1));
    assert_eq!((&data, "avc1"), (&e.data, &e.rfc6381_codec[..]));
    assert!(matches!(
        db.insert_video_sample_entry(640, 480, data.clone(), "x".to_owned()).unwrap(),
        EntryInsertion::Existing(9)
    ));
    let e = db.insert_video_sample_entry(641, 480, data, "x".to_owned()).err().unwrap();
    assert_eq!(
        "database entry for [169, 153, 62, 54, 71, 6, 129, 106, 186, 62, 37, 113, 120, 80, 194, \
         108, 156, 208, 216, 157] is 640x480, not 641x480",
        e.message()
    );
    match db.insert_video_sample_entry_with([1; 20], 1920, 1080, vec![], "".to_owned()).unwrap() {
        EntryInsertion::Existing(id) => assert_eq!(1, id),
        other => panic!("{:?}", other),
    }
    let op = match db.insert_video_sample_entry(1, 1, vec![], "".to_owned()).unwrap() {
        EntryInsertion::New(op) => op,
        other => panic!("{:?}", other),
    };
    assert!(matches!(op.finish(&mut db, Err("busy".to_owned())), Err(Error::Sql(_))));
    assert_eq!(3, db.video_sample_entries().len());
}

fn index_of(db: &mut LockedDatabase, id: i64) -> Option<Vec<u8>> {
    let copy = |p: &RecordingPlayback<'_>| Ok(p.video_index.to_vec());
    match db.with_recording_playback(CompositeId(id), copy) {
        Lookup::Hit(r) => Some(r.unwrap()),
        Lookup::Miss(_) => None,
    }
}

fn fetch(db: &mut LockedDatabase, id: i64, index: Vec<u8>) {
    let expected = index.clone();
    let len = db
        .with_fetched_playback(
            CompositeId(id),
            Some(VideoIndex(index)),
            |p: &RecordingPlayback<'_>| {
                assert_eq!(expected, p.video_index);
                Ok(p.video_index.len())
            },
        )
        .unwrap();
    assert_eq!(expected.len(), len);
}

#[test]
fn video_indexes_are_cached() {
    let mut db = database();
    assert_eq!(None, index_of(&mut db, 1));
    fetch(&mut db, 1, vec![1, 2, 3]);
    assert_eq!(Some(vec![1, 2, 3]), index_of(&mut db, 1));
    fetch(&mut db, 1, vec![4]);
    assert_eq!(Some(vec![4]), index_of(&mut db, 1));
    // The least recently used entry goes first.
    for id in 2..1025 {
        fetch(&mut db, id, vec![id as u8]);
    }
    assert_eq!(Some(vec![4]), index_of(&mut db, 1));
    fetch(&mut db, 1025, vec![0]);
    assert_eq!(None, index_of(&mut db, 2));
    assert_eq!(Some(vec![4]), index_of(&mut db, 1));
    assert_eq!(Some(vec![3]), index_of(&mut db, 3));
    let missing = db.with_fetched_playback(
        CompositeId::new(3, 4),
        None,
        |p: &RecordingPlayback<'_>| Ok(p.video_index.len()),
    );
    assert!(matches!(missing, Err(Error::NoSuchRecording(id)) if id == CompositeId::new(3, 4)));
    assert_eq!(vec![5, 6], VideoIndex::column_result(&[5, 6]).0);
}

#[test]
fn uuids_take_sixteen_bytes() {
    let bytes: Vec<u8> = (0..16).collect();
    let uuid = FromSqlUuid::column_result(&bytes).unwrap().0;
    assert_eq!(&bytes[..], &uuid.as_bytes()[..]);
    assert_eq!(0x000102030405060708090a0b0c0d0e0f, uuid.number());
    let said = uuid::Uuid::from_bytes(&bytes[..15]).err().unwrap().to_string();
    assert_eq!("Invalid length; expecting 32 or 36 chars, found 15", said);
    match FromSqlUuid::column_result(&bytes[..15]).err().unwrap() {
        Error::InvalidUuid(e) => assert_eq!(said, e),
        other => panic!("{:?}", other),
    }
    match Uuid::from_bytes(&[]).err().unwrap() {
        Error::InvalidUuid(e) => {
            assert_eq!("Invalid length; expecting 32 or 36 chars, found 0", e)
        }
        other => panic!("{:?}", other),
    }
    assert_ne!(Uuid::new_v4(), Uuid::new_v4());
}
