//! The library driven against an in-memory SQLite database.
use moonfire_db::commit::{MaxScan, StreamExtent};
use moonfire_db::dirs::{DirAction, DirMeta};
use moonfire_db::entries::EntryInsertion;
use moonfire_db::ids::CompositeId;
use moonfire_db::listing::{oldest_sample_file, ListRecordingsRow, Query, RecordingRow};
use moonfire_db::load::{
    check_schema_version, has_version_table, CameraRow, DirRow, EntryRow, OpenForWriting,
    StreamRow,
};
use moonfire_db::model::{DirHandle, LockedDatabase, SampleFileDir};
use moonfire_db::playback::{Lookup, RecordingPlayback, VideoIndex};
use moonfire_db::recording::{Duration, Time, TIME_UNITS_PER_SEC};
use moonfire_db::statement::{
    Action, CameraChange, Executed, ListOldestSampleFilesRow, RecordingToInsert, Reply, Statement,
    StreamChange,
};
use moonfire_db::stream::RecordingSummary;
use moonfire_db::transaction::Transaction;
use moonfire_db::uuids::{FromSqlUuid, Uuid};
use rusqlite::{Connection, ToSql};

const SCHEMA: &str = "
    create table meta (uuid blob not null check (length(uuid) = 16));
    create table version (id integer primary key, unix_time integer not null, notes text);
    create table open (id integer primary key, uuid blob unique not null);
    create table sample_file_dir (
      id integer primary key, path text unique not null, uuid blob unique not null,
      last_complete_open_id integer references open (id));
    create table camera (
      id integer primary key, uuid blob unique not null, short_name text not null,
      description text, host text, username text, password text);
    create table stream (
      id integer primary key, camera_id integer not null references camera (id),
      sample_file_dir_id integer references sample_file_dir (id),
      type text not null check (type in ('main', 'sub')), record integer not null,
      rtsp_path text not null, retain_bytes integer not null,
      next_recording_id integer not null, unique (camera_id, type));
    create table recording (
      composite_id integer primary key, stream_id integer not null references stream (id),
      run_offset integer not null, flags integer not null, sample_file_bytes integer not null,
      start_time_90k integer not null, duration_90k integer not null,
      local_time_delta_90k integer not null, video_samples integer not null,
      video_sync_samples integer not null,
      video_sample_entry_id integer references video_sample_entry (id),
      check (composite_id >> 32 = stream_id));
    create table recording_playback (
      composite_id integer primary key references recording (composite_id),
      sample_file_sha1 blob not null, video_index blob not null);
    create table garbage (
      sample_file_dir_id integer references sample_file_dir (id), composite_id integer,
      primary key (sample_file_dir_id, composite_id));
    create table video_sample_entry (
      id integer primary key, sha1 blob unique not null, width integer not null,
      height integer not null, rfc6381_codec text not null, data blob not null);
    insert into version values (3, 0, 'db creation');
";

fn setup_conn() -> Connection {
    let conn = Connection::open_in_memory().unwrap();
    conn.execute("pragma foreign_keys = off", []).unwrap();
    conn.execute_batch(SCHEMA).unwrap();
    let uuid = Uuid::new_v4();
    conn.execute("insert into meta (uuid) values (?)", [&uuid.as_bytes()[..]]).unwrap();
    conn
}

fn execute(conn: &Connection, statement: &Statement) -> Reply {
    let (sql, params): (&str, Vec<Box<dyn ToSql>>) = match statement {
        Statement::DeleteRecordingPlayback { composite_id } => (
            "delete from recording_playback where composite_id = ?",
            vec![Box::new(composite_id.0)],
        ),
        Statement::DeleteRecording { composite_id } => {
            ("delete from recording where composite_id = ?", vec![Box::new(composite_id.0)])
        }
        Statement::InsertGarbage { sample_file_dir_id, composite_id } => (
            "insert into garbage values (?, ?)",
            vec![Box::new(*sample_file_dir_id), Box::new(composite_id.0)],
        ),
        Statement::DeleteGarbage { composite_id } => {
            ("delete from garbage where composite_id = ?", vec![Box::new(composite_id.0)])
        }
        Statement::InsertRecording { recording: r, stream_id, duration_90k } => (
            "insert into recording (composite_id, stream_id, run_offset, flags,
             sample_file_bytes, start_time_90k, duration_90k, local_time_delta_90k,
             video_samples, video_sync_samples, video_sample_entry_id)
             values (?, ?, ?, ?, ?, ?, ?, ?, ?, ?, ?)",
            vec![
                Box::new(r.id.0),
                Box::new(*stream_id),
                Box::new(r.run_offset),
                Box::new(r.flags),
                Box::new(r.sample_file_bytes),
                Box::new(r.time.start.0),
                Box::new(*duration_90k),
                Box::new(r.local_time_delta.0),
                Box::new(r.video_samples),
                Box::new(r.video_sync_samples),
                Box::new(r.video_sample_entry_id),
            ],
        ),
        Statement::InsertRecordingPlayback { composite_id, sample_file_sha1, video_index } => (
            "insert into recording_playback values (?, ?, ?)",
            vec![
                Box::new(composite_id.0),
                Box::new(sample_file_sha1.to_vec()),
                Box::new(video_index.to_vec()),
            ],
        ),
        Statement::UpdateNextRecordingId { stream_id, next_recording_id } => (
            "update stream set next_recording_id = ? where id = ?",
            vec![Box::new(*next_recording_id), Box::new(*stream_id)],
        ),
        Statement::UpdateRetention { stream_id, record, retain_bytes } => (
            "update stream set record = ?, retain_bytes = ? where id = ?",
            vec![Box::new(*record), Box::new(*retain_bytes), Box::new(*stream_id)],
        ),
        Statement::DeleteStream { stream_id } => {
            ("delete from stream where id = ?", vec![Box::new(*stream_id)])
        }
        Statement::UpdateStream { stream_id, change } => (
            "update stream set rtsp_path = ?, record = ?, sample_file_dir_id = ? where id = ?",
            vec![
                Box::new(change.rtsp_path.clone()),
                Box::new(change.record),
                Box::new(change.sample_file_dir_id),
                Box::new(*stream_id),
            ],
        ),
        Statement::InsertStream { camera_id, type_, change } => (
            "insert into stream (camera_id, sample_file_dir_id, type, rtsp_path, record,
             retain_bytes, next_recording_id) values (?, ?, ?, ?, ?, 0, 1)",
            vec![
                Box::new(*camera_id),
                Box::new(change.sample_file_dir_id),
                Box::new(type_.as_str()),
                Box::new(change.rtsp_path.clone()),
                Box::new(change.record),
            ],
        ),
        Statement::InsertCamera { uuid, camera } => (
            "insert into camera (uuid, short_name, description, host, username, password)
             values (?, ?, ?, ?, ?, ?)",
            vec![
                Box::new(uuid.as_bytes().to_vec()),
                Box::new(camera.short_name.clone()),
                Box::new(camera.description.clone()),
                Box::new(camera.host.clone()),
                Box::new(camera.username.clone()),
                Box::new(camera.password.clone()),
            ],
        ),
        Statement::UpdateCamera { camera_id, camera } => (
            "update camera set short_name = ?, description = ?, host = ?, username = ?,
             password = ? where id = ?",
            vec![
                Box::new(camera.short_name.clone()),
                Box::new(camera.description.clone()),
                Box::new(camera.host.clone()),
                Box::new(camera.username.clone()),
                Box::new(camera.password.clone()),
                Box::new(*camera_id),
            ],
        ),
        Statement::DeleteCamera { camera_id } => {
            ("delete from camera where id = ?", vec![Box::new(*camera_id)])
        }
        Statement::InsertVideoSampleEntry { sha1, width, height, rfc6381_codec, data } => (
            "insert into video_sample_entry (sha1, width, height, rfc6381_codec, data)
             values (?, ?, ?, ?, ?)",
            vec![
                Box::new(sha1.to_vec()),
                Box::new(*width),
                Box::new(*height),
                Box::new(rfc6381_codec.to_string()),
                Box::new(data.to_vec()),
            ],
        ),
        Statement::InsertSampleFileDir { path, uuid, last_complete_open_id } => (
            "insert into sample_file_dir (path, uuid, last_complete_open_id) values (?, ?, ?)",
            vec![
                Box::new(path.to_string()),
                Box::new(uuid.as_bytes().to_vec()),
                Box::new(*last_complete_open_id),
            ],
        ),
        Statement::UpdateLastCompleteOpen { dir_id, open_id } => (
            "update sample_file_dir set last_complete_open_id = ? where id = ?",
            vec![Box::new(*open_id), Box::new(*dir_id)],
        ),
        Statement::DeleteSampleFileDir { dir_id } => {
            ("delete from sample_file_dir where id = ?", vec![Box::new(*dir_id)])
        }
        Statement::InsertOpen { uuid } => {
            ("insert into open (uuid) values (?)", vec![Box::new(uuid.as_bytes().to_vec())])
        }
    };
    let params: Vec<&dyn ToSql> = params.iter().map(|p| p.as_ref()).collect();
    match conn.execute(sql, &params[..]) {
        Ok(changes) => Ok(Executed { changes, last_insert_rowid: conn.last_insert_rowid() }),
        Err(e) => Err(e.to_string()),
    }
}

fn committed(conn: &Connection) -> Reply {
    match conn.execute("commit", []) {
        Ok(_) => Ok(Executed { changes: 0, last_insert_rowid: 0 }),
        Err(e) => Err(e.to_string()),
    }
}

fn uuid_column(blob: Vec<u8>) -> Uuid {
    FromSqlUuid::column_result(&blob).unwrap().0
}

struct Database {
    conn: Connection,
    db: LockedDatabase,
}

impl Database {
    fn new(conn: Connection, read_write: bool) -> Result<Database, String> {
        conn.execute("pragma foreign_keys = on", []).unwrap();
        let tables: i32 = conn
            .query_row("select count(*) from sqlite_master where name = 'version'", [], |row| {
                row.get(0)
            })
            .unwrap();
        let version = if has_version_table(tables) {
            Some(conn.query_row("select max(id) from version", [], |row| row.get(0)).unwrap())
        } else {
            None
        };
        check_schema_version(version).map_err(|e| e.message())?;
        let uuid =
            uuid_column(conn.query_row("select uuid from meta", [], |row| row.get(0)).unwrap());
        let open = if read_write {
            let op = OpenForWriting::new();
            let reply = execute(&conn, &op.statement());
            Some(op.finish(reply).map_err(|e| e.message())?)
        } else {
            None
        };
        let mut db = LockedDatabase::new(uuid, open);
        let rows: Vec<EntryRow> = conn
            .prepare("select id, sha1, width, height, rfc6381_codec, data from video_sample_entry")
            .unwrap()
            .query_map([], |row| {
                Ok(EntryRow {
                    id: row.get(0)?,
                    sha1: row.get(1)?,
                    width: row.get(2)?,
                    height: row.get(3)?,
                    rfc6381_codec: row.get(4)?,
                    data: row.get(5)?,
                })
            })
            .unwrap()
            .map(|r| r.unwrap())
            .collect();
        db.init_video_sample_entries(rows).map_err(|e| e.message())?;
        let rows: Vec<DirRow> = conn
            .prepare(
                "select d.id, d.path, d.uuid, d.last_complete_open_id, o.uuid
                 from sample_file_dir d left join open o on (d.last_complete_open_id = o.id)",
            )
            .unwrap()
            .query_map([], |row| {
                let open_uuid: Option<Vec<u8>> = row.get(4)?;
                Ok(DirRow {
                    id: row.get(0)?,
                    path: row.get(1)?,
                    uuid: uuid_column(row.get(2)?),
                    last_complete_open_id: row.get(3)?,
                    open_uuid: open_uuid.map(uuid_column),
                })
            })
            .unwrap()
            .map(|r| r.unwrap())
            .collect();
        db.init_sample_file_dirs(rows).map_err(|e| e.message())?;
        let rows: Vec<CameraRow> = conn
            .prepare(
                "select id, uuid, short_name, description, host, username, password from camera",
            )
            .unwrap()
            .query_map([], |row| {
                Ok(CameraRow {
                    id: row.get(0)?,
                    uuid: uuid_column(row.get(1)?),
                    short_name: row.get(2)?,
                    description: row.get(3)?,
                    host: row.get(4)?,
                    username: row.get(5)?,
                    password: row.get(6)?,
                })
            })
            .unwrap()
            .map(|r| r.unwrap())
            .collect();
        db.init_cameras(rows);
        let rows: Vec<StreamRow> = conn
            .prepare(
                "select id, type, camera_id, sample_file_dir_id, rtsp_path, retain_bytes,
                 next_recording_id, record from stream",
            )
            .unwrap()
            .query_map([], |row| {
                Ok(StreamRow {
                    id: row.get(0)?,
                    type_: row.get(1)?,
                    camera_id: row.get(2)?,
                    sample_file_dir_id: row.get(3)?,
                    rtsp_path: row.get(4)?,
                    retain_bytes: row.get(5)?,
                    next_recording_id: row.get(6)?,
                    record: row.get(7)?,
                })
            })
            .unwrap()
            .map(|r| r.unwrap())
            .collect();
        db.init_streams(rows).map_err(|e| e.message())?;
        let ids: Vec<i32> = db.streams_by_id().keys().cloned().collect();
        for id in ids {
            let rows: Vec<RecordingSummary> = conn
                .prepare(
                    "select start_time_90k, duration_90k, sample_file_bytes from recording
                     where stream_id = ?",
                )
                .unwrap()
                .query_map([id], |row| {
                    Ok(RecordingSummary {
                        start: Time(row.get(0)?),
                        duration: Duration(row.get(1)?),
                        sample_file_bytes: row.get(2)?,
                    })
                })
                .unwrap()
                .map(|r| r.unwrap())
                .collect();
            assert!(db.can_init_stream_recordings(id, &rows));
            db.init_stream_recordings(id, &rows);
        }
        Ok(Database { conn, db })
    }

    fn close(self) -> Connection {
        self.conn
    }

    fn add_camera(&mut self, change: CameraChange) -> i32 {
        let mut op = self.db.add_camera(change);
        self.conn.execute("begin", []).unwrap();
        loop {
            let reply = match op.action(&self.db) {
                Action::Run(s) => execute(&self.conn, &s),
                Action::Commit => committed(&self.conn),
            };
            if let Some(id) = op.advance(&mut self.db, reply).unwrap() {
                return id;
            }
        }
    }

    fn update_camera(&mut self, id: i32, change: CameraChange) {
        let mut op = self.db.update_camera(id, change).unwrap();
        self.conn.execute("begin", []).unwrap();
        loop {
            let reply = match op.action(&self.db) {
                Action::Run(s) => execute(&self.conn, &s),
                Action::Commit => committed(&self.conn),
            };
            if op.advance(&mut self.db, reply).unwrap().is_some() {
                return;
            }
        }
    }

    fn delete_camera(&mut self, id: i32) -> Result<(), String> {
        let mut op = self.db.delete_camera(id).map_err(|e| e.message())?;
        self.conn.execute("begin", []).unwrap();
        loop {
            let reply = match op.action() {
                Action::Run(s) => execute(&self.conn, &s),
                Action::Commit => committed(&self.conn),
            };
            if op.advance(&mut self.db, reply).map_err(|e| e.message())?.is_some() {
                return Ok(());
            }
        }
    }

    fn add_sample_file_dir(&mut self, path: &str) -> i32 {
        let mut op = self.db.add_sample_file_dir(path.to_owned()).unwrap();
        let dir = DirHandle(7);
        let created: DirMeta = match op.action() {
            DirAction::Create { path: p, meta } => {
                assert_eq!(path, p);
                meta
            }
            other => panic!("{:?}", other),
        };
        assert!(created.last_complete_open.is_none());
        assert!(created.in_progress_open.is_some());
        op.created(Ok(dir)).unwrap();
        loop {
            let reply = match op.action() {
                DirAction::Run(s) => execute(&self.conn, &s),
                DirAction::WriteMeta { dir: d, meta } => {
                    assert_eq!(dir, d);
                    assert!(meta.last_complete_open.is_some());
                    assert!(meta.in_progress_open.is_none());
                    Ok(Executed { changes: 0, last_insert_rowid: 0 })
                }
                other => panic!("{:?}", other),
            };
            if let Some(id) = op.advance(&mut self.db, reply).unwrap() {
                return id;
            }
        }
    }

    fn insert_video_sample_entry(&mut self, data: Vec<u8>) -> i32 {
        let op = match self
            .db
            .insert_video_sample_entry(1920, 1080, data, "avc1.4d0029".to_owned())
            .unwrap()
        {
            EntryInsertion::Existing(id) => return id,
            EntryInsertion::New(op) => op,
        };
        let reply = execute(&self.conn, &op.statement());
        op.finish(&mut self.db, reply).unwrap()
    }

    fn list_garbage(&self, dir_id: i32) -> Vec<CompositeId> {
        let dir_id = match self.db.list_garbage(dir_id) {
            Query::Garbage { dir_id } => dir_id,
            other => panic!("{:?}", other),
        };
        self.conn
            .prepare("select composite_id from garbage where sample_file_dir_id = ?")
            .unwrap()
            .query_map([dir_id], |row| Ok(CompositeId(row.get(0)?)))
            .unwrap()
            .map(|r| r.unwrap())
            .collect()
    }

    fn recordings(&self, query: Query) -> Vec<ListRecordingsRow> {
        let (sql, params): (&str, Vec<(&str, i64)>) = match query {
            Query::RecordingsByTime { sql, stream_id, start_time, end_time } => (
                sql,
                vec![
                    (":stream_id", stream_id as i64),
                    (":start_time_90k", start_time.0),
                    (":end_time_90k", end_time.0),
                ],
            ),
            Query::RecordingsById { start, end } => (
                "select composite_id, run_offset, flags, start_time_90k, duration_90k,
                 sample_file_bytes, video_samples, video_sync_samples, video_sample_entry_id
                 from recording where :start <= composite_id and composite_id < :end
                 order by composite_id",
                vec![(":start", start.0), (":end", end.0)],
            ),
            other => panic!("{:?}", other),
        };
        let params: Vec<(&str, &dyn ToSql)> =
            params.iter().map(|(k, v)| (*k, v as &dyn ToSql)).collect();
        let rows: Vec<RecordingRow> = self
            .conn
            .prepare(sql)
            .unwrap()
            .query_map(&params[..], |row| {
                Ok(RecordingRow {
                    composite_id: row.get(0)?,
                    run_offset: row.get(1)?,
                    flags: row.get(2)?,
                    start_time_90k: row.get(3)?,
                    duration_90k: row.get(4)?,
                    sample_file_bytes: row.get(5)?,
                    video_samples: row.get(6)?,
                    video_sync_samples: row.get(7)?,
                    video_sample_entry_id: row.get(8)?,
                })
            })
            .unwrap()
            .map(|r| r.unwrap())
            .collect();
        rows.iter().map(|row| self.db.list_recordings_inner(row).unwrap()).collect()
    }

    fn oldest_sample_files(&self, stream_id: i32) -> Vec<ListOldestSampleFilesRow> {
        let (start, end) = match self.db.list_oldest_sample_files(stream_id) {
            Query::OldestSampleFiles { start, end } => (start, end),
            other => panic!("{:?}", other),
        };
        self.conn
            .prepare(
                "select composite_id, start_time_90k, duration_90k, sample_file_bytes
                 from recording where ? <= composite_id and composite_id < ?
                 order by composite_id",
            )
            .unwrap()
            .query_map([start.0, end.0], |row| {
                Ok(oldest_sample_file(
                    CompositeId(row.get(0)?),
                    Time(row.get(1)?),
                    Duration(row.get(2)?),
                    row.get(3)?,
                ))
            })
            .unwrap()
            .map(|r| r.unwrap())
            .collect()
    }

    fn playback(&mut self, id: CompositeId) -> Result<Vec<u8>, String> {
        let copy = |p: &RecordingPlayback<'_>| Ok(p.video_index.to_vec());
        match self.db.with_recording_playback(id, copy) {
            Lookup::Hit(r) => r.map_err(|e| e.message()),
            Lookup::Miss(f) => {
                let row: Option<Vec<u8>> = self
                    .conn
                    .query_row(
                        "select video_index from recording_playback where composite_id = ?",
                        [id.0],
                        |row| row.get(0),
                    )
                    .ok();
                let row = row.map(|blob| VideoIndex::column_result(&blob));
                self.db.with_fetched_playback(id, row, f).map_err(|e| e.message())
            }
        }
    }
}

fn extent(conn: &Connection, stream_id: i32) -> StreamExtent {
    let min_start: Option<i64> = conn
        .query_row(
            "select min(start_time_90k) from recording where stream_id = ?",
            [stream_id],
            |row| row.get(0),
        )
        .unwrap();
    let mut scan = MaxScan::new();
    let mut stmt = conn
        .prepare(
            "select start_time_90k, duration_90k from recording where stream_id = ?
             order by start_time_90k desc",
        )
        .unwrap();
    let mut rows = stmt.query([stream_id]).unwrap();
    while let Some(row) = rows.next().unwrap() {
        let (start, duration) = (Time(row.get(0).unwrap()), row.get(1).unwrap());
        assert!(scan.can_add(start, duration));
        if !scan.add(start, duration) {
            break;
        }
    }
    scan.extent(stream_id, min_start.map(Time))
}

fn begin(conn: &Connection) {
    conn.execute("begin", []).unwrap();
}

fn commit(conn: &Connection, tx: Transaction) -> Result<(), String> {
    tx.check_must_rollback().map_err(|e| e.message())?;
    let extents: Vec<StreamExtent> =
        tx.modified_streams().into_iter().map(|id| extent(conn, id)).collect();
    let ready = tx.commit(&extents).map_err(|e| e.message())?;
    assert!(ready.can_finish());
    let reply = match conn.execute("commit", []) {
        Ok(_) => Ok(()),
        Err(e) => Err(e.to_string()),
    };
    ready.finish(reply).map_err(|e| e.message())
}

fn insert_recording(
    conn: &Connection,
    tx: &mut Transaction,
    r: &RecordingToInsert,
) -> Result<(), String> {
    let mut op = tx.insert_recording(r).map_err(|e| e.message())?;
    loop {
        let reply = execute(conn, &op.statement());
        assert!(op.can_advance(tx));
        if op.advance(tx, reply).map_err(|e| e.message())? {
            return Ok(());
        }
    }
}

fn delete_recordings(
    conn: &Connection,
    tx: &mut Transaction,
    rows: &[ListOldestSampleFilesRow],
) -> Result<(), String> {
    let mut op = match tx.delete_recordings(rows).map_err(|e| e.message())? {
        None => return Ok(()),
        Some(op) => op,
    };
    loop {
        let reply = execute(conn, &op.statement());
        assert!(op.can_advance(tx));
        if op.advance(tx, reply).map_err(|e| e.message())? {
            return Ok(());
        }
    }
}

fn mark_sample_files_deleted(conn: &Connection, tx: &mut Transaction, ids: &[CompositeId]) {
    let mut op = tx.mark_sample_files_deleted(ids).unwrap();
    loop {
        let reply = execute(conn, &op.statement());
        if op.advance(reply).unwrap() {
            return;
        }
    }
}

fn all_time() -> std::ops::Range<Time> {
    Time(i64::min_value())..Time(i64::max_value())
}

fn assert_no_recordings(db: &Database, uuid: Uuid) {
    let mut rows = 0;
    let mut camera_id = -1;
    for row in db.db.cameras_by_id().values() {
        rows += 1;
        camera_id = row.id;
        assert_eq!(uuid, row.uuid);
        assert_eq!("test-camera", row.host);
        assert_eq!("foo", row.username);
        assert_eq!("bar", row.password);
    }
    assert_eq!(1, rows);
    let stream_id = camera_id;
    assert_eq!(0, db.recordings(db.db.list_recordings_by_time(stream_id, all_time())).len());
}

fn assert_single_recording(db: &Database, stream_id: i32, r: &RecordingToInsert) {
    let stream = db.db.streams_by_id().get(&stream_id).unwrap();
    assert_eq!(Some(r.time.clone()), stream.range);
    assert_eq!(r.sample_file_bytes as i64, stream.sample_file_bytes);
    assert_eq!(r.time.end - r.time.start, stream.duration);
    db.db.cameras_by_id().get(&stream.camera_id).unwrap();

    let rows = db.recordings(db.db.list_recordings_by_time(stream_id, all_time()));
    assert_eq!(1, rows.len());
    let row = &rows[0];
    assert_eq!(r.time, row.start..row.start + Duration(row.duration_90k as i64));
    assert_eq!(r.video_samples, row.video_samples);
    assert_eq!(r.video_sync_samples, row.video_sync_samples);
    assert_eq!(r.sample_file_bytes, row.sample_file_bytes);
    assert_eq!(row.video_sample_entry.rfc6381_codec, "avc1.4d0029");
    let recording_id = row.id;

    let rows = db.oldest_sample_files(stream_id);
    assert_eq!(1, rows.len());
    assert_eq!(recording_id, rows[0].id);
    assert_eq!(r.time, rows[0].time);
    assert_eq!(r.sample_file_bytes, rows[0].sample_file_bytes);
}

fn camera_change(sample_file_dir_id: Option<i32>) -> CameraChange {
    CameraChange {
        short_name: "testcam".to_owned(),
        description: "".to_owned(),
        host: "test-camera".to_owned(),
        username: "foo".to_owned(),
        password: "bar".to_owned(),
        streams: [
            StreamChange { sample_file_dir_id, rtsp_path: "/main".to_owned(), record: true },
            StreamChange { sample_file_dir_id, rtsp_path: "/sub".to_owned(), record: true },
        ],
    }
}

#[test]
fn test_no_meta_or_version() {
    let e = Database::new(Connection::open_in_memory().unwrap(), false).err().unwrap();
    assert!(e.starts_with("no such table"), "{}", e);
}

#[test]
fn test_version_too_old() {
    let c = setup_conn();
    c.execute_batch("delete from version; insert into version values (2, 0, '');").unwrap();
    let e = Database::new(c, false).err().unwrap();
    assert!(e.starts_with("Database schema version 2 is too old (expected 3)"), "got: {:?}", e);
}

#[test]
fn test_version_too_new() {
    let c = setup_conn();
    c.execute_batch("delete from version; insert into version values (4, 0, '');").unwrap();
    let e = Database::new(c, false).err().unwrap();
    assert!(e.starts_with("Database schema version 4 is too new (expected 3)"), "got: {:?}", e);
}

/// Basic test of running some queries on a fresh database.
#[test]
fn test_fresh_db() {
    let conn = setup_conn();
    let db = Database::new(conn, true).unwrap();
    assert_eq!(0, db.db.cameras_by_id().values().count());
}

/// Basic test of the full lifecycle of recording. Does not exercise error cases.
#[test]
fn test_full_lifecycle() {
    let conn = setup_conn();
    let mut db = Database::new(conn, true).unwrap();
    let sample_file_dir_id = Some(db.add_sample_file_dir("/sample/file/dir"));
    let camera_id = db.add_camera(camera_change(sample_file_dir_id));
    {
        let stream_id = db.db.cameras_by_id().get(&camera_id).unwrap().streams[0].unwrap();
        begin(&db.conn);
        let mut tx = db.db.tx();
        let op = tx.update_retention(stream_id, true, 42).unwrap();
        let reply = execute(&db.conn, &op.statement());
        op.finish(&mut tx, reply).unwrap();
        commit(&db.conn, tx).unwrap();
        assert_eq!(42, db.db.streams_by_id().get(&stream_id).unwrap().retain_bytes);
    }
    let camera_uuid = db.db.cameras_by_id().get(&camera_id).unwrap().uuid;
    assert_no_recordings(&db, camera_uuid);

    // Closing and reopening the database should present the same contents.
    let conn = db.close();
    let mut db = Database::new(conn, true).unwrap();
    assert_no_recordings(&db, camera_uuid);

    assert_eq!(db.list_garbage(sample_file_dir_id.unwrap()), &[]);

    let vse_id = db.insert_video_sample_entry(vec![1; 100]);
    assert!(vse_id > 0, "vse_id = {}", vse_id);
    assert_eq!(vse_id, db.insert_video_sample_entry(vec![1; 100]));

    // Inserting a recording should succeed and advance the next recording id.
    let start = Time(1430006400 * TIME_UNITS_PER_SEC);
    let stream_id = camera_id;
    let id = CompositeId::new(stream_id, 1);
    let recording = RecordingToInsert {
        id,
        sample_file_bytes: 42,
        run_offset: 0,
        flags: 0,
        time: start..start + Duration(TIME_UNITS_PER_SEC),
        local_time_delta: Duration(0),
        video_samples: 1,
        video_sync_samples: 1,
        video_sample_entry_id: vse_id,
        video_index: [0u8; 100].to_vec(),
        sample_file_sha1: [0u8; 20],
    };
    {
        begin(&db.conn);
        let mut tx = db.db.tx();
        insert_recording(&db.conn, &mut tx, &recording).unwrap();
        commit(&db.conn, tx).unwrap();
    }
    assert_eq!(db.db.streams_by_id().get(&stream_id).unwrap().next_recording_id, 2);

    // Queries should return the correct result (with caches update on insert).
    assert_single_recording(&db, stream_id, &recording);
    let days = db.db.streams_by_id().get(&stream_id).unwrap().days.entries();
    assert_eq!([0u8; 100].to_vec(), db.playback(id).unwrap());
    assert_eq!([0u8; 100].to_vec(), db.playback(id).unwrap());
    assert_eq!("no such recording 1/7", db.playback(CompositeId::new(1, 7)).unwrap_err());

    // Queries on a fresh database should return the correct result (with caches populated from
    // existing database contents rather than built on insert).
    let conn = db.close();
    let mut db = Database::new(conn, true).unwrap();
    assert_single_recording(&db, stream_id, &recording);
    assert_eq!(days, db.db.streams_by_id().get(&stream_id).unwrap().days.entries());
    assert_eq!(1, db.recordings(db.db.list_recordings_by_id(stream_id, 1..2)).len());
    assert_eq!(0, db.recordings(db.db.list_recordings_by_id(stream_id, 2..3)).len());
    assert_eq!(
        "Can't remove camera 1; has recordings.",
        db.delete_camera(camera_id).unwrap_err()
    );

    // Deleting a recording should succeed, update the min/max times, and mark it as garbage.
    {
        let v = db.oldest_sample_files(stream_id);
        assert_eq!(1, v.len());
        begin(&db.conn);
        let mut tx = db.db.tx();
        delete_recordings(&db.conn, &mut tx, &v).unwrap();
        commit(&db.conn, tx).unwrap();
    }
    assert_no_recordings(&db, camera_uuid);
    assert_eq!(db.list_garbage(sample_file_dir_id.unwrap()), vec![id]);
    let stream = db.db.streams_by_id().get(&stream_id).unwrap();
    assert_eq!(None, stream.range);
    assert_eq!(0, stream.sample_file_bytes);
    assert_eq!(Duration(0), stream.duration);
    assert_eq!(0, stream.days.len());

    // The camera can be updated, and deleted now that it has no recordings.
    let mut change = camera_change(sample_file_dir_id);
    change.host = "other-camera".to_owned();
    change.streams[1] = StreamChange::default();
    db.update_camera(camera_id, change);
    let camera = db.db.cameras_by_id().get(&camera_id).unwrap();
    assert_eq!("other-camera", camera.host);
    assert_eq!([Some(1), None], camera.streams);
    assert_eq!(1, db.db.streams_by_id().len());
    assert_eq!(Some(camera_id), db.db.get_camera(camera_uuid).map(|c| c.id));
    db.delete_camera(camera_id).unwrap();
    assert_eq!(0, db.db.cameras_by_id().len());
    assert_eq!(0, db.db.streams_by_id().len());
    assert!(db.db.get_camera(camera_uuid).is_none());
}

#[test]
fn test_drop_tx() {
    let conn = setup_conn();
    conn.execute("insert into garbage values (1, ?)", [CompositeId::new(1, 1).0]).unwrap();
    let mut db = Database::new(conn, true).unwrap();
    {
        begin(&db.conn);
        let mut tx = db.db.tx();
        mark_sample_files_deleted(&db.conn, &mut tx, &[CompositeId::new(1, 1)]);
        // drop tx without committing.
        drop(tx);
        db.conn.execute("rollback", []).unwrap();
    }

    // The dropped tx should have done nothing.
    assert_eq!(db.list_garbage(1), &[CompositeId::new(1, 1)]);

    // Following transactions should succeed.
    {
        begin(&db.conn);
        let mut tx = db.db.tx();
        mark_sample_files_deleted(&db.conn, &mut tx, &[CompositeId::new(1, 1)]);
        commit(&db.conn, tx).unwrap();
    }
    assert_eq!(db.list_garbage(1), &[]);
}

/// A transaction in which a step has failed can't be committed, and leaves no trace.
#[test]
fn failed_insert_leaves_no_trace() {
    let conn = setup_conn();
    let mut db = Database::new(conn, true).unwrap();
    let dir = Some(db.add_sample_file_dir("/sample/file/dir"));
    let stream_id = db.add_camera(camera_change(dir));
    let start = Time(1430006400 * TIME_UNITS_PER_SEC);
    let recording = RecordingToInsert {
        id: CompositeId::new(stream_id, 1),
        sample_file_bytes: 42,
        run_offset: 0,
        flags: 0,
        time: start..start + Duration(TIME_UNITS_PER_SEC),
        local_time_delta: Duration(0),
        video_samples: 1,
        video_sync_samples: 1,
        video_sample_entry_id: 99,
        video_index: vec![1],
        sample_file_sha1: [0u8; 20],
    };
    begin(&db.conn);
    let mut tx = db.db.tx();
    assert!(insert_recording(&db.conn, &mut tx, &recording).is_err());
    assert_eq!("failing due to previous error", commit(&db.conn, tx).unwrap_err());
    db.conn.execute("rollback", []).unwrap();
    let stream = db.db.streams_by_id().get(&stream_id).unwrap();
    assert_eq!(1, stream.next_recording_id);
    assert_eq!(None, stream.range);
}

fn stored_dir(d: &SampleFileDir) -> (i32, String, Uuid, Option<(u32, Uuid)>) {
    (d.id, d.path.clone(), d.uuid, d.last_complete_open.map(|o| (o.id, o.uuid)))
}

/// What transactions leave in memory is what loading the database anew gives.
#[test]
fn cache_matches_fresh_load() {
    let conn = setup_conn();
    let mut db = Database::new(conn, true).unwrap();
    let dir = Some(db.add_sample_file_dir("/sample/file/dir"));
    let stream_id = db.add_camera(camera_change(dir));
    let entry = db.insert_video_sample_entry(vec![2; 100]);
    let start = 1430006400 * TIME_UNITS_PER_SEC;
    let day = 86400 * TIME_UNITS_PER_SEC;
    for (i, (offset, length)) in
        [(0, 27_000_000), (day / 3, 5_000_000), (day - 1, 100), (5 * day, 77), (9, 26_000_000)]
            .iter()
            .enumerate()
    {
        let recording = RecordingToInsert {
            id: CompositeId::new(stream_id, i as i32 + 1),
            sample_file_bytes: 10 + i as i32,
            run_offset: 0,
            flags: 0,
            time: Time(start + offset)..Time(start + offset + length),
            local_time_delta: Duration(0),
            video_samples: 1,
            video_sync_samples: 1,
            video_sample_entry_id: entry,
            video_index: vec![1],
            sample_file_sha1: [0u8; 20],
        };
        begin(&db.conn);
        let mut tx = db.db.tx();
        insert_recording(&db.conn, &mut tx, &recording).unwrap();
        commit(&db.conn, tx).unwrap();
    }
    let files = db.oldest_sample_files(stream_id);
    begin(&db.conn);
    let mut tx = db.db.tx();
    delete_recordings(&db.conn, &mut tx, &files[..2]).unwrap();
    commit(&db.conn, tx).unwrap();

    // One transaction replaces the only recording of a day by a longer one, and updates retention.
    let replacement = RecordingToInsert {
        id: CompositeId::new(stream_id, 9),
        sample_file_bytes: 13,
        run_offset: 0,
        flags: 0,
        time: Time(start + 5 * day)..Time(start + 5 * day + 1_000),
        local_time_delta: Duration(0),
        video_samples: 1,
        video_sync_samples: 1,
        video_sample_entry_id: entry,
        video_index: vec![1],
        sample_file_sha1: [0u8; 20],
    };
    begin(&db.conn);
    let mut tx = db.db.tx();
    delete_recordings(&db.conn, &mut tx, &files[3..4]).unwrap();
    insert_recording(&db.conn, &mut tx, &replacement).unwrap();
    let op = tx.update_retention(stream_id, true, 4_000).unwrap();
    let reply = execute(&db.conn, &op.statement());
    op.finish(&mut tx, reply).unwrap();
    commit(&db.conn, tx).unwrap();

    let before = db.db.streams_by_id().get(&stream_id).unwrap().clone();
    assert_eq!(12 + 13 + 14, before.sample_file_bytes);
    assert_eq!(Duration(100 + 1_000 + 26_000_000), before.duration);
    assert_eq!(Some(Time(start + 9)..Time(start + 5 * day + 1_000)), before.range);
    let dirs: Vec<_> = db.db.sample_file_dirs_by_id().values().map(stored_dir).collect();
    let cameras = format!("{:?}", db.db.cameras_by_id());
    let conn = db.close();
    let db = Database::new(conn, false).unwrap();
    let after = db.db.streams_by_id().get(&stream_id).unwrap();
    assert_eq!(before.sample_file_bytes, after.sample_file_bytes);
    assert_eq!(before.duration, after.duration);
    assert_eq!(before.range, after.range);
    assert_eq!(before.days.entries(), after.days.entries());
    assert_eq!(before.next_recording_id, after.next_recording_id);
    assert_eq!((true, 4_000), (after.record, after.retain_bytes));
    assert_eq!((before.record, before.retain_bytes), (after.record, after.retain_bytes));
    assert_eq!(
        dirs,
        db.db.sample_file_dirs_by_id().values().map(stored_dir).collect::<Vec<_>>()
    );
    assert_eq!(cameras, format!("{:?}", db.db.cameras_by_id()));
}
