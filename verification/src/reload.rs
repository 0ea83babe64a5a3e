//! What was added to the in-memory state is what loading it from the database gives.
//!
//! Each lemma takes the row that a statement has inserted, and compares what loading it adds with
//! what was added in memory when the statement had succeeded.
use crate::cameras::{camera_view_of, no_streams};
use crate::changer::new_stream;
use crate::dirs::AddSampleFileDir;
use crate::entries::InsertVideoSampleEntry;
use crate::error::Error;
use crate::ids::{lemma_stream_types_distinct, StreamType};
use crate::load::{
    camera_loaded, dir_loaded, entry_loaded, stream_loaded, type_named, CameraRow, DirRow,
    EntryRow, StreamRow,
};
use crate::model::{CameraView, DirHandle, DirView, EntryView, StateView};
use crate::statement::{CameraChange, StreamChange};
use crate::uuids::{uuid_number, Uuid};
use vstd::prelude::*;

verus! {

/// Whether `row` is the row of a camera that was inserted as `change` describes it.
pub open spec fn is_row_of_camera(
    row: CameraRow,
    id: i32,
    uuid: Uuid,
    change: CameraChange,
) -> bool {
    &&& row.id == id
    &&& row.uuid == uuid
    &&& row.short_name@ == change.short_name@
    &&& row.description@ == change.description@
    &&& row.host@ == change.host@
    &&& row.username@ == change.username@
    &&& row.password@ == change.password@
}

/// Whether `row` is the row of a stream that was inserted as `change` describes it.
pub open spec fn is_row_of_stream(
    row: StreamRow,
    id: i32,
    camera_id: i32,
    type_: StreamType,
    change: StreamChange,
) -> bool {
    &&& row.id == id
    &&& row.type_@ == type_.name()
    &&& row.camera_id == camera_id
    &&& row.sample_file_dir_id == change.sample_file_dir_id
    &&& row.rtsp_path@ == change.rtsp_path@
    &&& row.retain_bytes == 0
    &&& row.next_recording_id == 1
    &&& row.record == change.record
}

/// A stream that was inserted is the stream that loading its row gives, and loading the row makes
/// it the camera's stream of its type.
pub proof fn lemma_inserted_stream_reloads(
    db: StateView,
    row: StreamRow,
    id: i32,
    camera_id: i32,
    type_: StreamType,
    change: StreamChange,
)
    requires
        is_row_of_stream(row, id, camera_id, type_, change),
        db.cameras.contains_key(camera_id),
    ensures
        stream_loaded(db, row) == Ok::<StateView, Error>(
            (StateView {
                streams: db.streams.insert(id, new_stream(id, camera_id, type_, change)),
                cameras: db.cameras.insert(
                    camera_id,
                    CameraView {
                        streams: db.cameras[camera_id].streams.update(
                            type_.position(),
                            Some(id),
                        ),
                        ..db.cameras[camera_id]
                    },
                ),
                ..db
            }),
        ),
{
    lemma_stream_types_distinct(StreamType::MAIN, StreamType::SUB);
    assert(type_named(row.type_@) == Some(type_));
}

/// A camera that was inserted without streams is the camera that loading its row gives.
pub proof fn lemma_inserted_camera_reloads(
    db: StateView,
    row: CameraRow,
    id: i32,
    uuid: Uuid,
    change: CameraChange,
)
    requires
        is_row_of_camera(row, id, uuid, change),
    ensures
        camera_loaded(db, row) == Ok::<StateView, Error>(
            (StateView {
                cameras: db.cameras.insert(id, camera_view_of(id, uuid, change, no_streams())),
                camera_ids: db.camera_ids.insert(uuid_number(uuid), id),
                ..db
            }),
        ),
{
}

/// A camera that was inserted with both of its streams is the camera that loading the three rows
/// gives, and so are the streams.
pub proof fn lemma_inserted_camera_and_streams_reload(
    db: StateView,
    camera_row: CameraRow,
    main_row: StreamRow,
    sub_row: StreamRow,
    id: i32,
    uuid: Uuid,
    change: CameraChange,
    main: i32,
    sub: i32,
)
    requires
        is_row_of_camera(camera_row, id, uuid, change),
        is_row_of_stream(main_row, main, id, StreamType::MAIN, change.streams@[0]),
        is_row_of_stream(sub_row, sub, id, StreamType::SUB, change.streams@[1]),
    ensures
        ({
            let db1 = camera_loaded(db, camera_row)->Ok_0;
            let db2 = stream_loaded(db1, main_row)->Ok_0;
            stream_loaded(db2, sub_row) == Ok::<StateView, Error>(
                (StateView {
                    cameras: db.cameras.insert(
                        id,
                        camera_view_of(id, uuid, change, seq![Some(main), Some(sub)]),
                    ),
                    camera_ids: db.camera_ids.insert(uuid_number(uuid), id),
                    streams: db.streams.insert(
                        main,
                        new_stream(main, id, StreamType::MAIN, change.streams@[0]),
                    ).insert(sub, new_stream(sub, id, StreamType::SUB, change.streams@[1])),
                    ..db
                }),
            )
        }),
{
    lemma_inserted_camera_reloads(db, camera_row, id, uuid, change);
    let db1 = camera_loaded(db, camera_row)->Ok_0;
    lemma_inserted_stream_reloads(
        db1,
        main_row,
        main,
        id,
        StreamType::MAIN,
        change.streams@[0],
    );
    let db2 = stream_loaded(db1, main_row)->Ok_0;
    lemma_inserted_stream_reloads(db2, sub_row, sub, id, StreamType::SUB, change.streams@[1]);
    let db3 = stream_loaded(db2, sub_row)->Ok_0;
    assert(db3.cameras[id].streams =~= seq![Some(main), Some(sub)]);
    assert(db3.cameras =~= db.cameras.insert(
        id,
        camera_view_of(id, uuid, change, seq![Some(main), Some(sub)]),
    ));
}

/// A video sample entry that was inserted is the entry that loading its row gives.
pub proof fn lemma_inserted_entry_reloads(
    db: StateView,
    row: EntryRow,
    id: i32,
    op: InsertVideoSampleEntry,
)
    requires
        row.id == id,
        row.sha1@ == op.sha1@,
        row.width == op.width,
        row.height == op.height,
        row.rfc6381_codec@ == op.rfc6381_codec@,
        row.data@ == op.data@,
    ensures
        entry_loaded(db, row) == Ok::<StateView, Error>(
            (StateView {
                entries: db.entries.insert(
                    id,
                    EntryView {
                        data: op.data@,
                        rfc6381_codec: op.rfc6381_codec@,
                        id,
                        width: op.width,
                        height: op.height,
                        sha1: op.sha1@,
                    },
                ),
                ..db
            }),
        ),
{
}

/// A sample file directory that was inserted is the directory that loading its row gives, but for
/// being open. The row is the one that `op` inserts.
pub proof fn lemma_inserted_dir_reloads(
    db: StateView,
    row: DirRow,
    id: i32,
    op: AddSampleFileDir,
    known: DirView,
)
    requires
        row.id == id,
        row.path@ == op.path@,
        row.uuid == op.meta.dir_uuid,
        row.last_complete_open_id == Some(op.open.id),
        row.open_uuid == Some(op.open.uuid),
        known.id == id,
        known.path == op.path@,
        known.uuid == op.meta.dir_uuid,
        known.last_complete_open == Some(op.open),
    ensures
        dir_loaded(db, row) == Ok::<StateView, Error>(
            (StateView {
                dirs: db.dirs.insert(id, DirView { dir: None::<DirHandle>, ..known }),
                ..db
            }),
        ),
{
}

} // verus!
