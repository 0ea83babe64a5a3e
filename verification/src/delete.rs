//! Deleting recordings.
use crate::collections::fnv_get;
use crate::days::{
    adjust_changes_if_fit, changes_adjusted_if_fit, day_split, possible_split, DaySplit,
};
use crate::error::Error;
use crate::ids::{stream_part, CompositeId};
use crate::model::StreamView;
use crate::recording::{fits, Duration};
use crate::statement::{ListOldestSampleFilesRow, Reply, Statement};
use crate::transaction::{mod_of, MarkSampleFilesDeleted, ModView, Transaction};
use vstd::prelude::*;

verus! {

broadcast use {
    vstd::std_specs::btree::group_btree_axioms,
    vstd::laws_cmp::group_laws_cmp,
};

/// `m` after the recording `row` was taken away, if the calendar gives `split`.
pub open spec fn mod_deleted(
    m: ModView,
    row: ListOldestSampleFilesRow,
    split: Option<DaySplit>,
) -> ModView {
    ModView {
        duration: Duration((m.duration.0 - (row.time.end.0 - row.time.start.0)) as i64),
        sample_file_bytes: (m.sample_file_bytes - row.sample_file_bytes) as i64,
        days: changes_adjusted_if_fit(m.days, row.time, -1, split),
        ..m
    }
}

/// Whether the sums of `mod_deleted` can be held.
pub open spec fn delete_fits(m: ModView, row: ListOldestSampleFilesRow) -> bool {
    &&& fits(row.time.end.0 - row.time.start.0)
    &&& fits(m.duration.0 - (row.time.end.0 - row.time.start.0))
    &&& fits(m.sample_file_bytes - row.sample_file_bytes)
}

/// The step that deleting a recording has come to.
#[derive(Copy, Clone, Debug)]
pub enum DeleteStage {
    Playback,
    Recording,
    Garbage { sample_file_dir_id: i32 },
}

/// Recordings being deleted: which one is next, and the step that it has come to.
pub struct DeleteRecordings<'r> {
    pub rows: &'r [ListOldestSampleFilesRow],
    pub next: usize,
    pub stage: DeleteStage,
}

/// What follows on `reply` to the statement of `stage` for the recording `id`: an error, another
/// step, or the end of the recording's deletion.
pub open spec fn delete_step(
    streams: Map<i32, StreamView>,
    id: CompositeId,
    stage: DeleteStage,
    reply: Reply,
) -> Result<Option<DeleteStage>, Error> {
    let sid = stream_part(id.0 as int) as i32;
    match reply {
        Err(e) => Err(Error::Sql(e)),
        Ok(done) => match stage {
            DeleteStage::Playback => if done.changes != 1 {
                Err(Error::NoSuchRecording(id))
            } else {
                Ok(Some(DeleteStage::Recording))
            },
            DeleteStage::Recording => if done.changes != 1 {
                Err(Error::NoSuchRecordingPlayback(id))
            } else if !streams.contains_key(sid) {
                Err(Error::NoSuchStream(sid))
            } else {
                match streams[sid].sample_file_dir_id {
                    None => Err(Error::StreamHasNoDir(sid)),
                    Some(sample_file_dir_id) => Ok(
                        Some(DeleteStage::Garbage { sample_file_dir_id }),
                    ),
                }
            },
            DeleteStage::Garbage { .. } => Ok(None),
        },
    }
}

impl<'r> DeleteRecordings<'r> {
    /// Whether there is a recording left to delete.
    pub open spec fn valid(self) -> bool {
        self.next < self.rows@.len()
    }

    /// The recording that is being deleted.
    pub open spec fn row(self) -> ListOldestSampleFilesRow {
        self.rows@[self.next as int]
    }

    /// The statement to run next.
    pub fn statement(&self) -> (r: Statement<'_>)
        requires
            self.valid(),
        ensures
            r == match self.stage {
                DeleteStage::Playback => Statement::DeleteRecordingPlayback {
                    composite_id: self.row().id,
                },
                DeleteStage::Recording => Statement::DeleteRecording {
                    composite_id: self.row().id,
                },
                DeleteStage::Garbage { sample_file_dir_id } => Statement::InsertGarbage {
                    sample_file_dir_id,
                    composite_id: self.row().id,
                },
            },
    {
        let composite_id = self.rows[self.next].id;
        match self.stage {
            DeleteStage::Playback => Statement::DeleteRecordingPlayback { composite_id },
            DeleteStage::Recording => Statement::DeleteRecording { composite_id },
            DeleteStage::Garbage { sample_file_dir_id } => Statement::InsertGarbage {
                sample_file_dir_id,
                composite_id,
            },
        }
    }

    /// Whether the sums can be held if the statement succeeds.
    pub open spec fn fits(self, mods: Map<i32, ModView>) -> bool {
        self.stage is Garbage ==> delete_fits(
            mod_of(mods, stream_part(self.row().id.0 as int) as i32),
            self.row(),
        )
    }

    /// Whether the sums can be held if the statement succeeds.
    pub fn can_advance(&self, tx: &Transaction<'_>) -> (r: bool)
        requires
            self.valid(),
        ensures
            r == self.fits(tx.mods()),
    {
        match self.stage {
            DeleteStage::Garbage { .. } => {
                let row = &self.rows[self.next];
                let (duration, bytes): (i64, i64) = match fnv_get(
                    &tx.mods_by_stream,
                    row.id.stream(),
                ) {
                    Some(m) => (m.duration.0, m.sample_file_bytes),
                    None => (0, 0),
                };
                match row.time.end.0.checked_sub(row.time.start.0) {
                    Some(d) => duration.checked_sub(d).is_some() && bytes.checked_sub(
                        row.sample_file_bytes as i64,
                    ).is_some(),
                    None => false,
                }
            },
            _ => true,
        }
    }

    /// What the reply to the statement makes of the deletion and of the transaction, if the
    /// calendar gives `split`: nothing is modified until a recording is deleted, and the
    /// transaction can't be committed until all of them are.
    pub open spec fn advanced(
        self,
        after: DeleteRecordings<'r>,
        tx: Transaction<'_>,
        tx_after: Transaction<'_>,
        reply: Reply,
        split: Option<DaySplit>,
        r: Result<bool, Error>,
    ) -> bool {
        &&& after.rows == self.rows
        &&& match delete_step(tx.streams(), self.row().id, self.stage, reply) {
            Err(e) => {
                &&& r == Err::<bool, Error>(e)
                &&& after.next == self.next && after.stage == self.stage
                &&& tx_after.mods() == tx.mods()
                &&& tx_after.deleted@ == tx.deleted@
                &&& tx_after.must_rollback == tx.must_rollback
            },
            Ok(Some(stage)) => {
                &&& r == Ok::<bool, Error>(false)
                &&& after.next == self.next && after.stage == stage
                &&& tx_after.mods() == tx.mods()
                &&& tx_after.deleted@ == tx.deleted@
                &&& tx_after.must_rollback == tx.must_rollback
            },
            Ok(None) => {
                let sid = stream_part(self.row().id.0 as int) as i32;
                let done = self.next + 1 == self.rows@.len();
                &&& r == Ok::<bool, Error>(done)
                &&& !done ==> after.next == self.next + 1 && after.stage == DeleteStage::Playback
                &&& tx_after.mods() == tx.mods().insert(
                    sid,
                    mod_deleted(mod_of(tx.mods(), sid), self.row(), split),
                )
                &&& tx_after.deleted@ == tx.deleted@.push(self.row().id)
                &&& tx_after.must_rollback == (tx.must_rollback && !done)
            },
        }
    }

    /// Takes the reply to the statement, given the days that the recording is split into, and says
    /// whether all recordings are deleted.
    pub fn advance_at(
        &mut self,
        tx: &mut Transaction<'_>,
        reply: Reply,
        split: Option<DaySplit>,
    ) -> (r: Result<bool, Error>)
        requires
            old(self).valid(),
            reply is Ok ==> old(self).fits(old(tx).mods()),
        ensures
            *final(tx).state == *old(tx).state,
            *final(final(tx).state) == *final(old(tx).state),
            old(self).advanced(*final(self), *old(tx), *final(tx), reply, split, r),
    {
        let done = match reply {
            Err(e) => return Err(Error::Sql(e)),
            Ok(done) => done,
        };
        let row = &self.rows[self.next];
        match self.stage {
            DeleteStage::Playback => {
                if done.changes != 1 {
                    return Err(Error::NoSuchRecording(row.id));
                }
                self.stage = DeleteStage::Recording;
                Ok(false)
            },
            DeleteStage::Recording => {
                if done.changes != 1 {
                    return Err(Error::NoSuchRecordingPlayback(row.id));
                }
                let sid: i32 = row.id.stream();
                let sample_file_dir_id: i32 = match tx.state.streams_by_id.get(&sid) {
                    None => return Err(Error::NoSuchStream(sid)),
                    Some(s) => match s.sample_file_dir_id {
                        None => return Err(Error::StreamHasNoDir(sid)),
                        Some(did) => did,
                    },
                };
                self.stage = DeleteStage::Garbage { sample_file_dir_id };
                Ok(false)
            },
            DeleteStage::Garbage { .. } => {
                let sid: i32 = row.id.stream();
                let mut m = Transaction::get_mods_by_stream(&mut tx.mods_by_stream, sid);
                m.duration = Duration(m.duration.0 - (row.time.end - row.time.start).0);
                m.sample_file_bytes = m.sample_file_bytes - row.sample_file_bytes as i64;
                adjust_changes_if_fit(row.time.start..row.time.end, -1, split, &mut m.days);
                Transaction::set_mods_by_stream(&mut tx.mods_by_stream, sid, m);
                tx.deleted.push(row.id);
                assert(tx.mods() =~= old(tx).mods().insert(
                    sid,
                    mod_deleted(mod_of(old(tx).mods(), sid), old(self).row(), split),
                ));
                if self.next + 1 == self.rows.len() {
                    tx.must_rollback = false;
                    return Ok(true);
                }
                self.next = self.next + 1;
                self.stage = DeleteStage::Playback;
                Ok(false)
            },
        }
    }

    /// Takes the reply to the statement, and says whether all recordings are deleted.
    pub fn advance(&mut self, tx: &mut Transaction<'_>, reply: Reply) -> (r: Result<bool, Error>)
        requires
            old(self).valid(),
            reply is Ok ==> old(self).fits(old(tx).mods()),
        ensures
            *final(tx).state == *old(tx).state,
            *final(final(tx).state) == *final(old(tx).state),
            exists|split: Option<DaySplit>|
                possible_split(old(self).row().time, split) && #[trigger] old(self).advanced(
                    *final(self),
                    *old(tx),
                    *final(tx),
                    reply,
                    split,
                    r,
                ),
    {
        let time = &self.rows[self.next].time;
        let split = day_split(&(time.start..time.end));
        self.advance_at(tx, reply, split)
    }
}

impl<'a> Transaction<'a> {
    /// Deletes the given recordings from the `recording` and `recording_playback` tables. Note
    /// they are not fully removed from the database; the ids are transferred to the `garbage`
    /// table. The caller should `unlink` the files, then remove the `garbage` row.
    ///
    /// This starts the deletion; nothing is returned if there is nothing to delete.
    pub fn delete_recordings<'r>(&mut self, rows: &'r [ListOldestSampleFilesRow]) -> (r: Result<
        Option<DeleteRecordings<'r>>,
        Error,
    >)
        ensures
            *final(self).state == *old(self).state,
            *final(final(self).state) == *final(old(self).state),
            final(self).mods() == old(self).mods(),
            final(self).deleted@ == old(self).deleted@,
            r is Err <==> old(self).must_rollback,
            match r {
                Err(e) => e == Error::MustRollback && final(self).must_rollback,
                Ok(None) => rows@.len() == 0 && !final(self).must_rollback,
                Ok(Some(op)) => op.valid() && op.rows == rows && op.next == 0 && op.stage
                    == DeleteStage::Playback && final(self).must_rollback,
            },
    {
        match self.check_must_rollback() {
            Err(e) => return Err(e),
            Ok(()) => {},
        }
        if rows.len() == 0 {
            return Ok(None);
        }
        self.must_rollback = true;
        Ok(Some(DeleteRecordings { rows, next: 0, stage: DeleteStage::Playback }))
    }
}

/// `mods` after the recordings `rows` were taken away in turn, if the calendar gives `splits`.
pub open spec fn mods_deleted(
    mods: Map<i32, ModView>,
    rows: Seq<ListOldestSampleFilesRow>,
    splits: Seq<Option<DaySplit>>,
) -> Map<i32, ModView>
    decreases rows.len(),
{
    if rows.len() == 0 {
        mods
    } else {
        let earlier = mods_deleted(mods, rows.drop_last(), splits.drop_last());
        let sid = stream_part(rows.last().id.0 as int) as i32;
        earlier.insert(sid, mod_deleted(mod_of(earlier, sid), rows.last(), splits.last()))
    }
}

/// The ids of `rows`.
pub open spec fn row_ids(rows: Seq<ListOldestSampleFilesRow>) -> Seq<CompositeId> {
    rows.map_values(|row: ListOldestSampleFilesRow| row.id)
}

/// At each step of a deletion, exactly the recordings before the current one are taken away and
/// remembered as deleted, and all of them are at the end.
pub proof fn lemma_delete_progress(
    op: DeleteRecordings<'_>,
    after: DeleteRecordings<'_>,
    tx: Transaction<'_>,
    tx_after: Transaction<'_>,
    reply: Reply,
    split: Option<DaySplit>,
    r: Result<bool, Error>,
    mods: Map<i32, ModView>,
    splits: Seq<Option<DaySplit>>,
    deleted: Seq<CompositeId>,
)
    requires
        op.valid(),
        op.advanced(after, tx, tx_after, reply, split, r),
        splits.len() == op.next,
        tx.mods() == mods_deleted(mods, op.rows@.take(op.next as int), splits),
        tx.deleted@ == deleted + row_ids(op.rows@.take(op.next as int)),
    ensures
        r == Ok::<bool, Error>(true) ==> tx_after.deleted@ == deleted + row_ids(op.rows@),
        r == Ok::<bool, Error>(false) ==> tx_after.deleted@ == deleted + row_ids(
            op.rows@.take(after.next as int),
        ),
        r == Ok::<bool, Error>(true) ==> tx_after.mods() == mods_deleted(
            mods,
            op.rows@,
            splits.push(split),
        ),
        r == Ok::<bool, Error>(false) ==> after.valid() && tx_after.mods() == mods_deleted(
            mods,
            op.rows@.take(after.next as int),
            if after.next == op.next {
                splits
            } else {
                splits.push(split)
            },
        ),
{
    let rows = op.rows@.take(op.next + 1);
    assert(rows.drop_last() =~= op.rows@.take(op.next as int));
    assert(rows.last() == op.row());
    assert(splits.push(split).drop_last() =~= splits);
    assert(row_ids(rows) =~= row_ids(op.rows@.take(op.next as int)).push(op.row().id));
    assert(deleted + row_ids(rows) =~= (deleted + row_ids(op.rows@.take(op.next as int))).push(
        op.row().id,
    ));
    if op.next + 1 == op.rows@.len() {
        assert(rows =~= op.rows@);
    }
}

/// The rows that `recording`, `recording_playback` and `garbage` have: composite ids, and for the
/// latter also the ids of directories.
#[verifier::ext_equal]
pub struct Rows {
    pub recordings: Set<i64>,
    pub playbacks: Set<i64>,
    pub garbage: Set<(i32, i64)>,
}

/// What the database makes of a statement that it runs.
pub open spec fn rows_after(rows: Rows, statement: Statement<'_>) -> Rows {
    match statement {
        Statement::DeleteRecordingPlayback { composite_id } => Rows {
            playbacks: rows.playbacks.remove(composite_id.0),
            ..rows
        },
        Statement::DeleteRecording { composite_id } => Rows {
            recordings: rows.recordings.remove(composite_id.0),
            ..rows
        },
        Statement::InsertGarbage { sample_file_dir_id, composite_id } => Rows {
            garbage: rows.garbage.insert((sample_file_dir_id, composite_id.0)),
            ..rows
        },
        Statement::DeleteGarbage { composite_id } => Rows {
            garbage: rows.garbage.filter(|g: (i32, i64)| g.1 != composite_id.0),
            ..rows
        },
        _ => rows,
    }
}

/// The composite ids of the recordings `rows`.
pub open spec fn ids_of(rows: Seq<ListOldestSampleFilesRow>) -> Set<i64> {
    Set::new(|id: i64| exists|i: int| 0 <= i < rows.len() && (#[trigger] rows[i]).id.0 == id)
}

/// Whether `dir_id` is the directory that the stream of the recording `id` keeps its files in.
pub open spec fn is_dir_of(streams: Map<i32, StreamView>, id: i64, dir_id: i32) -> bool {
    let sid = stream_part(id as int) as i32;
    streams.contains_key(sid) && streams[sid].sample_file_dir_id == Some(dir_id)
}

/// The recordings `rows`, each with the directory that its stream keeps its files in.
pub open spec fn files_of(
    streams: Map<i32, StreamView>,
    rows: Seq<ListOldestSampleFilesRow>,
) -> Set<(i32, i64)> {
    Set::new(|g: (i32, i64)| ids_of(rows).contains(g.1) && is_dir_of(streams, g.1, g.0))
}

/// Whether the database has gone from `start` to `now` by the deletion of `rows`: their rows are no
/// longer in `recording` and `recording_playback`, the garbage of each directory has grown by
/// exactly those that were in streams of that directory, and all else is as it was.
pub open spec fn is_deletion(
    streams: Map<i32, StreamView>,
    rows: Seq<ListOldestSampleFilesRow>,
    start: Rows,
    now: Rows,
) -> bool {
    &&& now.recordings == start.recordings.difference(ids_of(rows))
    &&& now.playbacks == start.playbacks.difference(ids_of(rows))
    &&& now.garbage == start.garbage.union(files_of(streams, rows))
}

/// Whether the database has gone from `start` to `now` by what was run of the deletion `op`: the
/// recordings before the current one are deleted, and the current one is as far as its stage says.
/// Its row in the garbage is to be for the directory of its stream.
pub open spec fn is_under_way(
    op: DeleteRecordings<'_>,
    streams: Map<i32, StreamView>,
    start: Rows,
    now: Rows,
) -> bool {
    let done = op.rows@.take(op.next as int);
    let id = op.rows@[op.next as int].id.0;
    match op.stage {
        DeleteStage::Playback => is_deletion(streams, done, start, now),
        DeleteStage::Recording => exists|before: Rows| #[trigger]
            is_deletion(streams, done, start, before) && now == (Rows {
                playbacks: before.playbacks.remove(id),
                ..before
            }),
        DeleteStage::Garbage { sample_file_dir_id } => is_dir_of(streams, id, sample_file_dir_id)
            && exists|before: Rows| #[trigger]
            is_deletion(streams, done, start, before) && now == (Rows {
                playbacks: before.playbacks.remove(id),
                recordings: before.recordings.remove(id),
                ..before
            }),
    }
}

proof fn lemma_one_more(
    streams: Map<i32, StreamView>,
    rows: Seq<ListOldestSampleFilesRow>,
    n: int,
    dir_id: i32,
    start: Rows,
    before: Rows,
    now: Rows,
)
    requires
        0 <= n < rows.len(),
        is_deletion(streams, rows.take(n), start, before),
        is_dir_of(streams, rows[n].id.0, dir_id),
        now.recordings == before.recordings.remove(rows[n].id.0),
        now.playbacks == before.playbacks.remove(rows[n].id.0),
        now.garbage == before.garbage.insert((dir_id, rows[n].id.0)),
    ensures
        is_deletion(streams, rows.take(n + 1), start, now),
{
    let done = rows.take(n);
    let more = rows.take(n + 1);
    assert forall|id: i64| #[trigger] ids_of(more).contains(id) <==> ids_of(done).contains(id) || id
        == rows[n].id.0 by {
        if ids_of(done).contains(id) {
            let i = choose|i: int| 0 <= i < done.len() && (#[trigger] done[i]).id.0 == id;
            assert(more[i].id.0 == id);
        }
        if id == rows[n].id.0 {
            assert(more[n].id.0 == id);
        }
        if ids_of(more).contains(id) && id != rows[n].id.0 {
            let i = choose|i: int| 0 <= i < more.len() && (#[trigger] more[i]).id.0 == id;
            assert(done[i].id.0 == id);
        }
    }
    assert(now.recordings =~= start.recordings.difference(ids_of(more)));
    assert(now.playbacks =~= start.playbacks.difference(ids_of(more)));
    assert(now.garbage =~= start.garbage.union(files_of(streams, more)));
}

/// A deletion takes the recordings out of `recording` and `recording_playback`, and puts each into
/// the garbage of the directory that its stream has, whatever the type of the stream. This says so
/// of each statement that has succeeded, and of the whole when the last one has.
pub proof fn lemma_deletion_fills_garbage(
    op: DeleteRecordings<'_>,
    after: DeleteRecordings<'_>,
    tx: Transaction<'_>,
    tx_after: Transaction<'_>,
    statement: Statement<'_>,
    reply: Reply,
    split: Option<DaySplit>,
    r: Result<bool, Error>,
    start: Rows,
    now: Rows,
)
    requires
        op.valid(),
        call_ensures(DeleteRecordings::statement, (&op,), statement),
        op.advanced(after, tx, tx_after, reply, split, r),
        is_under_way(op, tx.streams(), start, now),
    ensures
        r == Ok::<bool, Error>(false) ==> after.valid() && is_under_way(
            after,
            tx.streams(),
            start,
            rows_after(now, statement),
        ),
        r == Ok::<bool, Error>(true) ==> is_deletion(
            tx.streams(),
            op.rows@,
            start,
            rows_after(now, statement),
        ),
        op.stage is Recording && r is Ok ==> after.stage is Garbage && is_dir_of(
            tx.streams(),
            op.row().id.0,
            after.stage->Garbage_sample_file_dir_id,
        ),
{
    let done = op.rows@.take(op.next as int);
    let id = op.row().id.0;
    let later = rows_after(now, statement);
    match op.stage {
        DeleteStage::Playback => {
            if r is Ok {
                assert(later == Rows { playbacks: now.playbacks.remove(id), ..now });
                assert(is_deletion(tx.streams(), done, start, now));
            }
        },
        DeleteStage::Recording => {
            let before = choose|before: Rows| #[trigger]
                is_deletion(tx.streams(), done, start, before) && now == (Rows {
                    playbacks: before.playbacks.remove(id),
                    ..before
                });
            if r is Ok {
                assert(is_deletion(tx.streams(), done, start, before));
                assert(later == Rows {
                    playbacks: before.playbacks.remove(id),
                    recordings: before.recordings.remove(id),
                    ..before
                });
            }
        },
        DeleteStage::Garbage { sample_file_dir_id } => {
            let before = choose|before: Rows| #[trigger]
                is_deletion(tx.streams(), done, start, before) && now == (Rows {
                    playbacks: before.playbacks.remove(id),
                    recordings: before.recordings.remove(id),
                    ..before
                });
            lemma_one_more(
                tx.streams(),
                op.rows@,
                op.next as int,
                sample_file_dir_id,
                start,
                before,
                later,
            );
            if op.next + 1 == op.rows@.len() {
                assert(op.rows@.take(op.next + 1) =~= op.rows@);
            }
        },
    }
}

/// A deletion that is about to start has changed nothing.
pub proof fn lemma_deletion_starts(
    op: DeleteRecordings<'_>,
    streams: Map<i32, StreamView>,
    start: Rows,
)
    requires
        op.next == 0,
        op.stage is Playback,
    ensures
        is_under_way(op, streams, start, start),
{
    let none = op.rows@.take(0);
    assert(ids_of(none) =~= Set::<i64>::empty());
    assert(files_of(streams, none) =~= Set::<(i32, i64)>::empty());
    assert(start.recordings.difference(ids_of(none)) =~= start.recordings);
    assert(start.playbacks.difference(ids_of(none)) =~= start.playbacks);
    assert(start.garbage.union(files_of(streams, none)) =~= start.garbage);
}

/// A deletion fails exactly if a statement fails, if a row to delete is not there, or if the
/// directory to leave the file to is not known; the error says which it was.
pub proof fn lemma_deletion_fails_for_a_reason(
    streams: Map<i32, StreamView>,
    id: CompositeId,
    stage: DeleteStage,
    reply: Reply,
)
    ensures
        ({
            let sid = stream_part(id.0 as int) as i32;
            let step = delete_step(streams, id, stage, reply);
            let missing = reply is Ok && reply->Ok_0.changes != 1;
            &&& reply matches Err(e) ==> step == Err::<Option<DeleteStage>, Error>(Error::Sql(e))
            &&& reply is Ok && stage is Playback ==> if missing {
                step == Err::<Option<DeleteStage>, Error>(Error::NoSuchRecording(id))
            } else {
                step matches Ok(Some(next)) && next is Recording
            }
            &&& reply is Ok && stage is Recording ==> if missing {
                step == Err::<Option<DeleteStage>, Error>(Error::NoSuchRecordingPlayback(id))
            } else if !streams.contains_key(sid) {
                step == Err::<Option<DeleteStage>, Error>(Error::NoSuchStream(sid))
            } else if streams[sid].sample_file_dir_id is None {
                step == Err::<Option<DeleteStage>, Error>(Error::StreamHasNoDir(sid))
            } else {
                step matches Ok(Some(next)) && next is Garbage
                    && next->Garbage_sample_file_dir_id == streams[sid].sample_file_dir_id->0
            }
            &&& reply is Ok && stage is Garbage ==> step == Ok::<Option<DeleteStage>, Error>(None)
        }),
{
}

/// Marking sample files as deleted takes the recording that is next out of the garbage of whichever
/// directory it is in, and nothing else.
pub proof fn lemma_marking_clears_garbage(
    op: MarkSampleFilesDeleted<'_>,
    statement: Statement<'_>,
    now: Rows,
)
    requires
        op.next < op.ids@.len(),
        call_ensures(MarkSampleFilesDeleted::statement, (&op,), statement),
    ensures
        ({
            let after = rows_after(now, statement);
            &&& after.recordings == now.recordings
            &&& after.playbacks == now.playbacks
            &&& forall|dir_id: i32, id: i64| #[trigger]
                after.garbage.contains((dir_id, id)) <==> now.garbage.contains((dir_id, id)) && id
                    != op.ids@[op.next as int].0
        }),
{
}

/// Once a step of a deletion has failed, or until all recordings are deleted, the transaction can't
/// be committed.
pub proof fn lemma_failed_delete_blocks_commit(
    op: DeleteRecordings<'_>,
    after: DeleteRecordings<'_>,
    tx: Transaction<'_>,
    tx_after: Transaction<'_>,
    reply: Reply,
    split: Option<DaySplit>,
    r: Result<bool, Error>,
)
    requires
        tx.must_rollback,
        op.advanced(after, tx, tx_after, reply, split, r),
    ensures
        tx_after.must_rollback <==> !(r matches Ok(true)),
{
}

} // verus!
