//! Inserting recordings.
use crate::collections::fnv_get;
use crate::commit::stream_modified;
use crate::days::{
    adjust_changes_if_fit, changes_adjusted_if_fit, day_split, possible_split, DaySplit,
};
use crate::error::Error;
use crate::ids::{recording_part, stream_part};
use crate::model::StreamView;
use crate::recording::{fits, Duration};
use crate::statement::{RecordingToInsert, Reply, Statement};
use crate::transaction::{mod_of, ModView, Transaction};
use vstd::prelude::*;

verus! {

broadcast use {
    vstd::std_specs::btree::group_btree_axioms,
    vstd::laws_cmp::group_laws_cmp,
};

/// `m` after a recording was added, if the calendar gives `split`.
pub open spec fn mod_inserted(
    m: ModView,
    r: RecordingToInsert,
    split: Option<DaySplit>,
) -> ModView {
    ModView {
        duration: Duration((m.duration.0 + (r.time.end.0 - r.time.start.0)) as i64),
        sample_file_bytes: (m.sample_file_bytes + r.sample_file_bytes) as i64,
        days: changes_adjusted_if_fit(m.days, r.time, 1, split),
        ..m
    }
}

/// Whether the sums of `mod_inserted` can be held.
pub open spec fn insert_fits(m: ModView, r: RecordingToInsert) -> bool {
    &&& fits(r.time.end.0 - r.time.start.0)
    &&& fits(m.duration.0 + (r.time.end.0 - r.time.start.0))
    &&& fits(m.sample_file_bytes + r.sample_file_bytes)
}

/// The step that inserting a recording has come to.
#[derive(Copy, Clone, Debug)]
pub enum InsertStage {
    Recording,
    Playback,
    NextRecordingId,
}

/// A recording being inserted, and the step that it has come to.
pub struct InsertRecording<'r> {
    pub recording: &'r RecordingToInsert,
    pub stage: InsertStage,
}

/// The id of the recording after the one to insert.
pub open spec fn id_after(r: RecordingToInsert) -> i32 {
    (recording_part(r.id.0 as int) + 1) as i32
}

/// The stream of a recording to insert.
pub open spec fn insert_stream(r: RecordingToInsert) -> i32 {
    stream_part(r.id.0 as int) as i32
}

/// The least id that the next recording of a stream can have.
pub open spec fn next_id(
    streams: Map<i32, StreamView>,
    mods: Map<i32, ModView>,
    stream_id: i32,
) -> i32 {
    match mod_of(mods, stream_id).new_next_recording_id {
        Some(next) => next,
        None => streams[stream_id].next_recording_id,
    }
}

/// Why a recording can't be inserted, if it can't.
pub open spec fn insert_refused(
    streams: Map<i32, StreamView>,
    mods: Map<i32, ModView>,
    must_rollback: bool,
    r: RecordingToInsert,
) -> Option<Error> {
    let sid = insert_stream(r);
    if must_rollback {
        Some(Error::MustRollback)
    } else if r.time.end.0 < r.time.start.0 {
        Some(Error::EndBeforeStart { end: r.time.end, start: r.time.start })
    } else if !streams.contains_key(sid) {
        Some(Error::NoSuchStreamId(sid))
    } else if recording_part(r.id.0 as int) < next_id(streams, mods, sid) {
        Some(Error::OutOfOrder { id: r.id, next: next_id(streams, mods, sid) })
    } else {
        None
    }
}

/// Whether the length of a recording and the id after its own can be held.
pub open spec fn recording_holds(r: RecordingToInsert) -> bool {
    fits(r.time.end.0 - r.time.start.0) && recording_part(r.id.0 as int) < i32::MAX
}

impl<'a> Transaction<'a> {
    /// Whether a recording is refused, or its length and the id after its own can be held.
    pub fn can_insert(&self, r: &RecordingToInsert) -> (can: bool)
        ensures
            can == (insert_refused(self.streams(), self.mods(), self.must_rollback, *r) is Some
                || recording_holds(*r)),
    {
        if self.must_rollback || r.time.end.0 < r.time.start.0 {
            return true;
        }
        let sid: i32 = r.id.stream();
        let stream_next: i32 = match self.state.streams_by_id.get(&sid) {
            None => return true,
            Some(s) => s.next_recording_id,
        };
        let next: i32 = match fnv_get(&self.mods_by_stream, sid) {
            Some(m) => match m.new_next_recording_id {
                Some(next) => next,
                None => stream_next,
            },
            None => stream_next,
        };
        r.id.recording() < next || r.time.end.0.checked_sub(r.time.start.0).is_some()
            && r.id.recording() < i32::MAX
    }

    /// Inserts the specified recording.
    ///
    /// This starts the insertion. From when the stream is known to exist until the last statement
    /// has succeeded, the transaction can't be committed.
    pub fn insert_recording<'r>(&mut self, r: &'r RecordingToInsert) -> (op: Result<
        InsertRecording<'r>,
        Error,
    >)
        requires
            insert_refused(
                old(self).streams(),
                old(self).mods(),
                old(self).must_rollback,
                *r,
            ) is None ==> recording_holds(*r),
        ensures
            *final(self).state == *old(self).state,
            *final(final(self).state) == *final(old(self).state),
            match insert_refused(
                old(self).streams(),
                old(self).mods(),
                old(self).must_rollback,
                *r,
            ) {
                Some(e) => op == Err::<InsertRecording<'r>, Error>(e),
                None => op == Ok::<InsertRecording<'r>, Error>(
                    (InsertRecording { recording: r, stage: InsertStage::Recording }),
                ),
            },
            final(self).deleted@ == old(self).deleted@,
            final(self).must_rollback == (op is Ok || old(self).must_rollback || op->Err_0
                is OutOfOrder),
            final(self).mods() == if op is Ok || op->Err_0 is OutOfOrder {
                old(self).mods().insert(
                    insert_stream(*r),
                    mod_of(old(self).mods(), insert_stream(*r)),
                )
            } else {
                old(self).mods()
            },
    {
        match self.check_must_rollback() {
            Err(e) => return Err(e),
            Ok(()) => {},
        }
        if r.time.end.0 < r.time.start.0 {
            return Err(Error::EndBeforeStart { end: r.time.end, start: r.time.start });
        }
        // Check that the recording id is acceptable and do the insertion.
        let sid: i32 = r.id.stream();
        let stream_next: i32 = match self.state.streams_by_id.get(&sid) {
            None => return Err(Error::NoSuchStreamId(sid)),
            Some(s) => s.next_recording_id,
        };
        self.must_rollback = true;
        let m = Transaction::get_mods_by_stream(&mut self.mods_by_stream, sid);
        let next: i32 = match m.new_next_recording_id {
            Some(next) => next,
            None => stream_next,
        };
        Transaction::set_mods_by_stream(&mut self.mods_by_stream, sid, m);
        assert(self.mods() =~= old(self).mods().insert(sid, mod_of(old(self).mods(), sid)));
        if r.id.recording() < next {
            return Err(Error::OutOfOrder { id: r.id, next });
        }
        Ok(InsertRecording { recording: r, stage: InsertStage::Recording })
    }
}

impl<'r> InsertRecording<'r> {
    /// What `insert_recording` lets through.
    pub open spec fn valid(self) -> bool {
        recording_holds(*self.recording)
    }

    /// The stream that the recording belongs to.
    pub open spec fn stream(self) -> i32 {
        insert_stream(*self.recording)
    }

    /// The statement to run next.
    pub fn statement(&self) -> (r: Statement<'_>)
        requires
            self.valid(),
        ensures
            r == match self.stage {
                InsertStage::Recording => Statement::InsertRecording {
                    recording: self.recording,
                    stream_id: self.stream(),
                    duration_90k: (self.recording.time.end.0 - self.recording.time.start.0) as i64,
                },
                InsertStage::Playback => Statement::InsertRecordingPlayback {
                    composite_id: self.recording.id,
                    sample_file_sha1: &self.recording.sample_file_sha1,
                    video_index: &self.recording.video_index,
                },
                InsertStage::NextRecordingId => Statement::UpdateNextRecordingId {
                    stream_id: self.stream(),
                    next_recording_id: id_after(*self.recording),
                },
            },
            r matches Statement::UpdateNextRecordingId { stream_id, next_recording_id } ==> {
                &&& stream_id == stream_part(self.recording.id.0 as int)
                &&& next_recording_id == recording_part(self.recording.id.0 as int) + 1
            },
    {
        let r = self.recording;
        match self.stage {
            InsertStage::Recording => Statement::InsertRecording {
                recording: r,
                stream_id: r.id.stream(),
                duration_90k: r.time.end.0 - r.time.start.0,
            },
            InsertStage::Playback => Statement::InsertRecordingPlayback {
                composite_id: r.id,
                sample_file_sha1: &r.sample_file_sha1,
                video_index: &r.video_index,
            },
            InsertStage::NextRecordingId => Statement::UpdateNextRecordingId {
                stream_id: r.id.stream(),
                next_recording_id: r.id.recording() + 1,
            },
        }
    }

    /// Whether the sums can be held if the statement succeeds.
    pub open spec fn fits(self, mods: Map<i32, ModView>) -> bool {
        self.stage is NextRecordingId ==> insert_fits(
            mod_of(mods, self.stream()),
            *self.recording,
        )
    }

    /// Whether the sums can be held if the statement succeeds.
    pub fn can_advance(&self, tx: &Transaction<'_>) -> (r: bool)
        ensures
            r == self.fits(tx.mods()),
    {
        match self.stage {
            InsertStage::NextRecordingId => {
                let r = self.recording;
                let (duration, bytes): (i64, i64) = match fnv_get(
                    &tx.mods_by_stream,
                    r.id.stream(),
                ) {
                    Some(m) => (m.duration.0, m.sample_file_bytes),
                    None => (0, 0),
                };
                match r.time.end.0.checked_sub(r.time.start.0) {
                    Some(d) => duration.checked_add(d).is_some() && bytes.checked_add(
                        r.sample_file_bytes as i64,
                    ).is_some(),
                    None => false,
                }
            },
            _ => true,
        }
    }

    /// What the reply to the statement makes of the insertion and of the transaction, if the
    /// calendar gives `split`.
    pub open spec fn advanced(
        self,
        after: InsertRecording<'r>,
        tx: Transaction<'_>,
        tx_after: Transaction<'_>,
        reply: Reply,
        split: Option<DaySplit>,
        r: Result<bool, Error>,
    ) -> bool {
        let m = mod_of(tx.mods(), self.stream());
        &&& after.recording == self.recording
        &&& tx_after.deleted@ == tx.deleted@
        &&& match reply {
            Err(e) => {
                &&& r == Err::<bool, Error>(Error::Sql(e))
                &&& after.stage == self.stage
                &&& tx_after.mods() == tx.mods()
                &&& tx_after.must_rollback == tx.must_rollback
            },
            Ok(_) => match self.stage {
                InsertStage::Recording => {
                    &&& r == Ok::<bool, Error>(false)
                    &&& after.stage == InsertStage::Playback
                    &&& tx_after.mods() == tx.mods().insert(
                        self.stream(),
                        (ModView {
                            new_next_recording_id: Some(id_after(*self.recording)),
                            ..m
                        }),
                    )
                    &&& tx_after.must_rollback == tx.must_rollback
                },
                InsertStage::Playback => {
                    &&& r == Ok::<bool, Error>(false)
                    &&& after.stage == InsertStage::NextRecordingId
                    &&& tx_after.mods() == tx.mods()
                    &&& tx_after.must_rollback == tx.must_rollback
                },
                InsertStage::NextRecordingId => {
                    &&& r == Ok::<bool, Error>(true)
                    &&& tx_after.mods() == tx.mods().insert(
                        self.stream(),
                        mod_inserted(m, *self.recording, split),
                    )
                    &&& !tx_after.must_rollback
                },
            },
        }
    }

    /// Takes the reply to the statement, given the days that the recording is split into, and says
    /// whether the recording is inserted.
    pub fn advance_at(
        &mut self,
        tx: &mut Transaction<'_>,
        reply: Reply,
        split: Option<DaySplit>,
    ) -> (r: Result<bool, Error>)
        requires
            old(self).valid(),
            reply is Ok ==> old(self).fits(old(tx).mods()),
        ensures
            *final(tx).state == *old(tx).state,
            *final(final(tx).state) == *final(old(tx).state),
            old(self).advanced(*final(self), *old(tx), *final(tx), reply, split, r),
    {
        match reply {
            Err(e) => return Err(Error::Sql(e)),
            Ok(_) => {},
        }
        let sid: i32 = self.recording.id.stream();
        match self.stage {
            InsertStage::Recording => {
                let mut m = Transaction::get_mods_by_stream(&mut tx.mods_by_stream, sid);
                m.new_next_recording_id = Some(self.recording.id.recording() + 1);
                Transaction::set_mods_by_stream(&mut tx.mods_by_stream, sid, m);
                assert(tx.mods() =~= old(tx).mods().insert(
                    sid,
                    (ModView {
                        new_next_recording_id: Some(id_after(*self.recording)),
                        ..mod_of(old(tx).mods(), sid)
                    }),
                ));
                self.stage = InsertStage::Playback;
                Ok(false)
            },
            InsertStage::Playback => {
                self.stage = InsertStage::NextRecordingId;
                Ok(false)
            },
            InsertStage::NextRecordingId => {
                tx.must_rollback = false;
                let r = self.recording;
                let mut m = Transaction::get_mods_by_stream(&mut tx.mods_by_stream, sid);
                m.duration = Duration(m.duration.0 + (r.time.end - r.time.start).0);
                m.sample_file_bytes = m.sample_file_bytes + r.sample_file_bytes as i64;
                adjust_changes_if_fit(r.time.start..r.time.end, 1, split, &mut m.days);
                Transaction::set_mods_by_stream(&mut tx.mods_by_stream, sid, m);
                assert(tx.mods() =~= old(tx).mods().insert(
                    sid,
                    mod_inserted(mod_of(old(tx).mods(), sid), *self.recording, split),
                ));
                Ok(true)
            },
        }
    }

    /// Takes the reply to the statement, and says whether the recording is inserted.
    pub fn advance(&mut self, tx: &mut Transaction<'_>, reply: Reply) -> (r: Result<bool, Error>)
        requires
            old(self).valid(),
            reply is Ok ==> old(self).fits(old(tx).mods()),
        ensures
            *final(tx).state == *old(tx).state,
            *final(final(tx).state) == *final(old(tx).state),
            exists|split: Option<DaySplit>|
                possible_split(old(self).recording.time, split) && #[trigger] old(self).advanced(
                    *final(self),
                    *old(tx),
                    *final(tx),
                    reply,
                    split,
                    r,
                ),
    {
        let time = &self.recording.time;
        let split = day_split(&(time.start..time.end));
        self.advance_at(tx, reply, split)
    }
}

/// A recording that is let in has the next id of its stream or a later one, and the next id is then
/// later still: the same recording, or an earlier one, is refused from then on. Once committed,
/// that is the stream's next id.
pub proof fn lemma_ids_ascend(
    streams: Map<i32, StreamView>,
    mods: Map<i32, ModView>,
    r: RecordingToInsert,
    other: RecordingToInsert,
)
    requires
        insert_refused(streams, mods, false, r) is None,
        recording_part(r.id.0 as int) < i32::MAX,
        insert_stream(other) == insert_stream(r),
        recording_part(other.id.0 as int) <= recording_part(r.id.0 as int),
    ensures
        next_id(streams, mods, insert_stream(r)) < id_after(r),
        ({
            let m = ModView {
                new_next_recording_id: Some(id_after(r)),
                ..mod_of(mods, insert_stream(r))
            };
            &&& insert_refused(streams, mods.insert(insert_stream(r), m), false, other) is Some
            &&& stream_modified(streams[insert_stream(r)], m).next_recording_id == id_after(r)
        }),
{
}

/// Whether `next` is the recording that comes right after `r` in its stream: it has the very next
/// id, and does not end before it starts.
pub open spec fn is_right_after(r: RecordingToInsert, next: RecordingToInsert) -> bool {
    &&& stream_part(next.id.0 as int) == stream_part(r.id.0 as int)
    &&& recording_part(next.id.0 as int) == recording_part(r.id.0 as int) + 1
    &&& next.time.start.0 <= next.time.end.0
}

/// A recording is let in exactly if nothing has failed before in the transaction, it does not end
/// before it starts, its stream exists, and its id is no less than the stream's next id: the one
/// that the transaction has come to, or else the one that the stream has.
pub proof fn lemma_let_in(
    streams: Map<i32, StreamView>,
    mods: Map<i32, ModView>,
    must_rollback: bool,
    r: RecordingToInsert,
)
    ensures
        ({
            let sid = stream_part(r.id.0 as int) as i32;
            let next = if mods.contains_key(sid) && mods[sid].new_next_recording_id is Some {
                mods[sid].new_next_recording_id->0
            } else {
                streams[sid].next_recording_id
            };
            let refused = insert_refused(streams, mods, must_rollback, r);
            &&& refused is None <==> {
                &&& !must_rollback
                &&& r.time.start.0 <= r.time.end.0
                &&& streams.contains_key(sid)
                &&& next <= recording_part(r.id.0 as int)
            }
            &&& refused matches Some(Error::OutOfOrder { id, next: n }) ==> id == r.id && n == next
            &&& refused matches Some(Error::NoSuchStreamId(id)) ==> id == sid
            &&& refused matches Some(Error::EndBeforeStart { end, start }) ==> end == r.time.end
                && start == r.time.start
        }),
{
}

/// Once a recording's row is inserted, the next id of its stream is its own id plus one, whatever
/// else the recording is like, and it stays so through the rest of the insertion. Nothing happens
/// to other streams.
pub proof fn lemma_next_id_is_one_more(
    op: InsertRecording<'_>,
    after: InsertRecording<'_>,
    tx: Transaction<'_>,
    tx_after: Transaction<'_>,
    reply: Reply,
    split: Option<DaySplit>,
    r: Result<bool, Error>,
)
    requires
        op.valid(),
        op.advanced(after, tx, tx_after, reply, split, r),
    ensures
        ({
            let sid = stream_part(op.recording.id.0 as int) as i32;
            let before = mod_of(tx.mods(), sid).new_next_recording_id;
            let next = mod_of(tx_after.mods(), sid).new_next_recording_id;
            &&& op.stage is Recording && r is Ok ==> next is Some && next->0 == recording_part(
                op.recording.id.0 as int,
            ) + 1
            &&& !(op.stage is Recording) || r is Err ==> next == before
            &&& forall|other: i32|
                other != sid ==> #[trigger] mod_of(tx_after.mods(), other) == mod_of(
                    tx.mods(),
                    other,
                )
        }),
{
}

/// After a recording was inserted, the one with the very next id is not refused, neither in the
/// same transaction nor once it is committed. The id that the transaction has come to, the one that
/// the stream has after the commit and the one in the statement that updates the `stream` table are
/// the recording's id plus one.
pub proof fn lemma_next_recording_is_let_in(
    ops: Seq<InsertRecording<'_>>,
    txs: Seq<Transaction<'_>>,
    replies: Seq<Reply>,
    splits: Seq<Option<DaySplit>>,
    streams: Map<i32, StreamView>,
    next: RecordingToInsert,
)
    requires
        ops.len() == 4,
        txs.len() == 4,
        ops[0].stage is Recording,
        ops[0].valid(),
        ops[0].advanced(ops[1], txs[0], txs[1], replies[0], splits[0], Ok(false)),
        ops[1].advanced(ops[2], txs[1], txs[2], replies[1], splits[1], Ok(false)),
        ops[2].advanced(ops[3], txs[2], txs[3], replies[2], splits[2], Ok(true)),
        streams.contains_key(stream_part(ops[0].recording.id.0 as int) as i32),
        is_right_after(*ops[0].recording, next),
    ensures
        insert_refused(streams, txs[3].mods(), txs[3].must_rollback, next) is None,
        ({
            let sid = stream_part(ops[0].recording.id.0 as int) as i32;
            let m = mod_of(txs[3].mods(), sid);
            let committed = stream_modified(streams[sid], m);
            &&& m.new_next_recording_id is Some
            &&& m.new_next_recording_id->0 == recording_part(ops[0].recording.id.0 as int) + 1
            &&& committed.next_recording_id == recording_part(ops[0].recording.id.0 as int) + 1
            &&& insert_refused(
                streams.insert(sid, committed),
                Map::<i32, ModView>::empty(),
                false,
                next,
            ) is None
            &&& id_after(*ops[0].recording) == recording_part(ops[0].recording.id.0 as int) + 1
        }),
{
    lemma_next_id_is_one_more(ops[0], ops[1], txs[0], txs[1], replies[0], splits[0], Ok(false));
    lemma_next_id_is_one_more(ops[1], ops[2], txs[1], txs[2], replies[1], splits[1], Ok(false));
    lemma_next_id_is_one_more(ops[2], ops[3], txs[2], txs[3], replies[2], splits[2], Ok(true));
}

/// Once a step of an insertion has failed, the transaction can't be committed.
pub proof fn lemma_failed_insert_blocks_commit(
    op: InsertRecording<'_>,
    after: InsertRecording<'_>,
    tx: Transaction<'_>,
    tx_after: Transaction<'_>,
    reply: Reply,
    split: Option<DaySplit>,
    r: Result<bool, Error>,
)
    requires
        tx.must_rollback,
        op.advanced(after, tx, tx_after, reply, split, r),
    ensures
        tx_after.must_rollback <==> !(r matches Ok(true)),
{
}

} // verus!
