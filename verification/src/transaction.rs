//! Transactions: batches of changes that show in the in-memory state once they are committed.
use crate::collections::{fnv_insert, fnv_new, fnv_remove};
use crate::days::{DayMap, StreamDayValue};
use crate::error::Error;
use crate::ids::CompositeId;
use crate::model::{LockedDatabase, State, StreamView};
use crate::recording::{Duration, Time};
use crate::statement::{Reply, Statement};
use fnv::FnvHashMap;
use std::ops::Range;
use vstd::prelude::*;

verus! {

/// A modification to be done to a `Stream` after a `Transaction` is committed.
pub struct StreamModification {
    /// Add this to `stream.duration`. Thus, positive values indicate a net addition; negative
    /// values indicate a net subtraction.
    pub duration: Duration,
    /// Add this to `stream.sample_file_bytes`.
    pub sample_file_bytes: i64,
    /// Add this to `stream.days`.
    pub days: DayMap,
    /// Reset the stream range to this value. This is populated immediately prior to the commit.
    pub range: Option<Range<Time>>,
    /// Reset the next_recording_id to the specified value.
    pub new_next_recording_id: Option<i32>,
    /// Reset the retain_bytes to the specified value.
    pub new_retain_bytes: Option<i64>,
    /// Reset the record to the specified value.
    pub new_record: Option<bool>,
}

/// What a modification does.
#[verifier::ext_equal]
pub struct ModView {
    pub duration: Duration,
    pub sample_file_bytes: i64,
    pub days: Map<Seq<u8>, StreamDayValue>,
    pub range: Option<Range<Time>>,
    pub new_next_recording_id: Option<i32>,
    pub new_retain_bytes: Option<i64>,
    pub new_record: Option<bool>,
}

impl View for StreamModification {
    type V = ModView;

    open spec fn view(&self) -> ModView {
        ModView {
            duration: self.duration,
            sample_file_bytes: self.sample_file_bytes,
            days: self.days@,
            range: self.range,
            new_next_recording_id: self.new_next_recording_id,
            new_retain_bytes: self.new_retain_bytes,
            new_record: self.new_record,
        }
    }
}

/// The modification that adds nothing and resets nothing but the range.
pub open spec fn identity_mod() -> ModView {
    ModView {
        duration: Duration(0),
        sample_file_bytes: 0,
        days: Map::empty(),
        range: None,
        new_next_recording_id: None,
        new_retain_bytes: None,
        new_record: None,
    }
}

impl Default for StreamModification {
    fn default() -> (r: Self)
        ensures
            r@ == identity_mod(),
    {
        StreamModification {
            duration: Duration(0),
            sample_file_bytes: 0,
            days: DayMap::new(),
            range: None,
            new_next_recording_id: None,
            new_retain_bytes: None,
            new_record: None,
        }
    }
}

/// What each of the modifications `m` does.
pub open spec fn mods_view(m: Map<i32, StreamModification>) -> Map<i32, ModView> {
    m.map_values(|x: StreamModification| x@)
}

/// The modification of a stream, which is the identity if there is none yet.
pub open spec fn mod_of(mods: Map<i32, ModView>, stream_id: i32) -> ModView {
    if mods.contains_key(stream_id) {
        mods[stream_id]
    } else {
        identity_mod()
    }
}

/// A high-level transaction: the modification to be applied to the in-memory state once the
/// database has committed the statements.
pub struct Transaction<'a> {
    pub state: &'a mut State,
    pub mods_by_stream: FnvHashMap<i32, StreamModification>,
    /// True if due to an earlier error the transaction must be rolled back rather than committed.
    /// Insert and delete are multi-part. If later parts fail, earlier parts should be aborted as
    /// well. We could use savepoints (nested transactions) for this, but for simplicity we just
    /// require the entire transaction be rolled back.
    pub must_rollback: bool,
    /// The recordings that were deleted.
    pub deleted: Vec<CompositeId>,
}

impl LockedDatabase {
    /// Starts a transaction for a write operation. Transactions are not needed for read
    /// operations.
    ///
    /// A transaction that is dropped before its commit leaves the database as it was.
    pub fn tx(&mut self) -> (t: Transaction<'_>)
        ensures
            t.mods() == Map::<i32, ModView>::empty(),
            !t.must_rollback,
            t.deleted@ == Seq::<CompositeId>::empty(),
            *t.state == old(self).state,
            *final(t.state) == final(self).state,
    {
        let mods_by_stream = fnv_new();
        assert(mods_view(mods_by_stream@) =~= Map::<i32, ModView>::empty());
        Transaction {
            state: &mut self.state,
            mods_by_stream,
            must_rollback: false,
            deleted: Vec::new(),
        }
    }
}

impl<'a> Transaction<'a> {
    /// The modifications so far.
    pub open spec fn mods(self) -> Map<i32, ModView> {
        mods_view(self.mods_by_stream@)
    }

    /// The streams as they were when the transaction started.
    pub open spec fn streams(self) -> Map<i32, StreamView> {
        (*self.state)@.streams
    }

    /// Raises an error if `must_rollback` is true. To be used on commit and in modifications.
    pub fn check_must_rollback(&self) -> (r: Result<(), Error>)
        ensures
            r == if self.must_rollback {
                Err::<(), Error>(Error::MustRollback)
            } else {
                Ok(())
            },
    {
        if self.must_rollback {
            return Err(Error::MustRollback);
        }
        Ok(())
    }

    /// Takes the existing entry in `mods` for a given stream, or makes an identity entry.
    pub(crate) fn get_mods_by_stream(
        mods: &mut FnvHashMap<i32, StreamModification>,
        stream_id: i32,
    ) -> (r: StreamModification)
        ensures
            r@ == mod_of(mods_view(old(mods)@), stream_id),
            mods_view(final(mods)@) == mods_view(old(mods)@).remove(stream_id),
    {
        let r = match fnv_remove(mods, stream_id) {
            Some(m) => m,
            None => StreamModification::default(),
        };
        assert(mods_view(mods@) =~= mods_view(old(mods)@).remove(stream_id));
        r
    }

    /// Puts back the entry for a given stream.
    pub(crate) fn set_mods_by_stream(
        mods: &mut FnvHashMap<i32, StreamModification>,
        stream_id: i32,
        m: StreamModification,
    )
        ensures
            mods_view(final(mods)@) == mods_view(old(mods)@).insert(stream_id, m@),
    {
        let ghost view = m@;
        fnv_insert(mods, stream_id, m);
        assert(mods_view(mods@) =~= mods_view(old(mods)@).insert(stream_id, view));
    }
}

/// Garbage rows being deleted, and which one is next.
pub struct MarkSampleFilesDeleted<'r> {
    pub ids: &'r [CompositeId],
    pub next: usize,
}

impl<'a> Transaction<'a> {
    /// Marks the given sample files as deleted. This shouldn't be called until the files have
    /// been `unlink()`ed and the parent directory `fsync()`ed.
    ///
    /// This starts the deletion of the `garbage` rows; nothing is returned if there are none.
    pub fn mark_sample_files_deleted<'r>(&mut self, ids: &'r [CompositeId]) -> (r: Option<
        MarkSampleFilesDeleted<'r>,
    >)
        ensures
            *final(self).state == *old(self).state,
            *final(final(self).state) == *final(old(self).state),
            final(self).mods() == old(self).mods(),
            final(self).must_rollback == old(self).must_rollback,
            final(self).deleted@ == old(self).deleted@,
            r is Some <==> ids@.len() > 0,
            r matches Some(op) ==> op.ids == ids && op.next == 0,
    {
        if ids.len() == 0 {
            return None;
        }
        Some(MarkSampleFilesDeleted { ids, next: 0 })
    }

    /// Updates the `record` and `retain_bytes` for the given stream. Note this just resets the
    /// limit in the database; it's the caller's responsibility to ensure current usage is under
    /// the new limit if desired.
    ///
    /// This starts the update.
    pub fn update_retention(&mut self, stream_id: i32, new_record: bool, new_limit: i64) -> (r:
        Result<UpdateRetention, Error>)
        ensures
            *final(self).state == *old(self).state,
            *final(final(self).state) == *final(old(self).state),
            final(self).mods() == old(self).mods(),
            final(self).must_rollback == old(self).must_rollback,
            final(self).deleted@ == old(self).deleted@,
            r == if new_limit < 0 {
                Err::<UpdateRetention, Error>(Error::NegativeLimit { stream_id, limit: new_limit })
            } else if old(self).must_rollback {
                Err(Error::MustRollback)
            } else {
                Ok(UpdateRetention { stream_id, new_record, new_limit })
            },
    {
        if new_limit < 0 {
            return Err(Error::NegativeLimit { stream_id, limit: new_limit });
        }
        match self.check_must_rollback() {
            Err(e) => return Err(e),
            Ok(()) => {},
        }
        Ok(UpdateRetention { stream_id, new_record, new_limit })
    }
}

impl<'r> MarkSampleFilesDeleted<'r> {
    /// The statement to run next.
    pub fn statement(&self) -> (r: Statement<'_>)
        requires
            self.next < self.ids@.len(),
        ensures
            r == (Statement::DeleteGarbage { composite_id: self.ids@[self.next as int] }),
    {
        Statement::DeleteGarbage { composite_id: self.ids[self.next] }
    }

    /// Takes the reply to the statement, and says whether all rows are deleted.
    pub fn advance(&mut self, reply: Reply) -> (r: Result<bool, Error>)
        requires
            old(self).next < old(self).ids@.len(),
        ensures
            final(self).ids == old(self).ids,
            match reply {
                Err(e) => r == Err::<bool, Error>(Error::Sql(e)) && final(self).next == old(
                    self,
                ).next,
                Ok(done) => if done.changes != 1 {
                    r == Err::<bool, Error>(
                        Error::NoGarbageRow(old(self).ids@[old(self).next as int]),
                    ) && final(self).next == old(self).next
                } else {
                    r == Ok::<bool, Error>(final(self).next == old(self).ids@.len())
                        && final(self).next == old(self).next + 1
                },
            },
    {
        match reply {
            Err(e) => Err(Error::Sql(e)),
            Ok(done) => {
                if done.changes != 1 {
                    return Err(Error::NoGarbageRow(self.ids[self.next]));
                }
                let len: usize = self.ids.len();
                self.next = self.next + 1;
                Ok(self.next == len)
            },
        }
    }
}

/// An update of what a stream records and retains.
#[derive(Copy, Clone, Debug)]
pub struct UpdateRetention {
    pub stream_id: i32,
    pub new_record: bool,
    pub new_limit: i64,
}

impl UpdateRetention {
    /// The statement to run.
    pub fn statement(&self) -> (r: Statement<'_>)
        ensures
            r == (Statement::UpdateRetention {
                stream_id: self.stream_id,
                record: self.new_record,
                retain_bytes: self.new_limit,
            }),
    {
        Statement::UpdateRetention {
            stream_id: self.stream_id,
            record: self.new_record,
            retain_bytes: self.new_limit,
        }
    }

    /// Takes the reply to the statement.
    pub fn finish(self, tx: &mut Transaction<'_>, reply: Reply) -> (r: Result<(), Error>)
        ensures
            *final(tx).state == *old(tx).state,
            *final(final(tx).state) == *final(old(tx).state),
            final(tx).must_rollback == old(tx).must_rollback,
            final(tx).deleted@ == old(tx).deleted@,
            match reply {
                Err(e) => r == Err::<(), Error>(Error::Sql(e)),
                Ok(done) => r == if done.changes != 1 {
                    Err::<(), Error>(Error::NoSuchStream(self.stream_id))
                } else {
                    Ok(())
                },
            },
            final(tx).mods() == if r is Ok {
                old(tx).mods().insert(
                    self.stream_id,
                    (ModView {
                        new_record: Some(self.new_record),
                        new_retain_bytes: Some(self.new_limit),
                        ..mod_of(old(tx).mods(), self.stream_id)
                    }),
                )
            } else {
                old(tx).mods()
            },
    {
        match reply {
            Err(e) => Err(Error::Sql(e)),
            Ok(done) => {
                if done.changes != 1 {
                    return Err(Error::NoSuchStream(self.stream_id));
                }
                let mut m = Transaction::get_mods_by_stream(
                    &mut tx.mods_by_stream,
                    self.stream_id,
                );
                m.new_record = Some(self.new_record);
                m.new_retain_bytes = Some(self.new_limit);
                Transaction::set_mods_by_stream(&mut tx.mods_by_stream, self.stream_id, m);
                assert(tx.mods() =~= old(tx).mods().insert(
                    self.stream_id,
                    (ModView {
                        new_record: Some(self.new_record),
                        new_retain_bytes: Some(self.new_limit),
                        ..mod_of(old(tx).mods(), self.stream_id)
                    }),
                ));
                Ok(())
            },
        }
    }
}

} // verus!
