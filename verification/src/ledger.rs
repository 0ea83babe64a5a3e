//! What a transaction does as a whole.
//!
//! A transaction is a sequence of steps: recordings that were inserted, recordings that were
//! deleted, and streams whose retention was updated. The lemmas here say what the modifications
//! come to, and what a commit makes of the streams.
use crate::commit::{
    extents_applied, extents_cover, lemma_extent_of_each, modifications_fit, streams_modified,
    StreamExtent,
};
use crate::days::DaySplit;
use crate::delete::{delete_fits, mod_deleted, mods_deleted};
use crate::ids::stream_part;
use crate::insert::{id_after, insert_fits, insert_stream, mod_inserted, InsertRecording};
use crate::model::StreamView;
use crate::statement::{ListOldestSampleFilesRow, RecordingToInsert, Reply};
use crate::sums::sum_of;
use crate::transaction::{identity_mod, mod_of, ModView, Transaction, UpdateRetention};
use vstd::prelude::*;

verus! {

/// A change that a transaction has made, with the days that the calendar splits a recording into.
pub enum Step {
    Insert { recording: RecordingToInsert, split: Option<DaySplit> },
    Delete { row: ListOldestSampleFilesRow, split: Option<DaySplit> },
    Retain(UpdateRetention),
}

impl Step {
    /// The stream that is changed.
    pub open spec fn stream(self) -> i32 {
        match self {
            Step::Insert { recording, .. } => insert_stream(recording),
            Step::Delete { row, .. } => stream_part(row.id.0 as int) as i32,
            Step::Retain(update) => update.stream_id,
        }
    }

    /// What the step makes of the modification of its stream.
    pub open spec fn applied(self, m: ModView) -> ModView {
        match self {
            Step::Insert { recording, split } => ModView {
                new_next_recording_id: Some(id_after(recording)),
                ..mod_inserted(m, recording, split)
            },
            Step::Delete { row, split } => mod_deleted(m, row, split),
            Step::Retain(update) => ModView {
                new_record: Some(update.new_record),
                new_retain_bytes: Some(update.new_limit),
                ..m
            },
        }
    }

    /// Whether the sums of `applied` can be held.
    pub open spec fn fits(self, m: ModView) -> bool {
        match self {
            Step::Insert { recording, .. } => insert_fits(m, recording),
            Step::Delete { row, .. } => delete_fits(m, row),
            Step::Retain(_) => true,
        }
    }

    /// How long a recording lasts that the step inserts into the stream `sid`.
    pub open spec fn length_inserted(self, sid: i32) -> int {
        match self {
            Step::Insert { recording, .. } if self.stream() == sid => recording.time.end.0
                - recording.time.start.0,
            _ => 0,
        }
    }

    /// How long a recording lasts that the step deletes from the stream `sid`.
    pub open spec fn length_deleted(self, sid: i32) -> int {
        match self {
            Step::Delete { row, .. } if self.stream() == sid => row.time.end.0 - row.time.start.0,
            _ => 0,
        }
    }

    /// How many bytes a recording takes that the step inserts into the stream `sid`.
    pub open spec fn bytes_inserted(self, sid: i32) -> int {
        match self {
            Step::Insert { recording, .. } if self.stream() == sid =>
                recording.sample_file_bytes as int,
            _ => 0,
        }
    }

    /// How many bytes a recording takes that the step deletes from the stream `sid`.
    pub open spec fn bytes_deleted(self, sid: i32) -> int {
        match self {
            Step::Delete { row, .. } if self.stream() == sid => row.sample_file_bytes as int,
            _ => 0,
        }
    }
}

/// `mods` after `steps`, in turn.
pub open spec fn mods_after(mods: Map<i32, ModView>, steps: Seq<Step>) -> Map<i32, ModView>
    decreases steps.len(),
{
    if steps.len() == 0 {
        mods
    } else {
        let earlier = mods_after(mods, steps.drop_last());
        let sid = steps.last().stream();
        earlier.insert(sid, steps.last().applied(mod_of(earlier, sid)))
    }
}

/// The modifications that `steps` come to.
pub open spec fn mods_of(steps: Seq<Step>) -> Map<i32, ModView> {
    mods_after(Map::empty(), steps)
}

/// Whether the sums of all `steps` can be held.
pub open spec fn steps_fit(steps: Seq<Step>) -> bool
    decreases steps.len(),
{
    steps.len() > 0 ==> {
        let earlier = steps.drop_last();
        &&& steps_fit(earlier)
        &&& steps.last().fits(mod_of(mods_of(earlier), steps.last().stream()))
    }
}

/// Whether one of `steps` changes the stream `sid`.
pub open spec fn touches(steps: Seq<Step>, sid: i32) -> bool {
    exists|i: int| 0 <= i < steps.len() && (#[trigger] steps[i]).stream() == sid
}

/// The id after that of the last recording that `steps` insert into the stream `sid`, if any.
pub open spec fn next_after(steps: Seq<Step>, sid: i32) -> Option<i32>
    decreases steps.len(),
{
    if steps.len() == 0 {
        None
    } else {
        match steps.last() {
            Step::Insert { recording, .. } if steps.last().stream() == sid => Some(
                id_after(recording),
            ),
            _ => next_after(steps.drop_last(), sid),
        }
    }
}

/// The last update of the retention of the stream `sid` among `steps`, if any.
pub open spec fn retention_after(steps: Seq<Step>, sid: i32) -> Option<UpdateRetention>
    decreases steps.len(),
{
    if steps.len() == 0 {
        None
    } else {
        match steps.last() {
            Step::Retain(update) if update.stream_id == sid => Some(update),
            _ => retention_after(steps.drop_last(), sid),
        }
    }
}

/// An insertion whose three statements have succeeded is a step.
pub proof fn lemma_insertion_is_step(
    ops: Seq<InsertRecording<'_>>,
    txs: Seq<Transaction<'_>>,
    replies: Seq<Reply>,
    splits: Seq<Option<DaySplit>>,
    mods: Map<i32, ModView>,
)
    requires
        ops.len() == 4,
        txs.len() == 4,
        ops[0].stage is Recording,
        txs[0].mods() == mods.insert(ops[0].stream(), mod_of(mods, ops[0].stream())),
        ops[0].advanced(ops[1], txs[0], txs[1], replies[0], splits[0], Ok(false)),
        ops[1].advanced(ops[2], txs[1], txs[2], replies[1], splits[1], Ok(false)),
        ops[2].advanced(ops[3], txs[2], txs[3], replies[2], splits[2], Ok(true)),
    ensures
        ({
            let step = Step::Insert { recording: *ops[0].recording, split: splits[2] };
            txs[3].mods() == mods.insert(step.stream(), step.applied(mod_of(mods, step.stream())))
        }),
{
    let step = Step::Insert { recording: *ops[0].recording, split: splits[2] };
    assert(txs[3].mods() =~= mods.insert(
        step.stream(),
        step.applied(mod_of(mods, step.stream())),
    ));
}

/// The steps that delete `rows`, if the calendar gives `splits`.
pub open spec fn deletions(
    rows: Seq<ListOldestSampleFilesRow>,
    splits: Seq<Option<DaySplit>>,
) -> Seq<Step> {
    Seq::new(rows.len(), |i: int| Step::Delete { row: rows[i], split: splits[i] })
}

/// A deletion of recordings is a step for each of them.
pub proof fn lemma_deletion_is_steps(
    mods: Map<i32, ModView>,
    rows: Seq<ListOldestSampleFilesRow>,
    splits: Seq<Option<DaySplit>>,
)
    requires
        splits.len() == rows.len(),
    ensures
        mods_deleted(mods, rows, splits) == mods_after(mods, deletions(rows, splits)),
    decreases rows.len(),
{
    if rows.len() > 0 {
        lemma_deletion_is_steps(mods, rows.drop_last(), splits.drop_last());
        assert(deletions(rows, splits).drop_last() =~= deletions(
            rows.drop_last(),
            splits.drop_last(),
        ));
    }
}

/// Steps that follow on others do to the modifications what the others have led to.
pub proof fn lemma_steps_follow(mods: Map<i32, ModView>, earlier: Seq<Step>, later: Seq<Step>)
    ensures
        mods_after(mods_after(mods, earlier), later) == mods_after(mods, earlier + later),
    decreases later.len(),
{
    if later.len() == 0 {
        assert(earlier + later =~= earlier);
    } else {
        lemma_steps_follow(mods, earlier, later.drop_last());
        assert((earlier + later).drop_last() =~= earlier + later.drop_last());
        assert((earlier + later).last() == later.last());
    }
}

/// The modification of a stream comes to everything that was inserted into it, less everything
/// that was deleted from it; the next id is the one after the last recording inserted; and the
/// last update of the retention holds. The range is not filled in yet.
pub proof fn lemma_modification_totals(steps: Seq<Step>, sid: i32)
    requires
        steps_fit(steps),
    ensures
        ({
            let m = mod_of(mods_of(steps), sid);
            &&& m.duration.0 == sum_of(steps, |s: Step| s.length_inserted(sid)) - sum_of(
                steps,
                |s: Step| s.length_deleted(sid),
            )
            &&& m.sample_file_bytes == sum_of(steps, |s: Step| s.bytes_inserted(sid)) - sum_of(
                steps,
                |s: Step| s.bytes_deleted(sid),
            )
            &&& m.new_next_recording_id == next_after(steps, sid)
            &&& m.new_record == match retention_after(steps, sid) {
                Some(update) => Some(update.new_record),
                None => None::<bool>,
            }
            &&& m.new_retain_bytes == match retention_after(steps, sid) {
                Some(update) => Some(update.new_limit),
                None => None::<i64>,
            }
            &&& m.range is None
        }),
        mods_of(steps).contains_key(sid) <==> touches(steps, sid),
        !touches(steps, sid) ==> mod_of(mods_of(steps), sid) == identity_mod(),
    decreases steps.len(),
{
    if steps.len() > 0 {
        let init = steps.drop_last();
        lemma_modification_totals(init, sid);
        let last = steps.last();
        if touches(init, sid) {
            let i = choose|i: int| 0 <= i < init.len() && (#[trigger] init[i]).stream() == sid;
            assert(steps[i].stream() == sid);
        }
        if last.stream() == sid {
            assert(steps[steps.len() - 1].stream() == sid);
        }
        if touches(steps, sid) && last.stream() != sid {
            let i = choose|i: int| 0 <= i < steps.len() && (#[trigger] steps[i]).stream() == sid;
            assert(init[i].stream() == sid);
        }
    }
}

/// Once a transaction is committed, the duration and the bytes of a stream are what they were, plus
/// everything that was inserted, less everything that was deleted. Its next id is the one after
/// the last recording inserted, and the last update of its retention holds. A stream that the
/// transaction has not touched is as it was.
pub proof fn lemma_commit_totals(
    streams: Map<i32, StreamView>,
    steps: Seq<Step>,
    extents: Seq<StreamExtent>,
    sid: i32,
)
    requires
        steps_fit(steps),
        extents_cover(mods_of(steps), extents),
        modifications_fit(streams, extents_applied(mods_of(steps), extents)),
        streams.contains_key(sid),
    ensures
        ({
            let before = streams[sid];
            let after = streams_modified(streams, extents_applied(mods_of(steps), extents))[sid];
            &&& after.duration.0 == before.duration.0 + sum_of(
                steps,
                |s: Step| s.length_inserted(sid),
            ) - sum_of(steps, |s: Step| s.length_deleted(sid))
            &&& after.sample_file_bytes == before.sample_file_bytes + sum_of(
                steps,
                |s: Step| s.bytes_inserted(sid),
            ) - sum_of(steps, |s: Step| s.bytes_deleted(sid))
            &&& after.next_recording_id == match next_after(steps, sid) {
                Some(id) => id,
                None => before.next_recording_id,
            }
            &&& after.record == match retention_after(steps, sid) {
                Some(update) => update.new_record,
                None => before.record,
            }
            &&& after.retain_bytes == match retention_after(steps, sid) {
                Some(update) => update.new_limit,
                None => before.retain_bytes,
            }
            &&& !touches(steps, sid) ==> after == before
        }),
{
    lemma_modification_totals(steps, sid);
    let mods = mods_of(steps);
    if mods.contains_key(sid) {
        let i = choose|i: int| 0 <= i < extents.len() && (#[trigger] extents[i]).stream_id == sid;
        lemma_extent_of_each(mods, extents, i);
        assert(extents_applied(mods, extents).dom().contains(sid));
        assert(extents_applied(mods, extents).contains_key(sid));
    } else {
        lemma_extents_keep_streams(mods, extents);
        assert(!extents_applied(mods, extents).dom().contains(sid));
    }
}

/// Filling in the ranges adds and removes no modifications.
pub proof fn lemma_extents_keep_streams(mods: Map<i32, ModView>, extents: Seq<StreamExtent>)
    requires
        extents_cover(mods, extents),
    ensures
        extents_applied(mods, extents).dom() == mods.dom(),
{
    if extents.len() > 0 {
        lemma_extent_of_each(mods, extents, 0);
    }
}

} // verus!
