//! Changes to the streams of a camera.
use crate::days::{DayMap, StreamDayValue};
use crate::error::Error;
use crate::ids::StreamType;
use crate::model::{streams_view, Stream, StreamView};
use crate::recording::Duration;
use crate::statement::{CameraChange, Reply, Statement, StreamChange};
use std::collections::BTreeMap;
use vstd::prelude::*;

verus! {

broadcast use {
    vstd::std_specs::btree::group_btree_axioms,
    vstd::laws_cmp::group_laws_cmp,
};

/// What is to be done with one of a camera's streams.
#[derive(Copy, Clone, Debug)]
pub enum StreamPlan {
    /// There is no stream, and none is wanted.
    Nothing,
    /// The stream is not wanted any more.
    Delete { stream_id: i32 },
    /// The stream stays.
    Update { stream_id: i32 },
    /// There is no stream, but one is wanted.
    Insert,
}

impl StreamChange {
    /// Whether nothing is said about the stream, so that none is wanted.
    pub open spec fn blank(self) -> bool {
        self.rtsp_path@.len() == 0 && self.sample_file_dir_id is None && !self.record
    }

    fn is_blank(&self) -> (r: bool)
        ensures
            r == self.blank(),
    {
        proof {
            reveal_strlit("");
        }
        let empty = self.rtsp_path == "".to_owned();
        assert(empty <==> self.rtsp_path@ =~= ""@);
        empty && self.sample_file_dir_id.is_none() && !self.record
    }
}

impl Default for StreamChange {
    fn default() -> (r: Self)
        ensures
            r.blank(),
    {
        proof {
            reveal_strlit("");
        }
        StreamChange { sample_file_dir_id: None, rtsp_path: "".to_owned(), record: false }
    }
}

/// What is to be done with the stream `existing`, given the change that is wanted. A stream with
/// recordings can't be moved out of its directory, nor be deleted.
pub open spec fn stream_plan(
    streams: Map<i32, StreamView>,
    existing: Option<i32>,
    change: StreamChange,
) -> Result<StreamPlan, Error> {
    match existing {
        Some(stream_id) => {
            let s = streams[stream_id];
            if s.range is Some && s.sample_file_dir_id is Some && s.sample_file_dir_id
                != change.sample_file_dir_id {
                Err(
                    Error::DirChange {
                        from: s.sample_file_dir_id->0,
                        to: change.sample_file_dir_id,
                        stream_id,
                    },
                )
            } else if s.range is None && change.blank() {
                Ok(StreamPlan::Delete { stream_id })
            } else {
                Ok(StreamPlan::Update { stream_id })
            }
        },
        None => if change.blank() {
            Ok(StreamPlan::Nothing)
        } else {
            Ok(StreamPlan::Insert)
        },
    }
}

/// Decides what is to be done with the stream `existing`.
pub fn plan_stream(
    streams_by_id: &BTreeMap<i32, Stream>,
    existing: Option<i32>,
    change: &StreamChange,
) -> (r: Result<StreamPlan, Error>)
    requires
        existing matches Some(sid) ==> streams_by_id@.contains_key(sid),
    ensures
        r == stream_plan(streams_view(streams_by_id@), existing, *change),
{
    let stream_id: i32 = match existing {
        None => {
            return if change.is_blank() {
                Ok(StreamPlan::Nothing)
            } else {
                Ok(StreamPlan::Insert)
            };
        },
        Some(stream_id) => stream_id,
    };
    let s = match streams_by_id.get(&stream_id) {
        Some(s) => s,
        None => vstd::pervasive::unreached(),
    };
    assert(s@ == streams_view(streams_by_id@)[stream_id]);
    let have_data = s.range.is_some();
    if have_data {
        if let Some(from) = s.sample_file_dir_id {
            let same = match change.sample_file_dir_id {
                Some(to) => from == to,
                None => false,
            };
            if !same {
                return Err(
                    Error::DirChange { from, to: change.sample_file_dir_id, stream_id },
                );
            }
        }
    }
    if !have_data && change.is_blank() {
        Ok(StreamPlan::Delete { stream_id })
    } else {
        Ok(StreamPlan::Update { stream_id })
    }
}

/// A stream that has just been inserted: it has no recordings.
pub open spec fn new_stream(
    id: i32,
    camera_id: i32,
    type_: StreamType,
    change: StreamChange,
) -> StreamView {
    StreamView {
        id,
        camera_id,
        sample_file_dir_id: change.sample_file_dir_id,
        type_,
        rtsp_path: change.rtsp_path@,
        retain_bytes: 0,
        range: None,
        sample_file_bytes: 0,
        duration: Duration(0),
        days: Map::<Seq<u8>, StreamDayValue>::empty(),
        record: change.record,
        next_recording_id: 1,
    }
}

/// What a stream is from a statement on: its id, and what is known of it unless it is gone.
pub type StreamOutcome = (i32, Option<StreamView>);

/// What follows on `reply` to the statement of `plan`.
pub open spec fn plan_outcome(
    streams: Map<i32, StreamView>,
    camera_id: i32,
    type_: StreamType,
    change: StreamChange,
    plan: StreamPlan,
    reply: Reply,
) -> Result<StreamOutcome, Error> {
    match reply {
        Err(e) => Err(Error::Sql(e)),
        Ok(done) => match plan {
            StreamPlan::Delete { stream_id } => if done.changes != 1 {
                Err(Error::MissingStream(stream_id))
            } else {
                Ok((stream_id, None))
            },
            StreamPlan::Update { stream_id } => if done.changes != 1 {
                Err(Error::MissingStream(stream_id))
            } else {
                Ok(
                    (
                        stream_id,
                        Some(
                            StreamView {
                                sample_file_dir_id: change.sample_file_dir_id,
                                rtsp_path: change.rtsp_path@,
                                record: change.record,
                                ..streams[stream_id]
                            },
                        ),
                    ),
                )
            },
            _ => {
                let id = done.last_insert_rowid as i32;
                Ok((id, Some(new_stream(id, camera_id, type_, change))))
            },
        },
    }
}

/// The stream type whose place among a camera's streams is `i`.
pub open spec fn type_at(i: int) -> StreamType {
    if i == 0 {
        StreamType::MAIN
    } else {
        StreamType::SUB
    }
}

/// Inserts, updates, or removes streams in the in-memory state to match a set of `StreamChange`
/// structs.
pub struct StreamStateChanger {
    pub camera_id: i32,
    /// The streams that the camera has so far.
    pub existing: [Option<i32>; 2],
    /// The streams that the camera will have, as far as they are settled.
    pub sids: [Option<i32>; 2],
    /// The changes to be applied on successful commit.
    pub streams: Vec<(i32, Option<Stream>)>,
    /// Which of the camera's streams has the next statement, or 2 if none has.
    pub next: usize,
}

/// What is known of the streams in `v`.
pub open spec fn outcomes_view(v: Seq<(i32, Option<Stream>)>) -> Seq<StreamOutcome> {
    v.map_values(
        |x: (i32, Option<Stream>)|
            (
                x.0,
                match x.1 {
                    Some(s) => Some(s@),
                    None => None,
                },
            ),
    )
}

/// The first of the camera's streams from `from` on that something is to be done with, or 2 if
/// there is none.
pub open spec fn seek_plan(
    streams: Map<i32, StreamView>,
    existing: Seq<Option<i32>>,
    changes: Seq<StreamChange>,
    from: int,
) -> Result<int, Error>
    decreases 2 - from,
{
    if from >= 2 {
        Ok(2)
    } else {
        match stream_plan(streams, existing[from], changes[from]) {
            Err(e) => Err(e),
            Ok(StreamPlan::Nothing) => seek_plan(streams, existing, changes, from + 1),
            Ok(_) => Ok(from),
        }
    }
}

/// Whether all of the streams in `existing` are known.
pub open spec fn streams_known(
    streams: Map<i32, StreamView>,
    existing: Seq<Option<i32>>,
) -> bool {
    forall|i: int|
        0 <= i < existing.len() && (#[trigger] existing[i]) is Some ==> streams.contains_key(
            existing[i]->0,
        )
}

fn seek(
    streams_by_id: &BTreeMap<i32, Stream>,
    existing: &[Option<i32>; 2],
    changes: &[StreamChange; 2],
    from: usize,
) -> (r: Result<usize, Error>)
    requires
        from <= 2,
        streams_known(streams_view(streams_by_id@), existing@),
    ensures
        match seek_plan(streams_view(streams_by_id@), existing@, changes@, from as int) {
            Ok(n) => r == Ok::<usize, Error>(n as usize) && from <= n <= 2,
            Err(e) => r == Err::<usize, Error>(e),
        },
    decreases 2 - from,
{
    if from == 2 {
        return Ok(2);
    }
    assert(existing@[from as int] is Some ==> streams_view(streams_by_id@).contains_key(
        existing@[from as int]->0,
    ));
    match plan_stream(streams_by_id, existing[from], &changes[from]) {
        Err(e) => Err(e),
        Ok(StreamPlan::Nothing) => seek(streams_by_id, existing, changes, from + 1),
        Ok(_) => Ok(from),
    }
}

impl StreamStateChanger {
    /// What is to be done with the stream that has the next statement.
    pub open spec fn plan(self, streams: Map<i32, StreamView>, change: CameraChange) -> Result<
        StreamPlan,
        Error,
    > {
        stream_plan(
            streams,
            self.existing@[self.next as int],
            change.streams@[self.next as int],
        )
    }

    /// Whether the existing streams are known, and something is to be done with the one that has
    /// the next statement.
    pub open spec fn valid(self, streams: Map<i32, StreamView>, change: CameraChange) -> bool {
        &&& self.next <= 2
        &&& streams_known(streams, self.existing@)
        &&& self.next < 2 ==> self.plan(streams, change) is Ok && !(self.plan(streams, change)->Ok_0
            is Nothing)
    }

    /// Starts to change a camera's streams, from the first one that something is to be done with.
    pub fn new(
        camera_id: i32,
        existing: [Option<i32>; 2],
        streams_by_id: &BTreeMap<i32, Stream>,
        change: &CameraChange,
    ) -> (r: Result<Self, Error>)
        requires
            streams_known(streams_view(streams_by_id@), existing@),
        ensures
            match seek_plan(streams_view(streams_by_id@), existing@, change.streams@, 0) {
                Err(e) => r == Err::<Self, Error>(e),
                Ok(n) => r matches Ok(c) && {
                    &&& c.camera_id == camera_id
                    &&& c.existing == existing
                    &&& c.sids@ == seq![None::<i32>, None::<i32>]
                    &&& outcomes_view(c.streams@) == Seq::<StreamOutcome>::empty()
                    &&& c.next == n
                    &&& c.valid(streams_view(streams_by_id@), *change)
                },
            },
    {
        proof {
            lemma_seek(streams_view(streams_by_id@), existing@, change.streams@, 0);
        }
        match seek(streams_by_id, &existing, &change.streams, 0) {
            Err(e) => Err(e),
            Ok(next) => {
                let c = StreamStateChanger {
                    camera_id,
                    existing,
                    sids: [None, None],
                    streams: Vec::new(),
                    next,
                };
                assert(c.sids@ =~= seq![None::<i32>, None::<i32>]);
                assert(outcomes_view(c.streams@) =~= Seq::<StreamOutcome>::empty());
                Ok(c)
            },
        }
    }

    /// The statement to run next, if there is one.
    pub fn statement<'c>(
        &self,
        streams_by_id: &BTreeMap<i32, Stream>,
        change: &'c CameraChange,
    ) -> (r: Option<Statement<'c>>)
        requires
            self.valid(streams_view(streams_by_id@), *change),
        ensures
            r is Some <==> self.next < 2,
            r matches Some(s) ==> s == match self.plan(
                streams_view(streams_by_id@),
                *change,
            )->Ok_0 {
                StreamPlan::Delete { stream_id } => Statement::DeleteStream { stream_id },
                StreamPlan::Update { stream_id } => Statement::UpdateStream {
                    stream_id,
                    change: &change.streams@[self.next as int],
                },
                _ => Statement::InsertStream {
                    camera_id: self.camera_id,
                    type_: type_at(self.next as int),
                    change: &change.streams@[self.next as int],
                },
            },
    {
        if self.next == 2 {
            return None;
        }
        let i: usize = self.next;
        assert(self.existing@[i as int] is Some ==> streams_view(streams_by_id@).contains_key(
            self.existing@[i as int]->0,
        ));
        let sc = &change.streams[i];
        match plan_stream(streams_by_id, self.existing[i], sc) {
            Ok(StreamPlan::Delete { stream_id }) => Some(Statement::DeleteStream { stream_id }),
            Ok(StreamPlan::Update { stream_id }) => Some(
                Statement::UpdateStream { stream_id, change: sc },
            ),
            _ => Some(
                Statement::InsertStream {
                    camera_id: self.camera_id,
                    type_: if i == 0 {
                        StreamType::MAIN
                    } else {
                        StreamType::SUB
                    },
                    change: sc,
                },
            ),
        }
    }

    /// What the reply to the statement makes of the change.
    pub open spec fn advanced(
        self,
        after: Self,
        streams: Map<i32, StreamView>,
        change: CameraChange,
        reply: Reply,
        r: Result<(), Error>,
    ) -> bool {
        let i = self.next as int;
        let outcome = plan_outcome(
            streams,
            self.camera_id,
            type_at(i),
            change.streams@[i],
            self.plan(streams, change)->Ok_0,
            reply,
        );
        match outcome {
            Err(e) => r == Err::<(), Error>(e),
            Ok((sid, s)) => {
                &&& after.camera_id == self.camera_id
                &&& after.existing == self.existing
                &&& outcomes_view(after.streams@) == outcomes_view(self.streams@).push((sid, s))
                &&& after.sids@ == self.sids@.update(
                    i,
                    if s is Some {
                        Some(sid)
                    } else {
                        self.sids@[i]
                    },
                )
                &&& match seek_plan(streams, self.existing@, change.streams@, i + 1) {
                    Err(e) => r == Err::<(), Error>(e),
                    Ok(n) => r == Ok::<(), Error>(()) && after.next == n && after.valid(
                        streams,
                        change,
                    ),
                }
            },
        }
    }

    /// Takes the reply to the statement.
    pub fn advance(
        &mut self,
        streams_by_id: &BTreeMap<i32, Stream>,
        change: &CameraChange,
        reply: Reply,
    ) -> (r: Result<(), Error>)
        requires
            old(self).valid(streams_view(streams_by_id@), *change),
            old(self).next < 2,
        ensures
            old(self).advanced(*final(self), streams_view(streams_by_id@), *change, reply, r),
    {
        let ghost streams = streams_view(streams_by_id@);
        let i: usize = self.next;
        assert(self.existing@[i as int] is Some ==> streams.contains_key(
            self.existing@[i as int]->0,
        ));
        let sc = &change.streams[i];
        let plan = match plan_stream(streams_by_id, self.existing[i], sc) {
            Ok(plan) => plan,
            Err(e) => vstd::pervasive::unreached(),
        };
        let done = match reply {
            Err(e) => return Err(Error::Sql(e)),
            Ok(done) => done,
        };
        let ghost before = self.streams@;
        match plan {
            StreamPlan::Delete { stream_id } => {
                if done.changes != 1 {
                    return Err(Error::MissingStream(stream_id));
                }
                self.streams.push((stream_id, None));
                assert(outcomes_view(self.streams@) =~= outcomes_view(before).push(
                    (stream_id, None),
                ));
                assert(self.sids@ =~= self.sids@.update(i as int, self.sids@[i as int]));
            },
            StreamPlan::Update { stream_id } => {
                if done.changes != 1 {
                    return Err(Error::MissingStream(stream_id));
                }
                self.sids[i] = Some(stream_id);
                let s = match streams_by_id.get(&stream_id) {
                    Some(s) => s.clone(),
                    None => vstd::pervasive::unreached(),
                };
                let s = Stream {
                    sample_file_dir_id: sc.sample_file_dir_id,
                    rtsp_path: sc.rtsp_path.clone(),
                    record: sc.record,
                    ..s
                };
                let ghost view = s@;
                assert(view == StreamView {
                    sample_file_dir_id: sc.sample_file_dir_id,
                    rtsp_path: sc.rtsp_path@,
                    record: sc.record,
                    ..streams[stream_id]
                });
                self.streams.push((stream_id, Some(s)));
                assert(outcomes_view(self.streams@) =~= outcomes_view(before).push(
                    (stream_id, Some(view)),
                ));
            },
            _ => {
                #[verifier::truncate]
                let id: i32 = done.last_insert_rowid as i32;
                self.sids[i] = Some(id);
                let s = Stream {
                    id,
                    type_: if i == 0 {
                        StreamType::MAIN
                    } else {
                        StreamType::SUB
                    },
                    camera_id: self.camera_id,
                    sample_file_dir_id: sc.sample_file_dir_id,
                    rtsp_path: sc.rtsp_path.clone(),
                    retain_bytes: 0,
                    range: None,
                    sample_file_bytes: 0,
                    duration: Duration(0),
                    days: DayMap::new(),
                    record: sc.record,
                    next_recording_id: 1,
                };
                let ghost view = s@;
                assert(view == new_stream(id, self.camera_id, type_at(i as int), *sc));
                self.streams.push((id, Some(s)));
                assert(outcomes_view(self.streams@) =~= outcomes_view(before).push(
                    (id, Some(view)),
                ));
            },
        }
        proof {
            lemma_seek(streams, self.existing@, change.streams@, i + 1);
        }
        match seek(streams_by_id, &self.existing, &change.streams, i + 1) {
            Err(e) => Err(e),
            Ok(next) => {
                self.next = next;
                Ok(())
            },
        }
    }

    /// Applies the change to the given `streams_by_id`. The caller is expected to set
    /// `Camera::streams` to the return value.
    pub fn apply(self, streams_by_id: &mut BTreeMap<i32, Stream>) -> (r: [Option<i32>; 2])
        ensures
            r == self.sids,
            streams_view(final(streams_by_id)@) == outcomes_applied(
                streams_view(old(streams_by_id)@),
                outcomes_view(self.streams@),
            ),
    {
        let ghost all = self.streams@;
        let ghost before = streams_view(streams_by_id@);
        let sids = self.sids;
        let mut streams = self.streams;
        let ghost mut n: int = 0;
        assert(all.skip(0) =~= all);
        assert(outcomes_view(all).take(0) =~= Seq::<StreamOutcome>::empty());
        while streams.len() > 0
            invariant
                0 <= n <= all.len(),
                streams@ == all.skip(n),
                streams_view(streams_by_id@) == outcomes_applied(
                    before,
                    outcomes_view(all).take(n),
                ),
            decreases streams@.len(),
        {
            let ghost now = streams_view(streams_by_id@);
            let (id, stream) = streams.remove(0);
            proof {
                assert(outcomes_view(all).take(n + 1).drop_last() =~= outcomes_view(all).take(n));
                assert(outcomes_view(all).take(n + 1).last() == outcomes_view(all)[n]);
                assert(streams@ =~= all.skip(n + 1));
            }
            match stream {
                Some(new) => {
                    let ghost view = new@;
                    streams_by_id.insert(id, new);
                    assert(streams_view(streams_by_id@) =~= now.insert(id, view));
                },
                None => {
                    streams_by_id.remove(&id);
                    assert(streams_view(streams_by_id@) =~= now.remove(id));
                },
            }
            proof {
                n = n + 1;
            }
        }
        assert(outcomes_view(all).take(n) =~= outcomes_view(all));
        sids
    }
}

/// `streams` after `outcomes` came to pass in turn.
pub open spec fn outcomes_applied(
    streams: Map<i32, StreamView>,
    outcomes: Seq<StreamOutcome>,
) -> Map<i32, StreamView>
    decreases outcomes.len(),
{
    if outcomes.len() == 0 {
        streams
    } else {
        let earlier = outcomes_applied(streams, outcomes.drop_last());
        match outcomes.last().1 {
            Some(s) => earlier.insert(outcomes.last().0, s),
            None => earlier.remove(outcomes.last().0),
        }
    }
}

/// The stream that the search from `from` stops at has something to be done, and none of those
/// that it passes over exists.
pub proof fn lemma_seek(
    streams: Map<i32, StreamView>,
    existing: Seq<Option<i32>>,
    changes: Seq<StreamChange>,
    from: int,
)
    requires
        0 <= from <= 2,
    ensures
        seek_plan(streams, existing, changes, from) matches Ok(n) ==> {
            &&& from <= n <= 2
            &&& n < 2 ==> {
                let plan = stream_plan(streams, existing[n], changes[n]);
                plan is Ok && !(plan->Ok_0 is Nothing)
            }
            &&& forall|j: int| from <= j < n ==> (#[trigger] existing[j]) is None
        },
    decreases 2 - from,
{
    if from < 2 {
        lemma_seek(streams, existing, changes, from + 1);
    }
}

/// A change that says nothing about a stream corresponds to no stream, provided there are no
/// existing recordings for that stream.
pub proof fn lemma_blank_change_means_no_stream(
    streams: Map<i32, StreamView>,
    existing: Option<i32>,
    change: StreamChange,
)
    requires
        change.blank(),
        existing matches Some(sid) ==> streams[sid].range is None,
    ensures
        stream_plan(streams, existing, change) == match existing {
            Some(stream_id) => Ok::<StreamPlan, Error>(StreamPlan::Delete { stream_id }),
            None => Ok(StreamPlan::Nothing),
        },
{
}

/// A stream with recordings is never deleted, and stays in the directory that it is in.
pub proof fn lemma_recordings_protect_stream(
    streams: Map<i32, StreamView>,
    stream_id: i32,
    change: StreamChange,
)
    requires
        streams[stream_id].range is Some,
    ensures
        stream_plan(streams, Some(stream_id), change) matches Ok(plan) ==> plan == (
        StreamPlan::Update { stream_id }) && (streams[stream_id].sample_file_dir_id is Some
            ==> change.sample_file_dir_id == streams[stream_id].sample_file_dir_id),
{
}

/// What is done with each of a camera's streams follows from whether there is such a stream,
/// whether it has recordings, and whether anything is wanted of it:
///
/// * a stream that is not there is inserted exactly if something is wanted of it;
/// * a stream without recordings is deleted if nothing is wanted of it, and updated otherwise, be
///   it to another directory;
/// * a stream with recordings is updated, unless that would take it out of the directory that it is
///   in, which is an error.
pub proof fn lemma_stream_plans(
    streams: Map<i32, StreamView>,
    existing: Option<i32>,
    change: StreamChange,
)
    ensures
        ({
            let wanted = change.rtsp_path@.len() > 0 || change.sample_file_dir_id is Some
                || change.record;
            let plan = stream_plan(streams, existing, change);
            match existing {
                None => plan is Ok && (plan->Ok_0 is Insert <==> wanted) && (plan->Ok_0 is Nothing
                    <==> !wanted),
                Some(sid) => {
                    let s = streams[sid];
                    let moves = s.sample_file_dir_id is Some && change.sample_file_dir_id
                        != s.sample_file_dir_id;
                    if s.range is None {
                        plan == Ok::<StreamPlan, Error>(
                            if wanted {
                                StreamPlan::Update { stream_id: sid }
                            } else {
                                StreamPlan::Delete { stream_id: sid }
                            },
                        )
                    } else if moves {
                        plan == Err::<StreamPlan, Error>(
                            Error::DirChange {
                                from: s.sample_file_dir_id->0,
                                to: change.sample_file_dir_id,
                                stream_id: sid,
                            },
                        )
                    } else {
                        plan == Ok::<StreamPlan, Error>(StreamPlan::Update { stream_id: sid })
                    }
                },
            }
        }),
{
}

/// The search for a stream that something is to be done with passes over those that nothing is to
/// be done with, and no others. An error is that of the first stream after them.
pub proof fn lemma_seek_passes_over_nothing_else(
    streams: Map<i32, StreamView>,
    existing: Seq<Option<i32>>,
    changes: Seq<StreamChange>,
    from: int,
)
    requires
        0 <= from <= 2,
    ensures
        ({
            let found = seek_plan(streams, existing, changes, from);
            &&& found matches Ok(n) ==> from <= n <= 2 && forall|j: int|
                from <= j < n ==> {
                    let plan = stream_plan(streams, #[trigger] existing[j], changes[j]);
                    plan is Ok && plan->Ok_0 is Nothing
                }
            &&& found matches Err(e) ==> exists|k: int|
                from <= k < 2 && stream_plan(streams, #[trigger] existing[k], changes[k]) == Err::<
                    StreamPlan,
                    Error,
                >(e)
        }),
    decreases 2 - from,
{
    if from < 2 {
        lemma_seek_passes_over_nothing_else(streams, existing, changes, from + 1);
        let found = seek_plan(streams, existing, changes, from);
        if found is Err {
            let plan = stream_plan(streams, existing[from], changes[from]);
            if plan is Ok {
                let k = choose|k: int|
                    from + 1 <= k < 2 && stream_plan(streams, #[trigger] existing[k], changes[k])
                        == Err::<StreamPlan, Error>(found->Err_0);
                assert(from <= k < 2);
            }
        }
    }
}

/// A statement about a stream that succeeds has changed one row. Then the stream is gone if it was
/// deleted; it is as it was, but for the directory, the path and whether to record, if it was
/// updated; and it is a stream of the camera that has no recordings, if it was inserted.
pub proof fn lemma_stream_outcomes(
    streams: Map<i32, StreamView>,
    camera_id: i32,
    type_: StreamType,
    change: StreamChange,
    plan: StreamPlan,
    reply: Reply,
)
    requires
        !(plan is Nothing),
    ensures
        ({
            let outcome = plan_outcome(streams, camera_id, type_, change, plan, reply);
            &&& outcome is Ok <==> reply is Ok && (plan is Insert || reply->Ok_0.changes == 1)
            &&& outcome is Ok ==> match plan {
                StreamPlan::Delete { stream_id } => outcome->Ok_0.0 == stream_id
                    && outcome->Ok_0.1 is None,
                StreamPlan::Update { stream_id } => outcome->Ok_0.0 == stream_id
                    && outcome->Ok_0.1 is Some && {
                    let s = outcome->Ok_0.1->0;
                    let old_s = streams[stream_id];
                    &&& s.sample_file_dir_id == change.sample_file_dir_id
                    &&& s.rtsp_path == change.rtsp_path@
                    &&& s.record == change.record
                    &&& s.id == old_s.id && s.camera_id == old_s.camera_id && s.type_ == old_s.type_
                    &&& s.retain_bytes == old_s.retain_bytes
                    &&& s.range == old_s.range
                    &&& s.sample_file_bytes == old_s.sample_file_bytes
                    &&& s.duration == old_s.duration
                    &&& s.days == old_s.days
                    &&& s.next_recording_id == old_s.next_recording_id
                },
                _ => outcome->Ok_0.1 is Some && {
                    let s = outcome->Ok_0.1->0;
                    &&& outcome->Ok_0.0 == reply->Ok_0.last_insert_rowid as i32
                    &&& s.id == outcome->Ok_0.0 && s.camera_id == camera_id && s.type_ == type_
                    &&& s.sample_file_dir_id == change.sample_file_dir_id
                    &&& s.rtsp_path == change.rtsp_path@
                    &&& s.record == change.record
                    &&& s.retain_bytes == 0 && s.next_recording_id == 1
                    &&& s.range is None
                    &&& s.sample_file_bytes == 0 && s.duration.0 == 0
                    &&& forall|day: Seq<u8>| !#[trigger] s.days.contains_key(day)
                },
            }
        }),
{
}

} // verus!
