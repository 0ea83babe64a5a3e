//! Video sample entries.
use crate::calls::answer;
use crate::error::Error;
use crate::keys::{ascending, ascending_keys};
use crate::model::{EntryView, LockedDatabase, StateView, VideoSampleEntry};
use crate::statement::{Reply, Statement};
use openssl::error::ErrorStack;
use openssl::hash::MessageDigest;
use std::sync::Arc;
use vstd::prelude::*;

verus! {

broadcast use {
    vstd::std_specs::btree::group_btree_axioms,
    vstd::laws_cmp::group_laws_cmp,
};

/// What OpenSSL says of a failure.
#[verifier::external_type_specification]
#[verifier::external_body]
pub struct ExErrorStack(ErrorStack);

/// The SHA-1 digest of `data`.
pub uninterp spec fn sha1_digest(data: Seq<u8>) -> Seq<u8>;

/// Calls `openssl::hash::hash` with the message digest SHA-1. If it succeeds, the result is the
/// digest of the data, which takes twenty bytes.
#[verifier::external_body]
fn sha1(data: &[u8]) -> (r: Result<[u8; 20], ErrorStack>)
    ensures
        r matches Ok(digest) ==> digest@ == sha1_digest(data@),
{
    let digest = openssl::hash::hash(MessageDigest::sha1(), data)?;
    let mut bytes = [0u8; 20];
    bytes.copy_from_slice(&digest);
    Ok(bytes)
}

/// Calls `to_string` of `openssl::error::ErrorStack`: what OpenSSL says of a failure. The words are
/// those of the OpenSSL on the machine, so nothing is claimed of them.
#[verifier::external_body]
fn stack_text(e: &ErrorStack) -> (r: String) {
    e.to_string()
}

/// Whether computing the digest of `data` may fail, with `text` as what OpenSSL says about it.
pub closed spec fn may_fail_to_hash(data: Seq<u8>, text: String) -> bool {
    exists|d: &[u8], e: ErrorStack|
        d@ == data && #[trigger] call_ensures(sha1, (d,), Err::<[u8; 20], ErrorStack>(e))
            && #[trigger] call_ensures(stack_text, (&e,), text)
}

/// The digest of `data`, or what OpenSSL says of a failure to compute it.
fn digest_of(data: &[u8]) -> (r: Result<[u8; 20], String>)
    ensures
        match r {
            Ok(digest) => digest@ == sha1_digest(data@),
            Err(text) => may_fail_to_hash(data@, text),
        },
{
    match answer(sha1, data) {
        Ok(digest) => Ok(digest),
        Err(e) => Err(answer(stack_text, &e)),
    }
}

/// Whether two digests are the same.
fn same_digest(a: &[u8; 20], b: &[u8; 20]) -> (r: bool)
    ensures
        r == (a@ == b@),
{
    let mut i: usize = 0;
    while i < 20
        invariant
            i <= 20,
            forall|j: int| 0 <= j < i ==> a@[j] == b@[j],
        decreases 20 - i,
    {
        if a[i] != b[i] {
            return false;
        }
        i += 1;
    }
    assert(a@ =~= b@);
    true
}

/// Whether the entry `id` is known and has the given digest.
pub open spec fn has_digest(entries: Map<i32, EntryView>, id: i32, sha1: Seq<u8>) -> bool {
    entries.contains_key(id) && entries[id].sha1 == sha1
}

/// Whether `id` is the least id of an entry with the given digest.
pub open spec fn first_with_digest(entries: Map<i32, EntryView>, id: i32, sha1: Seq<u8>) -> bool {
    has_digest(entries, id, sha1) && forall|other: i32|
        other < id ==> !#[trigger] has_digest(entries, other, sha1)
}

/// A video sample entry to insert.
#[derive(Debug)]
pub struct InsertVideoSampleEntry {
    pub sha1: [u8; 20],
    pub width: u16,
    pub height: u16,
    pub data: Vec<u8>,
    pub rfc6381_codec: String,
}

/// How the insertion of a video sample entry starts.
#[derive(Debug)]
pub enum EntryInsertion {
    /// There is such an entry already.
    Existing(i32),
    /// The entry is to be inserted.
    New(InsertVideoSampleEntry),
}

/// What comes of inserting an entry with the given digest, width and height: an error, the id of
/// the entry that is there, or nothing if there is none.
pub open spec fn entry_found(
    entries: Map<i32, EntryView>,
    sha1: [u8; 20],
    width: u16,
    height: u16,
    found: Result<Option<i32>, Error>,
) -> bool {
    match found {
        Ok(None) => forall|id: i32| !#[trigger] has_digest(entries, id, sha1@),
        Ok(Some(id)) => first_with_digest(entries, id, sha1@) && entries[id].width == width
            && entries[id].height == height,
        Err(e) => exists|id: i32|
            {
                &&& #[trigger] first_with_digest(entries, id, sha1@)
                &&& entries[id].width != width || entries[id].height != height
                &&& e == Error::EntryMismatch {
                    sha1,
                    known_width: entries[id].width,
                    known_height: entries[id].height,
                    width,
                    height,
                }
            },
    }
}

/// Which entry, if any, was found.
pub open spec fn found_by(r: Result<EntryInsertion, Error>) -> Result<Option<i32>, Error> {
    match r {
        Ok(EntryInsertion::Existing(id)) => Ok(Some(id)),
        Ok(EntryInsertion::New(_)) => Ok(None),
        Err(e) => Err(e),
    }
}

impl LockedDatabase {
    /// Looks for an entry with the given digest, width and height. There shouldn't be too many
    /// entries, so it's fine to enumerate everything.
    fn find_entry(&self, sha1: &[u8; 20], width: u16, height: u16) -> (r: Result<
        Option<i32>,
        Error,
    >)
        ensures
            entry_found(self@.entries, *sha1, width, height, r),
    {
        let ids = ascending_keys(&self.state.video_sample_entries);
        let mut i: usize = 0;
        while i < ids.len()
            invariant
                i <= ids@.len(),
                ascending(ids@),
                forall|k: i32| #[trigger]
                    ids@.contains(k) <==> self.state.video_sample_entries@.contains_key(k),
                forall|j: int|
                    0 <= j < i ==> !has_digest(self@.entries, #[trigger] ids@[j], sha1@),
            decreases ids@.len() - i,
        {
            let id: i32 = ids[i];
            assert(ids@.contains(id));
            match self.state.video_sample_entries.get(&id) {
                Some(v) => {
                    assert((**v)@ == self@.entries[id]);
                    if same_digest(&v.sha1, sha1) {
                        assert(has_digest(self@.entries, id, sha1@));
                        assert forall|other: i32| other < id implies !#[trigger] has_digest(
                            self@.entries,
                            other,
                            sha1@,
                        ) by {
                            if has_digest(self@.entries, other, sha1@) {
                                assert(ids@.contains(other));
                                let j = choose|j: int| 0 <= j < ids@.len() && ids@[j] == other;
                                assert(!has_digest(self@.entries, ids@[j], sha1@));
                            }
                        }
                        assert(first_with_digest(self@.entries, id, sha1@));
                        // The width and height should match given that they're also specified
                        // within data and thus included in the just-compared hash.
                        if v.width != width || v.height != height {
                            return Err(
                                Error::EntryMismatch {
                                    sha1: *sha1,
                                    known_width: v.width,
                                    known_height: v.height,
                                    width,
                                    height,
                                },
                            );
                        }
                        return Ok(Some(id));
                    }
                },
                None => {},
            }
            i += 1;
        }
        assert forall|id: i32| !#[trigger] has_digest(self@.entries, id, sha1@) by {
            if has_digest(self@.entries, id, sha1@) {
                assert(ids@.contains(id));
                let j = choose|j: int| 0 <= j < ids@.len() && ids@[j] == id;
                assert(!has_digest(self@.entries, ids@[j], sha1@));
            }
        }
        Ok(None)
    }

    /// Inserts the specified video sample entry if absent, given the digest of its data. This
    /// starts it.
    pub fn insert_video_sample_entry_with(
        &self,
        sha1: [u8; 20],
        width: u16,
        height: u16,
        data: Vec<u8>,
        rfc6381_codec: String,
    ) -> (r: Result<EntryInsertion, Error>)
        ensures
            entry_found(
                self@.entries,
                sha1,
                width,
                height,
                found_by(r),
            ),
            r matches Ok(EntryInsertion::New(op)) ==> op == (InsertVideoSampleEntry {
                sha1,
                width,
                height,
                data,
                rfc6381_codec,
            }),
    {
        match self.find_entry(&sha1, width, height) {
            Err(e) => Err(e),
            Ok(Some(id)) => Ok(EntryInsertion::Existing(id)),
            Ok(None) => Ok(
                EntryInsertion::New(
                    InsertVideoSampleEntry { sha1, width, height, data, rfc6381_codec },
                ),
            ),
        }
    }

    /// Inserts the specified video sample entry if absent. This starts it.
    pub fn insert_video_sample_entry(
        &self,
        width: u16,
        height: u16,
        data: Vec<u8>,
        rfc6381_codec: String,
    ) -> (r: Result<EntryInsertion, Error>)
        ensures
            (r matches Err(Error::Hash(e)) && may_fail_to_hash(data@, e)) || exists|
                sha1: [u8; 20],
            |
                {
                    &&& sha1@ == sha1_digest(data@)
                    &&& #[trigger] entry_found(
                        self@.entries,
                        sha1,
                        width,
                        height,
                        found_by(r),
                    )
                    &&& r matches Ok(EntryInsertion::New(op)) ==> op == (InsertVideoSampleEntry {
                        sha1,
                        width,
                        height,
                        data,
                        rfc6381_codec,
                    })
                },
    {
        match digest_of(data.as_slice()) {
            Err(e) => Err(Error::Hash(e)),
            Ok(digest) => self.insert_video_sample_entry_with(
                digest,
                width,
                height,
                data,
                rfc6381_codec,
            ),
        }
    }
}

impl InsertVideoSampleEntry {
    /// The statement to run.
    pub fn statement(&self) -> (r: Statement<'_>)
        ensures
            r == (Statement::InsertVideoSampleEntry {
                sha1: &self.sha1,
                width: self.width,
                height: self.height,
                rfc6381_codec: &self.rfc6381_codec,
                data: &self.data,
            }),
    {
        Statement::InsertVideoSampleEntry {
            sha1: &self.sha1,
            width: self.width,
            height: self.height,
            rfc6381_codec: &self.rfc6381_codec,
            data: &self.data,
        }
    }

    /// Takes the reply to the statement. On success, returns the id of the new row.
    pub fn finish(self, db: &mut LockedDatabase, reply: Reply) -> (r: Result<i32, Error>)
        ensures
            match reply {
                Err(e) => r == Err::<i32, Error>(Error::Sql(e)) && final(db)@ == old(db)@,
                Ok(done) => {
                    let id = done.last_insert_rowid as i32;
                    &&& r == Ok::<i32, Error>(id)
                    &&& final(db)@ == (StateView {
                        entries: old(db)@.entries.insert(
                            id,
                            EntryView {
                                data: self.data@,
                                rfc6381_codec: self.rfc6381_codec@,
                                id,
                                width: self.width,
                                height: self.height,
                                sha1: self.sha1@,
                            },
                        ),
                        ..old(db)@
                    })
                },
            },
    {
        let done = match reply {
            Err(e) => return Err(Error::Sql(e)),
            Ok(done) => done,
        };
        #[verifier::truncate]
        let id: i32 = done.last_insert_rowid as i32;
        let entry = VideoSampleEntry {
            id,
            width: self.width,
            height: self.height,
            sha1: self.sha1,
            data: self.data,
            rfc6381_codec: self.rfc6381_codec,
        };
        let ghost view = entry@;
        db.state.video_sample_entries.insert(id, Arc::new(entry));
        assert(db@.entries =~= old(db)@.entries.insert(id, view));
        Ok(id)
    }
}

/// Whether no two entries have the same digest.
pub open spec fn digests_distinct(entries: Map<i32, EntryView>) -> bool {
    forall|a: i32, b: i32| #[trigger]
        entries.contains_key(a) && #[trigger] entries.contains_key(b) && entries[a].sha1
            == entries[b].sha1 ==> a == b
}

/// An entry that is inserted because none with its digest was found leaves the digests distinct,
/// under a new id.
pub proof fn lemma_insertion_keeps_distinct(
    entries: Map<i32, EntryView>,
    id: i32,
    entry: EntryView,
)
    requires
        digests_distinct(entries),
        forall|other: i32| !#[trigger] has_digest(entries, other, entry.sha1),
    ensures
        digests_distinct(entries.insert(id, entry)),
{
    let after = entries.insert(id, entry);
    assert forall|a: i32, b: i32| #[trigger]
        after.contains_key(a) && #[trigger] after.contains_key(b) && after[a].sha1
            == after[b].sha1 implies a == b by {
        assert(!has_digest(entries, a, entry.sha1));
        assert(!has_digest(entries, b, entry.sha1));
        if a != id && b != id {
            assert(entries.contains_key(a) && entries.contains_key(b));
        }
    }
}

} // verus!
