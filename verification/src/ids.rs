//! Identifiers of recordings and kinds of streams.
use crate::text::{decimal, decimal_text, joined};
use vstd::prelude::*;

verus! {

/// Number of recording ids that each stream has for itself.
pub const IDS_PER_STREAM: i64 = 0x1_0000_0000;

/// The id of a recording within a stream, and of the stream, in one number: the stream id in the
/// upper half and the recording id in the lower half.
#[derive(Copy, Clone, Debug, Eq, PartialEq, Structural)]
pub struct CompositeId(pub i64);

/// The number that stands for `recording_id` of `stream_id`. A negative recording id fills the
/// upper half with its sign and leaves no trace of the stream.
pub open spec fn composite(stream_id: int, recording_id: int) -> int {
    if recording_id >= 0 {
        stream_id * IDS_PER_STREAM + recording_id
    } else {
        recording_id
    }
}

/// The upper half of a composite id.
pub open spec fn stream_part(id: int) -> int {
    id / IDS_PER_STREAM as int
}

/// The lower half of a composite id, as a signed number.
pub open spec fn recording_part(id: int) -> int {
    let low = id % IDS_PER_STREAM as int;
    if low >= 0x8000_0000 {
        low - IDS_PER_STREAM
    } else {
        low
    }
}

impl CompositeId {
    pub fn new(stream_id: i32, recording_id: i32) -> (r: Self)
        ensures
            r.0 == composite(stream_id as int, recording_id as int),
    {
        proof {
            let s: i64 = stream_id as i64;
            let n: i64 = recording_id as i64;
            assert(0 <= n && n < 0x8000_0000 && -0x8000_0000 <= s && s < 0x8000_0000 ==> (s << 32
                | n) == s * 0x1_0000_0000 + n) by (bit_vector);
            assert(-0x8000_0000 <= n && n < 0 && -0x8000_0000 <= s && s < 0x8000_0000 ==> (s << 32
                | n) == n) by (bit_vector);
        }
        CompositeId((stream_id as i64) << 32 | recording_id as i64)
    }

    pub fn stream(self) -> (r: i32)
        ensures
            r == stream_part(self.0 as int),
    {
        let x: i64 = self.0;
        assert((x >> 32) == x / 0x1_0000_0000) by (bit_vector);
        (self.0 >> 32) as i32
    }

    pub fn recording(self) -> (r: i32)
        ensures
            r == recording_part(self.0 as int),
    {
        let x: i64 = self.0;
        assert(x % 0x1_0000_0000 >= 0x8000_0000 ==> x as i32 == x % 0x1_0000_0000 - 0x1_0000_0000)
            by (bit_vector);
        assert(x % 0x1_0000_0000 < 0x8000_0000 ==> x as i32 == x % 0x1_0000_0000) by (bit_vector);
        #[verifier::truncate]
        (self.0 as i32)
    }

    /// The stream id and the recording id, in decimal, with a slash in between.
    pub fn to_string(self) -> (r: String)
        ensures
            r@ == composite_text(self),
    {
        let stream = joined(decimal_text(self.stream() as i64), "/");
        let recording = decimal_text(self.recording() as i64);
        joined(stream, recording.as_str())
    }
}

/// How a composite id is written out.
pub open spec fn composite_text(id: CompositeId) -> Seq<char> {
    decimal(stream_part(id.0 as int)) + "/"@ + decimal(recording_part(id.0 as int))
}

/// A composite id gives back the stream and the recording that it was made of, for every
/// recording id that is not negative.
pub proof fn lemma_composite_parts(stream_id: i32, recording_id: i32)
    requires
        recording_id >= 0,
    ensures
        stream_part(composite(stream_id as int, recording_id as int)) == stream_id,
        recording_part(composite(stream_id as int, recording_id as int)) == recording_id,
{
}

/// A composite id is what its two parts make up, if its recording part is not negative.
pub proof fn lemma_parts_composite(id: CompositeId)
    requires
        recording_part(id.0 as int) >= 0,
    ensures
        composite(stream_part(id.0 as int), recording_part(id.0 as int)) == id.0,
{
}

/// Within a stream, composite ids are in the order of the recording ids.
pub proof fn lemma_composite_order(stream_id: i32, a: i32, b: i32)
    requires
        0 <= a,
        0 <= b,
    ensures
        a < b <==> composite(stream_id as int, a as int) < composite(stream_id as int, b as int),
{
}

/// The composite ids between the first of a stream and the first of the next stream are exactly
/// those of the stream.
pub proof fn lemma_stream_span(stream_id: i32, id: CompositeId)
    ensures
        composite(stream_id as int, 0) <= id.0 < composite(stream_id + 1, 0) <==> stream_part(
            id.0 as int,
        ) == stream_id,
{
}

/// Which of a camera's streams.
#[derive(Copy, Clone, Debug, PartialEq, Eq, Structural)]
pub enum StreamType {
    MAIN,
    SUB,
}

pub const ALL_STREAM_TYPES: [StreamType; 2] = [StreamType::MAIN, StreamType::SUB];

impl StreamType {
    /// The position of the stream among a camera's streams.
    pub open spec fn position(self) -> int {
        match self {
            StreamType::MAIN => 0,
            StreamType::SUB => 1,
        }
    }

    /// The name of the stream type.
    pub open spec fn name(self) -> Seq<char> {
        match self {
            StreamType::MAIN => "main"@,
            StreamType::SUB => "sub"@,
        }
    }

    pub fn from_index(i: usize) -> (r: Option<Self>)
        ensures
            r is Some <==> i < 2,
            r matches Some(t) ==> t.position() == i,
    {
        match i {
            0 => Some(StreamType::MAIN),
            1 => Some(StreamType::SUB),
            _ => None,
        }
    }

    pub fn index(self) -> (r: usize)
        ensures
            r == self.position(),
            r < 2,
    {
        match self {
            StreamType::MAIN => 0,
            StreamType::SUB => 1,
        }
    }

    pub fn as_str(self) -> (r: &'static str)
        ensures
            r@ == self.name(),
    {
        match self {
            StreamType::MAIN => "main",
            StreamType::SUB => "sub",
        }
    }

    pub fn parse(type_: &str) -> (r: Option<Self>)
        ensures
            r is Some <==> type_@ == "main"@ || type_@ == "sub"@,
            r matches Some(t) ==> t.name() == type_@,
    {
        let name = type_.to_owned();
        if name == "main".to_owned() {
            Some(StreamType::MAIN)
        } else if name == "sub".to_owned() {
            Some(StreamType::SUB)
        } else {
            None
        }
    }
}

/// No two stream types have the same position or the same name.
pub proof fn lemma_stream_types_distinct(a: StreamType, b: StreamType)
    ensures
        a.position() == b.position() <==> a == b,
        a.name() == b.name() <==> a == b,
{
    reveal_strlit("main");
    reveal_strlit("sub");
    assert("main"@.len() != "sub"@.len());
}

} // verus!
