//! Text that is put together from parts.
use crate::ids::{composite_text, CompositeId};
use crate::text::{decimal, decimal_text, joined, size_text};
use vstd::prelude::*;

verus! {

/// Text that is being put together.
pub struct Sentence {
    pub so_far: String,
}

impl Sentence {
    /// Starts with the given text.
    pub fn new(head: &str) -> (r: Self)
        ensures
            r.so_far@ == head@,
    {
        Sentence { so_far: head.to_owned() }
    }

    /// Goes on with the given text.
    pub fn text(self, part: &str) -> (r: Self)
        ensures
            r.so_far@ == self.so_far@ + part@,
    {
        Sentence { so_far: joined(self.so_far, part) }
    }

    /// Goes on with a number.
    pub fn number(self, n: i64) -> (r: Self)
        ensures
            r.so_far@ == self.so_far@ + decimal(n as int),
    {
        Sentence { so_far: joined(self.so_far, decimal_text(n).as_str()) }
    }

    /// Goes on with a size.
    pub fn size(self, n: usize) -> (r: Self)
        ensures
            r.so_far@ == self.so_far@ + decimal(n as int),
    {
        Sentence { so_far: joined(self.so_far, size_text(n).as_str()) }
    }

    /// Goes on with the id of a recording.
    pub fn id(self, id: CompositeId) -> (r: Self)
        ensures
            r.so_far@ == self.so_far@ + composite_text(id),
    {
        Sentence { so_far: joined(self.so_far, id.to_string().as_str()) }
    }

    /// The text.
    pub fn end(self) -> (r: String)
        ensures
            r == self.so_far,
    {
        self.so_far
    }
}

} // verus!
