//! Calls whose outcome is not a function of their arguments.
//!
//! What such a call gave is something that it may give, and that is all that can be said of it in
//! the contract of a caller.
use vstd::prelude::*;

verus! {

/// Calls `f` with `a`.
pub(crate) fn answer<A, B, F: Fn(A) -> B>(f: F, a: A) -> (b: B)
    requires
        call_requires(f, (a,)),
    ensures
        call_ensures(f, (a,), b),
{
    f(a)
}

/// Calls `f`.
pub(crate) fn drawn<B, F: Fn() -> B>(f: F) -> (b: B)
    requires
        call_requires(f, ()),
    ensures
        call_ensures(f, (), b),
{
    f()
}

} // verus!
