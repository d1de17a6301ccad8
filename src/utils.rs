//! A sequence produced by repeated calls of a function.
use vstd::prelude::*;

verus! {

/// Yields what `cb` returns, call after call, until it returns `None`.
#[verifier::reject_recursive_types(I)]
pub struct IterFn<I, F: FnMut() -> Option<I>> {
    pub cb: F,
    pub marker: core::marker::PhantomData<I>,
}

/// The sequence of the results of `cb`.
pub fn iter_fn<I, F: FnMut() -> Option<I>>(cb: F) -> (r: IterFn<I, F>)
    ensures
        r.cb == cb,
{
    IterFn { cb, marker: core::marker::PhantomData }
}

impl<I, F: FnMut() -> Option<I>> IterFn<I, F> {
    /// The next result of `cb`.
    pub fn next(&mut self) -> (r: Option<I>)
        requires
            old(self).cb.requires(()),
        ensures
            old(self).cb.ensures((), r),
    {
        (self.cb)()
    }
}

} // verus!
