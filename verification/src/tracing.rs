use vstd::prelude::*;

verus! {

/// A deferred set-up step for tracing, run by `init`.
pub struct TraceInit<F: Fn()> {
    t: F,
}

impl<F: Fn()> TraceInit<F> {
    pub closed spec fn action(&self) -> F {
        self.t
    }

    pub fn new(f: F) -> (r: Self)
        ensures
            r.action() == f,
    {
        TraceInit { t: f }
    }

    /// Runs the set-up step.
    pub fn init(&self)
        requires
            self.action().requires(()),
        ensures
            self.action().ensures((), ()),
    {
        (self.t)()
    }
}

} // verus!
