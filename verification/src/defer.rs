//! A one-shot cleanup handle: it carries an action and runs it exactly once.

use vstd::prelude::*;

verus! {

/// A handle around a cleanup action; running the handle consumes it, so the
/// action cannot run twice.
pub struct Defer<F: FnOnce() -> ()> {
    action: Option<F>,
}

impl<F: FnOnce() -> ()> Defer<F> {
    /// The handle still holds its action.
    pub closed spec fn armed(self) -> bool {
        self.action is Some
    }

    /// The action the handle holds.
    pub closed spec fn action_of(self) -> F {
        self.action->0
    }

    /// Runs the held action.
    pub fn run(self)
        requires
            self.armed() ==> call_requires(self.action_of(), ()),
        ensures
            self.armed() ==> call_ensures(self.action_of(), (), ()),
    {
        match self.action {
            Some(f) => f(),
            None => {},
        }
    }
}

/// Wraps `f` in a one-shot cleanup handle.
pub fn defer<F: FnOnce() -> ()>(f: F) -> (d: Defer<F>)
    ensures
        d.armed(),
        d.action_of() == f,
{
    Defer { action: Some(f) }
}

} // verus!
