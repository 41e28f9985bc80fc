//! The recovery boundary's response policy.
//!
//! The boundary runs the downstream chain inside a fault-capturing scope that
//! the host provides; this module decides what becomes of the request once
//! the scope reports.  A captured fault discards the partially built
//! response and replaces it with a fixed generic failure response, so the
//! fault neither leaks detail nor crosses the boundary; an untroubled run
//! leaves the context exactly as the chain built it.

use vstd::prelude::*;

use crate::context::Context;

verus! {

/// The body of the fixed generic failure response.
pub const FAILURE_BODY: &'static str = "\u{7cfb}\u{7edf}\u{5f00}\u{5c0f}\u{5dee}";

/// Settles the request after the fault-capturing scope around the
/// downstream chain reports: a captured fault replaces whatever response was
/// being built with the fixed generic failure response and touches nothing
/// else; no fault leaves the context untouched.
pub fn recovery(c: &mut Context, faulted: bool)
    requires
        old(c).wf(),
    ensures
        final(c).wf(),
        !faulted ==> *final(c) == *old(c),
        faulted ==> final(c).response.status == 200,
        faulted ==> final(c).response.body@ == FAILURE_BODY@,
        faulted ==> final(c).response.headers@ == Map::<Seq<char>, Seq<char>>::empty().insert(
            "content-type"@,
            "text/plain; charset=utf-8"@,
        ),
        final(c).handlers == old(c).handlers,
        final(c).cursor() == old(c).cursor(),
        final(c).params == old(c).params,
        final(c).forms == old(c).forms,
        final(c).path == old(c).path,
        final(c).method == old(c).method,
{
    if faulted {
        self_reset(c);
        c.string(None, FAILURE_BODY);
    }
}

/// Discards the partially built response.
fn self_reset(c: &mut Context)
    requires
        old(c).wf(),
    ensures
        final(c).wf(),
        final(c).response.status == 200,
        final(c).response.body@ == Seq::<char>::empty(),
        final(c).response.headers@ == Map::<Seq<char>, Seq<char>>::empty(),
        final(c).handlers == old(c).handlers,
        final(c).cursor() == old(c).cursor(),
        final(c).params == old(c).params,
        final(c).forms == old(c).forms,
        final(c).path == old(c).path,
        final(c).method == old(c).method,
{
    c.response = crate::context::Response::new();
}

} // verus!
