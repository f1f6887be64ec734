//! The yield primitive.

use vstd::prelude::*;
use crate::task::{Poll, Task};
use crate::context::PollContext;

verus! {

/// What one poll of a yield future does: the flag it leaves and the result.
///
/// A future that has not yielded yet suspends once; one that has yielded is
/// ready, and polling it again keeps returning ready.
pub open spec fn poll_model(yielded: bool) -> (bool, Poll<()>) {
    (true, if yielded { Poll::Ready(()) } else { Poll::Pending })
}

/// The results of `n` polls in a row, starting from the given flag.
pub open spec fn poll_trace(yielded: bool, n: nat) -> Seq<Poll<()>>
    decreases n,
{
    if n == 0 {
        Seq::empty()
    } else {
        seq![poll_model(yielded).1] + poll_trace(poll_model(yielded).0, (n - 1) as nat)
    }
}

/// A future that suspends its task for exactly one scheduling cycle.
pub struct Yield {
    yielded: bool,
}

impl View for Yield {
    type V = bool;

    /// Whether the future has already yielded.
    closed spec fn view(&self) -> bool {
        self.yielded
    }
}

impl Yield {
    /// A fresh yield future, which has not yielded yet.
    pub fn new() -> (fresh: Self)
        ensures
            !fresh@,
    {
        Yield { yielded: false }
    }

    /// Polls the future with no executor at hand: pending the first time,
    /// ready ever after.
    pub fn poll_once(&mut self) -> (result: Poll<()>)
        ensures
            (final(self)@, result) == poll_model(old(self)@),
    {
        if self.yielded {
            Poll::Ready(())
        } else {
            self.yielded = true;
            Poll::Pending
        }
    }
}

impl Task for Yield {
    type Output = ();

    /// A yield future is itself a task: it is pending once, then finished, and
    /// spawns nothing.
    fn poll(&mut self, context: &mut PollContext<'_, Yield>) -> (result: Poll<()>)
        ensures
            (final(self)@, result) == poll_model(old(self)@),
            *final(context) == *old(context),
    {
        self.poll_once()
    }
}

/// Hands control back to the scheduler for one cycle: the returned future is
/// pending on its first poll and ready on every later one.
pub fn async_yield() -> (fresh: Yield)
    ensures
        !fresh@,
{
    Yield::new()
}

/// Every poll of a fresh yield future but the first returns ready, and the
/// first returns pending: a use of the primitive suspends exactly once.
pub proof fn lemma_yield_suspends_once(n: nat)
    ensures
        poll_trace(false, n).len() == n,
        n > 0 ==> poll_trace(false, n)[0] == Poll::<()>::Pending,
        forall|i: int| 1 <= i < n ==> poll_trace(false, n)[i] == Poll::Ready(()),
{
    lemma_trace_after_yield(n);
    if n > 0 {
        lemma_trace_after_yield((n - 1) as nat);
    }
}

/// Once a yield future has yielded, every poll returns ready.
pub proof fn lemma_trace_after_yield(n: nat)
    ensures
        poll_trace(true, n).len() == n,
        poll_trace(false, n).len() == n,
        forall|i: int| 0 <= i < n ==> poll_trace(true, n)[i] == Poll::Ready(()),
    decreases n,
{
    if n > 0 {
        lemma_trace_after_yield((n - 1) as nat);
    }
}

} // verus!
