//! The lock-guarded ready queue.
//!
//! The queue is a `VecDeque` of task identifiers behind a `spin::Mutex`. The
//! lock is taken for one push, pop or length query at a time and released
//! before the call returns, so it is never held while a task runs.
//!
//! The items here are trusted: their contracts describe `spin` and
//! `VecDeque` and are not proved.

use vstd::prelude::*;
use std::collections::VecDeque;

verus! {

/// `spin::mutex::Mutex`, carried as an opaque value.
#[verifier::external_type_specification]
#[verifier::external_body]
#[verifier::reject_recursive_types(T)]
#[verifier::reject_recursive_types(R)]
pub struct ExMutex<T: ?Sized, R>(spin::mutex::Mutex<T, R>);

/// `spin::relax::Spin`, the default relax strategy of `spin::mutex::Mutex`.
#[verifier::external_type_specification]
#[verifier::external_body]
pub struct ExSpin(spin::relax::Spin);

/// A lock-guarded queue of task identifiers.
pub type LockedQueue = spin::mutex::Mutex<VecDeque<usize>>;

/// The identifiers that the queue behind the lock holds, front first.
pub uninterp spec fn queued(queue: LockedQueue) -> Seq<usize>;

/// Whether the lock is held. Taking a held lock would spin for ever, so every
/// wrapper below asks for a free lock, and leaves it free: a guard never
/// outlives the wrapper that took it.
pub uninterp spec fn held(queue: LockedQueue) -> bool;

/// `spin::mutex::Mutex::new` on `VecDeque::new()`: a free lock around an empty
/// queue.
#[verifier::external_body]
pub(crate) fn locked_new() -> (queue: LockedQueue)
    ensures
        queued(queue) == Seq::<usize>::empty(),
        !held(queue),
{
    spin::mutex::Mutex::new(VecDeque::new())
}

/// `spin::mutex::Mutex::lock`, then `VecDeque::push_back` on the guarded queue:
/// the identifier is appended behind everything already queued, and the lock
/// is released.
#[verifier::external_body]
pub(crate) fn locked_push_back(queue: &mut LockedQueue, id: usize)
    requires
        !held(*old(queue)),
    ensures
        queued(*final(queue)) == queued(*old(queue)).push(id),
        !held(*final(queue)),
{
    queue.lock().push_back(id);
}

/// `spin::mutex::Mutex::lock`, then `VecDeque::pop_front` on the guarded queue:
/// the front identifier leaves the queue and is returned; an empty queue gives
/// `None` and stays as it is. The lock is released.
#[verifier::external_body]
pub(crate) fn locked_pop_front(queue: &mut LockedQueue) -> (front: Option<usize>)
    requires
        !held(*old(queue)),
    ensures
        queued(*old(queue)).len() == 0 ==> front.is_none() && queued(*final(queue)) == queued(
            *old(queue),
        ),
        queued(*old(queue)).len() > 0 ==> front == Some(queued(*old(queue))[0]) && queued(
            *final(queue),
        ) == queued(*old(queue)).drop_first(),
        !held(*final(queue)),
{
    queue.lock().pop_front()
}

/// `spin::mutex::Mutex::lock`, then `VecDeque::len` on the guarded queue: the
/// number of identifiers queued. The lock is released.
#[verifier::external_body]
pub(crate) fn locked_len(queue: &LockedQueue) -> (len: usize)
    requires
        !held(*queue),
    ensures
        len == queued(*queue).len(),
{
    queue.lock().len()
}

} // verus!
