//! The wake signal of the single-threaded driver.
//!
//! There is no parking: a pending poll means "try again on the next turn", so
//! the waker does nothing when it is woken. The items here are trusted.

use vstd::prelude::*;

verus! {

/// `core::task::Waker`, carried as an opaque value.
#[verifier::external_type_specification]
#[verifier::external_body]
pub struct ExWaker(core::task::Waker);

/// `async_task::waker_fn` on a closure that does nothing: a waker whose wake
/// has no effect. Nothing is claimed about the value.
#[verifier::external_body]
pub(crate) fn noop_waker() -> (waker: core::task::Waker) {
    async_task::waker_fn(|| {})
}

/// `core::task::Waker::wake_by_ref`: asks that the owner of the waker be polled
/// again. Nothing is claimed about the effect.
#[verifier::external_body]
pub(crate) fn request_repoll(waker: &core::task::Waker) {
    waker.wake_by_ref();
}

} // verus!
