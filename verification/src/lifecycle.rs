//! The lifecycle of one in-flight operation.

use vstd::prelude::*;
use std::task::Waker;
use crate::error::OsError;

verus! {

/// `std::task::Waker`, the handle by which a suspended observer is woken.
/// Nothing is known of what it holds.
#[verifier::external_type_specification]
#[verifier::external_body]
pub struct ExWaker(Waker);

/// Calls `Waker::wake`, which consumes the handle and notifies the observer
/// behind it. Nothing is claimed of the call.
#[verifier::external_body]
fn wake(waker: Waker) {
    waker.wake()
}

/// Where one operation stands between its submission and the moment its slot
/// is given up.
#[derive(Debug)]
pub enum Lifecycle {
    /// Handed to the ring, or queued for it; no result, no observer.
    Submitted,
    /// An observer waits for the result and is woken through the handle.
    Waiting(Waker),
    /// The observer went away first. The kernel may still write into the
    /// operation's memory, so the slot lives until the completion arrives.
    Ignored,
    /// The kernel posted the result before anyone asked for it.
    Completed(Result<u32, OsError>, u32),
}

impl Lifecycle {
    /// Whether a completion in this state ends the slot.
    pub open spec fn ends_on_completion(self) -> bool {
        self is Ignored
    }

    /// The state that a completion with `result` and `flags` leaves behind.
    /// An abandoned operation stays abandoned: its result is for nobody.
    pub open spec fn completed_with(self, result: Result<u32, OsError>, flags: u32) -> Lifecycle {
        if self is Ignored {
            Lifecycle::Ignored
        } else {
            Lifecycle::Completed(result, flags)
        }
    }

    /// The state after the observer asked for the result and found none.
    pub open spec fn awaited_by(self, waker: Waker) -> Lifecycle {
        Lifecycle::Waiting(waker)
    }

    /// Records the kernel's completion. Returns `true` when the slot has
    /// reached its end and is to be removed from the registry: that is the
    /// case exactly for an abandoned operation. Otherwise the result is
    /// buffered, and an observer that waits is woken.
    ///
    /// One operation completes once: the state must not hold a result yet.
    pub fn complete(&mut self, result: Result<u32, OsError>, flags: u32) -> (removed: bool)
        requires
            !(*old(self) is Completed),
        ensures
            removed == old(self).ends_on_completion(),
            *final(self) == old(self).completed_with(result, flags),
    {
        let mut prev = Lifecycle::Submitted;
        core::mem::swap(self, &mut prev);
        match prev {
            Lifecycle::Submitted => {
                *self = Lifecycle::Completed(result, flags);
                false
            },
            Lifecycle::Waiting(waker) => {
                *self = Lifecycle::Completed(result, flags);
                wake(waker);
                false
            },
            Lifecycle::Ignored => {
                *self = Lifecycle::Ignored;
                true
            },
            Lifecycle::Completed(r, f) => {
                *self = Lifecycle::Completed(r, f);
                false
            },
        }
    }
}

} // verus!
