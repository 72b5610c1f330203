//! Handle publisher: a process-wide, write-once slot holding the running
//! application's control handle, paired with a one-shot readiness gate.
//!
//! The slot transitions once from empty to published and never back.  The
//! blocking wait itself (a condition variable) belongs to the host around
//! this core; the decision of each round of waiting is [`HandleGate::wait_step`].

use vstd::prelude::*;

verus! {

/// The decision taken by [`HandleGate::wait_step`] for one waiter: read the
/// handle, report a recoverable timeout failure, or block and ask again.
pub enum WaitOutcome {
    /// The handle is published; a reader may take it.
    Ready,
    /// The handle is not published and the caller's deadline has passed.
    TimedOut,
    /// The handle is not published and the caller may keep blocking.
    KeepWaiting,
}

/// Write-once slot for the application handle.
///
/// Its view is the published handle, `None` until the single effective
/// `publish` and `Some(h)` ever after.
pub struct HandleGate<T> {
    slot: Option<T>,
}

impl<T> View for HandleGate<T> {
    type V = Option<T>;

    closed spec fn view(&self) -> Option<T> {
        self.slot
    }
}

/// The effect of `publish(h)` on the slot: the first publication sticks,
/// every later one is a no-op.
pub open spec fn published_after<T>(s: Option<T>, h: T) -> Option<T> {
    if s is Some {
        s
    } else {
        Some(h)
    }
}

impl<T> HandleGate<T> {
    /// A fresh gate: nothing published, waiters would block.
    pub fn new() -> (g: Self)
        ensures
            g@ is None,
    {
        HandleGate { slot: None }
    }

    /// True once a handle has been stored.
    pub fn is_ready(&self) -> (b: bool)
        ensures
            b == (self@ is Some),
    {
        self.slot.is_some()
    }

    /// Stores `h` if and only if no handle has been stored yet; a second
    /// call is a no-op, not an error.  Returns whether this call was the
    /// effective one (the host notifies its waiters exactly then).
    pub fn publish(&mut self, h: T) -> (effective: bool)
        ensures
            final(self)@ == published_after(old(self)@, h),
            effective == (old(self)@ is None),
    {
        if self.slot.is_none() {
            self.slot = Some(h);
            true
        } else {
            false
        }
    }

    /// Returns the published handle.  Calling this before `publish` is a
    /// programming-contract violation, excluded by the precondition; a
    /// caller that must tolerate absence uses `try_get` or `wait_step`.
    pub fn get(&self) -> (r: &T)
        requires
            self@ is Some,
        ensures
            self@ == Some(*r),
    {
        self.slot.as_ref().unwrap()
    }

    /// Returns the published handle if there is one.
    pub fn try_get(&self) -> (r: Option<&T>)
        ensures
            match r {
                Some(h) => self@ == Some(*h),
                None => self@ is None,
            },
    {
        self.slot.as_ref()
    }

    /// One round of `wait_until_ready`: given whether the caller's deadline
    /// has already passed, decide to read the handle, report a timeout
    /// failure, or keep blocking.  A zero timeout before any publication
    /// therefore yields `TimedOut`, never a hang.
    pub fn wait_step(&self, timed_out: bool) -> (r: WaitOutcome)
        ensures
            r is Ready <==> self@ is Some,
            r is TimedOut <==> (self@ is None && timed_out),
            r is KeepWaiting <==> (self@ is None && !timed_out),
    {
        if self.slot.is_some() {
            WaitOutcome::Ready
        } else if timed_out {
            WaitOutcome::TimedOut
        } else {
            WaitOutcome::KeepWaiting
        }
    }
}

/// Law: publication is write-once.  Whatever is published after the first
/// effective `publish(h1)`, the stored handle stays `h1`.
pub proof fn lemma_publish_write_once<T>(s: Option<T>, h1: T, h2: T)
    requires
        s is None,
    ensures
        published_after(s, h1) == Some(h1),
        published_after(published_after(s, h1), h2) == Some(h1),
{
}

/// Law: every reader that obtains a handle from the same gate state obtains
/// the same handle; blocked waiters released by one publication all agree.
pub proof fn lemma_readers_agree<T>(s: Option<T>, r1: T, r2: T)
    requires
        s == Some(r1),
        s == Some(r2),
    ensures
        r1 == r2,
{
}

} // verus!
