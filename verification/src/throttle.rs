//! Throttling a stream: after each item, the next waits for a pause.

use core::time::Duration;
use vstd::prelude::*;

verus! {

/// A stream that, after every item, holds back the next one until a pause
/// of `duration` is over.
pub struct Throttle<S> {
    pub inner: S,
    pub duration: Duration,
    /// A pause is running.
    pub sleeping: bool,
}

impl<S> Throttle<S> {
    /// A throttle that lets the first item through.
    pub fn new(inner: S, duration: Duration) -> (r: Throttle<S>)
        ensures
            r.inner == inner,
            r.duration == duration,
            !r.sleeping,
    {
        Throttle { inner, duration, sleeping: false }
    }

    /// Asked for an item: the inner stream may be polled unless a pause is
    /// running and not over; a pause that is over ends.
    pub fn may_poll(&mut self, pause_over: bool) -> (r: bool)
        ensures
            r == (!old(self).sleeping || pause_over),
            final(self).sleeping == (old(self).sleeping && !pause_over),
            final(self).inner == old(self).inner,
            final(self).duration == old(self).duration,
    {
        if self.sleeping {
            if pause_over {
                self.sleeping = false;
                true
            } else {
                false
            }
        } else {
            true
        }
    }

    /// The inner stream gave an item: a pause starts.
    pub fn on_item(&mut self)
        ensures
            final(self).sleeping,
            final(self).inner == old(self).inner,
            final(self).duration == old(self).duration,
    {
        self.sleeping = true;
    }
}

/// `stream.throttle(duration)`.
pub trait ThrottleExt: Sized {
    fn throttle(self, duration: Duration) -> (r: Throttle<Self>)
        ensures
            r.inner == self,
            r.duration == duration,
            !r.sleeping,
    {
        Throttle::new(self, duration)
    }
}

impl<T> ThrottleExt for T {

}

} // verus!
