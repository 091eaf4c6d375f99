//! Event sources that want to be pumped more often than frames come, and waking the runtime from
//! elsewhere.

use vstd::prelude::*;

verus! {

/// Asks the runtime to wake up at once, from any thread.
pub trait Wakeup: Send + Sync {
    fn wake(&self);
}

/// A wakeup that goes nowhere: there is no event loop yet that could be woken.
pub struct NoWakeup;

impl Wakeup for NoWakeup {
    fn wake(&self) {
    }
}

/// What a source is handed when it is pumped.
pub struct PumpContext<'a> {
    /// The moment of the pump, in nanoseconds.
    pub now: u64,
    pub wakeup: &'a dyn Wakeup,
}

impl<'a> PumpContext<'a> {
    pub fn new(now: u64, wakeup: &'a dyn Wakeup) -> (context: Self)
        ensures
            context.now == now,
    {
        PumpContext { now, wakeup }
    }

    /// Asks the runtime to wake up once more.
    pub fn wake(&self) {
        self.wakeup.wake()
    }
}

/// Something that wants to be pumped outside the beat of frames.
///
/// A source is pumped at least as often as it asks: when one is due, all are pumped. So a pump must
/// be cheap and must not mind being called too often.
pub trait EventSource {
    /// The pumps so far: the moment of each, and what the source answered.
    open spec fn pumps(&self) -> Seq<(u64, bool)> {
        arbitrary()
    }

    /// When the source must be pumped next.
    open spec fn deadline(&self) -> Option<u64> {
        arbitrary()
    }

    /// When the source must be pumped next; none if it is content with the beat of frames.
    fn next_deadline(&self) -> (deadline: Option<u64>)
        ensures
            deadline == self.deadline(),
    ;

    /// Pumps once; true if something came up for the application, which then gets a frame.
    fn pump(&mut self, cx: &mut PumpContext<'_>) -> (produced: bool)
        ensures
            final(self).pumps() == old(self).pumps().push((old(cx).now, produced)),
    ;
}

} // verus!
