//! The frame clock: from a target interval to the moment of the next frame, without drift.
//!
//! Moments and spans are nanoseconds on a clock that never runs backwards.

use vstd::prelude::*;

verus! {

/// The time of one frame.
#[derive(Debug, Clone, Copy, PartialEq, Eq, Structural)]
pub struct Frame {
    /// Number of the frame, counted from 0.
    pub index: u64,
    /// Time since the frame before.
    pub delta: u64,
    /// Time since the start.
    pub elapsed: u64,
}

/// The clock as a mathematical value.
pub struct Beat {
    /// The target interval; without one, frames are not paced here.
    pub target: Option<int>,
    pub start: int,
    pub last: int,
    pub index: int,
    /// When the next frame is due.
    pub next: int,
}

/// Paces frames.
#[derive(Debug)]
pub struct FrameClock {
    target: Option<u64>,
    start: u64,
    last: u64,
    index: u64,
    next: u64,
}

/// Time from one moment to a later one; none if it is not later.
pub open spec fn since(now: int, then: int) -> int {
    if now >= then {
        now - then
    } else {
        0
    }
}

/// When the frame after one at `now` is due. Intervals add up, so that the time one frame takes does
/// not push the next; but a clock that has fallen behind by a whole frame starts anew, since making
/// up for lost frames would turn one hitch into a burst.
pub open spec fn next_after(next: int, target: int, now: int) -> int {
    if next + target <= now {
        now + target
    } else {
        next + target
    }
}

/// The clock after a frame at `now`.
pub open spec fn advanced(beat: Beat, now: int) -> Beat {
    Beat {
        target: beat.target,
        start: beat.start,
        last: now,
        index: beat.index + 1,
        next: match beat.target {
            Some(target) => next_after(beat.next, target, now),
            None => beat.next,
        },
    }
}

/// Whether a frame is due at `now`.
pub open spec fn due(beat: Beat, now: int) -> bool {
    beat.target is None || now >= beat.next
}

/// Whether the number of a frame at `now`, and the moment of the one after it, can be written down.
pub open spec fn has_room(beat: Beat, now: int) -> bool {
    &&& beat.index < u64::MAX
    &&& beat.target matches Some(target) ==> beat.next + target <= u64::MAX && now + target <= u64::MAX
}

impl View for FrameClock {
    type V = Beat;

    closed spec fn view(&self) -> Beat {
        Beat {
            target: match self.target {
                Some(target) => Some(target as int),
                None => None,
            },
            start: self.start as int,
            last: self.last as int,
            index: self.index as int,
            next: self.next as int,
        }
    }
}

impl FrameClock {
    pub fn new(target: Option<u64>, now: u64) -> (clock: Self)
        ensures
            clock@.target is Some == target is Some,
            target matches Some(target) ==> clock@.target == Some(target as int),
            clock@.start == now,
            clock@.last == now,
            clock@.index == 0,
            clock@.next == now,
    {
        FrameClock { target, start: now, last: now, index: 0, next: now }
    }

    /// Whether a frame is due.
    pub fn is_due(&self, now: u64) -> (is: bool)
        ensures
            is == due(self@, now as int),
    {
        self.target.is_none() || now >= self.next
    }

    /// When the next frame is due; none if frames are not paced.
    pub fn next_due(&self) -> (moment: Option<u64>)
        ensures
            moment is Some == self@.target is Some,
            moment matches Some(moment) ==> moment == self@.next,
    {
        match self.target {
            Some(_) => Some(self.next),
            None => None,
        }
    }

    /// Whether there is room for one more frame at `now`.
    pub fn can_advance(&self, now: u64) -> (yes: bool)
        ensures
            yes == has_room(self@, now as int),
    {
        let room = match self.target {
            Some(target) => self.next <= u64::MAX - target && now <= u64::MAX - target,
            None => true,
        };
        self.index < u64::MAX && room
    }

    /// Goes on by one frame.
    pub fn advance(&mut self, now: u64) -> (frame: Frame)
        requires
            has_room(old(self)@, now as int),
        ensures
            final(self)@ == advanced(old(self)@, now as int),
            frame.index == old(self)@.index,
            frame.delta == since(now as int, old(self)@.last),
            frame.elapsed == since(now as int, old(self)@.start),
    {
        let frame = Frame {
            index: self.index,
            delta: now.saturating_sub(self.last),
            elapsed: now.saturating_sub(self.start),
        };
        self.index = self.index + 1;
        self.last = now;
        match self.target {
            Some(target) => {
                self.next = self.next + target;
                if self.next <= now {
                    self.next = now + target;
                }
            },
            None => {},
        }
        frame
    }
}

/// A paced clock never asks for two frames at one moment: after a frame at `now` the next one is
/// later, however late this one was.
pub proof fn a_hitch_is_not_followed_by_a_burst(beat: Beat, now: int)
    requires
        beat.target matches Some(target) && target > 0,
    ensures
        !due(advanced(beat, now), now),
{
}

/// A frame that comes less than an interval late moves no later frame: the beat does not drift.
pub proof fn a_late_frame_does_not_shift_the_beat(beat: Beat, target: int, late: int)
    requires
        beat.target == Some(target),
        0 <= late < target,
    ensures
        advanced(beat, beat.next + late).next == beat.next + target,
{
}

/// The clock after the first `n` frames, at the moments given.
pub open spec fn after_frames(beat: Beat, moments: Seq<int>, n: int) -> Beat
    decreases n,
{
    if n <= 0 {
        beat
    } else {
        advanced(after_frames(beat, moments, n - 1), moments[n - 1])
    }
}

/// The time since the frame before, for frame `k` of those at the moments given.
pub open spec fn delta_of(beat: Beat, moments: Seq<int>, k: int) -> int {
    since(moments[k], after_frames(beat, moments, k).last)
}

/// The sum of the times since the frame before, over the first `n` frames.
pub open spec fn deltas(beat: Beat, moments: Seq<int>, n: int) -> int
    decreases n,
{
    if n <= 0 {
        0
    } else {
        deltas(beat, moments, n - 1) + delta_of(beat, moments, n - 1)
    }
}

/// The clock of a run knows its start, its last frame and how many there were.
proof fn a_run_is_counted(beat: Beat, moments: Seq<int>, n: int)
    requires
        0 <= n <= moments.len(),
    ensures
        after_frames(beat, moments, n).start == beat.start,
        after_frames(beat, moments, n).target == beat.target,
        after_frames(beat, moments, n).index == beat.index + n,
        after_frames(beat, moments, n).last == if n == 0 {
            beat.last
        } else {
            moments[n - 1]
        },
    decreases n,
{
    if n > 0 {
        a_run_is_counted(beat, moments, n - 1);
    }
}

/// Frames are numbered in turn and their deltas add up to the time since the start, whatever the target
/// is: of a clock that has just been made, and frames in the order of time, frame `k` has number `k`,
/// the time since the frame before as its delta, and the sum of all deltas so far as its elapsed time.
pub proof fn the_deltas_add_up(beat: Beat, moments: Seq<int>, k: int)
    requires
        beat.index == 0,
        beat.last == beat.start,
        forall|i: int| 0 <= i < moments.len() ==> beat.start <= #[trigger] moments[i],
        forall|i: int, j: int| 0 <= i <= j < moments.len() ==> #[trigger] moments[i] <= #[trigger] moments[j],
        0 <= k < moments.len(),
    ensures
        after_frames(beat, moments, k).index == k,
        delta_of(beat, moments, k) == moments[k] - (if k == 0 {
            beat.start
        } else {
            moments[k - 1]
        }),
        since(moments[k], after_frames(beat, moments, k).start) == moments[k] - beat.start,
        deltas(beat, moments, k + 1) == moments[k] - beat.start,
    decreases k,
{
    a_run_is_counted(beat, moments, k);
    assert(beat.start <= moments[k]);
    if k > 0 {
        assert(moments[k - 1] <= moments[k]);
        the_deltas_add_up(beat, moments, k - 1);
    } else {
        assert(deltas(beat, moments, 0) == 0);
    }
}

/// Time that runs backwards gives no negative delta.
pub proof fn a_clock_that_is_set_back_counts_nothing(beat: Beat, now: int)
    ensures
        now < beat.last ==> since(now, beat.last) == 0,
        now < beat.start ==> since(now, beat.start) == 0,
{
}

/// What is due stays due until the frame comes. The first frame is due at once, and without a target
/// every moment will do.
pub proof fn what_is_due_stays_due(beat: Beat, now: int, later: int)
    requires
        now <= later,
    ensures
        due(beat, now) ==> due(beat, later),
        beat.next == now ==> due(beat, now),
        beat.target is None ==> due(beat, now),
        beat.target is Some ==> due(beat, now) == (now >= beat.next),
{
}

/// After a frame that was due, the next one is due within one interval, and exactly one interval from now
/// if the clock had fallen behind by a whole one: lost frames are not made up for.
pub proof fn the_next_frame_is_an_interval_away(beat: Beat, target: int, now: int)
    requires
        beat.target == Some(target),
        target > 0,
        due(beat, now),
    ensures
        now < advanced(beat, now).next <= now + target,
        now - beat.next >= target ==> advanced(beat, now).next == now + target,
        now - beat.next < target ==> advanced(beat, now).next == beat.next + target,
        advanced(beat, now).target == beat.target,
        advanced(beat, now).start == beat.start,
        advanced(beat, now).last == now,
        advanced(beat, now).index == beat.index + 1,
{
}

} // verus!
