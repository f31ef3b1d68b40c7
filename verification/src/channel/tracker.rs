//! The two trackers of a ring: what producers have claimed and published, and
//! where the consumers stand.

use crate::channel::wait_strategy::{Backoff, Pause, Poll};
use vstd::prelude::*;

pub mod broadcast_tracker;
pub mod sequential_producer_tracker;

pub use broadcast_tracker::MultiCursorTracker;
pub use sequential_producer_tracker::SequentialProducerTracker;

verus! {

#[derive(Debug, Clone, Copy, PartialEq, Eq, Structural)]
pub enum TrackerError {
    /// The number of slots is not a power of two.
    InvalidSize,
    /// The requested position lies behind the tail: its slot may be
    /// overwritten already.
    PositionTooOld,
}

impl TrackerError {
    /// The error in words.
    pub fn message(&self) -> (text: &'static str)
        ensures
            text == (match *self {
                TrackerError::InvalidSize => "size must be a power of 2",
                TrackerError::PositionTooOld => "the requested position no longer exists",
            }),
    {
        match self {
            TrackerError::InvalidSize => "size must be a power of 2",
            TrackerError::PositionTooOld => "the requested position no longer exists",
        }
    }
}

/// A watermark over sequence ids that others wait for.
pub trait Tracker {
    /// The sequence id that the tracker stands at.
    spec fn watermark(&self) -> isize;

    /// The pause that the tracker's wait strategy prescribes after a failed
    /// look.
    spec fn pause(&self, progress: Backoff) -> Pause;

    /// How far a wait has come after that pause.
    spec fn step(&self, progress: Backoff) -> Backoff;

    /// One look at the watermark, which ends the wait once it is at least
    /// `expected`.
    fn wait_for(&self, expected: isize, progress: &mut Backoff) -> (poll: Poll<isize>)
        ensures
            poll == (if self.watermark() >= expected {
                Poll::Ready(self.watermark())
            } else {
                Poll::Pending(self.pause(*old(progress)))
            }),
            *final(progress) == (if self.watermark() >= expected {
                *old(progress)
            } else {
                self.step(*old(progress))
            }),
    ;

    fn current(&self) -> (seq: isize)
        ensures
            seq == self.watermark(),
    ;
}

/// The sum of all reference counts.
pub open spec fn total(counters: Seq<usize>) -> int
    decreases counters.len(),
{
    if counters.len() == 0 {
        0
    } else {
        total(counters.drop_last()) + counters.last()
    }
}

/// The number of cursors that stand at the slot of `position`.
pub open spec fn held(counters: Seq<usize>, position: int) -> usize {
    counters[position % (counters.len() as int)]
}

/// The counters after one more cursor has come to stand at `position`.
pub open spec fn pinned(counters: Seq<usize>, position: int) -> Seq<usize> {
    let index = position % (counters.len() as int);
    counters.update(index, (counters[index] + 1) as usize)
}

/// The counters after one cursor has left `position`.
pub open spec fn released(counters: Seq<usize>, position: int) -> Seq<usize> {
    let index = position % (counters.len() as int);
    counters.update(index, (counters[index] - 1) as usize)
}

/// The first position from `from` on whose slot some cursor holds, looking
/// at no more than `steps` slots; `from + steps` if none of them is held.
pub open spec fn first_held(counters: Seq<usize>, from: int, steps: nat) -> int
    decreases steps,
{
    if steps == 0 || held(counters, from) > 0 {
        from
    } else {
        first_held(counters, from + 1, (steps - 1) as nat)
    }
}

/// The tail after the cursor that stood alone at `from` has left it: the
/// first position beyond that is still held.
pub open spec fn chased(counters: Seq<usize>, from: int) -> int {
    first_held(counters, from, counters.len())
}

/// The positions of the consumers: per slot the number of cursors that stand
/// there, and the tail, behind which no cursor stands.
pub trait ReceiverTracker: Tracker {
    /// What the tracker requires of its own state.
    spec fn wf(&self) -> bool;

    /// The reference count of each slot.
    spec fn counters(&self) -> Seq<usize>;

    /// The number of live receivers.
    spec fn readers(&self) -> isize;

    /// Places a cursor at `at`, or at 0 if `at` is negative. Fails if that
    /// position lies behind the tail.
    fn register(&mut self, at: isize) -> (placed: Result<isize, TrackerError>)
        requires
            old(self).wf(),
            old(self).readers() < isize::MAX,
        ensures
            final(self).wf(),
            ({
                let position = if at < 0 { 0 } else { at };
                if position < old(self).watermark() {
                    &&& placed == Err::<isize, TrackerError>(TrackerError::PositionTooOld)
                    &&& final(self).counters() == old(self).counters()
                    &&& final(self).readers() == old(self).readers()
                } else {
                    &&& placed == Ok::<isize, TrackerError>(position)
                    &&& final(self).counters() == pinned(old(self).counters(), position as int)
                    &&& final(self).readers() == old(self).readers() + 1
                }
            }),
            final(self).watermark() == old(self).watermark(),
    ;

    /// Moves a cursor from `from` to `to`. If it was the last one at `from`
    /// and the tail stood there, the tail moves to `to`: the caller sees to
    /// it that no other cursor stands between the two.
    fn update(&mut self, from: isize, to: isize)
        requires
            old(self).wf(),
            0 <= from < to,
            held(old(self).counters(), from as int) >= 1,
        ensures
            final(self).wf(),
            final(self).counters() == released(
                pinned(old(self).counters(), to as int),
                from as int,
            ),
            final(self).readers() == old(self).readers(),
            final(self).watermark() == (if held(pinned(old(self).counters(), to as int), from as int)
                == 1 && old(self).watermark() == from {
                to
            } else {
                old(self).watermark()
            }),
    ;

    /// Takes the cursor at `at` away. If it was the last one there, the tail
    /// stood there and other receivers remain, the tail moves on to the
    /// first position that is still held. Where no receiver remains the tail
    /// stays, and a producer that waits for it goes on waiting: a ring
    /// without receivers accepts one round of values and no more.
    fn de_register(&mut self, at: isize)
        requires
            old(self).wf(),
            at >= 0 ==> held(old(self).counters(), at as int) >= 1,
            at >= 0 ==> at + old(self).counters().len() <= isize::MAX,
        ensures
            final(self).wf(),
            at < 0 ==> {
                &&& final(self).counters() == old(self).counters()
                &&& final(self).readers() == old(self).readers()
                &&& final(self).watermark() == old(self).watermark()
            },
            at >= 0 ==> {
                &&& final(self).counters() == released(old(self).counters(), at as int)
                &&& final(self).readers() == old(self).readers() - 1
                &&& final(self).watermark() == (if final(self).readers() > 0 && held(
                    old(self).counters(),
                    at as int,
                ) == 1 && old(self).watermark() == at {
                    chased(final(self).counters(), at as int) as isize
                } else {
                    old(self).watermark()
                })
            },
    ;
}

/// The hand-out of sequence ids to producers, and the watermark up to which
/// every id has been written.
pub trait ProducerTracker: Tracker {
    /// What the tracker requires of its own state.
    spec fn wf(&self) -> bool;

    /// The next sequence id to hand out.
    spec fn claimed(&self) -> isize;

    /// Hands out the next sequence id. No id is handed out twice.
    fn make_claim(&mut self) -> (seq: isize)
        requires
            old(self).wf(),
            old(self).claimed() < isize::MAX,
        ensures
            final(self).wf(),
            seq == old(self).claimed(),
            final(self).claimed() == seq + 1,
            final(self).watermark() == old(self).watermark(),
    ;

    /// Makes `id` visible if every id before it is visible already, and says
    /// whether it did. Until then the producer has to try again.
    fn publish(&mut self, id: isize) -> (done: bool)
        requires
            old(self).wf(),
            0 <= id < old(self).claimed(),
        ensures
            final(self).wf(),
            done == (old(self).watermark() == id - 1),
            final(self).watermark() == (if done { id } else { old(self).watermark() }),
            final(self).claimed() == old(self).claimed(),
    ;
}

} // verus!
