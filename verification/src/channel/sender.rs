//! The producer's handle.

use crate::channel::model::RingView;
use crate::channel::tracker::Tracker;
use crate::channel::wait_strategy::{Backoff, Pause, Poll, WaitStrategy};
use crate::channel::receiver::BroadcastReceiver;
use crate::channel::{Core, Ring};
use vstd::prelude::*;

verus! {

#[derive(Debug, Clone, Copy, PartialEq, Eq, Structural)]
pub enum SenderError {
    /// The given input is too large to fit in the buffered channel
    InputTooLarge,
    ChannelFull,
}

/// A sender as a mathematical value.
pub struct SenderView<T> {
    /// The number of slots of the ring that the sender works on.
    pub capacity: int,
    /// A tail that the sender has seen: the ring's tail is at least this.
    pub cached_tail: int,
    /// The sequence id that the sender has claimed and not yet published.
    pub in_flight: Option<int>,
    /// The value for that id, until it is written.
    pub unwritten: Option<T>,
    /// How far the wait for the tail has come.
    pub progress: Backoff,
}

impl<T> SenderView<T> {
    /// A sender with nothing in flight.
    pub open spec fn idle(self) -> bool {
        self.in_flight.is_none() && self.unwritten.is_none()
    }

    /// Whether the sender and the ring fit together: what the sender
    /// remembers of the ring is true of it.
    pub open spec fn attached(self, ring: RingView<T>) -> bool {
        &&& self.capacity == ring.capacity
        &&& self.cached_tail <= ring.tail
        &&& match self.in_flight {
            Some(seq) => {
                &&& 0 <= seq < ring.claimed
                &&& self.unwritten.is_some() <==> !ring.written(seq)
            },
            None => self.unwritten.is_none(),
        }
    }

    /// The sender after it has claimed `seq` for `value`.
    pub open spec fn begin(self, seq: int, value: T) -> Self {
        SenderView {
            in_flight: Some(seq),
            unwritten: Some(value),
            progress: Backoff { spins: 0, yields: 0, listening: false },
            ..self
        }
    }

    /// Whether the claimed id would overwrite a slot that the slowest
    /// receiver still holds, as far as the sender can tell without asking.
    pub open spec fn must_ask(self) -> bool {
        let limit = self.in_flight.unwrap() - self.capacity;
        limit >= 0 && self.cached_tail <= limit
    }

    /// Whether the slowest receiver still holds the slot of the claimed id.
    pub open spec fn blocked(self, ring: RingView<T>) -> bool {
        self.must_ask() && ring.tail <= self.in_flight.unwrap() - self.capacity
    }

    /// The last part of a send: the written id becomes visible once every
    /// id before it is visible. Until then the producer spins.
    pub open spec fn finish(self, ring: RingView<T>) -> (Self, RingView<T>, Poll<()>) {
        let seq = self.in_flight.unwrap();
        if ring.published == seq - 1 {
            (SenderView { in_flight: None, ..self }, ring.publish(seq), Poll::Ready(()))
        } else {
            (self, ring, Poll::Pending(Pause::Spin))
        }
    }

    /// One attempt to bring the claimed id through: wait for the tail, write,
    /// publish. It gives the sender and the ring after the attempt, and
    /// whether the send is complete.
    pub open spec fn drive(self, ring: RingView<T>) -> (Self, RingView<T>, Poll<()>) {
        let seq = self.in_flight.unwrap();
        match self.unwritten {
            Some(value) => {
                if self.blocked(ring) {
                    (
                        SenderView { progress: ring.consumer_wait.step(self.progress), ..self },
                        ring,
                        Poll::Pending(ring.consumer_wait.pause(self.progress)),
                    )
                } else {
                    SenderView {
                        cached_tail: if self.must_ask() {
                            ring.tail
                        } else {
                            self.cached_tail
                        },
                        unwritten: None,
                        progress: Backoff { spins: 0, yields: 0, listening: false },
                        ..self
                    }.finish(ring.write(seq, value))
                }
            },
            None => self.finish(ring),
        }
    }
}

/// Something that sends values into a ring.
pub trait Sender<T: Send>: Clone {
    /// Whether the sender can start a new send on the ring.
    spec fn ready_for(&self, ring: &Ring<T>) -> bool;

    /// Whether one call of `send` with `value` may lead from the sender and
    /// `ring` to `next` and `ring_next` with the answer `poll`.
    spec fn sends(
        &self,
        ring: &Ring<T>,
        value: T,
        next: &Self,
        ring_next: &Ring<T>,
        poll: Poll<()>,
    ) -> bool;

    /// Send a single value to the channel. Where there is no space available
    /// in the channel, or an earlier id is not yet visible, the answer is
    /// `Pending` and says how to pause.
    fn send(&mut self, ring: &mut Ring<T>, value: T) -> (poll: Poll<()>)
        requires
            old(self).ready_for(old(ring)),
        ensures
            old(self).sends(old(ring), value, final(self), final(ring), poll),
    ;
}

/// A producer's handle on a ring.
///
/// A sender that has claimed a sequence id has to bring it through: every
/// later id waits for it. A sender is given up only while nothing is in
/// flight.
#[derive(Debug)]
pub struct BroadcastSender<T> {
    capacity: isize,
    cached_tail: isize,
    claimed: Option<isize>,
    pending: Option<T>,
    progress: Backoff,
}

impl<T> View for BroadcastSender<T> {
    type V = SenderView<T>;

    closed spec fn view(&self) -> SenderView<T> {
        SenderView {
            capacity: self.capacity as int,
            cached_tail: self.cached_tail as int,
            in_flight: match self.claimed {
                Some(seq) => Some(seq as int),
                None => None,
            },
            unwritten: self.pending,
            progress: self.progress,
        }
    }
}

impl<T> Clone for BroadcastSender<T> {
    /// A peer on the same ring, with nothing in flight and a tail cache of
    /// its own.
    fn clone(&self) -> (peer: Self)
        ensures
            peer@ == (SenderView::<T> {
                capacity: self@.capacity,
                cached_tail: 0,
                in_flight: None,
                unwritten: None,
                progress: Backoff { spins: 0, yields: 0, listening: false },
            }),
    {
        Self {
            capacity: self.capacity,
            cached_tail: 0,
            claimed: None,
            pending: None,
            progress: Backoff::new(),
        }
    }
}

impl<T> BroadcastSender<T> {
    /// A sender for `ring`, with nothing in flight.
    pub fn from(ring: &Ring<T>) -> (sender: Self)
        requires
            ring.wf(),
        ensures
            sender@ == (SenderView::<T> {
                capacity: ring@.capacity,
                cached_tail: 0,
                in_flight: None,
                unwritten: None,
                progress: Backoff { spins: 0, yields: 0, listening: false },
            }),
            sender@.attached(ring@),
    {
        let capacity: isize = ring.capacity() as isize;
        Self { capacity, cached_tail: 0, claimed: None, pending: None, progress: Backoff::new() }
    }

    /// A sender for `ring` in place of `receiver`, which is taken off the
    /// ring.
    pub fn from_receiver(receiver: BroadcastReceiver<T>, ring: &mut Ring<T>) -> (sender: Self)
        requires
            old(ring).wf(),
            receiver@.attached(old(ring)@),
        ensures
            final(ring).wf(),
            final(ring)@ == old(ring)@.deregister(receiver@.position),
            sender@ == (SenderView::<T> {
                capacity: old(ring)@.capacity,
                cached_tail: 0,
                in_flight: None,
                unwritten: None,
                progress: Backoff { spins: 0, yields: 0, listening: false },
            }),
            sender@.attached(final(ring)@),
    {
        receiver.release(ring);
        Self::from(ring)
    }

    /// Whether a claimed id is still on its way.
    pub fn in_flight(&self) -> (busy: bool)
        ensures
            busy == self@.in_flight.is_some(),
    {
        self.claimed.is_some()
    }

    /// Claims the next sequence id for `value` and brings it as far as it
    /// goes at once. Where the answer is `Pending`, the caller pauses as told
    /// and goes on with `resume`.
    pub fn send(&mut self, ring: &mut Ring<T>, value: T) -> (poll: Poll<()>)
        requires
            old(ring).wf(),
            old(self)@.attached(old(ring)@),
            old(self)@.idle(),
            old(ring)@.claimed < isize::MAX - old(ring)@.capacity,
        ensures
            final(ring).wf(),
            final(self)@.attached(final(ring)@),
            (final(self)@, final(ring)@, poll) == old(self)@.begin(old(ring)@.claimed, value).drive(
                old(ring)@.claim(),
            ),
            old(ring)@.tail <= old(ring)@.claimed - old(ring)@.capacity ==> poll.is_pending()
                && final(ring)@ == old(ring)@.claim(),
            old(ring)@.tail > old(ring)@.claimed - old(ring)@.capacity ==> final(ring)@.history
                == old(ring)@.history.insert(old(ring)@.claimed, value),
            old(ring)@.tail > old(ring)@.claimed - old(ring)@.capacity && old(ring)@.quiet() ==> poll
                == Poll::Ready(()) && final(ring)@ == old(ring)@.push(value) && final(self)@.idle(),
    {
        let claimed_id: isize = ring.claim();
        assert(!old(ring)@.written(claimed_id as int));
        self.claimed = Some(claimed_id);
        self.pending = Some(value);
        self.progress = Backoff::new();
        self.resume(ring)
    }

    /// Goes on with the send that is in flight.
    pub fn resume(&mut self, ring: &mut Ring<T>) -> (poll: Poll<()>)
        requires
            old(ring).wf(),
            old(self)@.attached(old(ring)@),
            old(self)@.in_flight.is_some(),
        ensures
            final(ring).wf(),
            final(self)@.attached(final(ring)@),
            (final(self)@, final(ring)@, poll) == old(self)@.drive(old(ring)@),
    {
        let claimed_id: isize = match self.claimed {
            Some(seq) => seq,
            None => vstd::pervasive::unreached(),
        };
        let mut evicted: Option<T> = None;
        if self.pending.is_some() {
            let tail: isize = claimed_id - self.capacity;
            if tail >= 0 && self.cached_tail <= tail {
                match ring.reader_tracker().wait_for(tail + 1, &mut self.progress) {
                    Poll::Pending(pause) => {
                        return Poll::Pending(pause);
                    },
                    Poll::Ready(seen) => {
                        self.cached_tail = seen;
                    },
                }
            }
            let value: T = match self.pending.take() {
                Some(value) => value,
                None => vstd::pervasive::unreached(),
            };
            self.progress = Backoff::new();
            evicted = ring.write(claimed_id, value);
        }
        // Notify other threads that a value has been written
        if !ring.publish(claimed_id) {
            return Poll::Pending(Pause::Spin);
        }
        self.claimed = None;
        Poll::Ready(())
    }
}

impl<T> Sender<T> for BroadcastSender<T> where T: Send {
    open spec fn ready_for(&self, ring: &Ring<T>) -> bool {
        &&& ring.wf()
        &&& self@.attached(ring@)
        &&& self@.idle()
        &&& ring@.claimed < isize::MAX - ring@.capacity
    }

    open spec fn sends(
        &self,
        ring: &Ring<T>,
        value: T,
        next: &Self,
        ring_next: &Ring<T>,
        poll: Poll<()>,
    ) -> bool {
        &&& ring_next.wf()
        &&& next@.attached(ring_next@)
        &&& (next@, ring_next@, poll) == self@.begin(ring@.claimed, value).drive(ring@.claim())
    }

    fn send(&mut self, ring: &mut Ring<T>, value: T) -> (poll: Poll<()>) {
        BroadcastSender::send(self, ring, value)
    }
}

} // verus!
