//! The consumer's handle.

use crate::channel::model::{lemma_advance_steps, lemma_register, lemma_registered, RingView};
use crate::channel::sender::BroadcastSender;
use crate::channel::tracker::{Tracker, TrackerError};
use crate::channel::wait_strategy::{Backoff, Poll, WaitStrategy};
use crate::channel::{Core, Ring};
use vstd::prelude::*;

verus! {

#[derive(Debug, Clone, Copy, PartialEq, Eq, Structural)]
pub enum ReceiverError {
    /// Nothing has been published beyond the receiver's cursor.
    NoNewData,
    /// The receiver could not be placed on the ring: the position it asked
    /// for has been given up to the producers.
    RegistrationFailed(TrackerError),
    /// The buffer handed to a batch receive has no room left.
    DestinationFull,
}

impl ReceiverError {
    /// The error in words.
    pub fn message(&self) -> (text: &'static str)
        ensures
            text == (match *self {
                ReceiverError::NoNewData => "There is nothing new to be read from the channel",
                ReceiverError::RegistrationFailed(_) =>
                    "failed to register the receiver on the channel. Generally a result of the channel being entirely overwritten too quickly",
                ReceiverError::DestinationFull => "the destination has no room left",
            }),
    {
        match self {
            ReceiverError::NoNewData => "There is nothing new to be read from the channel",
            ReceiverError::RegistrationFailed(_) =>
                "failed to register the receiver on the channel. Generally a result of the channel being entirely overwritten too quickly",
            ReceiverError::DestinationFull => "the destination has no room left",
        }
    }
}

/// Calls `Vec::capacity` of std: the number of elements that the vector can
/// hold without allocating again. How many that are is the allocator's
/// business; they are never fewer than the vector holds.
#[verifier::external_body]
fn allocated<T>(vec: &Vec<T>) -> (slots: usize)
    ensures
        slots >= vec.len(),
{
    vec.capacity()
}

/// A receiver as a mathematical value.
pub struct ReceiverView {
    /// The sequence id of the last value received; one less than the
    /// position where nothing has been received since the receiver was
    /// placed.
    pub cursor: int,
    /// The position at which the ring counts the receiver.
    pub position: int,
    /// The number of slots of the ring that the receiver works on.
    pub capacity: int,
    /// A watermark that the receiver has seen: the ring's is at least this.
    pub committed_cache: int,
    /// How far the wait for the next value has come.
    pub progress: Backoff,
}

impl ReceiverView {
    /// Whether the receiver and the ring fit together: the ring counts the
    /// receiver where it stands, and what the receiver remembers of the ring
    /// is true of it.
    pub open spec fn attached<T>(self, ring: RingView<T>) -> bool {
        &&& self.capacity == ring.capacity
        &&& ring.holds(self.position)
        &&& self.position - 1 <= self.cursor <= self.position
        &&& self.cursor <= ring.published
        &&& self.committed_cache <= ring.published
    }

    /// The sequence id of the value that comes next.
    pub open spec fn next(self) -> int {
        self.cursor + 1
    }

    /// The receiver after it has taken `count` values.
    pub open spec fn took<T>(self, ring: RingView<T>, count: int) -> Self {
        ReceiverView {
            cursor: self.cursor + count,
            position: self.cursor + count,
            committed_cache: if self.committed_cache < self.next() {
                ring.published
            } else {
                self.committed_cache
            },
            progress: Backoff { spins: 0, yields: 0, listening: false },
            ..self
        }
    }

    /// The receiver after a batch receive has taken `count` values: it has
    /// looked at the ring's watermark and remembers it.
    pub open spec fn drained<T>(self, ring: RingView<T>, count: int) -> Self {
        ReceiverView { committed_cache: ring.published, ..self.took(ring, count) }
    }

    /// The ring after the receiver has taken one value: its cursor has moved
    /// on by one, unless it was placed on that value and has not moved
    /// since.
    pub open spec fn stepped<T>(self, ring: RingView<T>) -> RingView<T> {
        if self.position == self.next() {
            ring
        } else {
            ring.advance(self.cursor, self.next())
        }
    }

    /// The ring after the receiver has taken `count` values: its cursor has
    /// moved, step by step, from where it was counted to the last value
    /// taken.
    pub open spec fn moved<T>(self, ring: RingView<T>, count: int) -> RingView<T> {
        ring.advance_steps(self.position, self.cursor + count)
    }

    /// A receiver that was placed at `position` and has received nothing
    /// since.
    pub open spec fn placed(position: int, capacity: int, watermark: int) -> Self {
        ReceiverView {
            cursor: position - 1,
            position,
            capacity,
            committed_cache: watermark,
            progress: Backoff { spins: 0, yields: 0, listening: false },
        }
    }
}

/// Something that receives the values of a ring in the order of their
/// sequence ids.
pub trait Receiver<T> {
    /// Whether the receiver can work on the ring.
    spec fn ready_for(&self, ring: &Ring<T>) -> bool;

    /// Whether one call of `recv` may lead from the receiver and `ring` to
    /// `next` and `ring_next` with the answer `poll`.
    spec fn receives(&self, ring: &Ring<T>, next: &Self, ring_next: &Ring<T>, poll: Poll<T>) -> bool;

    /// Receives the next value if it is published; where it is not, says how
    /// to pause before the next call.
    fn recv(&mut self, ring: &mut Ring<T>) -> (received: Result<Poll<T>, ReceiverError>)
        requires
            old(self).ready_for(old(ring)),
        ensures
            final(self).ready_for(final(ring)),
            match received {
                Ok(poll) => old(self).receives(old(ring), final(self), final(ring), poll),
                Err(_) => false,
            },
    ;
}

/// A consumer's handle on a ring.
///
/// The ring counts every receiver at the position where it stands, and the
/// producers do not write beyond the slowest one. A receiver that is no
/// longer used has to be taken off the ring with `release`.
#[derive(Debug)]
pub struct BroadcastReceiver<T> {
    internal_cursor: isize,
    position: isize,
    capacity: isize,
    committed_cache: isize,
    progress: Backoff,
    payload: core::marker::PhantomData<T>,
}

impl<T> View for BroadcastReceiver<T> {
    type V = ReceiverView;

    closed spec fn view(&self) -> ReceiverView {
        ReceiverView {
            cursor: self.internal_cursor as int,
            position: self.position as int,
            capacity: self.capacity as int,
            committed_cache: self.committed_cache as int,
            progress: self.progress,
        }
    }
}

impl<T> BroadcastReceiver<T> {
    /// A receiver on `ring`, placed at the watermark: the first value it
    /// receives is the newest one published, or the first one ever where
    /// nothing is published yet.
    pub fn try_from(ring: &mut Ring<T>) -> (made: Result<Self, ReceiverError>)
        requires
            old(ring).wf(),
            old(ring)@.readers < isize::MAX,
        ensures
            final(ring).wf(),
            final(ring)@ == old(ring)@.register(old(ring)@.front()),
            forall|p: int| old(ring)@.holds(p) ==> #[trigger] final(ring)@.holds(p),
            match made {
                Ok(receiver) => {
                    &&& receiver@ == ReceiverView::placed(
                        old(ring)@.front(),
                        old(ring)@.capacity,
                        old(ring)@.published,
                    )
                    &&& receiver@.attached(final(ring)@)
                },
                Err(_) => false,
            },
    {
        let committed: isize = ring.sender_tracker().current();
        let position: isize = if committed < 0 { 0 } else { committed };
        let internal_cursor: isize = position - 1;
        proof {
            lemma_register(ring@, position as int);
            lemma_registered(ring@, position as int);
        }
        match ring.register(position) {
            Ok(_) => {
                let capacity: isize = ring.capacity() as isize;
                Ok(
                    Self {
                        internal_cursor,
                        position,
                        capacity,
                        committed_cache: committed,
                        progress: Backoff::new(),
                        payload: core::marker::PhantomData,
                    },
                )
            },
            Err(error) => Err(ReceiverError::RegistrationFailed(error)),
        }
    }

    /// A receiver on `ring` in place of `sender`, which has nothing in
    /// flight and is given up.
    pub fn try_from_sender(sender: BroadcastSender<T>, ring: &mut Ring<T>) -> (made: Result<
        Self,
        ReceiverError,
    >)
        requires
            old(ring).wf(),
            old(ring)@.readers < isize::MAX,
            sender@.idle(),
        ensures
            final(ring).wf(),
            final(ring)@ == old(ring)@.register(old(ring)@.front()),
            forall|p: int| old(ring)@.holds(p) ==> #[trigger] final(ring)@.holds(p),
            match made {
                Ok(receiver) => {
                    &&& receiver@ == ReceiverView::placed(
                        old(ring)@.front(),
                        old(ring)@.capacity,
                        old(ring)@.published,
                    )
                    &&& receiver@.attached(final(ring)@)
                },
                Err(_) => false,
            },
    {
        Self::try_from(ring)
    }

    /// Creates a new receiver at the most recent entry in the stream
    pub fn add_stream(&self, ring: &mut Ring<T>) -> (made: Result<Self, ReceiverError>)
        requires
            old(ring).wf(),
            old(ring)@.readers < isize::MAX,
        ensures
            final(ring).wf(),
            final(ring)@ == old(ring)@.register(old(ring)@.front()),
            forall|p: int| old(ring)@.holds(p) ==> #[trigger] final(ring)@.holds(p),
            match made {
                Ok(receiver) => {
                    &&& receiver@ == ReceiverView::placed(
                        old(ring)@.front(),
                        old(ring)@.capacity,
                        old(ring)@.published,
                    )
                    &&& receiver@.attached(final(ring)@)
                },
                Err(_) => false,
            },
    {
        Self::try_from(ring)
    }

    /// Creates a new receiver at the same point in the stream. Fails if the
    /// position of this one lies behind the tail.
    pub fn clone(&self, ring: &mut Ring<T>) -> (made: Result<Self, ReceiverError>)
        requires
            old(ring).wf(),
            old(ring)@.readers < isize::MAX,
            0 <= self@.position <= old(ring)@.front(),
        ensures
            final(ring).wf(),
            final(ring)@ == old(ring)@.register(self@.position),
            forall|p: int| old(ring)@.holds(p) ==> #[trigger] final(ring)@.holds(p),
            match made {
                Ok(receiver) => {
                    &&& self@.position >= old(ring)@.tail
                    &&& receiver@ == self@
                    &&& self@.attached(old(ring)@) ==> receiver@.attached(final(ring)@)
                },
                Err(error) => {
                    &&& self@.position < old(ring)@.tail
                    &&& error == ReceiverError::RegistrationFailed(TrackerError::PositionTooOld)
                },
            },
    {
        proof {
            lemma_register(ring@, self.position as int);
            if self.position >= ring@.tail {
                lemma_registered(ring@, self.position as int);
            }
        }
        match ring.register(self.position) {
            Ok(_) => Ok(
                Self {
                    internal_cursor: self.internal_cursor,
                    position: self.position,
                    capacity: self.capacity,
                    committed_cache: self.committed_cache,
                    progress: self.progress,
                    payload: core::marker::PhantomData,
                },
            ),
            Err(error) => Err(ReceiverError::RegistrationFailed(error)),
        }
    }

    /// Takes the receiver off the ring, so that producers no longer wait for
    /// it.
    pub fn release(self, ring: &mut Ring<T>)
        requires
            old(ring).wf(),
            self@.attached(old(ring)@),
        ensures
            final(ring).wf(),
            final(ring)@ == old(ring)@.deregister(self@.position),
    {
        ring.deregister(self.position);
    }

    /// The sequence id of the last value received; one less than the
    /// position where nothing has been received since the receiver was
    /// placed.
    pub fn cursor(&self) -> (seq: isize)
        ensures
            seq == self@.cursor,
    {
        self.internal_cursor
    }

    /// The position at which the ring counts the receiver.
    pub fn position(&self) -> (position: isize)
        ensures
            position == self@.position,
    {
        self.position
    }
}

impl<T> BroadcastReceiver<T> where T: Clone {
    /// Receives the next value if it is published. Where the answer is
    /// `Pending`, the caller pauses as told and calls again.
    pub fn recv(&mut self, ring: &mut Ring<T>) -> (poll: Poll<T>)
        requires
            old(ring).wf(),
            old(self)@.attached(old(ring)@),
        ensures
            final(ring).wf(),
            final(self)@.attached(final(ring)@),
            match poll {
                Poll::Ready(value) => {
                    &&& old(ring)@.published >= old(self)@.next()
                    &&& cloned(old(ring)@.history[old(self)@.next()], value)
                    &&& final(self)@ == old(self)@.took(old(ring)@, 1)
                    &&& final(ring)@ == old(self)@.stepped(old(ring)@)
                },
                Poll::Pending(pause) => {
                    &&& old(ring)@.published < old(self)@.next()
                    &&& pause == old(ring)@.producer_wait.pause(old(self)@.progress)
                    &&& final(self)@ == (ReceiverView {
                        progress: old(ring)@.producer_wait.step(old(self)@.progress),
                        ..old(self)@
                    })
                    &&& final(ring)@ == old(ring)@
                },
            },
    {
        let next: isize = self.internal_cursor + 1;
        if self.committed_cache < next {
            match ring.sender_tracker().wait_for(next, &mut self.progress) {
                Poll::Pending(pause) => {
                    return Poll::Pending(pause);
                },
                Poll::Ready(seen) => {
                    self.committed_cache = seen;
                },
            }
        }
        Poll::Ready(self.take(ring))
    }

    /// Receives the next value if it is published, and says so if it is not.
    pub fn try_recv(&mut self, ring: &mut Ring<T>) -> (received: Result<T, ReceiverError>)
        requires
            old(ring).wf(),
            old(self)@.attached(old(ring)@),
        ensures
            final(ring).wf(),
            final(self)@.attached(final(ring)@),
            match received {
                Ok(value) => {
                    &&& old(ring)@.published >= old(self)@.next()
                    &&& cloned(old(ring)@.history[old(self)@.next()], value)
                    &&& final(self)@ == old(self)@.took(old(ring)@, 1)
                    &&& final(ring)@ == old(self)@.stepped(old(ring)@)
                },
                Err(error) => {
                    &&& old(ring)@.published < old(self)@.next()
                    &&& error == ReceiverError::NoNewData
                    &&& final(self)@ == old(self)@
                    &&& final(ring)@ == old(ring)@
                },
            },
    {
        let next: isize = self.internal_cursor + 1;
        if self.committed_cache < next {
            let seen: isize = ring.sender_tracker().current();
            if seen < next {
                return Err(ReceiverError::NoNewData);
            }
            self.committed_cache = seen;
        }
        Ok(self.take(ring))
    }

    /// Receives what is published and not yet received, up to `room` values,
    /// and appends it to `res` in the order of the sequence ids.
    pub fn batch_recv_into(&mut self, ring: &mut Ring<T>, res: &mut Vec<T>, room: usize) -> (received:
        Result<(), ReceiverError>)
        requires
            old(ring).wf(),
            old(self)@.attached(old(ring)@),
            old(res)@.len() + room <= usize::MAX,
        ensures
            final(ring).wf(),
            final(self)@.attached(final(ring)@),
            match received {
                Ok(()) => {
                    let ready = old(ring)@.published - old(self)@.cursor;
                    let count = if ready <= room { ready } else { room as int };
                    &&& ready > 0
                    &&& room > 0
                    &&& final(res)@.len() == old(res)@.len() + count
                    &&& final(res)@.subrange(0, old(res)@.len() as int) == old(res)@
                    &&& forall|j: int|
                        old(res)@.len() <= j < old(res)@.len() + count ==> cloned(
                            old(ring)@.history[old(self)@.next() + (j - old(res)@.len())],
                            #[trigger] final(res)@[j],
                        )
                    &&& final(self)@ == old(self)@.drained(old(ring)@, count)
                    &&& final(ring)@ == old(self)@.moved(old(ring)@, count)
                    &&& final(ring)@.moved_cursors_only(old(ring)@)
                },
                Err(error) => {
                    &&& error == (if old(ring)@.published <= old(self)@.cursor {
                        ReceiverError::NoNewData
                    } else {
                        ReceiverError::DestinationFull
                    })
                    &&& old(ring)@.published <= old(self)@.cursor || room == 0
                    &&& final(self)@ == old(self)@
                    &&& final(ring)@ == old(ring)@
                    &&& final(res)@ == old(res)@
                },
            },
    {
        let committed: isize = ring.sender_tracker().current();
        if self.internal_cursor >= committed {
            return Err(ReceiverError::NoNewData);
        }
        if room == 0 {
            return Err(ReceiverError::DestinationFull);
        }
        let next: isize = self.internal_cursor + 1;
        let ready: usize = (committed - self.internal_cursor) as usize;
        let count: usize = if ready <= room { ready } else { room };
        let ghost before = res@;
        let mut taken: usize = 0;
        while taken < count
            invariant
                ring.wf(),
                ring@ == old(ring)@,
                *self == *old(self),
                self@.attached(ring@),
                next == self@.next(),
                taken <= count <= ring@.published - self@.cursor,
                before == old(res)@,
                before.len() + count <= usize::MAX,
                res@.len() == before.len() + taken,
                res@.subrange(0, before.len() as int) == before,
                forall|j: int|
                    before.len() <= j < before.len() + taken ==> cloned(
                        ring@.history[next + (j - before.len())],
                        #[trigger] res@[j],
                    ),
            decreases count - taken,
        {
            let value: T = ring.read(next + taken as isize);
            res.push(value);
            taken = taken + 1;
            assert(res@.subrange(0, before.len() as int) =~= before);
        }
        let target: isize = self.internal_cursor + count as isize;
        let mut at: isize = self.position;
        while at < target
            invariant
                ring.wf(),
                ring@ == old(ring)@.advance_steps(old(self)@.position, at as int),
                ring@.holds(at as int),
                ring@.published == old(ring)@.published,
                ring@.capacity == old(ring)@.capacity,
                old(self)@.position <= at <= target <= ring@.published,
            decreases target - at,
        {
            ring.advance(at, at + 1);
            at = at + 1;
        }
        proof {
            lemma_advance_steps(
                old(ring)@,
                old(self)@.position,
                target as int,
            );
        }
        self.position = target;
        self.internal_cursor = target;
        self.committed_cache = committed;
        self.progress = Backoff::new();
        Ok(())
    }

    /// Receives what is published and not yet received, as far as the room
    /// goes that `res` has left without allocating again, and appends it to
    /// `res` in the order of the sequence ids.
    pub fn batch_recv(&mut self, ring: &mut Ring<T>, res: &mut Vec<T>) -> (received: Result<
        (),
        ReceiverError,
    >)
        requires
            old(ring).wf(),
            old(self)@.attached(old(ring)@),
        ensures
            final(ring).wf(),
            final(self)@.attached(final(ring)@),
            match received {
                Ok(()) => {
                    let count = final(self)@.cursor - old(self)@.cursor;
                    &&& 1 <= count <= old(ring)@.published - old(self)@.cursor
                    &&& final(res)@.len() == old(res)@.len() + count
                    &&& final(res)@.subrange(0, old(res)@.len() as int) == old(res)@
                    &&& forall|j: int|
                        old(res)@.len() <= j < old(res)@.len() + count ==> cloned(
                            old(ring)@.history[old(self)@.next() + (j - old(res)@.len())],
                            #[trigger] final(res)@[j],
                        )
                    &&& final(self)@ == old(self)@.drained(old(ring)@, count)
                    &&& final(ring)@ == old(self)@.moved(old(ring)@, count)
                    &&& final(ring)@.moved_cursors_only(old(ring)@)
                },
                Err(error) => {
                    &&& error == ReceiverError::NoNewData || error
                        == ReceiverError::DestinationFull
                    &&& error == ReceiverError::NoNewData <==> old(ring)@.published <= old(
                        self,
                    )@.cursor
                    &&& final(self)@ == old(self)@
                    &&& final(ring)@ == old(ring)@
                    &&& final(res)@ == old(res)@
                },
            },
    {
        let slots: usize = allocated(res);
        let room: usize = slots - res.len();
        self.batch_recv_into(ring, res, room)
    }

    /// Moves the cursor to the next value, which is published, and clones
    /// it out of its slot.
    fn take(&mut self, ring: &mut Ring<T>) -> (value: T)
        requires
            old(ring).wf(),
            old(self)@.attached(old(ring)@),
            old(self)@.next() <= old(self)@.committed_cache,
        ensures
            final(ring).wf(),
            final(self)@.attached(final(ring)@),
            cloned(old(ring)@.history[old(self)@.next()], value),
            final(self)@ == (ReceiverView {
                cursor: old(self)@.next(),
                position: old(self)@.next(),
                progress: Backoff { spins: 0, yields: 0, listening: false },
                ..old(self)@
            }),
            final(ring)@ == old(self)@.stepped(old(ring)@),
    {
        let next: isize = self.internal_cursor + 1;
        if self.position != next {
            ring.advance(self.internal_cursor, next);
            self.position = next;
        }
        let value: T = ring.read(next);
        self.internal_cursor = next;
        self.progress = Backoff::new();
        value
    }
}

impl<T> Receiver<T> for BroadcastReceiver<T> where T: Clone {
    open spec fn ready_for(&self, ring: &Ring<T>) -> bool {
        ring.wf() && self@.attached(ring@)
    }

    open spec fn receives(&self, ring: &Ring<T>, next: &Self, ring_next: &Ring<T>, poll: Poll<T>) -> bool {
        match poll {
            Poll::Ready(value) => {
                &&& ring@.published >= self@.next()
                &&& cloned(ring@.history[self@.next()], value)
                &&& next@ == self@.took(ring@, 1)
                &&& ring_next@ == self@.stepped(ring@)
            },
            Poll::Pending(pause) => {
                &&& ring@.published < self@.next()
                &&& pause == ring@.producer_wait.pause(self@.progress)
                &&& next@ == (ReceiverView {
                    progress: ring@.producer_wait.step(self@.progress),
                    ..self@
                })
                &&& ring_next@ == ring@
            },
        }
    }

    fn recv(&mut self, ring: &mut Ring<T>) -> (received: Result<Poll<T>, ReceiverError>) {
        Ok(BroadcastReceiver::recv(self, ring))
    }
}

} // verus!
