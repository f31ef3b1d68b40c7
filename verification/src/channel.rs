//! The ring and the construction of a channel.

use crate::channel::model::{
    lemma_advance, lemma_claim, lemma_deregister, lemma_fresh, lemma_front_in_window,
    lemma_publish, lemma_register, lemma_unread_is_kept, lemma_write, RingView,
};
use crate::channel::receiver::{BroadcastReceiver, ReceiverError, ReceiverView};
use crate::channel::sender::{BroadcastSender, SenderView};
use crate::channel::tracker::{
    held, MultiCursorTracker, ProducerTracker, ReceiverTracker, SequentialProducerTracker,
    Tracker, TrackerError,
};
use crate::channel::wait_strategy::{Backoff, SpinBlockWait};
use crate::utils::FastMod;
use vstd::arithmetic::power2::is_pow2;
use vstd::prelude::*;

pub mod laws;
pub mod model;
pub mod receiver;
pub mod sender;
pub mod tracker;
pub mod wait_strategy;

verus! {

/// What went wrong while the first receiver was placed on a new ring.
#[derive(Debug, Clone, Copy, PartialEq, Eq, Structural)]
pub enum SetupError {
    Tracker(TrackerError),
    Receiver(ReceiverError),
}

#[derive(Debug, Clone, Copy, PartialEq, Eq, Structural)]
pub enum ChannelError {
    /// A ring needs at least one slot.
    InvalidSize,
    /// The ring was made, but its first receiver could not be placed on it.
    SetupFailed(SetupError),
    /// Rounded up to a power of two, the size is more than `isize::MAX`.
    BufferTooBig,
}

impl ChannelError {
    /// The error in words.
    pub fn message(&self) -> (text: &'static str)
        ensures
            text == (match *self {
                ChannelError::InvalidSize => "size must be a power of 2",
                ChannelError::SetupFailed(_) => "failed to setup the channel",
                ChannelError::BufferTooBig => "requested buffer too big",
            }),
    {
        match self {
            ChannelError::InvalidSize => "size must be a power of 2",
            ChannelError::SetupFailed(_) => "failed to setup the channel",
            ChannelError::BufferTooBig => "requested buffer too big",
        }
    }
}

impl From<TrackerError> for ChannelError {
    fn from(error: TrackerError) -> (mapped: Self) {
        match error {
            TrackerError::InvalidSize => ChannelError::InvalidSize,
            TrackerError::PositionTooOld => ChannelError::SetupFailed(SetupError::Tracker(error)),
        }
    }
}

impl vstd::std_specs::convert::FromSpecImpl<TrackerError> for ChannelError {
    open spec fn obeys_from_spec() -> bool {
        true
    }

    open spec fn from_spec(error: TrackerError) -> Self {
        match error {
            TrackerError::InvalidSize => ChannelError::InvalidSize,
            TrackerError::PositionTooOld => ChannelError::SetupFailed(SetupError::Tracker(error)),
        }
    }
}

impl From<ReceiverError> for ChannelError {
    fn from(error: ReceiverError) -> (mapped: Self) {
        ChannelError::SetupFailed(SetupError::Receiver(error))
    }
}

impl vstd::std_specs::convert::FromSpecImpl<ReceiverError> for ChannelError {
    open spec fn obeys_from_spec() -> bool {
        true
    }

    open spec fn from_spec(error: ReceiverError) -> Self {
        ChannelError::SetupFailed(SetupError::Receiver(error))
    }
}

/// Whether some power of two that is not below `size` fits in an `isize`.
pub open spec fn fits(size: int) -> bool {
    exists|power: int| is_pow2(power) && size <= power <= isize::MAX
}

/// Whether `capacity` is the smallest power of two that is not below `size`.
pub open spec fn rounds_to(size: int, capacity: int) -> bool {
    &&& is_pow2(capacity)
    &&& capacity >= size
    &&& forall|other: int| is_pow2(other) && other >= size ==> capacity <= other
}

/// What a handle needs of the ring it works on.
pub trait Core {
    type T;

    type SendTracker: ProducerTracker;

    type ReadTracker: ReceiverTracker;

    /// The producers' tracker of this core.
    spec fn producer(&self) -> Self::SendTracker;

    /// The consumers' tracker of this core.
    spec fn consumer(&self) -> Self::ReadTracker;

    /// What the slots hold.
    spec fn slots(&self) -> Seq<Option<Self::T>>;

    /// The number of slots.
    spec fn size(&self) -> usize;

    fn sender_tracker(&self) -> (tracker: &Self::SendTracker)
        ensures
            *tracker == self.producer(),
    ;

    fn reader_tracker(&self) -> (tracker: &Self::ReadTracker)
        ensures
            *tracker == self.consumer(),
    ;

    fn ring(&self) -> (slots: &Vec<Option<Self::T>>)
        ensures
            slots@ == self.slots(),
    ;

    fn capacity(&self) -> (capacity: usize)
        ensures
            capacity == self.size(),
    ;
}

/// The shared core of a channel: the slots and the two trackers.
///
/// Every operation is one step that nothing can interleave with. Driven from
/// several threads, the steps have to be made one at a time.
///
/// A slot holds nothing until it is first written. A value that is
/// overwritten goes to the producer that overwrites it, and what the slots
/// still hold when the ring is dropped is dropped with it: every value is
/// dropped exactly once.
pub struct Ring<T> {
    ring: Vec<Option<T>>,
    capacity: usize,
    sender_tracker: SequentialProducerTracker<SpinBlockWait>,
    reader_tracker: MultiCursorTracker<SpinBlockWait>,
    history: Ghost<Map<int, T>>,
}

impl<T> View for Ring<T> {
    type V = RingView<T>;

    closed spec fn view(&self) -> RingView<T> {
        RingView {
            capacity: self.capacity as int,
            claimed: self.sender_tracker.claimed() as int,
            published: self.sender_tracker.watermark() as int,
            tail: self.reader_tracker.watermark() as int,
            counters: self.reader_tracker.counters(),
            readers: self.reader_tracker.readers() as int,
            slots: self.ring@,
            history: self.history@,
            producer_wait: self.sender_tracker.strategy(),
            consumer_wait: self.reader_tracker.strategy(),
        }
    }
}

impl<T> Ring<T> {
    /// What holds of the ring between any two operations.
    pub open spec fn wf(&self) -> bool {
        self@.wf()
    }

    /// A ring with the smallest power of two of slots that is not below
    /// `buffer_size`, on which nothing has happened yet.
    pub fn new(buffer_size: usize, producer_wait: SpinBlockWait, consumer_wait: SpinBlockWait) -> (made:
        Result<Self, ChannelError>)
        ensures
            match made {
                Ok(ring) => {
                    &&& buffer_size > 0
                    &&& rounds_to(buffer_size as int, ring@.capacity)
                    &&& ring@ == RingView::<T>::fresh(ring@.capacity, producer_wait, consumer_wait)
                    &&& ring.wf()
                },
                Err(error) => {
                    &&& error == (if buffer_size == 0 {
                        ChannelError::InvalidSize
                    } else {
                        ChannelError::BufferTooBig
                    })
                    &&& buffer_size == 0 || !fits(buffer_size as int)
                },
            },
            buffer_size > 0 && fits(buffer_size as int) ==> made.is_ok(),
    {
        if buffer_size == 0 {
            return Err(ChannelError::InvalidSize);
        }
        let buffer_size: usize = if let Some(bs) = buffer_size.checked_next_power_of_two() {
            bs
        } else {
            return Err(ChannelError::BufferTooBig);
        };
        if buffer_size > isize::MAX as usize {
            return Err(ChannelError::BufferTooBig);
        }
        let mut ring: Vec<Option<T>> = Vec::new();
        let mut filled: usize = 0;
        while filled < buffer_size
            invariant
                filled <= buffer_size,
                ring@ == Seq::new(filled as nat, |i: int| None::<T>),
            decreases buffer_size - filled,
        {
            ring.push(None);
            filled = filled + 1;
            assert(ring@ =~= Seq::new(filled as nat, |i: int| None::<T>));
        }
        let sender_tracker = SequentialProducerTracker::new(producer_wait);
        match MultiCursorTracker::new(buffer_size, consumer_wait) {
            Ok(reader_tracker) => {
                proof {
                    lemma_fresh::<T>(buffer_size as int, producer_wait, consumer_wait);
                }
                Ok(
                    Self {
                        ring,
                        capacity: buffer_size,
                        sender_tracker,
                        reader_tracker,
                        history: Ghost(Map::empty()),
                    },
                )
            },
            Err(error) => Err(ChannelError::from(error)),
        }
    }

    /// Hands out the next sequence id.
    pub fn claim(&mut self) -> (seq: isize)
        requires
            old(self).wf(),
            old(self)@.claimed < isize::MAX - old(self)@.capacity,
        ensures
            final(self).wf(),
            seq == old(self)@.claimed,
            final(self)@ == old(self)@.claim(),
    {
        proof {
            lemma_claim(self@);
        }
        self.sender_tracker.make_claim()
    }

    /// Writes `value` into the slot of the claimed id `seq`, which every
    /// receiver has left, and hands back what the slot held: the value of one
    /// round earlier, nothing during the first round.
    pub fn write(&mut self, seq: isize, value: T) -> (evicted: Option<T>)
        requires
            old(self).wf(),
            0 <= seq < old(self)@.claimed,
            !old(self)@.written(seq as int),
            seq - old(self)@.capacity < old(self)@.tail,
        ensures
            final(self).wf(),
            final(self)@ == old(self)@.write(seq as int, value),
            evicted == (if seq >= old(self)@.capacity {
                Some(old(self)@.history[seq - old(self)@.capacity])
            } else {
                None::<T>
            }),
    {
        proof {
            lemma_write(self@, seq as int, value);
        }
        let index: usize = seq.pow_2_mod(self.capacity as isize) as usize;
        let ghost written = value;
        let mut occupant: Option<T> = Some(value);
        core::mem::swap(&mut self.ring[index], &mut occupant);
        self.history = Ghost(self.history@.insert(seq as int, written));
        occupant
    }

    /// Makes the written id `seq` visible if every id before it is visible,
    /// and says whether it did.
    pub fn publish(&mut self, seq: isize) -> (done: bool)
        requires
            old(self).wf(),
            0 <= seq < old(self)@.claimed,
            old(self)@.written(seq as int),
        ensures
            final(self).wf(),
            done == (old(self)@.published == seq - 1),
            final(self)@ == old(self)@.publish(seq as int),
    {
        proof {
            lemma_publish(self@, seq as int);
        }
        self.sender_tracker.publish(seq)
    }

    /// Places a cursor at `at` (at 0 if `at` is negative), which is not
    /// beyond the watermark. Fails if that position lies behind the tail.
    pub fn register(&mut self, at: isize) -> (placed: Result<isize, TrackerError>)
        requires
            old(self).wf(),
            old(self)@.readers < isize::MAX,
            at <= old(self)@.front(),
        ensures
            final(self).wf(),
            final(self)@ == old(self)@.register(at as int),
            placed == ({
                let position = if at < 0 { 0 } else { at };
                if position < old(self)@.tail {
                    Err::<isize, TrackerError>(TrackerError::PositionTooOld)
                } else {
                    Ok::<isize, TrackerError>(position)
                }
            }),
    {
        proof {
            lemma_register(self@, at as int);
        }
        self.reader_tracker.register(at)
    }

    /// Moves the cursor of a receiver from `from` to `to`, over positions
    /// that no other receiver holds.
    pub fn advance(&mut self, from: isize, to: isize)
        requires
            old(self).wf(),
            old(self)@.holds(from as int),
            from < to <= old(self)@.published,
            forall|q: int| from < q < to ==> #[trigger] held(old(self)@.counters, q) == 0,
        ensures
            final(self).wf(),
            final(self)@ == old(self)@.advance(from as int, to as int),
            old(self)@.tail <= final(self)@.tail <= to,
            final(self)@.holds(to as int),
    {
        proof {
            lemma_advance(self@, from as int, to as int);
        }
        self.reader_tracker.update(from, to);
    }

    /// Takes the cursor of a receiver at `at` away.
    pub fn deregister(&mut self, at: isize)
        requires
            old(self).wf(),
            old(self)@.holds(at as int),
        ensures
            final(self).wf(),
            final(self)@ == old(self)@.deregister(at as int),
            old(self)@.tail <= final(self)@.tail <= old(self)@.front(),
    {
        proof {
            lemma_deregister(self@, at as int);
            lemma_front_in_window(self@);
        }
        self.reader_tracker.de_register(at);
    }

    /// A clone of the value with sequence id `seq`, which is published and
    /// not behind the tail.
    pub fn read(&self, seq: isize) -> (value: T) where T: Clone
        requires
            self.wf(),
            self@.tail <= seq <= self@.published,
        ensures
            cloned(self@.history[seq as int], value),
    {
        proof {
            lemma_unread_is_kept(self@, seq as int);
        }
        let index: usize = seq.pow_2_mod(self.capacity as isize) as usize;
        match &self.ring[index] {
            Some(value) => value.clone(),
            None => vstd::pervasive::unreached(),
        }
    }
}

impl<T> Core for Ring<T> {
    type T = T;

    type SendTracker = SequentialProducerTracker<SpinBlockWait>;

    type ReadTracker = MultiCursorTracker<SpinBlockWait>;

    closed spec fn producer(&self) -> Self::SendTracker {
        self.sender_tracker
    }

    closed spec fn consumer(&self) -> Self::ReadTracker {
        self.reader_tracker
    }

    closed spec fn slots(&self) -> Seq<Option<T>> {
        self.ring@
    }

    closed spec fn size(&self) -> usize {
        self.capacity
    }

    fn sender_tracker(&self) -> (tracker: &Self::SendTracker)
        ensures
            tracker.claimed() == self@.claimed,
            tracker.watermark() == self@.published,
            tracker.strategy() == self@.producer_wait,
    {
        &self.sender_tracker
    }

    fn reader_tracker(&self) -> (tracker: &Self::ReadTracker)
        ensures
            tracker.watermark() == self@.tail,
            tracker.counters() == self@.counters,
            tracker.readers() == self@.readers,
            tracker.strategy() == self@.consumer_wait,
    {
        &self.reader_tracker
    }

    fn ring(&self) -> (slots: &Vec<Option<T>>)
        ensures
            slots@ == self@.slots,
    {
        &self.ring
    }

    fn capacity(&self) -> (capacity: usize)
        ensures
            capacity == self@.capacity,
    {
        self.capacity
    }
}

/// A new ring with its first sender and its first receiver.
pub struct ChannelHandles<T> {
    pub ring: Ring<T>,
    pub sender: BroadcastSender<T>,
    pub receiver: BroadcastReceiver<T>,
}

impl<T> ChannelHandles<T> {
    fn new(ring: Ring<T>, sender: BroadcastSender<T>, receiver: BroadcastReceiver<T>) -> (handles:
        Self)
        ensures
            handles.ring == ring,
            handles.sender == sender,
            handles.receiver == receiver,
    {
        Self { ring, sender, receiver }
    }

    /// What a new channel of `capacity` slots consists of: a ring on which
    /// nothing has happened but that one receiver stands at position 0, an
    /// idle sender, and that receiver.
    pub open spec fn initial(self, capacity: int) -> bool {
        &&& self.ring.wf()
        &&& self.ring@ == RingView::<T>::fresh(
            capacity,
            self.ring@.producer_wait,
            self.ring@.consumer_wait,
        ).register(0)
        &&& self.sender@ == (SenderView::<T> {
            capacity,
            cached_tail: 0,
            in_flight: None,
            unwritten: None,
            progress: Backoff { spins: 0, yields: 0, listening: false },
        })
        &&& self.sender@.attached(self.ring@)
        &&& self.receiver@ == ReceiverView::placed(0, capacity, -1)
        &&& self.receiver@.attached(self.ring@)
    }

    pub fn dissolve(self) -> (parts: (Ring<T>, BroadcastSender<T>, BroadcastReceiver<T>))
        ensures
            parts == (self.ring, self.sender, self.receiver),
    {
        (self.ring, self.sender, self.receiver)
    }
}

/// Creates a new mpmc broadcast channel returning the ring with both a
/// sender and a receiver. Waiters go to sleep at once.
pub fn channel<T>(size: usize) -> (made: Result<ChannelHandles<T>, ChannelError>)
    ensures
        match made {
            Ok(handles) => {
                &&& size > 0
                &&& rounds_to(size as int, handles.ring@.capacity)
                &&& handles.initial(handles.ring@.capacity)
                &&& handles.ring@.producer_wait.spins() == 0
                &&& handles.ring@.producer_wait.yields() == 0
                &&& handles.ring@.consumer_wait.spins() == 0
                &&& handles.ring@.consumer_wait.yields() == 0
            },
            Err(error) => {
                &&& error == (if size == 0 {
                    ChannelError::InvalidSize
                } else {
                    ChannelError::BufferTooBig
                })
                &&& size == 0 || !fits(size as int)
            },
        },
        size > 0 && fits(size as int) ==> made.is_ok(),
{
    channel_with(size, SpinBlockWait::new(0, 0), SpinBlockWait::new(0, 0))
}

/// The same channel as `channel` makes.
pub fn busy_channel<T>(size: usize) -> (made: Result<ChannelHandles<T>, ChannelError>)
    ensures
        match made {
            Ok(handles) => {
                &&& size > 0
                &&& rounds_to(size as int, handles.ring@.capacity)
                &&& handles.initial(handles.ring@.capacity)
                &&& handles.ring@.producer_wait.spins() == 0
                &&& handles.ring@.producer_wait.yields() == 0
                &&& handles.ring@.consumer_wait.spins() == 0
                &&& handles.ring@.consumer_wait.yields() == 0
            },
            Err(error) => {
                &&& error == (if size == 0 {
                    ChannelError::InvalidSize
                } else {
                    ChannelError::BufferTooBig
                })
                &&& size == 0 || !fits(size as int)
            },
        },
        size > 0 && fits(size as int) ==> made.is_ok(),
{
    channel_with(size, SpinBlockWait::new(0, 0), SpinBlockWait::new(0, 0))
}

/// Creates a new channel whose consumers wait for the producers by
/// `producer_wait` and whose producers wait for the consumers by
/// `consumer_wait`.
pub fn channel_with<T>(size: usize, producer_wait: SpinBlockWait, consumer_wait: SpinBlockWait) -> (made:
    Result<ChannelHandles<T>, ChannelError>)
    ensures
        match made {
            Ok(handles) => {
                &&& size > 0
                &&& rounds_to(size as int, handles.ring@.capacity)
                &&& handles.initial(handles.ring@.capacity)
                &&& handles.ring@.producer_wait == producer_wait
                &&& handles.ring@.consumer_wait == consumer_wait
            },
            Err(error) => {
                &&& error == (if size == 0 {
                    ChannelError::InvalidSize
                } else {
                    ChannelError::BufferTooBig
                })
                &&& size == 0 || !fits(size as int)
            },
        },
        size > 0 && fits(size as int) ==> made.is_ok(),
{
    let mut core: Ring<T> = match Ring::new(size, producer_wait, consumer_wait) {
        Ok(core) => core,
        Err(error) => {
            return Err(error);
        },
    };
    let sender = BroadcastSender::from(&core);
    match BroadcastReceiver::try_from(&mut core) {
        Ok(receiver) => Ok(ChannelHandles::new(core, sender, receiver)),
        Err(error) => Err(ChannelError::from(error)),
    }
}

} // verus!
