//! How a waiter pauses between two looks at a counter.

use event_listener::{Event, EventListener};
use std::time::Duration;
use vstd::prelude::*;

verus! {

/// A counter that a waiter watches. One look at it gives one value; the two
/// tests say whether that value ends the wait.
pub trait Waitable: Sized {
    type InnerType;

    /// The value that a look at the counter gives.
    spec fn observed(&self) -> Self::InnerType;

    /// Whether `value` has come at least as far as `expected`.
    spec fn reaches(value: Self::InnerType, expected: Self::InnerType) -> bool;

    fn current_value(&self) -> (value: Self::InnerType)
        ensures
            value == self.observed(),
    ;

    /// The observed value if it has come at least as far as `expected`.
    fn greater_than_equal_to(&self, expected: &Self::InnerType) -> (hit: Option<Self::InnerType>)
        ensures
            hit == (if Self::reaches(self.observed(), *expected) {
                Some(self.observed())
            } else {
                None
            }),
    ;

    /// The observed value if it is exactly `expected`.
    fn equal_to(&self, expected: &Self::InnerType) -> (hit: Option<Self::InnerType>)
        ensures
            hit == (if self.observed() == *expected {
                Some(self.observed())
            } else {
                None
            }),
    ;
}

impl Waitable for isize {
    type InnerType = isize;

    open spec fn observed(&self) -> isize {
        *self
    }

    open spec fn reaches(value: isize, expected: isize) -> bool {
        value >= expected
    }

    fn current_value(&self) -> (value: isize) {
        *self
    }

    #[inline(always)]
    fn greater_than_equal_to(&self, expected: &isize) -> (hit: Option<isize>) {
        let value: isize = self.current_value();
        if value >= *expected {
            return Some(value);
        }
        None
    }

    #[inline(always)]
    fn equal_to(&self, expected: &isize) -> (hit: Option<isize>) {
        let value: isize = self.current_value();
        if value == *expected {
            return Some(value);
        }
        None
    }
}

impl Waitable for usize {
    type InnerType = usize;

    open spec fn observed(&self) -> usize {
        *self
    }

    open spec fn reaches(value: usize, expected: usize) -> bool {
        value >= expected
    }

    fn current_value(&self) -> (value: usize) {
        *self
    }

    #[inline(always)]
    fn greater_than_equal_to(&self, expected: &usize) -> (hit: Option<usize>) {
        let value: usize = self.current_value();
        if value >= *expected {
            return Some(value);
        }
        None
    }

    #[inline(always)]
    fn equal_to(&self, expected: &usize) -> (hit: Option<usize>) {
        let value: usize = self.current_value();
        if value == *expected {
            return Some(value);
        }
        None
    }
}

/// What a waiter does between two looks at the counter.
#[derive(Debug)]
pub enum Pause {
    /// Burn a few cycles with the processor's pause hint.
    Spin,
    /// Give the rest of the time slice to another thread.
    Yield,
    /// Sleep for at most the given time.
    Park(Duration),
    /// Register for the next notification, then look again before sleeping.
    Listen,
    /// Sleep until notified. Only handed out after `Listen` and one more look.
    Block,
}

/// The outcome of one look at the counter.
#[derive(Debug)]
pub enum Poll<R> {
    /// The test held; this is the value that was seen.
    Ready(R),
    /// The test failed; do this, then look again.
    Pending(Pause),
}

impl<R> Poll<R> {
    /// Whether the wait goes on.
    pub open spec fn spec_is_pending(&self) -> bool {
        self is Pending
    }

    /// Whether the wait goes on.
    #[verifier::when_used_as_spec(spec_is_pending)]
    pub fn is_pending(&self) -> (pending: bool)
        ensures
            pending == self.spec_is_pending(),
    {
        match self {
            Poll::Ready(_) => false,
            Poll::Pending(_) => true,
        }
    }

    /// Whether the wait is over.
    pub fn is_ready(&self) -> (ready: bool)
        ensures
            ready == !self.spec_is_pending(),
    {
        match self {
            Poll::Ready(_) => true,
            Poll::Pending(_) => false,
        }
    }
}

/// How far one wait has come: the looks that failed so far, by phase.
#[derive(Debug, Clone, Copy, PartialEq, Eq)]
pub struct Backoff {
    pub spins: u32,
    pub yields: u32,
    pub listening: bool,
}

impl Backoff {
    /// The start of a wait: nothing tried yet.
    pub fn new() -> (fresh: Self)
        ensures
            fresh == (Backoff { spins: 0, yields: 0, listening: false }),
    {
        Backoff { spins: 0, yields: 0, listening: false }
    }
}

/// `Event` of event-listener, carried through as a value of which nothing
/// is known.
#[verifier::external_type_specification]
#[verifier::external_body]
pub struct ExEvent(Event);

/// `EventListener` of event-listener, carried through as a value of which
/// nothing is known.
#[verifier::external_type_specification]
#[verifier::external_body]
pub struct ExEventListener(EventListener);

/// Calls `Event::new` of event-listener: an event that nobody listens to
/// yet. Nothing is claimed of it.
#[verifier::external_body]
fn fresh_event() -> Event {
    Event::new()
}

/// Whether `listener` listens to `event`: what `EventListener::listens_to` of
/// event-listener answers for the two. The answer is the same for as long as
/// both live: a listener is bound to the event that made it.
pub uninterp spec fn listens(listener: EventListener, event: Event) -> bool;

/// Calls `Event::listen` of event-listener: registers a listener that the next
/// notification of the event wakes. The listener listens to that event, as
/// `EventListener::listens_to` confirms of every listener that `listen` has
/// returned; nothing else is claimed of it.
#[verifier::external_body]
fn listen_to(event: &Event) -> (listener: EventListener)
    ensures
        listens(listener, *event),
{
    event.listen()
}

/// Calls `Event::notify` of event-listener for every registered listener. It
/// returns nothing and changes no value that the library can see.
#[verifier::external_body]
fn wake_all(event: &Event) {
    event.notify(usize::MAX)
}

/// The rule by which a waiter pauses between looks at a counter.
///
/// A wait is driven from outside: the caller looks at the counter with `wait`,
/// and where the answer is `Pending` it performs the pause and looks again,
/// handing back the same `Backoff`.
pub trait WaitStrategy {
    /// The pause after a failed look, given how far the wait has come.
    spec fn pause(&self, progress: Backoff) -> Pause;

    /// How far the wait has come after that pause.
    spec fn step(&self, progress: Backoff) -> Backoff;

    /// One look at `value` with the test `check`.
    fn wait<V: Waitable, F: Fn(&V, &V::InnerType) -> Option<V::InnerType>>(
        &self,
        value: V,
        expected: V::InnerType,
        check: F,
        progress: &mut Backoff,
    ) -> (poll: Poll<V::InnerType>)
        requires
            check.requires((&value, &expected)),
        ensures
            match poll {
                Poll::Ready(seen) => {
                    &&& check.ensures((&value, &expected), Some(seen))
                    &&& *final(progress) == *old(progress)
                },
                Poll::Pending(pause) => {
                    &&& check.ensures((&value, &expected), None)
                    &&& pause == self.pause(*old(progress))
                    &&& *final(progress) == self.step(*old(progress))
                },
            },
    ;

    /// One look at `value`, which ends the wait once it is at least `expected`.
    fn wait_for_geq<V: Waitable>(
        &self,
        value: V,
        expected: V::InnerType,
        progress: &mut Backoff,
    ) -> (poll: Poll<V::InnerType>)
        ensures
            poll == (if V::reaches(value.observed(), expected) {
                Poll::Ready(value.observed())
            } else {
                Poll::Pending(self.pause(*old(progress)))
            }),
            *final(progress) == (if V::reaches(value.observed(), expected) {
                *old(progress)
            } else {
                self.step(*old(progress))
            }),
    {
        let check = |v: &V, e: &V::InnerType| -> (hit: Option<V::InnerType>)
            ensures
                hit == (if V::reaches(v.observed(), *e) {
                    Some(v.observed())
                } else {
                    None
                }),
            { v.greater_than_equal_to(e) };
        self.wait(value, expected, check, progress)
    }

    /// One look at `value`, which ends the wait once it is exactly `expected`.
    fn wait_for_eq<V: Waitable>(
        &self,
        value: V,
        expected: V::InnerType,
        progress: &mut Backoff,
    ) -> (poll: Poll<V::InnerType>)
        ensures
            poll == (if value.observed() == expected {
                Poll::Ready(value.observed())
            } else {
                Poll::Pending(self.pause(*old(progress)))
            }),
            *final(progress) == (if value.observed() == expected {
                *old(progress)
            } else {
                self.step(*old(progress))
            }),
    {
        let check = |v: &V, e: &V::InnerType| -> (hit: Option<V::InnerType>)
            ensures
                hit == (if v.observed() == *e {
                    Some(v.observed())
                } else {
                    None
                }),
            { v.equal_to(e) };
        self.wait(value, expected, check, progress)
    }

    /// Whether a waiter may sleep until notified: only then is `Listen` or
    /// `Block` ever handed out, and only then does `notify` do anything.
    spec fn sleeps(&self) -> bool;

    /// No wake-up is missed: a waiter is sent to sleep only after it has
    /// registered for the notification and looked once more, and only by a
    /// strategy that lets waiters sleep.
    proof fn lemma_looks_again_before_sleep(&self, progress: Backoff)
        ensures
            self.pause(progress) == Pause::Block ==> progress.listening,
            self.pause(progress) == Pause::Listen ==> !progress.listening && self.step(
                progress,
            ).listening && self.pause(self.step(progress)) == Pause::Block,
            !progress.listening && self.step(progress).listening ==> self.pause(progress)
                == Pause::Listen,
            !self.sleeps() ==> self.pause(progress) != Pause::Listen && self.pause(progress)
                != Pause::Block,
    ;

    /// Whether `listener` listens to the event on which this strategy lets its
    /// waiters sleep, so that `notify` reaches it. No listener listens to a
    /// strategy that lets no waiter sleep.
    spec fn wakes(&self, listener: EventListener) -> bool;

    /// Registers for the next notification of this strategy, and hands back
    /// the listener to sleep on. A strategy that lets no waiter sleep has
    /// nothing to register with.
    fn listen(&self) -> (listener: Option<EventListener>)
        ensures
            listener.is_some() == self.sleeps(),
            match listener {
                Some(registered) => self.wakes(registered),
                None => true,
            },
    ;

    /// Wakes the waiters that sleep on this strategy, if it lets any sleep.
    #[inline(always)]
    fn notify(&self) {
    }
}

/// A raw spin loop: the most responsive strategy, at the price of a core.
#[derive(Debug)]
pub struct BusyWait {}

impl Default for BusyWait {
    fn default() -> Self {
        BusyWait {  }
    }
}

impl Clone for BusyWait {
    fn clone(&self) -> (strategy: Self)
        ensures
            strategy == *self,
    {
        BusyWait {  }
    }
}

impl WaitStrategy for BusyWait {
    open spec fn pause(&self, progress: Backoff) -> Pause {
        Pause::Spin
    }

    open spec fn step(&self, progress: Backoff) -> Backoff {
        progress
    }

    #[inline(always)]
    fn wait<V: Waitable, F: Fn(&V, &V::InnerType) -> Option<V::InnerType>>(
        &self,
        value: V,
        expected: V::InnerType,
        check: F,
        progress: &mut Backoff,
    ) -> (poll: Poll<V::InnerType>) {
        if let Some(result) = check(&value, &expected) {
            return Poll::Ready(result);
        }
        Poll::Pending(Pause::Spin)
    }

    proof fn lemma_looks_again_before_sleep(&self, progress: Backoff) {
    }

    open spec fn sleeps(&self) -> bool {
        false
    }

    open spec fn wakes(&self, listener: EventListener) -> bool {
        false
    }

    fn listen(&self) -> (listener: Option<EventListener>) {
        None
    }
}

/// A yield loop: decently responsive, lets other threads progress, still
/// keeps the processor busy.
#[derive(Debug)]
pub struct YieldWait {
    num_spins: u32,
}

impl YieldWait {
    /// The number of looks that are followed by a spin before the waiter
    /// starts to yield.
    pub closed spec fn spins(&self) -> u32 {
        self.num_spins
    }

    pub fn new(num_spins: u32) -> (strategy: Self)
        ensures
            strategy.spins() == num_spins,
    {
        Self { num_spins }
    }
}

impl WaitStrategy for YieldWait {
    open spec fn pause(&self, progress: Backoff) -> Pause {
        if progress.spins < self.spins() {
            Pause::Spin
        } else {
            Pause::Yield
        }
    }

    open spec fn step(&self, progress: Backoff) -> Backoff {
        if progress.spins < self.spins() {
            Backoff { spins: (progress.spins + 1) as u32, ..progress }
        } else {
            progress
        }
    }

    #[inline(always)]
    fn wait<V: Waitable, F: Fn(&V, &V::InnerType) -> Option<V::InnerType>>(
        &self,
        value: V,
        expected: V::InnerType,
        check: F,
        progress: &mut Backoff,
    ) -> (poll: Poll<V::InnerType>) {
        if let Some(result) = check(&value, &expected) {
            return Poll::Ready(result);
        }
        if progress.spins < self.num_spins {
            progress.spins = progress.spins + 1;
            return Poll::Pending(Pause::Spin);
        }
        Poll::Pending(Pause::Yield)
    }

    proof fn lemma_looks_again_before_sleep(&self, progress: Backoff) {
    }

    open spec fn sleeps(&self) -> bool {
        false
    }

    open spec fn wakes(&self, listener: EventListener) -> bool {
        false
    }

    fn listen(&self) -> (listener: Option<EventListener>) {
        None
    }
}

impl Clone for YieldWait {
    fn clone(&self) -> (strategy: Self)
        ensures
            strategy == *self,
    {
        Self { num_spins: self.num_spins }
    }
}

impl Default for YieldWait {
    fn default() -> (strategy: Self)
        ensures
            strategy.spins() == 100,
    {
        Self::new(100)
    }
}

/// The time that `Duration::from_nanos` makes of a number of nanoseconds.
pub uninterp spec fn nanoseconds(nanos: u64) -> Duration;

/// `Duration::from_nanos` of std builds the time span from its length in
/// nanoseconds; the span depends on that number alone.
pub assume_specification[ Duration::from_nanos ](nanos: u64) -> (span: Duration)
    ensures
        span == nanoseconds(nanos),
;

/// Spins, then yields, then sleeps for a fixed time between looks.
#[derive(Debug)]
pub struct SleepWait {
    sleep_time_ns: Duration,
    num_spin: u32,
    num_yield: u32,
}

impl SleepWait {
    /// The time slept between two looks once spinning and yielding are used
    /// up.
    pub closed spec fn sleep_time(&self) -> Duration {
        self.sleep_time_ns
    }

    /// The number of looks that are followed by a spin.
    pub closed spec fn spins(&self) -> u32 {
        self.num_spin
    }

    /// The number of looks that are followed by a yield.
    pub closed spec fn yields(&self) -> u32 {
        self.num_yield
    }

    pub fn new(sleep_time_ns: Duration, num_spin: u32, num_yield: u32) -> (strategy: Self)
        ensures
            strategy.sleep_time() == sleep_time_ns,
            strategy.spins() == num_spin,
            strategy.yields() == num_yield,
    {
        Self { sleep_time_ns, num_spin, num_yield }
    }
}

impl WaitStrategy for SleepWait {
    open spec fn pause(&self, progress: Backoff) -> Pause {
        if progress.spins < self.spins() {
            Pause::Spin
        } else if progress.yields < self.yields() {
            Pause::Yield
        } else {
            Pause::Park(self.sleep_time())
        }
    }

    open spec fn step(&self, progress: Backoff) -> Backoff {
        if progress.spins < self.spins() {
            Backoff { spins: (progress.spins + 1) as u32, ..progress }
        } else if progress.yields < self.yields() {
            Backoff { yields: (progress.yields + 1) as u32, ..progress }
        } else {
            progress
        }
    }

    #[inline(always)]
    fn wait<V: Waitable, F: Fn(&V, &V::InnerType) -> Option<V::InnerType>>(
        &self,
        value: V,
        expected: V::InnerType,
        check: F,
        progress: &mut Backoff,
    ) -> (poll: Poll<V::InnerType>) {
        if let Some(result) = check(&value, &expected) {
            return Poll::Ready(result);
        }
        if progress.spins < self.num_spin {
            progress.spins = progress.spins + 1;
            return Poll::Pending(Pause::Spin);
        }
        if progress.yields < self.num_yield {
            progress.yields = progress.yields + 1;
            return Poll::Pending(Pause::Yield);
        }
        Poll::Pending(Pause::Park(self.sleep_time_ns))
    }

    proof fn lemma_looks_again_before_sleep(&self, progress: Backoff) {
    }

    open spec fn sleeps(&self) -> bool {
        false
    }

    open spec fn wakes(&self, listener: EventListener) -> bool {
        false
    }

    fn listen(&self) -> (listener: Option<EventListener>) {
        None
    }
}

impl Clone for SleepWait {
    fn clone(&self) -> (strategy: Self)
        ensures
            strategy == *self,
    {
        Self {
            sleep_time_ns: self.sleep_time_ns,
            num_spin: self.num_spin,
            num_yield: self.num_yield,
        }
    }
}

impl Default for SleepWait {
    fn default() -> (strategy: Self)
        ensures
            strategy.sleep_time() == nanoseconds(100),
            strategy.spins() == 100,
            strategy.yields() == 100,
    {
        Self::new(Duration::from_nanos(100), 100, 100)
    }
}

/// Sleeps on an event between looks. Before it sleeps, the waiter registers
/// with the event and looks once more, so that a notification sent between
/// the failed look and the sleep is not missed.
#[derive(Debug)]
pub struct BlockWait {
    event: Event,
}

impl Default for BlockWait {
    fn default() -> Self {
        BlockWait { event: fresh_event() }
    }
}

impl Clone for BlockWait {
    /// A clone has an event of its own: the two share no waiters.
    fn clone(&self) -> Self {
        BlockWait { event: fresh_event() }
    }
}

impl WaitStrategy for BlockWait {
    open spec fn pause(&self, progress: Backoff) -> Pause {
        if progress.listening {
            Pause::Block
        } else {
            Pause::Listen
        }
    }

    open spec fn step(&self, progress: Backoff) -> Backoff {
        Backoff { listening: !progress.listening, ..progress }
    }

    #[inline(always)]
    fn wait<V: Waitable, F: Fn(&V, &V::InnerType) -> Option<V::InnerType>>(
        &self,
        value: V,
        expected: V::InnerType,
        check: F,
        progress: &mut Backoff,
    ) -> (poll: Poll<V::InnerType>) {
        if let Some(result) = check(&value, &expected) {
            return Poll::Ready(result);
        }
        let listening: bool = progress.listening;
        progress.listening = !listening;
        if listening {
            Poll::Pending(Pause::Block)
        } else {
            Poll::Pending(Pause::Listen)
        }
    }

    proof fn lemma_looks_again_before_sleep(&self, progress: Backoff) {
        assert(self.sleeps());
    }

    open spec fn sleeps(&self) -> bool {
        true
    }

    closed spec fn wakes(&self, listener: EventListener) -> bool {
        listens(listener, self.event)
    }

    fn listen(&self) -> (listener: Option<EventListener>) {
        Some(listen_to(&self.event))
    }

    #[inline(always)]
    fn notify(&self) {
        wake_all(&self.event);
    }
}

/// Spins, then yields, then sleeps on an event. The default strategy.
#[derive(Debug)]
pub struct SpinBlockWait {
    block_wait: BlockWait,
    num_spin: u32,
    num_yield: u32,
}

impl SpinBlockWait {
    /// The number of looks that are followed by a spin.
    pub closed spec fn spins(&self) -> u32 {
        self.num_spin
    }

    /// The number of looks that are followed by a yield.
    pub closed spec fn yields(&self) -> u32 {
        self.num_yield
    }

    pub fn new(num_spin: u32, num_yield: u32) -> (strategy: Self)
        ensures
            strategy.spins() == num_spin,
            strategy.yields() == num_yield,
    {
        Self { block_wait: BlockWait::default(), num_spin, num_yield }
    }
}

impl Clone for SpinBlockWait {
    fn clone(&self) -> (strategy: Self)
        ensures
            strategy.spins() == self.spins(),
            strategy.yields() == self.yields(),
    {
        Self::new(self.num_spin, self.num_yield)
    }
}

impl Default for SpinBlockWait {
    fn default() -> (strategy: Self)
        ensures
            strategy.spins() == 50,
            strategy.yields() == 50,
    {
        Self::new(50, 50)
    }
}

impl WaitStrategy for SpinBlockWait {
    open spec fn pause(&self, progress: Backoff) -> Pause {
        if progress.spins < self.spins() {
            Pause::Spin
        } else if progress.yields < self.yields() {
            Pause::Yield
        } else if progress.listening {
            Pause::Block
        } else {
            Pause::Listen
        }
    }

    open spec fn step(&self, progress: Backoff) -> Backoff {
        if progress.spins < self.spins() {
            Backoff { spins: (progress.spins + 1) as u32, ..progress }
        } else if progress.yields < self.yields() {
            Backoff { yields: (progress.yields + 1) as u32, ..progress }
        } else {
            Backoff { listening: !progress.listening, ..progress }
        }
    }

    #[inline(always)]
    fn wait<V: Waitable, F: Fn(&V, &V::InnerType) -> Option<V::InnerType>>(
        &self,
        value: V,
        expected: V::InnerType,
        check: F,
        progress: &mut Backoff,
    ) -> (poll: Poll<V::InnerType>) {
        if progress.spins < self.num_spin {
            if let Some(result) = check(&value, &expected) {
                return Poll::Ready(result);
            }
            progress.spins = progress.spins + 1;
            return Poll::Pending(Pause::Spin);
        }
        if progress.yields < self.num_yield {
            if let Some(result) = check(&value, &expected) {
                return Poll::Ready(result);
            }
            progress.yields = progress.yields + 1;
            return Poll::Pending(Pause::Yield);
        }
        self.block_wait.wait(value, expected, check, progress)
    }

    proof fn lemma_looks_again_before_sleep(&self, progress: Backoff) {
        assert(self.sleeps());
    }

    open spec fn sleeps(&self) -> bool {
        true
    }

    closed spec fn wakes(&self, listener: EventListener) -> bool {
        self.block_wait.wakes(listener)
    }

    fn listen(&self) -> (listener: Option<EventListener>) {
        self.block_wait.listen()
    }

    #[inline(always)]
    fn notify(&self) {
        self.block_wait.notify();
    }
}

} // verus!
