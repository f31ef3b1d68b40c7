//! The producers' tracker: sequence ids are published in the order in which
//! they were claimed.

use crate::channel::tracker::{ProducerTracker, Tracker};
use crate::channel::wait_strategy::{Backoff, Pause, Poll, WaitStrategy};
use vstd::prelude::*;

verus! {

#[derive(Debug)]
pub struct SequentialProducerTracker<WS> {
    claimed: isize,
    published: isize,
    wait_strategy: WS,
}

impl<WS> SequentialProducerTracker<WS> where WS: WaitStrategy {
    /// The strategy by which consumers wait for the watermark.
    pub closed spec fn strategy(&self) -> WS {
        self.wait_strategy
    }

    /// A tracker that has handed out nothing and published nothing.
    pub fn new(wait_strategy: WS) -> (tracker: Self)
        ensures
            tracker.wf(),
            tracker.claimed() == 0,
            tracker.watermark() == -1,
            tracker.strategy() == wait_strategy,
    {
        Self { claimed: 0, published: -1, wait_strategy }
    }

    /// The number of sequence ids handed out so far, which is the next one
    /// to hand out.
    pub fn handed_out(&self) -> (count: isize)
        ensures
            count == self.claimed(),
    {
        self.claimed
    }

    /// The tracker's wait strategy.
    pub fn wait_strategy(&self) -> (strategy: &WS)
        ensures
            *strategy == self.strategy(),
    {
        &self.wait_strategy
    }
}

impl<WS> Tracker for SequentialProducerTracker<WS> where WS: WaitStrategy {
    closed spec fn watermark(&self) -> isize {
        self.published
    }

    open spec fn pause(&self, progress: Backoff) -> Pause {
        self.strategy().pause(progress)
    }

    open spec fn step(&self, progress: Backoff) -> Backoff {
        self.strategy().step(progress)
    }

    fn wait_for(&self, expected: isize, progress: &mut Backoff) -> (poll: Poll<isize>) {
        self.wait_strategy.wait_for_geq(self.published, expected, progress)
    }

    fn current(&self) -> (seq: isize) {
        self.published
    }
}

impl<WS> ProducerTracker for SequentialProducerTracker<WS> where WS: WaitStrategy {
    open spec fn wf(&self) -> bool {
        -1 <= self.watermark() < self.claimed()
    }

    closed spec fn claimed(&self) -> isize {
        self.claimed
    }

    fn make_claim(&mut self) -> (seq: isize)
        ensures
            final(self).strategy() == old(self).strategy(),
    {
        let seq: isize = self.claimed;
        self.claimed = seq + 1;
        seq
    }

    fn publish(&mut self, id: isize) -> (done: bool)
        ensures
            final(self).strategy() == old(self).strategy(),
    {
        if self.published != id - 1 {
            return false;
        }
        self.published = id;
        self.wait_strategy.notify();
        true
    }
}

} // verus!
