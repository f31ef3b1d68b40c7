//! The consumers' tracker: a reference count per slot and the tail.

use crate::channel::tracker::{
    chased, first_held, held, total, ReceiverTracker, Tracker, TrackerError,
};
use crate::channel::wait_strategy::{Backoff, Pause, Poll, WaitStrategy};
use crate::utils::{lemma_pow2_positive, FastMod};
use vstd::arithmetic::power2::is_pow2;
use vstd::prelude::*;

verus! {

/// Writing one counter changes the sum by the difference.
pub proof fn lemma_total_update(counters: Seq<usize>, index: int, value: usize)
    requires
        0 <= index < counters.len(),
    ensures
        total(counters.update(index, value)) == total(counters) - counters[index] + value,
    decreases counters.len(),
{
    if index == counters.len() - 1 {
        assert(counters.update(index, value).drop_last() =~= counters.drop_last());
    } else {
        assert(counters.update(index, value).drop_last() =~= counters.drop_last().update(
            index,
            value,
        ));
        lemma_total_update(counters.drop_last(), index, value);
    }
}

/// No counter is larger than the sum of all.
pub proof fn lemma_total_bounds(counters: Seq<usize>, index: int)
    requires
        0 <= index < counters.len(),
    ensures
        counters[index] <= total(counters),
        0 <= total(counters),
    decreases counters.len(),
{
    lemma_total_nonnegative(counters.drop_last());
    if index < counters.len() - 1 {
        lemma_total_bounds(counters.drop_last(), index);
    }
}

/// A sum of counters is never negative.
pub proof fn lemma_total_nonnegative(counters: Seq<usize>)
    ensures
        0 <= total(counters),
    decreases counters.len(),
{
    if counters.len() > 0 {
        lemma_total_nonnegative(counters.drop_last());
    }
}

/// Counters that are all zero sum to zero.
pub proof fn lemma_total_zero(counters: Seq<usize>)
    requires
        forall|i: int| 0 <= i < counters.len() ==> counters[i] == 0,
    ensures
        total(counters) == 0,
    decreases counters.len(),
{
    if counters.len() > 0 {
        lemma_total_zero(counters.drop_last());
    }
}

/// A run of `len` positions in a row meets every slot.
pub proof fn lemma_window_covers(len: int, from: int, index: int) -> (k: int)
    requires
        len > 0,
        0 <= index < len,
    ensures
        0 <= k < len,
        (from + k) % len == index,
{
    let distance = index - from;
    let rounds = distance / len;
    let k = distance % len;
    vstd::arithmetic::div_mod::lemma_fundamental_div_mod(distance, len);
    vstd::arithmetic::div_mod::lemma_mod_multiples_vanish(-rounds, index, len);
    vstd::arithmetic::div_mod::lemma_small_mod(index as nat, len as nat);
    assert(len * (-rounds) == -(len * rounds)) by (nonlinear_arith);
    k
}

/// Where some cursor is left, the search for the first held position ends
/// within one round of the slots, at a slot that is held, and passes only
/// slots that are not.
pub proof fn lemma_first_held(counters: Seq<usize>, from: int, steps: nat)
    requires
        counters.len() > 0,
    ensures
        from <= first_held(counters, from, steps) <= from + steps,
        forall|p: int|
            from <= p < first_held(counters, from, steps) ==> #[trigger] held(counters, p) == 0,
        first_held(counters, from, steps) < from + steps ==> held(
            counters,
            first_held(counters, from, steps),
        ) > 0,
    decreases steps,
{
    if steps == 0 || held(counters, from) > 0 {
    } else {
        lemma_first_held(counters, from + 1, (steps - 1) as nat);
    }
}

#[derive(Debug)]
pub struct MultiCursorTracker<WS> {
    counters: Vec<usize>,
    tail: isize,
    wait_strategy: WS,
    num_readers: isize,
}

impl<WS> MultiCursorTracker<WS> where WS: WaitStrategy {
    /// The strategy by which producers wait for the tail.
    pub closed spec fn strategy(&self) -> WS {
        self.wait_strategy
    }

    /// A tracker over `size` slots with no cursor placed and the tail at 0.
    /// Fails unless `size` is a power of two.
    pub fn new(size: usize, wait_strategy: WS) -> (made: Result<Self, TrackerError>)
        ensures
            match made {
                Ok(tracker) => {
                    &&& is_pow2(size as int)
                    &&& tracker.wf()
                    &&& tracker.counters() == Seq::new(size as nat, |i: int| 0usize)
                    &&& tracker.watermark() == 0
                    &&& tracker.readers() == 0
                    &&& tracker.strategy() == wait_strategy
                },
                Err(error) => !is_pow2(size as int) && error == TrackerError::InvalidSize,
            },
    {
        if !size.is_power_of_two() {
            return Err(TrackerError::InvalidSize);
        }
        let mut counters: Vec<usize> = Vec::new();
        let mut filled: usize = 0;
        while filled < size
            invariant
                filled <= size,
                counters@ == Seq::new(filled as nat, |i: int| 0usize),
            decreases size - filled,
        {
            counters.push(0);
            filled = filled + 1;
            assert(counters@ =~= Seq::new(filled as nat, |i: int| 0usize));
        }
        proof {
            lemma_total_zero(counters@);
        }
        Ok(Self { counters, tail: 0, wait_strategy, num_readers: 0 })
    }

    /// The tracker's wait strategy.
    pub fn wait_strategy(&self) -> (strategy: &WS)
        ensures
            *strategy == self.strategy(),
    {
        &self.wait_strategy
    }

    /// The number of cursors that stand at the slot of `position`.
    pub fn count_at(&self, position: isize) -> (count: usize)
        requires
            self.wf(),
            position >= 0,
        ensures
            count == held(self.counters(), position as int),
    {
        proof {
            lemma_pow2_positive(self.counters@.len() as int);
        }
        let index: usize = (position as usize).pow_2_mod(self.counters.len());
        self.counters[index]
    }

    /// The number of live receivers.
    pub fn num_readers(&self) -> (count: isize)
        ensures
            count == self.readers(),
    {
        self.num_readers
    }

    /// Moves the tail from `from`, which no cursor holds any more, to the
    /// first position that one holds, and wakes the producers. Without
    /// receivers the tail stays.
    fn chase_tail(&mut self, from: isize)
        requires
            old(self).wf(),
            from >= 0,
            from + old(self).counters().len() <= isize::MAX,
        ensures
            final(self).wf(),
            final(self).counters() == old(self).counters(),
            final(self).readers() == old(self).readers(),
            final(self).strategy() == old(self).strategy(),
            final(self).watermark() == (if old(self).readers() == 0 {
                old(self).watermark()
            } else {
                chased(old(self).counters(), from as int) as isize
            }),
    {
        let len: usize = self.counters.len();
        let ghost counters = self.counters@;
        proof {
            lemma_pow2_positive(len as int);
        }
        let mut current_id: usize = from as usize;
        let mut passed: usize = 0;
        loop
            invariant
                self.wf(),
                self.counters@ == counters,
                len == counters.len(),
                is_pow2(len as int),
                *self == *old(self),
                from >= 0,
                from + len <= isize::MAX,
                passed <= len,
                current_id == from + passed,
                forall|p: int| from <= p < current_id ==> #[trigger] held(counters, p) == 0,
                first_held(counters, from as int, len as nat) == first_held(
                    counters,
                    current_id as int,
                    (len - passed) as nat,
                ),
            ensures
                self.num_readers == 0,
            decreases len - passed,
        {
            if self.num_readers == 0 {
                // There are no readers left!
                break ;
            }
            proof {
                if passed == len {
                    assert forall|i: int| 0 <= i < counters.len() implies counters[i] == 0 by {
                        let k = lemma_window_covers(len as int, from as int, i);
                        assert(held(counters, from + k) == 0);
                    }
                    lemma_total_zero(counters);
                }
            }
            let index: usize = current_id.pow_2_mod(len);
            if self.counters[index] > 0 {
                self.tail = current_id as isize;
                self.wait_strategy.notify();
                return ;
            }
            current_id = current_id + 1;
            passed = passed + 1;
        }
    }
}

impl<WS> Tracker for MultiCursorTracker<WS> where WS: WaitStrategy {
    closed spec fn watermark(&self) -> isize {
        self.tail
    }

    open spec fn pause(&self, progress: Backoff) -> Pause {
        self.strategy().pause(progress)
    }

    open spec fn step(&self, progress: Backoff) -> Backoff {
        self.strategy().step(progress)
    }

    fn wait_for(&self, expected_tail: isize, progress: &mut Backoff) -> (poll: Poll<isize>) {
        self.wait_strategy.wait_for_geq(self.tail, expected_tail, progress)
    }

    fn current(&self) -> (seq: isize) {
        self.tail
    }
}

impl<WS> ReceiverTracker for MultiCursorTracker<WS> where WS: WaitStrategy {
    open spec fn wf(&self) -> bool {
        &&& is_pow2(self.counters().len() as int)
        &&& self.watermark() >= 0
        &&& self.readers() >= 0
        &&& total(self.counters()) == self.readers()
    }

    closed spec fn counters(&self) -> Seq<usize> {
        self.counters@
    }

    closed spec fn readers(&self) -> isize {
        self.num_readers
    }

    fn register(&mut self, at: isize) -> (placed: Result<isize, TrackerError>)
        ensures
            final(self).strategy() == old(self).strategy(),
    {
        let at: isize = if at < 0 { 0 } else { at };
        if at < self.tail {
            return Err(TrackerError::PositionTooOld);
        }
        proof {
            lemma_pow2_positive(self.counters@.len() as int);
        }
        let idx: usize = (at as usize).pow_2_mod(self.counters.len());
        proof {
            lemma_total_bounds(self.counters@, idx as int);
            lemma_total_update(self.counters@, idx as int, (self.counters@[idx as int] + 1) as usize);
        }
        let count: usize = self.counters[idx];
        self.counters.set(idx, count + 1);
        self.num_readers = self.num_readers + 1;
        Ok(at)
    }

    fn update(&mut self, from: isize, to: isize)
        ensures
            final(self).strategy() == old(self).strategy(),
    {
        proof {
            lemma_pow2_positive(self.counters@.len() as int);
        }
        let to_idx: usize = (to as usize).pow_2_mod(self.counters.len());
        let from_idx: usize = (from as usize).pow_2_mod(self.counters.len());
        proof {
            lemma_total_bounds(self.counters@, to_idx as int);
            lemma_total_update(
                self.counters@,
                to_idx as int,
                (self.counters@[to_idx as int] + 1) as usize,
            );
        }
        let count: usize = self.counters[to_idx];
        self.counters.set(to_idx, count + 1);
        let previous: usize = self.counters[from_idx];
        proof {
            lemma_total_update(self.counters@, from_idx as int, (previous - 1) as usize);
        }
        self.counters.set(from_idx, previous - 1);
        if previous == 1 && self.tail == from {
            self.tail = to;
            // the tail has moved: wake whoever waits for it
            self.wait_strategy.notify();
        }
    }

    fn de_register(&mut self, at: isize)
        ensures
            final(self).strategy() == old(self).strategy(),
    {
        if at >= 0 {
            proof {
                lemma_pow2_positive(self.counters@.len() as int);
            }
            let index: usize = (at as usize).pow_2_mod(self.counters.len());
            proof {
                lemma_total_bounds(self.counters@, index as int);
                lemma_total_update(
                    self.counters@,
                    index as int,
                    (self.counters@[index as int] - 1) as usize,
                );
            }
            let num_readers_left: isize = self.num_readers - 1;
            self.num_readers = num_readers_left;
            let previous: usize = self.counters[index];
            self.counters.set(index, previous - 1);
            if num_readers_left == 0 {
                return ;
            }
            if previous == 1 && at == self.tail {
                self.chase_tail(at);
            }
        }
    }
}

} // verus!
