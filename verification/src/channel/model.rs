//! The ring as a mathematical value, the steps that change it, and the proof
//! that each step keeps it well formed.

use crate::channel::tracker::broadcast_tracker::{
    lemma_first_held, lemma_total_bounds, lemma_total_update, lemma_total_zero,
    lemma_window_covers,
};
use crate::channel::tracker::{chased, held, pinned, released, total};
use crate::channel::wait_strategy::SpinBlockWait;
use crate::utils::lemma_pow2_positive;
use vstd::arithmetic::div_mod::{
    lemma_fundamental_div_mod, lemma_mod_add_multiples_vanish, lemma_mod_bound,
    lemma_mod_sub_multiples_vanish, lemma_small_mod,
};
use vstd::arithmetic::power2::is_pow2;
use vstd::prelude::*;

verus! {

/// The ring as a mathematical value: what its slots, its two trackers and its
/// record of everything ever written hold.
pub struct RingView<T> {
    /// The number of slots.
    pub capacity: int,
    /// The next sequence id to hand out.
    pub claimed: int,
    /// The highest id such that it and every id before it has been written
    /// and made visible; -1 before the first.
    pub published: int,
    /// The lowest position that a live receiver may still stand at.
    pub tail: int,
    /// Per slot, the number of receivers whose cursor stands there.
    pub counters: Seq<usize>,
    /// The number of live receivers.
    pub readers: int,
    /// What each slot holds now: nothing before its first write.
    pub slots: Seq<Option<T>>,
    /// Every value ever written, by its sequence id.
    pub history: Map<int, T>,
    /// How consumers wait for the producers' watermark.
    pub producer_wait: SpinBlockWait,
    /// How producers wait for the tail.
    pub consumer_wait: SpinBlockWait,
}

impl<T> RingView<T> {
    /// Whether the value with sequence id `id` has been written.
    pub open spec fn written(self, id: int) -> bool {
        self.history.dom().contains(id)
    }

    /// Whether `id` is the last id written to its slot.
    pub open spec fn latest(self, id: int) -> bool {
        self.written(id) && !self.written(id + self.capacity)
    }

    /// The newest position at which a cursor may stand: the watermark, or 0
    /// while nothing is published.
    pub open spec fn front(self) -> int {
        if self.published < 0 {
            0
        } else {
            self.published
        }
    }

    /// Whether some live receiver stands at `position`.
    pub open spec fn holds(self, position: int) -> bool {
        self.tail <= position <= self.front() && held(self.counters, position) >= 1
    }

    /// What holds of the ring between any two operations.
    pub open spec fn wf(self) -> bool {
        // the number of slots is a power of two, so that a mask finds the slot
        &&& is_pow2(self.capacity)
        &&& self.capacity <= isize::MAX
        &&& self.slots.len() == self.capacity
        &&& self.counters.len() == self.capacity
        // less is published than handed out, and the ids do not run out
        &&& -1 <= self.published < self.claimed <= isize::MAX - self.capacity
        // the tail never passes the watermark
        &&& 0 <= self.tail <= self.front()
        // every live receiver is counted in exactly one slot
        &&& 0 <= self.readers <= isize::MAX
        &&& total(self.counters) == self.readers
        // only claimed ids are written, and none more than a round ahead of
        // the tail: no producer overwrites what a receiver has yet to read
        &&& forall|id: int| #[trigger]
            self.written(id) ==> 0 <= id < self.claimed && id - self.capacity < self.tail
        // what is published is written
        &&& forall|id: int| 0 <= id <= self.published ==> #[trigger] self.written(id)
        // a slot holds the value of the last id that was written to it
        &&& forall|id: int| #[trigger]
            self.latest(id) ==> self.slots[id % self.capacity] == Some(self.history[id])
        // and nothing before its first write
        &&& forall|i: int|
            #![trigger self.written(i)]
            0 <= i < self.capacity && !self.written(i) ==> self.slots[i].is_none()
        // within one round from the tail a count stands for one position, and
        // no receiver stands beyond the watermark
        &&& forall|p: int|
            self.tail <= p < self.tail + self.capacity && #[trigger] held(self.counters, p) > 0
                ==> p <= self.front()
    }

    /// A ring of `capacity` slots on which nothing has happened yet.
    pub open spec fn fresh(
        capacity: int,
        producer_wait: SpinBlockWait,
        consumer_wait: SpinBlockWait,
    ) -> Self {
        RingView {
            capacity,
            claimed: 0,
            published: -1,
            tail: 0,
            counters: Seq::new(capacity as nat, |i: int| 0usize),
            readers: 0,
            slots: Seq::new(capacity as nat, |i: int| None::<T>),
            history: Map::empty(),
            producer_wait,
            consumer_wait,
        }
    }

    /// The ring after the next sequence id has been handed out.
    pub open spec fn claim(self) -> Self {
        RingView { claimed: self.claimed + 1, ..self }
    }

    /// The ring after `value` has been written under sequence id `seq`.
    pub open spec fn write(self, seq: int, value: T) -> Self {
        RingView {
            slots: self.slots.update(seq % self.capacity, Some(value)),
            history: self.history.insert(seq, value),
            ..self
        }
    }

    /// The ring after a producer that has it to itself has sent `value`.
    pub open spec fn push(self, value: T) -> Self {
        self.claim().write(self.claimed, value).publish(self.claimed)
    }

    /// Whether no claimed id is still on its way.
    pub open spec fn quiet(self) -> bool {
        self.published == self.claimed - 1
    }

    /// The published values in the order of their sequence ids: what a
    /// receiver that was there from the start has received or will receive.
    pub open spec fn log(self) -> Seq<T> {
        Seq::new((self.published + 1) as nat, |id: int| self.history[id])
    }

    /// The ring after a producer has tried to make `seq` visible: the
    /// watermark moves only if every id before `seq` is visible.
    pub open spec fn publish(self, seq: int) -> Self {
        if self.published == seq - 1 {
            RingView { published: seq, ..self }
        } else {
            self
        }
    }

    /// The ring after a receiver has asked for a cursor at `at` (at 0 if `at`
    /// is negative): unchanged if that position lies behind the tail.
    pub open spec fn register(self, at: int) -> Self {
        let position = if at < 0 { 0 } else { at };
        if position < self.tail {
            self
        } else {
            RingView {
                counters: pinned(self.counters, position),
                readers: self.readers + 1,
                ..self
            }
        }
    }

    /// The ring after a cursor has moved from `from` to `to`.
    pub open spec fn advance(self, from: int, to: int) -> Self {
        let pinned_first = pinned(self.counters, to);
        RingView {
            counters: released(pinned_first, from),
            tail: if held(pinned_first, from) == 1 && self.tail == from {
                to
            } else {
                self.tail
            },
            ..self
        }
    }

    /// The ring after a cursor has moved from `from` to `to` one position at
    /// a time.
    pub open spec fn advance_steps(self, from: int, to: int) -> Self
        decreases to - from,
    {
        if to <= from {
            self
        } else {
            self.advance_steps(from, to - 1).advance(to - 1, to)
        }
    }

    /// Whether the ring differs from `before` at most in where the cursors
    /// stand and in the tail, which has not moved back.
    pub open spec fn moved_cursors_only(self, before: Self) -> bool {
        &&& self.capacity == before.capacity
        &&& self.claimed == before.claimed
        &&& self.published == before.published
        &&& self.readers == before.readers
        &&& self.slots == before.slots
        &&& self.history == before.history
        &&& self.producer_wait == before.producer_wait
        &&& self.consumer_wait == before.consumer_wait
        &&& self.tail >= before.tail
    }

    /// The ring after the receiver at `at` has left.
    pub open spec fn deregister(self, at: int) -> Self {
        let counters = released(self.counters, at);
        RingView {
            counters,
            readers: self.readers - 1,
            tail: if self.readers - 1 > 0 && held(self.counters, at) == 1 && self.tail == at {
                chased(counters, at)
            } else {
                self.tail
            },
            ..self
        }
    }
}

/// Two different positions that share a slot lie at least one round apart.
pub proof fn lemma_same_slot_apart(a: int, b: int, capacity: int)
    requires
        capacity > 0,
        a % capacity == b % capacity,
        a != b,
    ensures
        a - b >= capacity || b - a >= capacity,
{
    lemma_fundamental_div_mod(a, capacity);
    lemma_fundamental_div_mod(b, capacity);
    let qa = a / capacity;
    let qb = b / capacity;
    assert(a - b == capacity * (qa - qb)) by (nonlinear_arith)
        requires
            a == capacity * qa + (a % capacity),
            b == capacity * qb + (b % capacity),
            a % capacity == b % capacity,
    ;
    assert(a - b >= capacity || b - a >= capacity) by (nonlinear_arith)
        requires
            a - b == capacity * (qa - qb),
            a != b,
            capacity > 0,
    ;
}

/// The watermark is less than one round ahead of the tail.
pub proof fn lemma_front_in_window<T>(ring: RingView<T>)
    requires
        ring.wf(),
    ensures
        ring.capacity >= 1,
        ring.tail <= ring.front() < ring.tail + ring.capacity,
{
    lemma_pow2_positive(ring.capacity);
    if ring.published >= 0 {
        assert(ring.written(ring.published));
    }
}

/// A ring on which nothing has happened yet is well formed.
pub proof fn lemma_fresh<T>(capacity: int, producer_wait: SpinBlockWait, consumer_wait: SpinBlockWait)
    requires
        is_pow2(capacity),
        capacity <= isize::MAX,
    ensures
        RingView::<T>::fresh(capacity, producer_wait, consumer_wait).wf(),
{
    let ring = RingView::<T>::fresh(capacity, producer_wait, consumer_wait);
    lemma_pow2_positive(capacity);
    lemma_total_zero(ring.counters);
    assert forall|p: int|
        ring.tail <= p < ring.tail + ring.capacity && #[trigger] held(ring.counters, p) > 0 implies p
        <= ring.front() by {
        lemma_mod_bound(p, capacity);
    }
}

/// Handing out the next sequence id keeps the ring well formed.
pub proof fn lemma_claim<T>(ring: RingView<T>)
    requires
        ring.wf(),
        ring.claimed < isize::MAX - ring.capacity,
    ensures
        ring.claim().wf(),
{
    let after = ring.claim();
    assert forall|id: int| #[trigger] after.written(id) implies 0 <= id < after.claimed && id
        - after.capacity < after.tail by {
        assert(ring.written(id));
    }
    assert forall|id: int| 0 <= id <= after.published implies #[trigger] after.written(id) by {
        assert(ring.written(id));
    }
    assert forall|id: int| #[trigger] after.latest(id) implies after.slots[id % after.capacity]
        == Some(after.history[id]) by {
        assert(ring.latest(id));
    }
    assert forall|i: int|
        #![trigger after.written(i)]
        0 <= i < after.capacity && !after.written(i) implies after.slots[i].is_none() by {
        assert(!ring.written(i));
    }
}

/// Writing a claimed id whose slot every receiver has left keeps the ring well
/// formed, and what the slot held before is the value of one round earlier:
/// nothing during the first round.
pub proof fn lemma_write<T>(ring: RingView<T>, seq: int, value: T)
    requires
        ring.wf(),
        0 <= seq < ring.claimed,
        !ring.written(seq),
        seq - ring.capacity < ring.tail,
    ensures
        ring.write(seq, value).wf(),
        0 <= seq % ring.capacity < ring.capacity,
        ring.slots[seq % ring.capacity] == (if seq >= ring.capacity {
            Some(ring.history[seq - ring.capacity])
        } else {
            None::<T>
        }),
{
    let cap = ring.capacity;
    let after = ring.write(seq, value);
    lemma_front_in_window(ring);
    lemma_mod_bound(seq, cap);
    assert forall|id: int| #[trigger] after.written(id) implies 0 <= id < after.claimed && id - cap
        < after.tail by {
        if id != seq {
            assert(ring.written(id));
        }
    }
    assert forall|id: int| 0 <= id <= after.published implies #[trigger] after.written(id) by {
        assert(ring.written(id));
    }
    assert forall|id: int| #[trigger] after.latest(id) implies after.slots[id % cap] == Some(
        after.history[id],
    ) by {
        lemma_mod_bound(id, cap);
        if id != seq {
            assert(ring.written(id));
            assert(!ring.written(id + cap));
            assert(ring.latest(id));
            assert(id + cap != seq);
            if id % cap == seq % cap {
                lemma_same_slot_apart(id, seq, cap);
                if id - seq >= cap {
                    assert(ring.written(seq));
                } else {
                    lemma_mod_add_multiples_vanish(id, cap);
                    lemma_same_slot_apart(id + cap, seq, cap);
                    assert(ring.written(id + cap));
                }
            }
        }
    }
    assert forall|i: int|
        #![trigger after.written(i)]
        0 <= i < cap && !after.written(i) implies after.slots[i].is_none() by {
        assert(!ring.written(i));
        if i == seq % cap {
            lemma_small_mod(i as nat, cap as nat);
            lemma_same_slot_apart(i, seq, cap);
            assert(ring.written(i));
        }
    }
    if seq >= cap {
        let before = seq - cap;
        lemma_mod_sub_multiples_vanish(seq, cap);
        assert(ring.written(before));
        assert(ring.latest(before));
    } else {
        lemma_small_mod(seq as nat, cap as nat);
    }
}

/// Making a written id visible keeps the ring well formed.
pub proof fn lemma_publish<T>(ring: RingView<T>, seq: int)
    requires
        ring.wf(),
        0 <= seq < ring.claimed,
        ring.written(seq),
    ensures
        ring.publish(seq).wf(),
{
    let after = ring.publish(seq);
    if ring.published == seq - 1 {
        assert forall|id: int| #[trigger] after.written(id) implies 0 <= id < after.claimed && id
            - after.capacity < after.tail by {
            assert(ring.written(id));
        }
        assert forall|id: int| 0 <= id <= after.published implies #[trigger] after.written(id) by {
            if id != seq {
                assert(ring.written(id));
            }
        }
        assert forall|id: int| #[trigger] after.latest(id) implies after.slots[id % after.capacity]
            == Some(after.history[id]) by {
            assert(ring.latest(id));
        }
        assert forall|i: int|
            #![trigger after.written(i)]
            0 <= i < after.capacity && !after.written(i) implies after.slots[i].is_none() by {
            assert(!ring.written(i));
        }
    }
}

/// Everything from the tail up to the watermark is still in its slot: no
/// producer has overwritten what some receiver has yet to read.
pub proof fn lemma_unread_is_kept<T>(ring: RingView<T>, seq: int)
    requires
        ring.wf(),
        ring.tail <= seq <= ring.published,
    ensures
        0 <= seq % ring.capacity < ring.capacity,
        ring.written(seq),
        ring.slots[seq % ring.capacity] == Some(ring.history[seq]),
{
    lemma_pow2_positive(ring.capacity);
    lemma_mod_bound(seq, ring.capacity);
    assert(ring.written(seq));
    if ring.written(seq + ring.capacity) {
        assert(false);
    }
    assert(ring.latest(seq));
}

/// A cursor that comes to `at` is counted at every position of that slot and
/// nowhere else.
pub proof fn lemma_pinned(counters: Seq<usize>, at: int, position: int)
    requires
        counters.len() > 0,
        held(counters, at) < usize::MAX,
    ensures
        pinned(counters, at).len() == counters.len(),
        held(pinned(counters, at), position) == (if position % (counters.len() as int) == at % (
        counters.len() as int) {
            held(counters, position) + 1
        } else {
            held(counters, position) as int
        }),
{
    lemma_mod_bound(at, counters.len() as int);
    lemma_mod_bound(position, counters.len() as int);
}

/// A cursor that leaves `at` is no longer counted at any position of that
/// slot; the other slots keep their counts.
pub proof fn lemma_released(counters: Seq<usize>, at: int, position: int)
    requires
        counters.len() > 0,
        held(counters, at) >= 1,
    ensures
        released(counters, at).len() == counters.len(),
        held(released(counters, at), position) == (if position % (counters.len() as int) == at % (
        counters.len() as int) {
            held(counters, position) - 1
        } else {
            held(counters, position) as int
        }),
{
    lemma_mod_bound(at, counters.len() as int);
    lemma_mod_bound(position, counters.len() as int);
}

/// Placing a cursor between the tail and the watermark keeps the ring well
/// formed; asking for a place behind the tail changes nothing.
pub proof fn lemma_register<T>(ring: RingView<T>, at: int)
    requires
        ring.wf(),
        ring.readers < isize::MAX,
        at <= ring.front(),
    ensures
        ring.register(at).wf(),
{
    let position = if at < 0 { 0 } else { at };
    let cap = ring.capacity;
    let after = ring.register(at);
    lemma_front_in_window(ring);
    if position >= ring.tail {
        lemma_mod_bound(position, cap);
        lemma_total_bounds(ring.counters, position % cap);
        lemma_total_update(
            ring.counters,
            position % cap,
            (ring.counters[position % cap] + 1) as usize,
        );
        assert forall|p: int|
            after.tail <= p < after.tail + cap && #[trigger] held(after.counters, p) > 0 implies p
            <= after.front() by {
            lemma_pinned(ring.counters, position, p);
            if p % cap == position % cap {
                if p != position {
                    lemma_same_slot_apart(p, position, cap);
                }
            } else {
                assert(held(ring.counters, p) > 0);
            }
        }
        assert forall|id: int| #[trigger] after.written(id) implies 0 <= id < after.claimed && id
            - cap < after.tail by {
            assert(ring.written(id));
        }
        assert forall|id: int| 0 <= id <= after.published implies #[trigger] after.written(id) by {
            assert(ring.written(id));
        }
        assert forall|id: int| #[trigger] after.latest(id) implies after.slots[id % cap] == Some(
            after.history[id],
        ) by {
            assert(ring.latest(id));
        }
        assert forall|i: int|
            #![trigger after.written(i)]
            0 <= i < cap && !after.written(i) implies after.slots[i].is_none() by {
            assert(!ring.written(i));
        }
    }
}

/// After a cursor has been placed at a position between the tail and the
/// watermark, the ring counts a receiver there, and every position that was
/// held before still is.
pub proof fn lemma_registered<T>(ring: RingView<T>, at: int)
    requires
        ring.wf(),
        ring.readers < isize::MAX,
        ring.tail <= at <= ring.front(),
    ensures
        ring.register(at).holds(at),
        forall|p: int| ring.holds(p) ==> #[trigger] ring.register(at).holds(p),
{
    lemma_front_in_window(ring);
    lemma_mod_bound(at, ring.capacity);
    lemma_total_bounds(ring.counters, at % ring.capacity);
    lemma_pinned(ring.counters, at, at);
    assert forall|p: int| ring.holds(p) implies #[trigger] ring.register(at).holds(p) by {
        lemma_pinned(ring.counters, at, p);
    }
}

/// Moving a cursor forward, over positions that no other cursor holds and not
/// beyond the watermark, keeps the ring well formed, and the tail never moves
/// back.
pub proof fn lemma_advance<T>(ring: RingView<T>, from: int, to: int)
    requires
        ring.wf(),
        ring.holds(from),
        from < to <= ring.published,
        forall|q: int| from < q < to ==> #[trigger] held(ring.counters, q) == 0,
    ensures
        ring.advance(from, to).wf(),
        ring.tail <= ring.advance(from, to).tail <= to,
        ring.advance(from, to).holds(to),
        held(ring.counters, ring.tail) >= 1 ==> held(
            ring.advance(from, to).counters,
            ring.advance(from, to).tail,
        ) >= 1,
{
    let cap = ring.capacity;
    let after = ring.advance(from, to);
    let middle = pinned(ring.counters, to);
    lemma_front_in_window(ring);
    lemma_mod_bound(to, cap);
    lemma_mod_bound(from, cap);
    lemma_total_bounds(ring.counters, to % cap);
    lemma_total_update(ring.counters, to % cap, (ring.counters[to % cap] + 1) as usize);
    lemma_pinned(ring.counters, to, from);
    lemma_pinned(ring.counters, to, to);
    lemma_total_update(middle, from % cap, (middle[from % cap] - 1) as usize);
    lemma_released(middle, from, to);
    lemma_released(middle, from, from);
    if from % cap == to % cap {
        lemma_same_slot_apart(from, to, cap);
    }
    lemma_pinned(ring.counters, to, ring.tail);
    lemma_released(middle, from, ring.tail);
    if ring.tail != from && ring.tail % cap == from % cap {
        lemma_same_slot_apart(ring.tail, from, cap);
    }
    assert forall|p: int|
        after.tail <= p < after.tail + cap && #[trigger] held(after.counters, p) > 0 implies p
        <= after.front() by {
        lemma_pinned(ring.counters, to, p);
        lemma_released(middle, from, p);
        if p < ring.tail + cap {
            if p % cap == to % cap {
                if p != to {
                    lemma_same_slot_apart(p, to, cap);
                }
            } else {
                assert(held(ring.counters, p) > 0);
            }
        } else {
            let earlier = p - cap;
            lemma_mod_sub_multiples_vanish(p, cap);
            lemma_pinned(ring.counters, to, earlier);
            lemma_released(middle, from, earlier);
            assert(held(after.counters, earlier) == held(after.counters, p));
            if earlier != from {
                lemma_same_slot_apart(earlier, to, cap);
                lemma_same_slot_apart(earlier, from, cap);
                assert(held(ring.counters, earlier) == 0);
            }
        }
    }
    assert forall|id: int| #[trigger] after.written(id) implies 0 <= id < after.claimed && id - cap
        < after.tail by {
        assert(ring.written(id));
    }
    assert forall|id: int| 0 <= id <= after.published implies #[trigger] after.written(id) by {
        assert(ring.written(id));
    }
    assert forall|id: int| #[trigger] after.latest(id) implies after.slots[id % cap] == Some(
        after.history[id],
    ) by {
        assert(ring.latest(id));
    }
    assert forall|i: int|
        #![trigger after.written(i)]
        0 <= i < cap && !after.written(i) implies after.slots[i].is_none() by {
        assert(!ring.written(i));
    }
}

/// Moving a cursor step by step, up to the watermark at most, keeps the ring
/// well formed and changes nothing but the counts and the tail.
pub proof fn lemma_advance_steps<T>(ring: RingView<T>, from: int, to: int)
    requires
        ring.wf(),
        ring.holds(from),
        from <= to <= ring.published || to <= from,
    ensures
        ring.advance_steps(from, to).wf(),
        ring.advance_steps(from, to).moved_cursors_only(ring),
        ring.advance_steps(from, to).holds(if to <= from { from } else { to }),
        ring.advance_steps(from, to).tail <= (if to <= from { from } else { to }),
    decreases to - from,
{
    if to > from {
        lemma_advance_steps(ring, from, to - 1);
        lemma_advance(ring.advance_steps(from, to - 1), to - 1, to);
    }
}

/// Taking a cursor away keeps the ring well formed. If it was the last one at
/// the tail and others remain, the tail comes to stand at the first position
/// that is still held; it never moves back and never passes the watermark.
pub proof fn lemma_deregister<T>(ring: RingView<T>, at: int)
    requires
        ring.wf(),
        ring.holds(at),
    ensures
        ring.deregister(at).wf(),
        ring.tail <= ring.deregister(at).tail <= ring.front(),
        ring.deregister(at).tail != ring.tail ==> ring.deregister(at).holds(
            ring.deregister(at).tail,
        ),
        ring.readers > 1 && held(ring.counters, ring.tail) >= 1 ==> held(
            ring.deregister(at).counters,
            ring.deregister(at).tail,
        ) >= 1,
{
    let cap = ring.capacity;
    let after = ring.deregister(at);
    let counters = released(ring.counters, at);
    lemma_front_in_window(ring);
    lemma_mod_bound(at, cap);
    lemma_total_bounds(ring.counters, at % cap);
    lemma_total_update(ring.counters, at % cap, (ring.counters[at % cap] - 1) as usize);
    lemma_released(ring.counters, at, at);
    if ring.readers - 1 > 0 && held(ring.counters, at) == 1 && ring.tail == at {
        let next = chased(counters, at);
        lemma_first_held(counters, at, cap as nat);
        if next == at + cap {
            assert forall|i: int| 0 <= i < counters.len() implies counters[i] == 0 by {
                let k = lemma_window_covers(cap, at, i);
                assert(held(counters, at + k) == 0);
            }
            lemma_total_zero(counters);
        }
        lemma_released(ring.counters, at, next);
        assert(held(ring.counters, next) > 0);
        assert forall|p: int|
            after.tail <= p < after.tail + cap && #[trigger] held(after.counters, p) > 0 implies p
            <= after.front() by {
            lemma_released(ring.counters, at, p);
            if p < at + cap {
                assert(held(ring.counters, p) > 0);
            } else {
                let earlier = p - cap;
                lemma_mod_sub_multiples_vanish(p, cap);
                assert(held(counters, earlier) == 0);
                assert(held(counters, earlier) == held(counters, p));
            }
        }
    } else {
        assert forall|p: int|
            after.tail <= p < after.tail + cap && #[trigger] held(after.counters, p) > 0 implies p
            <= after.front() by {
            lemma_released(ring.counters, at, p);
            assert(held(ring.counters, p) > 0);
        }
        lemma_released(ring.counters, at, ring.tail);
        if ring.tail != at && ring.tail % cap == at % cap {
            lemma_same_slot_apart(ring.tail, at, cap);
        }
    }
    assert forall|id: int| #[trigger] after.written(id) implies 0 <= id < after.claimed && id - cap
        < after.tail by {
        assert(ring.written(id));
    }
    assert forall|id: int| 0 <= id <= after.published implies #[trigger] after.written(id) by {
        assert(ring.written(id));
    }
    assert forall|id: int| #[trigger] after.latest(id) implies after.slots[id % cap] == Some(
        after.history[id],
    ) by {
        assert(ring.latest(id));
    }
    assert forall|i: int|
        #![trigger after.written(i)]
        0 <= i < cap && !after.written(i) implies after.slots[i].is_none() by {
        assert(!ring.written(i));
    }
}

} // verus!
