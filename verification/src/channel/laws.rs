//! What holds of a ring whatever its producers and receivers do.

use crate::channel::model::{
    lemma_advance, lemma_advance_steps, lemma_claim, lemma_deregister, lemma_front_in_window,
    lemma_pinned, lemma_publish, lemma_register, lemma_registered, lemma_unread_is_kept,
    lemma_write, RingView,
};
use crate::channel::sender::SenderView;
use crate::channel::tracker::broadcast_tracker::lemma_total_bounds;
use crate::channel::tracker::held;
use crate::channel::wait_strategy::Poll;
use vstd::arithmetic::div_mod::{lemma_mod_bound, lemma_small_mod};
use vstd::multiset::{lemma_multiset_empty_len, Multiset};
use vstd::prelude::*;
use vstd::seq_lib::to_multiset_build;

verus! {

/// One step in the life of a ring. Whatever producers and receivers do to a
/// ring, and in whatever order their steps fall, comes down to a sequence of
/// these.
pub enum Step<T> {
    /// A producer takes the next sequence id.
    Claim,
    /// A producer writes the value of an id that it has claimed.
    Write(int, T),
    /// A producer tries to make a written id visible.
    Publish(int),
    /// A producer that has the ring to itself claims, writes and publishes a
    /// value in one go.
    Send(T),
    /// A receiver asks for a place.
    Register(int),
    /// The receiver at a position moves its cursor on by one.
    Advance(int),
    /// The receiver at a position leaves.
    Deregister(int),
}

impl<T> RingView<T> {
    /// Whether `step` may be taken.
    pub open spec fn enabled(self, step: Step<T>) -> bool {
        match step {
            Step::Claim => self.claimed < isize::MAX - self.capacity,
            Step::Write(seq, _) => {
                &&& 0 <= seq < self.claimed
                &&& !self.written(seq)
                &&& seq - self.capacity < self.tail
            },
            Step::Publish(seq) => 0 <= seq < self.claimed && self.written(seq),
            Step::Send(_) => {
                &&& self.claimed < isize::MAX - self.capacity
                &&& self.quiet()
                &&& self.claimed - self.capacity < self.tail
            },
            Step::Register(at) => self.readers < isize::MAX && at <= self.front(),
            Step::Advance(from) => self.holds(from) && from + 1 <= self.published,
            Step::Deregister(at) => self.holds(at),
        }
    }

    /// The ring after `step`.
    pub open spec fn apply(self, step: Step<T>) -> Self {
        match step {
            Step::Claim => self.claim(),
            Step::Write(seq, value) => self.write(seq, value),
            Step::Publish(seq) => self.publish(seq),
            Step::Send(value) => self.push(value),
            Step::Register(at) => self.register(at),
            Step::Advance(from) => self.advance(from, from + 1),
            Step::Deregister(at) => self.deregister(at),
        }
    }

    /// The ring after `steps`, taken one after the other.
    pub open spec fn run(self, steps: Seq<Step<T>>) -> Self
        decreases steps.len(),
    {
        if steps.len() == 0 {
            self
        } else {
            self.run(steps.drop_last()).apply(steps.last())
        }
    }

    /// Whether each of `steps` may be taken when its turn comes.
    pub open spec fn admits(self, steps: Seq<Step<T>>) -> bool
        decreases steps.len(),
    {
        steps.len() == 0 || (self.admits(steps.drop_last()) && self.run(
            steps.drop_last(),
        ).enabled(steps.last()))
    }

    /// Whether the ring has grown out of `before`: nothing handed out,
    /// published or written is taken back, and the tail has not moved back.
    pub open spec fn extends(self, before: Self) -> bool {
        &&& self.capacity == before.capacity
        &&& self.claimed >= before.claimed
        &&& self.published >= before.published
        &&& self.tail >= before.tail
        &&& forall|id: int| #[trigger]
            before.written(id) ==> self.written(id) && self.history[id] == before.history[id]
    }

    /// Whether the tail stands exactly at the slowest receiver: where any
    /// receiver is left, one of them stands at the tail.
    pub open spec fn tail_is_slowest(self) -> bool {
        self.readers > 0 ==> held(self.counters, self.tail) >= 1
    }
}

/// The values that the `Send` steps among `steps` send, in their order.
pub open spec fn sent<T>(steps: Seq<Step<T>>) -> Seq<T>
    decreases steps.len(),
{
    if steps.len() == 0 {
        Seq::empty()
    } else {
        match steps.last() {
            Step::Send(value) => sent(steps.drop_last()).push(value),
            _ => sent(steps.drop_last()),
        }
    }
}

/// Whether every producer among `steps` has the ring to itself while it
/// sends: no claim is left open between two steps.
pub open spec fn one_at_a_time<T>(steps: Seq<Step<T>>) -> bool {
    forall|i: int|
        0 <= i < steps.len() ==> !(#[trigger] steps[i] is Claim) && !(steps[i] is Write) && !(
        steps[i] is Publish)
}

/// Every step that may be taken keeps the ring well formed, and the ring
/// grows: nothing handed out, published or written is taken back, and the
/// tail never moves back.
pub proof fn lemma_step<T>(ring: RingView<T>, step: Step<T>)
    requires
        ring.wf(),
        ring.enabled(step),
    ensures
        ring.apply(step).wf(),
        ring.apply(step).extends(ring),
{
    match step {
        Step::Claim => {
            lemma_claim(ring);
        },
        Step::Write(seq, value) => {
            lemma_write(ring, seq, value);
        },
        Step::Publish(seq) => {
            lemma_publish(ring, seq);
        },
        Step::Send(value) => {
            lemma_send(ring, value);
        },
        Step::Register(at) => {
            lemma_register(ring, at);
        },
        Step::Advance(from) => {
            lemma_advance(ring, from, from + 1);
        },
        Step::Deregister(at) => {
            lemma_deregister(ring, at);
        },
    }
}

/// A producer that has the ring to itself, and room in it, appends its value
/// to the log and leaves the ring quiet again.
pub proof fn lemma_send<T>(ring: RingView<T>, value: T)
    requires
        ring.wf(),
        ring.enabled(Step::Send(value)),
    ensures
        ring.push(value).wf(),
        ring.push(value).extends(ring),
        ring.push(value).quiet(),
        ring.push(value).log() == ring.log().push(value),
{
    let seq = ring.claimed;
    lemma_claim(ring);
    let claimed = ring.claim();
    assert(!ring.written(seq));
    lemma_write(claimed, seq, value);
    let written = claimed.write(seq, value);
    lemma_publish(written, seq);
    assert(ring.push(value).log() =~= ring.log().push(value)) by {
        assert forall|id: int| 0 <= id <= ring.published implies ring.push(value).history[id]
            == ring.history[id] by {
            assert(ring.written(id));
        }
    }
}

/// Whatever steps are taken on a well-formed ring, in whatever order, as long
/// as each may be taken when its turn comes: the ring stays well formed,
/// nothing handed out, published or written is taken back, and the tail
/// never moves back.
pub proof fn lemma_run<T>(ring: RingView<T>, steps: Seq<Step<T>>)
    requires
        ring.wf(),
        ring.admits(steps),
    ensures
        ring.run(steps).wf(),
        ring.run(steps).extends(ring),
    decreases steps.len(),
{
    if steps.len() > 0 {
        lemma_run(ring, steps.drop_last());
        let before = ring.run(steps.drop_last());
        lemma_step(before, steps.last());
        let after = before.apply(steps.last());
        assert forall|id: int| #[trigger] ring.written(id) implies after.written(id)
            && after.history[id] == ring.history[id] by {
            assert(before.written(id));
        }
    }
}

/// Total order of delivery. Where producers send one at a time, the log is
/// the sequence of the values sent, in the order in which they were sent,
/// whatever the receivers do in between. Every receiver reads the log in the
/// order of the sequence ids.
pub proof fn lemma_total_order<T>(ring: RingView<T>, steps: Seq<Step<T>>)
    requires
        ring.wf(),
        ring.quiet(),
        ring.admits(steps),
        one_at_a_time(steps),
    ensures
        ring.run(steps).quiet(),
        ring.run(steps).log() == ring.log() + sent(steps),
    decreases steps.len(),
{
    if steps.len() == 0 {
        assert(ring.log() + sent(steps) =~= ring.log());
    } else {
        let earlier = steps.drop_last();
        assert forall|i: int| 0 <= i < earlier.len() implies !(#[trigger] earlier[i] is Claim) && !(
        earlier[i] is Write) && !(earlier[i] is Publish) by {
            assert(earlier[i] == steps[i]);
        }
        lemma_total_order(ring, earlier);
        lemma_run(ring, earlier);
        let before = ring.run(earlier);
        let last = steps.last();
        assert(last == steps[steps.len() - 1]);
        match last {
            Step::Send(value) => {
                lemma_send(before, value);
                assert((ring.log() + sent(earlier)).push(value) =~= ring.log() + sent(
                    earlier,
                ).push(value));
            },
            Step::Register(at) => {
                assert(before.apply(last).log() =~= before.log());
            },
            Step::Advance(from) => {
                assert(before.apply(last).log() =~= before.log());
            },
            Step::Deregister(at) => {
                assert(before.apply(last).log() =~= before.log());
            },
            _ => {},
        }
    }
}

/// The number of sequence ids that `steps` hand out.
pub open spec fn claims<T>(steps: Seq<Step<T>>) -> nat
    decreases steps.len(),
{
    if steps.len() == 0 {
        0
    } else if steps.last() is Claim || steps.last() is Send {
        claims(steps.drop_last()) + 1
    } else {
        claims(steps.drop_last())
    }
}

/// The first steps of a sequence that a ring admits are admitted too, and
/// the ring after them is one step short of the ring after one step more.
pub proof fn lemma_prefix<T>(ring: RingView<T>, steps: Seq<Step<T>>, count: int)
    requires
        ring.admits(steps),
        0 <= count <= steps.len(),
    ensures
        ring.admits(steps.take(count)),
        count < steps.len() ==> ring.run(steps.take(count)).enabled(steps[count]) && ring.run(
            steps.take(count + 1),
        ) == ring.run(steps.take(count)).apply(steps[count]),
    decreases steps.len(),
{
    if count == steps.len() {
        assert(steps.take(count) =~= steps);
    } else {
        let earlier = steps.drop_last();
        assert(earlier.take(count) =~= steps.take(count));
        lemma_prefix(ring, earlier, count);
        if count == steps.len() - 1 {
            assert(steps.take(count) =~= earlier);
            assert(steps.take(count + 1) =~= steps);
        } else {
            assert(earlier.take(count + 1) =~= steps.take(count + 1));
            assert(earlier[count] == steps[count]);
        }
    }
}

/// The multi-producer count: as many sequence ids are handed out as there
/// are claims, one for each.
pub proof fn lemma_claim_count<T>(ring: RingView<T>, steps: Seq<Step<T>>)
    requires
        ring.wf(),
        ring.admits(steps),
    ensures
        ring.run(steps).claimed == ring.claimed + claims(steps),
    decreases steps.len(),
{
    if steps.len() > 0 {
        lemma_claim_count(ring, steps.drop_last());
    }
}

/// The order of one producer's messages: of two claims, the later gets the
/// larger sequence id, whatever happens in between. Receivers read in the
/// order of the ids, so they see two messages of one producer in the order
/// in which it sent them.
pub proof fn lemma_claims_in_order<T>(
    ring: RingView<T>,
    steps: Seq<Step<T>>,
    first: int,
    second: int,
)
    requires
        ring.wf(),
        ring.admits(steps),
        0 <= first < second < steps.len(),
        steps[first] is Claim || steps[first] is Send,
    ensures
        ring.run(steps.take(first)).claimed < ring.run(steps.take(second)).claimed,
    decreases second - first,
{
    lemma_prefix(ring, steps, first);
    lemma_run(ring, steps.take(first));
    if second == first + 1 {
    } else {
        lemma_claims_in_order(ring, steps, first, second - 1);
        lemma_prefix(ring, steps, second - 1);
        lemma_run(ring, steps.take(second - 1));
        lemma_step(ring.run(steps.take(second - 1)), steps[second - 1]);
    }
}

/// Every value is delivered as it was written: what a step writes under a
/// sequence id stays in the history under that id, and no later step may
/// write that id again.
pub proof fn lemma_written_once<T>(ring: RingView<T>, steps: Seq<Step<T>>, index: int)
    requires
        ring.wf(),
        ring.admits(steps),
        0 <= index < steps.len(),
        steps[index] is Write,
    ensures
        ring.run(steps).written(steps[index]->Write_0),
        ring.run(steps).history[steps[index]->Write_0] == steps[index]->Write_1,
        forall|later: int|
            index < later < steps.len() && #[trigger] steps[later] is Write ==> steps[later]->Write_0
                != steps[index]->Write_0,
    decreases steps.len(),
{
    let seq = steps[index]->Write_0;
    let earlier = steps.drop_last();
    lemma_prefix(ring, steps, steps.len() - 1);
    assert(steps.take(steps.len() - 1) =~= earlier);
    lemma_run(ring, earlier);
    let before = ring.run(earlier);
    lemma_step(before, steps.last());
    if index == steps.len() - 1 {
    } else {
        assert(earlier[index] == steps[index]);
        lemma_written_once(ring, earlier, index);
        assert(before.written(seq));
        assert forall|later: int|
            index < later < steps.len() && #[trigger] steps[later] is Write implies steps[later]->Write_0
            != seq by {
            if later < steps.len() - 1 {
                assert(earlier[later] == steps[later]);
            }
        }
    }
}

/// What a producer sends in one go is delivered as it was sent: the value
/// stays in the history under the sequence id that the step was given, and
/// no later step writes that id again.
pub proof fn lemma_sent_once<T>(ring: RingView<T>, steps: Seq<Step<T>>, index: int)
    requires
        ring.wf(),
        ring.admits(steps),
        0 <= index < steps.len(),
        steps[index] is Send,
    ensures
        ring.run(steps).written(ring.run(steps.take(index)).claimed),
        ring.run(steps).history[ring.run(steps.take(index)).claimed] == steps[index]->Send_0,
        forall|later: int|
            index < later < steps.len() && #[trigger] steps[later] is Write ==> steps[later]->Write_0
                != ring.run(steps.take(index)).claimed,
    decreases steps.len(),
{
    let seq = ring.run(steps.take(index)).claimed;
    let earlier = steps.drop_last();
    lemma_prefix(ring, steps, steps.len() - 1);
    assert(steps.take(steps.len() - 1) =~= earlier);
    lemma_run(ring, earlier);
    let before = ring.run(earlier);
    lemma_step(before, steps.last());
    if index == steps.len() - 1 {
        assert(steps.take(index) =~= earlier);
        lemma_send(before, steps[index]->Send_0);
    } else {
        assert(earlier[index] == steps[index]);
        assert(earlier.take(index) =~= steps.take(index));
        lemma_sent_once(ring, earlier, index);
        assert(before.written(seq));
        assert forall|later: int|
            index < later < steps.len() && #[trigger] steps[later] is Write implies steps[later]->Write_0
            != seq by {
            if later < steps.len() - 1 {
                assert(earlier[later] == steps[later]);
            }
        }
    }
}

/// On a quiet ring that started empty, the log holds one value for each
/// sequence id that was handed out: with the count of the claims, every
/// receiver that was there from the start receives exactly as many values
/// as the producers sent.
pub proof fn lemma_log_length<T>(ring: RingView<T>)
    requires
        ring.wf(),
        ring.quiet(),
    ensures
        ring.log().len() == ring.claimed,
        forall|id: int| 0 <= id < ring.claimed ==> #[trigger] ring.written(id),
{
}

/// The values that are written under the sequence ids below `bound`, each
/// as often as it occurs among them.
pub open spec fn values_below<T>(history: Map<int, T>, bound: int) -> Multiset<T>
    decreases bound,
{
    if bound <= 0 {
        Multiset::empty()
    } else if history.dom().contains(bound - 1) {
        values_below(history, bound - 1).insert(history[bound - 1])
    } else {
        values_below(history, bound - 1)
    }
}

/// The values that `steps` write, each as often as it is written.
pub open spec fn written_values<T>(steps: Seq<Step<T>>) -> Multiset<T>
    decreases steps.len(),
{
    if steps.len() == 0 {
        Multiset::empty()
    } else {
        match steps.last() {
            Step::Write(_, value) => written_values(steps.drop_last()).insert(value),
            Step::Send(value) => written_values(steps.drop_last()).insert(value),
            _ => written_values(steps.drop_last()),
        }
    }
}

/// Writing an id that was not written adds its value once to the values
/// below every bound above the id.
pub proof fn lemma_values_after_write<T>(history: Map<int, T>, seq: int, value: T, bound: int)
    requires
        !history.dom().contains(seq),
    ensures
        values_below(history.insert(seq, value), bound) =~= (if 0 <= seq < bound {
            values_below(history, bound).insert(value)
        } else {
            values_below(history, bound)
        }),
    decreases bound,
{
    if bound > 0 {
        lemma_values_after_write(history, seq, value, bound - 1);
    }
}

/// The published values are the values written under the published ids.
pub proof fn lemma_log_values<T>(ring: RingView<T>, bound: int)
    requires
        ring.wf(),
        0 <= bound <= ring.published + 1,
    ensures
        ring.log().take(bound).to_multiset() =~= values_below(ring.history, bound),
    decreases bound,
{
    if bound > 0 {
        lemma_log_values(ring, bound - 1);
        let shorter = ring.log().take(bound - 1);
        assert(ring.log().take(bound) =~= shorter.push(ring.history[bound - 1]));
        to_multiset_build(shorter, ring.history[bound - 1]);
        assert(ring.written(bound - 1));
    } else {
        ring.log().take(0).to_multiset_ensures();
        lemma_multiset_empty_len(ring.log().take(0).to_multiset());
    }
}

/// Every value is written once. The values in the history are those that
/// were there before and those that the steps have written, each as often as
/// it was written.
pub proof fn lemma_every_value_once<T>(ring: RingView<T>, steps: Seq<Step<T>>)
    requires
        ring.wf(),
        ring.admits(steps),
    ensures
        values_below(ring.run(steps).history, ring.run(steps).claimed) =~= values_below(
            ring.history,
            ring.claimed,
        ).add(written_values(steps)),
    decreases steps.len(),
{
    if steps.len() > 0 {
        lemma_every_value_once(ring, steps.drop_last());
        lemma_run(ring, steps.drop_last());
        let before = ring.run(steps.drop_last());
        assert(!before.written(before.claimed));
        match steps.last() {
            Step::Write(seq, value) => {
                lemma_values_after_write(before.history, seq, value, before.claimed);
            },
            Step::Send(value) => {
                lemma_values_after_write(
                    before.history,
                    before.claimed,
                    value,
                    before.claimed + 1,
                );
            },
            _ => {},
        }
    }
}

/// The multi-producer law. On a ring that started empty and has come to
/// rest, the log holds exactly the values that the producers have written,
/// each as often as it was written, and as many as ids were claimed. Every
/// receiver that was there from the start receives the log.
pub proof fn lemma_receivers_get_what_was_sent<T>(ring: RingView<T>, steps: Seq<Step<T>>)
    requires
        ring.wf(),
        ring.claimed == 0,
        ring.admits(steps),
        ring.run(steps).quiet(),
    ensures
        ring.run(steps).log().to_multiset() =~= written_values(steps),
        ring.run(steps).log().len() == claims(steps),
{
    let rest = ring.run(steps);
    lemma_run(ring, steps);
    lemma_every_value_once(ring, steps);
    lemma_claim_count(ring, steps);
    lemma_log_values(rest, rest.claimed);
    assert(rest.log().take(rest.claimed) =~= rest.log());
}

/// No overwrite of what is unread. A receiver that stood at `position`
/// before `steps` and still stands there after them finds every value from
/// there up to the old watermark in its slot, as it was written: however
/// long it paused, it reads on without a gap.
pub proof fn lemma_paused_receiver_loses_nothing<T>(
    ring: RingView<T>,
    steps: Seq<Step<T>>,
    position: int,
    seq: int,
)
    requires
        ring.wf(),
        ring.admits(steps),
        ring.holds(position),
        ring.run(steps).holds(position),
        position <= seq <= ring.published,
    ensures
        ring.run(steps).slots[seq % ring.capacity] == Some(ring.history[seq]),
{
    lemma_run(ring, steps);
    lemma_unread_is_kept(ring, seq);
    lemma_unread_is_kept(ring.run(steps), seq);
}

/// Whether `step` keeps the tail at the slowest receiver. Only one step does
/// not: placing a receiver beyond the tail on a ring that has none. The tail
/// then stays where the last receiver left it.
pub open spec fn keeps_tail_exact<T>(ring: RingView<T>, step: Step<T>) -> bool {
    match step {
        Step::Register(at) => ring.readers > 0 || at <= ring.tail,
        _ => true,
    }
}

/// The tail is the position of the slowest receiver. If one of the
/// receivers stands at the tail before a step, one does after it, and none
/// ever stands behind the tail.
pub proof fn lemma_tail_is_slowest<T>(ring: RingView<T>, step: Step<T>)
    requires
        ring.wf(),
        ring.enabled(step),
        ring.tail_is_slowest(),
        keeps_tail_exact(ring, step),
    ensures
        ring.apply(step).tail_is_slowest(),
        ring.apply(step).tail >= ring.tail,
        forall|p: int| #[trigger] ring.apply(step).holds(p) ==> ring.apply(step).tail <= p,
{
    lemma_step(ring, step);
    lemma_front_in_window(ring);
    lemma_mod_bound(ring.tail, ring.capacity);
    lemma_total_bounds(ring.counters, ring.tail % ring.capacity);
    match step {
        Step::Register(at) => {
            let position = if at < 0 { 0 } else { at };
            if position >= ring.tail {
                lemma_mod_bound(position, ring.capacity);
                lemma_total_bounds(ring.counters, position % ring.capacity);
                lemma_pinned(ring.counters, position, ring.tail);
            }
        },
        Step::Advance(from) => {
            lemma_mod_bound(from, ring.capacity);
            lemma_total_bounds(ring.counters, from % ring.capacity);
            lemma_advance(ring, from, from + 1);
        },
        Step::Deregister(at) => {
            lemma_mod_bound(at, ring.capacity);
            lemma_total_bounds(ring.counters, at % ring.capacity);
            lemma_deregister(ring, at);
        },
        _ => {},
    }
}

/// An idle sender on a ring that is quiet and has room brings its value
/// through at once: the ring is then what `push` says.
pub proof fn lemma_uncontended_send<T>(sender: SenderView<T>, ring: RingView<T>, value: T)
    requires
        ring.wf(),
        sender.attached(ring),
        sender.idle(),
        ring.enabled(Step::Send(value)),
    ensures
        sender.begin(ring.claimed, value).drive(ring.claim()).0.idle(),
        sender.begin(ring.claimed, value).drive(ring.claim()).1 == ring.push(value),
        sender.begin(ring.claimed, value).drive(ring.claim()).2 == Poll::Ready(()),
{
}

/// A producer waits exactly as long as the slowest receiver holds the slot
/// that the claimed id would overwrite: then nothing is written, and
/// otherwise the value is.
pub proof fn lemma_blocks_exactly_when_full<T>(sender: SenderView<T>, ring: RingView<T>)
    requires
        ring.wf(),
        sender.attached(ring),
        sender.in_flight.is_some(),
        sender.unwritten.is_some(),
    ensures
        ring.tail <= sender.in_flight.unwrap() - ring.capacity ==> sender.drive(ring).1 == ring
            && sender.drive(ring).2.is_pending(),
        ring.tail > sender.in_flight.unwrap() - ring.capacity ==> sender.drive(ring).1.written(
            sender.in_flight.unwrap(),
        ) && sender.drive(ring).1.history[sender.in_flight.unwrap()] == sender.unwritten.unwrap(),
{
}

/// Whether each of `steps` keeps the tail at the slowest receiver when its
/// turn comes.
pub open spec fn keep_tail_exact<T>(ring: RingView<T>, steps: Seq<Step<T>>) -> bool
    decreases steps.len(),
{
    steps.len() == 0 || (keep_tail_exact(ring, steps.drop_last()) && keeps_tail_exact(
        ring.run(steps.drop_last()),
        steps.last(),
    ))
}

/// Whatever the receivers and producers do, the tail stays at the slowest
/// receiver, as long as no receiver is placed beyond the tail of a ring that
/// has none.
pub proof fn lemma_tail_stays_slowest<T>(ring: RingView<T>, steps: Seq<Step<T>>)
    requires
        ring.wf(),
        ring.tail_is_slowest(),
        ring.admits(steps),
        keep_tail_exact(ring, steps),
    ensures
        ring.run(steps).tail_is_slowest(),
        ring.run(steps).tail >= ring.tail,
        forall|p: int| #[trigger] ring.run(steps).holds(p) ==> ring.run(steps).tail <= p,
    decreases steps.len(),
{
    if steps.len() > 0 {
        lemma_tail_stays_slowest(ring, steps.drop_last());
        lemma_run(ring, steps.drop_last());
        lemma_tail_is_slowest(ring.run(steps.drop_last()), steps.last());
    }
}

/// A receiver is never placed behind the tail. Asking for a place between
/// the tail and the watermark puts a receiver there; asking for one behind
/// the tail changes nothing.
pub proof fn lemma_registration_is_safe<T>(ring: RingView<T>, at: int)
    requires
        ring.wf(),
        ring.readers < isize::MAX,
        0 <= at <= ring.front(),
    ensures
        ring.register(at).wf(),
        ring.register(at).tail == ring.tail,
        at < ring.tail ==> ring.register(at) == ring,
        at >= ring.tail ==> ring.register(at).holds(at) && ring.register(at).readers
            == ring.readers + 1,
{
    lemma_register(ring, at);
    if at >= ring.tail {
        lemma_registered(ring, at);
    }
}

/// Every value is dropped once. On a quiet ring the slots hold one value for
/// each of the sequence ids of the last round and nothing else: a slot that
/// was never written holds nothing that could be dropped, and what was
/// overwritten has been handed to the producer that overwrote it.
pub proof fn lemma_slots_at_rest<T>(ring: RingView<T>, index: int)
    requires
        ring.wf(),
        ring.quiet(),
        0 <= index < ring.capacity,
    ensures
        ring.slots[index].is_some() <==> index <= ring.published,
        index <= ring.published ==> exists|id: int|
            ring.published - ring.capacity < id <= ring.published && id % ring.capacity == index
                && ring.slots[index] == Some(#[trigger] ring.history[id]),
{
    let cap = ring.capacity;
    if index <= ring.published {
        let id = lemma_last_of_slot(ring.published, cap, index);
        assert(ring.written(id));
        if ring.written(id + cap) {
            assert(false);
        }
        assert(ring.latest(id));
    } else {
        if ring.written(index) {
            assert(false);
        }
    }
}

/// Among the ids up to `last`, the last one that falls into the slot `index`
/// lies less than one round before `last`.
pub proof fn lemma_last_of_slot(last: int, capacity: int, index: int) -> (id: int)
    requires
        capacity > 0,
        0 <= index < capacity,
        index <= last,
    ensures
        last - capacity < id <= last,
        0 <= id,
        id % capacity == index,
{
    let back = (last - index) % capacity;
    let id = last - back;
    lemma_mod_bound(last - index, capacity);
    vstd::arithmetic::div_mod::lemma_fundamental_div_mod(last - index, capacity);
    let rounds = (last - index) / capacity;
    assert(id == capacity * rounds + index);
    vstd::arithmetic::div_mod::lemma_mod_multiples_vanish(rounds, index, capacity);
    lemma_small_mod(index as nat, capacity as nat);
    assert(rounds >= 0) by (nonlinear_arith)
        requires
            last - index == capacity * rounds + back,
            0 <= back < capacity,
            last - index >= 0,
            capacity > 0,
    ;
    assert(capacity * rounds >= 0) by (nonlinear_arith)
        requires
            rounds >= 0,
            capacity > 0,
    ;
    id
}

/// The steps that one attempt of a sender takes to bring its claimed id
/// through: none while the slowest receiver holds the slot, else the write
/// if it is still due, and the attempt to publish.
pub open spec fn drive_steps<T>(sender: SenderView<T>, ring: RingView<T>) -> Seq<Step<T>> {
    let seq = sender.in_flight.unwrap();
    match sender.unwritten {
        Some(value) => if sender.blocked(ring) {
            Seq::empty()
        } else {
            seq![Step::Write(seq, value), Step::Publish(seq)]
        },
        None => seq![Step::Publish(seq)],
    }
}

/// What a sender does to a ring is a sequence of steps, each of which may be
/// taken when its turn comes: whatever holds of all such sequences holds of
/// what senders do.
pub proof fn lemma_sender_takes_steps<T>(sender: SenderView<T>, ring: RingView<T>)
    requires
        ring.wf(),
        sender.attached(ring),
        sender.in_flight.is_some(),
    ensures
        ring.admits(drive_steps(sender, ring)),
        sender.drive(ring).1 == ring.run(drive_steps(sender, ring)),
{
    let seq = sender.in_flight.unwrap();
    let steps = drive_steps(sender, ring);
    reveal_with_fuel(RingView::run, 3);
    reveal_with_fuel(RingView::admits, 3);
    match sender.unwritten {
        Some(value) => {
            if !sender.blocked(ring) {
                let first = Step::Write(seq, value);
                let second = Step::<T>::Publish(seq);
                assert(steps.drop_last() =~= seq![first]);
                assert(steps.drop_last().drop_last() =~= Seq::<Step<T>>::empty());
                assert(steps.last() == second);
                assert(steps.drop_last().last() == first);
                lemma_write(ring, seq, value);
            }
        },
        None => {
            let only = Step::<T>::Publish(seq);
            assert(steps.drop_last() =~= Seq::<Step<T>>::empty());
            assert(steps.last() == only);
        },
    }
}

/// The steps by which a cursor moves from `from` to `to`.
pub open spec fn advances<T>(from: int, to: int) -> Seq<Step<T>>
    decreases to - from,
{
    if to <= from {
        Seq::empty()
    } else {
        advances(from, to - 1).push(Step::Advance(to - 1))
    }
}

/// What a receiver does to a ring when it takes values, one or many, is a
/// sequence of steps, each of which may be taken when its turn comes.
pub proof fn lemma_receiver_takes_steps<T>(ring: RingView<T>, from: int, to: int)
    requires
        ring.wf(),
        ring.holds(from),
        to <= ring.published,
    ensures
        ring.admits(advances(from, to)),
        ring.advance_steps(from, to) == ring.run(advances(from, to)),
    decreases to - from,
{
    if to > from {
        lemma_receiver_takes_steps(ring, from, to - 1);
        lemma_advance_steps(ring, from, to - 1);
        let steps = advances::<T>(from, to);
        assert(steps.drop_last() =~= advances::<T>(from, to - 1));
        assert(steps.last() == Step::<T>::Advance(to - 1));
    }
}

} // verus!
