use nexusq::{
    channel, ChannelError, Core, MultiCursorTracker, Poll, ProducerTracker, ReceiverTracker, Ring,
    SequentialProducerTracker, SetupError, SpinBlockWait, Tracker, TrackerError, YieldWait,
    Backoff, Pause, ReceiverError,
};
use std::sync::atomic::{AtomicUsize, Ordering};
use std::sync::Arc;

/// A payload that counts how often one of its kind is dropped.
#[derive(Clone)]
struct Counted {
    drops: Arc<AtomicUsize>,
}

impl Drop for Counted {
    fn drop(&mut self) {
        self.drops.fetch_add(1, Ordering::SeqCst);
    }
}

fn new_ring<T>(size: usize) -> Ring<T> {
    Ring::new(size, SpinBlockWait::new(0, 0), SpinBlockWait::new(0, 0)).expect("couldn't create ring")
}

#[test]
fn the_producer_tracker_publishes_in_the_order_of_the_ids() {
    let mut tracker = SequentialProducerTracker::new(YieldWait::new(1));
    assert_eq!(tracker.current(), -1);
    assert_eq!(tracker.handed_out(), 0);
    assert_eq!(tracker.make_claim(), 0);
    assert_eq!(tracker.make_claim(), 1);
    assert_eq!(tracker.make_claim(), 2);
    assert_eq!(tracker.handed_out(), 3);
    assert!(!tracker.publish(1));
    assert!(!tracker.publish(2));
    assert_eq!(tracker.current(), -1);
    assert!(tracker.publish(0));
    assert_eq!(tracker.current(), 0);
    assert!(!tracker.publish(0));
    assert!(!tracker.publish(2));
    assert!(tracker.publish(1));
    assert!(tracker.publish(2));
    assert_eq!(tracker.current(), 2);
    let mut progress = Backoff::new();
    assert!(matches!(tracker.wait_for(2, &mut progress), Poll::Ready(2)));
    assert!(matches!(tracker.wait_for(0, &mut progress), Poll::Ready(2)));
    assert_eq!(progress, Backoff::new());
    assert!(matches!(tracker.wait_for(3, &mut progress), Poll::Pending(Pause::Spin)));
    assert!(matches!(tracker.wait_for(3, &mut progress), Poll::Pending(Pause::Yield)));
    assert_eq!(progress, Backoff { spins: 1, yields: 0, listening: false });
}

#[test]
fn the_tail_follows_the_slowest_cursor() {
    let mut tracker =
        MultiCursorTracker::new(4, YieldWait::new(0)).expect("couldn't create multi cursor tracker");
    assert_eq!(tracker.register(-3), Ok(0));
    assert_eq!(tracker.register(0), Ok(0));
    assert_eq!(tracker.register(1), Ok(1));
    assert_eq!(tracker.num_readers(), 3);
    tracker.update(0, 1);
    assert_eq!(tracker.current(), 0);
    tracker.update(0, 1);
    assert_eq!(tracker.current(), 1);
    assert_eq!(tracker.count_at(1), 3);
    assert_eq!(tracker.register(0), Err(TrackerError::PositionTooOld));
    assert_eq!(tracker.num_readers(), 3);
    tracker.update(1, 3);
    tracker.update(1, 2);
    assert_eq!(tracker.current(), 1);
    // the last one at the tail leaves: the tail goes to the next held position
    tracker.de_register(1);
    assert_eq!(tracker.current(), 2);
    assert_eq!(tracker.num_readers(), 2);
    tracker.de_register(2);
    assert_eq!(tracker.current(), 3);
    // without receivers the tail stays
    tracker.de_register(3);
    assert_eq!(tracker.current(), 3);
    assert_eq!(tracker.num_readers(), 0);
    tracker.de_register(-1);
    assert_eq!(tracker.num_readers(), 0);
    let mut progress = Backoff::new();
    assert!(matches!(tracker.wait_for(3, &mut progress), Poll::Ready(3)));
    assert!(matches!(tracker.wait_for(4, &mut progress), Poll::Pending(Pause::Yield)));
    assert_eq!(TrackerError::InvalidSize.message(), "size must be a power of 2");
    assert_eq!(TrackerError::PositionTooOld.message(), "the requested position no longer exists");
}

#[test]
fn a_cursor_the_second_round_is_counted_in_the_same_slot() {
    let mut tracker =
        MultiCursorTracker::new(2, YieldWait::new(0)).expect("couldn't create multi cursor tracker");
    assert_eq!(tracker.register(0), Ok(0));
    tracker.update(0, 2);
    assert_eq!(tracker.count_at(0), 1);
    assert_eq!(tracker.count_at(2), 1);
    assert_eq!(tracker.count_at(1), 0);
    // the cell was never empty, so the tail has not moved
    assert_eq!(tracker.current(), 0);
}

#[test]
fn the_steps_of_a_send_and_a_receive() {
    let mut ring: Ring<&'static str> = new_ring(2);
    assert_eq!(ring.capacity(), 2);
    assert_eq!(ring.register(0), Ok(0));
    assert_eq!(ring.claim(), 0);
    assert_eq!(ring.claim(), 1);
    assert_eq!(ring.write(1, "one"), None);
    assert!(!ring.publish(1));
    assert_eq!(ring.sender_tracker().current(), -1);
    assert_eq!(ring.write(0, "zero"), None);
    assert!(ring.publish(0));
    assert!(ring.publish(1));
    assert_eq!(ring.sender_tracker().current(), 1);
    assert_eq!(ring.read(0), "zero");
    assert_eq!(ring.read(1), "one");
    ring.advance(0, 1);
    assert_eq!(ring.reader_tracker().current(), 1);
    assert_eq!(ring.claim(), 2);
    assert_eq!(ring.write(2, "two"), Some("zero"));
    assert!(ring.publish(2));
    assert_eq!(ring.read(1), "one");
    assert_eq!(ring.read(2), "two");
    assert_eq!(ring.ring()[0], Some("two"));
    assert_eq!(ring.ring()[1], Some("one"));
    ring.deregister(1);
    assert_eq!(ring.reader_tracker().num_readers(), 0);
    assert_eq!(ring.reader_tracker().current(), 1);
}

#[test]
fn every_value_is_dropped_exactly_once() {
    let drops = Arc::new(AtomicUsize::new(0));
    for total_sent in [0usize, 1, 3, 4, 5, 9, 23] {
        drops.store(0, Ordering::SeqCst);
        let (mut ring, mut sender, mut receiver) =
            channel::<Counted>(4).expect("couldn't create channel").dissolve();
        for _ in 0..total_sent {
            let mut poll = sender.send(&mut ring, Counted { drops: drops.clone() });
            while poll.is_pending() {
                // the clone that the receiver gets is dropped at once
                match receiver.recv(&mut ring) {
                    Poll::Ready(value) => std::mem::forget(value),
                    Poll::Pending(_) => panic!("nothing to receive on a full ring"),
                }
                poll = sender.resume(&mut ring);
            }
        }
        let overwritten = total_sent.saturating_sub(4);
        assert_eq!(drops.load(Ordering::SeqCst), overwritten);
        let still_there = ring.ring().iter().filter(|slot| slot.is_some()).count();
        assert_eq!(still_there, total_sent.min(4));
        drop(ring);
        assert_eq!(drops.load(Ordering::SeqCst), overwritten + still_there);
        assert_eq!(drops.load(Ordering::SeqCst), total_sent);
    }
}

#[test]
fn the_errors_of_a_setup_map_to_the_channel() {
    assert_eq!(ChannelError::from(TrackerError::InvalidSize), ChannelError::InvalidSize);
    assert_eq!(
        ChannelError::from(TrackerError::PositionTooOld),
        ChannelError::SetupFailed(SetupError::Tracker(TrackerError::PositionTooOld))
    );
    let failed = ChannelError::from(ReceiverError::RegistrationFailed(TrackerError::PositionTooOld));
    assert_eq!(
        failed,
        ChannelError::SetupFailed(SetupError::Receiver(ReceiverError::RegistrationFailed(
            TrackerError::PositionTooOld
        )))
    );
    assert_eq!(failed.message(), "failed to setup the channel");
    assert!(matches!(
        Ring::<u8>::new(0, SpinBlockWait::new(0, 0), SpinBlockWait::new(0, 0)),
        Err(ChannelError::InvalidSize)
    ));
    assert!(matches!(
        Ring::<u8>::new(usize::MAX, SpinBlockWait::new(0, 0), SpinBlockWait::new(0, 0)),
        Err(ChannelError::BufferTooBig)
    ));
}

#[test]
fn the_ring_and_its_handles_can_move_to_another_thread() {
    fn is_send<X: Send>() {}
    is_send::<Ring<u64>>();
    is_send::<Ring<String>>();
    is_send::<nexusq::BroadcastSender<String>>();
    is_send::<nexusq::BroadcastReceiver<String>>();
    is_send::<nexusq::ChannelHandles<Vec<u8>>>();
    fn is_sync<X: Sync>() {}
    is_sync::<std::sync::Mutex<Ring<u64>>>();
}
