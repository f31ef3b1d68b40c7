use nexusq::{
    busy_channel, channel, channel_with, BroadcastReceiver, BroadcastSender, ChannelError,
    ChannelHandles, Core, Pause, Poll, Receiver, ReceiverError, Ring, Sender, SpinBlockWait,
    Tracker, WaitStrategy,
};
use std::collections::HashMap;
use std::time::Duration;

/// Sends `value`, which has to go through at once.
fn send_now<T>(sender: &mut BroadcastSender<T>, ring: &mut Ring<T>, value: T) {
    assert!(!sender.in_flight());
    match sender.send(ring, value) {
        Poll::Ready(()) => {}
        Poll::Pending(_) => panic!("the send had to wait"),
    }
}

/// Receives the next value, which has to be there.
fn recv_now<T: Clone>(receiver: &mut BroadcastReceiver<T>, ring: &mut Ring<T>) -> T {
    match receiver.recv(ring) {
        Poll::Ready(value) => value,
        Poll::Pending(_) => panic!("the receive had to wait"),
    }
}

/// How many rounds pass between two steps of a party that sleeps for
/// `sleep_time` after each step.
fn rounds_per_step(sleep_time: Duration) -> usize {
    if sleep_time.is_zero() {
        1
    } else {
        2 + sleep_time.as_millis() as usize
    }
}

/// Runs writers and readers in turn, one step each per round, until every
/// writer has sent `num_elements` values and every reader has received them
/// all. A party that sleeps between its steps sits out rounds instead.
fn test(
    num_elements: usize,
    num_writers: usize,
    num_readers: usize,
    buffer_size: usize,
    read_sleep: Duration,
    write_sleep: Duration,
) {
    let ChannelHandles { mut ring, sender, receiver } =
        channel(buffer_size).expect("couldn't create channel");
    let mut readers: Vec<(BroadcastReceiver<usize>, Vec<usize>)> = Vec::new();
    for _ in 0..num_readers {
        let new_receiver = receiver.clone(&mut ring).expect("couldn't clone the receiver");
        readers.push((new_receiver, Vec::new()));
    }
    receiver.release(&mut ring);
    let mut writers: Vec<(BroadcastSender<usize>, usize)> = Vec::new();
    for _ in 0..num_writers {
        writers.push((sender.clone(), 0));
    }
    let total = num_elements * num_writers;
    let read_every = rounds_per_step(read_sleep);
    let write_every = rounds_per_step(write_sleep);
    let mut rounds = 0usize;
    loop {
        let mut busy = false;
        for (index, (writer, sent)) in writers.iter_mut().enumerate() {
            if writer.in_flight() {
                busy = true;
                let _ = writer.resume(&mut ring);
            } else if *sent < num_elements {
                busy = true;
                if (rounds + index) % write_every == 0 {
                    let _ = writer.send(&mut ring, *sent);
                    *sent += 1;
                }
            }
        }
        for (index, (reader, results)) in readers.iter_mut().enumerate() {
            if results.len() < total {
                busy = true;
                if (rounds + index) % read_every == 0 {
                    if let Poll::Ready(value) = reader.recv(&mut ring) {
                        results.push(value);
                    }
                }
            }
        }
        if !busy {
            break;
        }
        rounds += 1;
        assert!(rounds < 1000 * (total + 1), "the channel is stuck");
    }
    for (_, res) in readers {
        assert_eq!(res.len(), num_elements * num_writers);
        let mut expected = HashMap::with_capacity(num_elements);
        (0..num_elements).for_each(|v| {
            expected.insert(v, num_writers);
        });
        let mut result = HashMap::with_capacity(num_elements);
        res.into_iter().for_each(|v| {
            let e = result.entry(v).or_insert(0_usize);
            *e += 1;
        });
        assert_eq!(result, expected);
    }
}

#[test]
fn mod_single_writer_single_reader() {
    let num = 15;
    test(num, 1, 1, 5, Default::default(), Default::default());
}

#[test]
fn single_writer_single_reader_clone() {
    let ChannelHandles { mut ring, mut sender, mut receiver } =
        channel(10).expect("couldn't create channel");
    send_now(&mut sender, &mut ring, String::from("hello world"));
    let res = recv_now(&mut receiver, &mut ring);
    assert_eq!(res, "hello world");
}

#[test]
fn mod_single_writer_two_reader() {
    let num = 5000;
    test(num, 1, 2, 10, Default::default(), Default::default());
}

#[test]
fn mod_two_writer_two_reader() {
    let num = 5000;
    test(num, 2, 2, 10, Default::default(), Default::default());
}

#[test]
fn two_writer_two_reader_slow_read() {
    let num = 500;
    test(num, 2, 2, 4, Duration::from_millis(1), Default::default());
}

#[test]
fn two_writer_two_reader_slow_write() {
    let num = 500;
    test(num, 2, 2, 4, Default::default(), Duration::from_millis(1));
}

#[test]
fn two_writer_two_reader_very_slow_read() {
    let num = 100;
    test(num, 2, 2, 4, Duration::from_millis(2), Default::default());
}

#[test]
fn two_writer_two_reader_very_slow_write() {
    let num = 100;
    test(num, 2, 2, 4, Default::default(), Duration::from_millis(2));
}

#[test]
fn two_writer_two_reader_slow_read_write() {
    let num = 200;
    test(num, 2, 2, 4, Duration::from_micros(20), Duration::from_micros(20));
}

#[test]
fn three_writer_three_reader() {
    let num = 5000;
    test(num, 3, 3, 10, Default::default(), Default::default());
}

#[test]
fn test_latency() {
    let (mut ring, mut sender, mut receiver) = channel_with::<std::time::Instant>(
        100,
        SpinBlockWait::new(0, 0),
        SpinBlockWait::new(0, 0),
    )
    .expect("coudln't create channel")
    .dissolve();
    send_now(&mut sender, &mut ring, std::time::Instant::now());
    let t = recv_now(&mut receiver, &mut ring);
    let e = t.elapsed();
    println!("duration was, {}µs", e.as_micros());
    assert!(e.as_micros() < 1_000_000);
}

#[test]
fn ten_writer_ten_reader() {
    let num = 2000;
    test(num, 10, 10, 10, Default::default(), Default::default());
}

#[test]
fn ten_writer_ten_reader_slow_read() {
    let num = 200;
    test(num, 10, 10, 10, Duration::from_micros(20), Default::default());
}

#[test]
fn ten_writer_ten_reader_slow_write() {
    let num = 200;
    test(num, 10, 10, 10, Default::default(), Duration::from_micros(20));
}

#[test]
fn ten_writer_ten_reader_slow_read_write() {
    let num = 200;
    test(num, 10, 10, 10, Duration::from_micros(20), Duration::from_micros(20));
}

#[test]
fn receiver_from_sender() {
    let (mut ring, mut sender, first) = channel(10).expect("couldn't create channel").dissolve();
    first.release(&mut ring);
    send_now(&mut sender, &mut ring, 42);
    let mut receiver: BroadcastReceiver<i32> = BroadcastReceiver::try_from_sender(sender, &mut ring)
        .expect("couldn't create receiver from sender");
    let v = recv_now(&mut receiver, &mut ring);
    assert_eq!(v, 42);
}

#[test]
fn sender_from_receiver() {
    let (mut ring, _, mut receiver) = channel(10).expect("couldn't create channel").dissolve();
    let peer = receiver.clone(&mut ring).expect("couldn't clone the receiver");
    let mut sender: BroadcastSender<i32> = BroadcastSender::from_receiver(peer, &mut ring);
    send_now(&mut sender, &mut ring, 42);
    let v = recv_now(&mut receiver, &mut ring);
    assert_eq!(v, 42);
}

#[test]
fn test_batch_read() {
    let (mut ring, mut sender, mut receiver) = channel(10).expect("couldn't create channel").dissolve();
    let expected: Vec<i32> = (0..8).collect();
    for i in &expected {
        send_now(&mut sender, &mut ring, *i);
    }
    let mut result = Vec::with_capacity(16);
    receiver.batch_recv(&mut ring, &mut result).expect("receiver was okay!");

    assert_eq!(result, expected)
}

#[test]
fn test_read_entire_buffer() {
    let (mut ring, mut sender, mut receiver) = channel(10).expect("couldn't create channel").dissolve();
    let expected: Vec<i32> = (0..10).collect();
    for i in &expected {
        send_now(&mut sender, &mut ring, *i);
    }
    let mut result = Vec::with_capacity(16);
    receiver.batch_recv(&mut ring, &mut result).expect("receiver was okay!");

    assert_eq!(result, expected)
}

#[test]
fn test_wrapping_batch() {
    let (mut ring, mut sender, mut receiver) = channel(10).expect("couldn't create channel").dissolve();
    for i in 0..10 {
        send_now(&mut sender, &mut ring, i);
    }
    let _ = recv_now(&mut receiver, &mut ring);
    let _ = recv_now(&mut receiver, &mut ring);
    send_now(&mut sender, &mut ring, 10);
    send_now(&mut sender, &mut ring, 11);
    let expected: Vec<i32> = (2..12).collect();
    let mut result = Vec::with_capacity(16);
    receiver.batch_recv(&mut ring, &mut result).expect("receiver was okay!");

    assert_eq!(result, expected)
}

#[test]
fn capacity_is_rounded_up_to_a_power_of_two() {
    let five = channel::<u8>(5).expect("couldn't create channel");
    assert_eq!(five.ring.capacity(), 8);
    let eight = channel::<u8>(8).expect("couldn't create channel");
    assert_eq!(eight.ring.capacity(), 8);
    let one = channel::<u8>(1).expect("couldn't create channel");
    assert_eq!(one.ring.capacity(), 1);
    let ten = busy_channel::<u8>(10).expect("couldn't create channel");
    assert_eq!(ten.ring.capacity(), 16);
}

#[test]
fn size_zero_is_refused() {
    match channel::<u8>(0) {
        Err(error) => {
            assert_eq!(error, ChannelError::InvalidSize);
            assert_eq!(error.message(), "size must be a power of 2");
        }
        Ok(_) => panic!("a channel without slots"),
    }
}

#[test]
fn size_beyond_the_signed_limit_is_refused() {
    let too_big = (isize::MAX as usize) + 1;
    match channel::<u8>(too_big) {
        Err(error) => {
            assert_eq!(error, ChannelError::BufferTooBig);
            assert_eq!(error.message(), "requested buffer too big");
        }
        Ok(_) => panic!("a channel beyond the limit"),
    }
    assert!(matches!(channel::<u8>(usize::MAX), Err(ChannelError::BufferTooBig)));
    assert!(matches!(
        channel::<u8>((isize::MAX as usize) / 2 + 2),
        Err(ChannelError::BufferTooBig)
    ));
}

#[test]
fn a_new_channel_has_one_receiver_at_the_start() {
    let handles = channel_with::<u8>(4, SpinBlockWait::new(3, 2), SpinBlockWait::new(1, 1))
        .expect("couldn't create channel");
    assert_eq!(handles.ring.capacity(), 4);
    assert_eq!(handles.ring.sender_tracker().current(), -1);
    assert_eq!(handles.ring.sender_tracker().handed_out(), 0);
    assert_eq!(handles.ring.reader_tracker().current(), 0);
    assert_eq!(handles.ring.reader_tracker().num_readers(), 1);
    assert_eq!(handles.ring.reader_tracker().count_at(0), 1);
    assert_eq!(handles.receiver.cursor(), -1);
    assert!(!handles.sender.in_flight());
    assert_eq!(handles.ring.ring().len(), 4);
    assert!(handles.ring.ring().iter().all(|slot| slot.is_none()));
}

#[test]
fn single_producer_single_receiver_small_buffer() {
    let (mut ring, mut sender, mut receiver) = channel(8).expect("couldn't create channel").dissolve();
    let mut received = Vec::new();
    for value in 0..5000usize {
        send_now(&mut sender, &mut ring, value);
        received.push(recv_now(&mut receiver, &mut ring));
    }
    let expected: Vec<usize> = (0..5000).collect();
    assert_eq!(received, expected);
}

#[test]
fn every_receiver_sees_each_producer_in_its_order() {
    let (mut ring, sender, first) = channel(10).expect("couldn't create channel").dissolve();
    assert_eq!(ring.capacity(), 16);
    let second = first.clone(&mut ring).expect("couldn't clone the receiver");
    let mut readers = vec![(first, Vec::new()), (second, Vec::new())];
    let mut writers = vec![(sender.clone(), 0usize), (sender, 0usize)];
    let per_writer = 5000usize;
    let mut rounds = 0usize;
    while readers.iter().any(|(_, seen)| seen.len() < 2 * per_writer) {
        for (tag, (writer, sent)) in writers.iter_mut().enumerate() {
            if writer.in_flight() {
                let _ = writer.resume(&mut ring);
            } else if *sent < per_writer {
                let _ = writer.send(&mut ring, (tag, *sent));
                *sent += 1;
            }
        }
        // the second reader only moves every other round
        for (index, (reader, seen)) in readers.iter_mut().enumerate() {
            if index == 0 || rounds % 2 == 0 {
                if let Poll::Ready(value) = reader.recv(&mut ring) {
                    seen.push(value);
                }
            }
        }
        rounds += 1;
        assert!(rounds < 1_000_000, "the channel is stuck");
    }
    let (_, reference) = &readers[0];
    for (_, seen) in &readers {
        assert_eq!(seen.len(), 2 * per_writer);
        assert_eq!(seen, reference);
        for tag in 0..2usize {
            let of_one: Vec<usize> =
                seen.iter().filter(|(from, _)| *from == tag).map(|(_, value)| *value).collect();
            let expected: Vec<usize> = (0..per_writer).collect();
            assert_eq!(of_one, expected);
        }
    }
}

#[test]
fn a_slow_receiver_holds_the_producer_back() {
    let (mut ring, mut sender, mut receiver) = channel(4).expect("couldn't create channel").dissolve();
    let mut received = Vec::new();
    let mut waits = 0usize;
    for value in 0..500u32 {
        let mut poll = sender.send(&mut ring, value);
        while poll.is_pending() {
            waits += 1;
            // the slot that the claimed id needs is the one the receiver stands at
            assert_eq!(ring.reader_tracker().current(), (value as isize) - 4);
            assert_eq!(ring.sender_tracker().current(), (value as isize) - 1);
            received.push(recv_now(&mut receiver, &mut ring));
            poll = sender.resume(&mut ring);
        }
    }
    while let Ok(value) = receiver.try_recv(&mut ring) {
        received.push(value);
    }
    let expected: Vec<u32> = (0..500).collect();
    assert_eq!(received, expected);
    assert!(waits >= 496);
}

#[test]
fn a_paused_receiver_reads_on_without_a_gap() {
    let (mut ring, mut sender, mut receiver) = channel(4).expect("couldn't create channel").dissolve();
    for value in 0..3u32 {
        send_now(&mut sender, &mut ring, value);
    }
    assert_eq!(recv_now(&mut receiver, &mut ring), 0);
    assert_eq!(recv_now(&mut receiver, &mut ring), 1);
    // the receiver pauses; the producer fills the ring and has to stop
    send_now(&mut sender, &mut ring, 3);
    send_now(&mut sender, &mut ring, 4);
    assert!(sender.send(&mut ring, 5).is_pending());
    assert!(sender.resume(&mut ring).is_pending());
    assert_eq!(ring.sender_tracker().current(), 4);
    // the receiver comes back
    assert_eq!(recv_now(&mut receiver, &mut ring), 2);
    assert!(sender.resume(&mut ring).is_ready());
    assert_eq!(recv_now(&mut receiver, &mut ring), 3);
    assert_eq!(recv_now(&mut receiver, &mut ring), 4);
    assert_eq!(recv_now(&mut receiver, &mut ring), 5);
}

#[test]
fn a_late_joiner_starts_at_the_watermark() {
    let (mut ring, mut sender, mut first) = channel(16).expect("couldn't create channel").dissolve();
    for value in 0..10u32 {
        send_now(&mut sender, &mut ring, value);
    }
    let mut late = first.add_stream(&mut ring).expect("couldn't add a stream");
    assert_eq!(late.cursor(), 8);
    assert_eq!(late.position(), 9);
    assert_eq!(ring.reader_tracker().count_at(9), 1);
    assert_eq!(recv_now(&mut late, &mut ring), 9);
    assert!(late.recv(&mut ring).is_pending());
    send_now(&mut sender, &mut ring, 10);
    assert_eq!(recv_now(&mut late, &mut ring), 10);
    assert_eq!(recv_now(&mut first, &mut ring), 0);
    // the late joiner never held the slot before the one it was placed on
    assert_eq!(ring.reader_tracker().count_at(8), 0);
    assert_eq!(ring.reader_tracker().count_at(10), 1);
    assert_eq!(ring.reader_tracker().num_readers(), 2);
}

#[test]
fn wrap_and_batch() {
    let (mut ring, mut sender, mut receiver) = channel(10).expect("couldn't create channel").dissolve();
    for value in 0..10u32 {
        send_now(&mut sender, &mut ring, value);
    }
    assert_eq!(recv_now(&mut receiver, &mut ring), 0);
    assert_eq!(recv_now(&mut receiver, &mut ring), 1);
    send_now(&mut sender, &mut ring, 10);
    send_now(&mut sender, &mut ring, 11);
    let mut out = Vec::with_capacity(10);
    receiver.batch_recv(&mut ring, &mut out).expect("nothing to receive");
    assert_eq!(out, vec![2, 3, 4, 5, 6, 7, 8, 9, 10, 11]);
    assert_eq!(receiver.cursor(), 11);
    assert_eq!(ring.reader_tracker().current(), 11);
}

#[test]
fn a_batch_across_the_end_of_the_slots_comes_in_order() {
    let (mut ring, mut sender, mut receiver) = channel(8).expect("couldn't create channel").dissolve();
    for value in 0..8u32 {
        send_now(&mut sender, &mut ring, value);
    }
    let mut head = Vec::new();
    assert_eq!(receiver.batch_recv_into(&mut ring, &mut head, 5), Ok(()));
    assert_eq!(head, vec![0, 1, 2, 3, 4]);
    for value in 8..12u32 {
        send_now(&mut sender, &mut ring, value);
    }
    let mut out = vec![100];
    assert_eq!(receiver.batch_recv_into(&mut ring, &mut out, 16), Ok(()));
    assert_eq!(out, vec![100, 5, 6, 7, 8, 9, 10, 11]);
    assert_eq!(receiver.batch_recv_into(&mut ring, &mut out, 16), Err(ReceiverError::NoNewData));
    assert_eq!(out.len(), 8);
}

#[test]
fn a_batch_round_trip_returns_what_was_sent() {
    for count in 1..=16usize {
        let (mut ring, mut sender, mut receiver) =
            channel(16).expect("couldn't create channel").dissolve();
        for value in 0..count {
            send_now(&mut sender, &mut ring, value);
        }
        let mut out = Vec::with_capacity(count);
        assert_eq!(receiver.batch_recv(&mut ring, &mut out), Ok(()));
        let expected: Vec<usize> = (0..count).collect();
        assert_eq!(out, expected);
    }
}

#[test]
fn a_batch_is_bounded_by_the_room_in_the_buffer() {
    let (mut ring, mut sender, mut receiver) = channel(8).expect("couldn't create channel").dissolve();
    let mut out: Vec<u32> = Vec::new();
    assert_eq!(receiver.batch_recv(&mut ring, &mut out), Err(ReceiverError::NoNewData));
    assert_eq!(receiver.try_recv(&mut ring), Err(ReceiverError::NoNewData));
    for value in 0..6u32 {
        send_now(&mut sender, &mut ring, value);
    }
    assert_eq!(receiver.batch_recv(&mut ring, &mut out), Err(ReceiverError::DestinationFull));
    assert_eq!(receiver.batch_recv_into(&mut ring, &mut out, 0), Err(ReceiverError::DestinationFull));
    assert_eq!(receiver.cursor(), -1);
    assert_eq!(receiver.batch_recv_into(&mut ring, &mut out, 2), Ok(()));
    assert_eq!(out, vec![0, 1]);
    assert_eq!(receiver.cursor(), 1);
    assert_eq!(ring.reader_tracker().current(), 1);
    assert_eq!(receiver.try_recv(&mut ring), Ok(2));
    assert_eq!(
        ReceiverError::DestinationFull.message(),
        "the destination has no room left"
    );
    assert_eq!(
        ReceiverError::NoNewData.message(),
        "There is nothing new to be read from the channel"
    );
}

#[test]
fn a_batch_passes_other_receivers_without_moving_the_tail_beyond_them() {
    let (mut ring, mut sender, mut fast) = channel(8).expect("couldn't create channel").dissolve();
    let mut slow = fast.clone(&mut ring).expect("couldn't clone the receiver");
    for value in 0..6u32 {
        send_now(&mut sender, &mut ring, value);
    }
    assert_eq!(recv_now(&mut slow, &mut ring), 0);
    assert_eq!(recv_now(&mut slow, &mut ring), 1);
    assert_eq!(recv_now(&mut slow, &mut ring), 2);
    assert_eq!(ring.reader_tracker().current(), 0);
    let mut out = Vec::new();
    assert_eq!(fast.batch_recv_into(&mut ring, &mut out, 8), Ok(()));
    assert_eq!(out, vec![0, 1, 2, 3, 4, 5]);
    assert_eq!(ring.reader_tracker().current(), 2);
    assert_eq!(recv_now(&mut slow, &mut ring), 3);
    assert_eq!(ring.reader_tracker().current(), 3);
}

#[test]
fn dropping_the_slow_receiver_unblocks_the_producer() {
    let (mut ring, mut sender, mut fast) = channel(2).expect("couldn't create channel").dissolve();
    let slow = fast.clone(&mut ring).expect("couldn't clone the receiver");
    assert_eq!(ring.reader_tracker().count_at(0), 2);
    let mut received = Vec::new();
    send_now(&mut sender, &mut ring, 0);
    send_now(&mut sender, &mut ring, 1);
    received.push(recv_now(&mut fast, &mut ring));
    received.push(recv_now(&mut fast, &mut ring));
    // the third value needs the first slot, which the slow receiver holds
    assert!(sender.send(&mut ring, 2).is_pending());
    assert!(sender.resume(&mut ring).is_pending());
    assert_eq!(ring.reader_tracker().current(), 0);
    slow.release(&mut ring);
    assert_eq!(ring.reader_tracker().current(), 1);
    assert_eq!(ring.reader_tracker().num_readers(), 1);
    assert!(sender.resume(&mut ring).is_ready());
    received.push(recv_now(&mut fast, &mut ring));
    send_now(&mut sender, &mut ring, 3);
    received.push(recv_now(&mut fast, &mut ring));
    assert_eq!(received, vec![0, 1, 2, 3]);
}

#[test]
fn a_clone_stands_where_its_source_stands() {
    let (mut ring, mut sender, mut first) = channel(8).expect("couldn't create channel").dissolve();
    for value in 0..5u32 {
        send_now(&mut sender, &mut ring, value);
    }
    assert_eq!(recv_now(&mut first, &mut ring), 0);
    assert_eq!(recv_now(&mut first, &mut ring), 1);
    let mut second = first.clone(&mut ring).expect("couldn't clone the receiver");
    assert_eq!(second.cursor(), 1);
    assert_eq!(ring.reader_tracker().count_at(1), 2);
    assert_eq!(recv_now(&mut second, &mut ring), 2);
    assert_eq!(recv_now(&mut first, &mut ring), 2);
    assert_eq!(ring.reader_tracker().current(), 2);
    assert!(ring.reader_tracker().current() <= second.cursor());
}

#[test]
fn a_place_behind_the_tail_is_refused() {
    let (mut ring, mut sender, mut receiver) = channel(8).expect("couldn't create channel").dissolve();
    for value in 0..5u32 {
        send_now(&mut sender, &mut ring, value);
    }
    for _ in 0..4 {
        let _ = recv_now(&mut receiver, &mut ring);
    }
    assert_eq!(ring.reader_tracker().current(), 3);
    assert!(ring.register(2).is_err());
    assert_eq!(ring.reader_tracker().num_readers(), 1);
    assert_eq!(ring.register(3), Ok(3));
    assert_eq!(ring.reader_tracker().num_readers(), 2);
    assert_eq!(ring.register(-7), Err(nexusq::TrackerError::PositionTooOld));
    assert_eq!(
        ReceiverError::RegistrationFailed(nexusq::TrackerError::PositionTooOld).message(),
        "failed to register the receiver on the channel. Generally a result of the channel being entirely overwritten too quickly"
    );
}

#[test]
fn a_clone_of_a_receiver_that_fell_behind_the_tail_is_refused() {
    let (mut ring, mut sender, stale) = channel(8).expect("couldn't create channel").dissolve();
    let mut other = stale.clone(&mut ring).expect("couldn't clone the receiver");
    for value in 0..4u32 {
        send_now(&mut sender, &mut ring, value);
    }
    for _ in 0..3 {
        let _ = recv_now(&mut other, &mut ring);
    }
    assert_eq!(ring.reader_tracker().current(), 0);
    // the place of the first receiver is given up behind its back
    ring.deregister(0);
    assert_eq!(ring.reader_tracker().current(), 2);
    match stale.clone(&mut ring) {
        Err(error) => assert_eq!(
            error,
            ReceiverError::RegistrationFailed(nexusq::TrackerError::PositionTooOld)
        ),
        Ok(_) => panic!("a receiver behind the tail"),
    }
    assert_eq!(ring.reader_tracker().num_readers(), 1);
    assert_eq!(recv_now(&mut other, &mut ring), 3);
}

#[test]
fn two_producers_publish_in_the_order_of_their_claims() {
    let (mut ring, mut first, mut receiver) = channel(4).expect("couldn't create channel").dissolve();
    let mut second = first.clone();
    for value in 0..4u32 {
        send_now(&mut first, &mut ring, value);
    }
    // both producers claim while the ring is full
    assert!(first.send(&mut ring, 4).is_pending());
    assert!(second.send(&mut ring, 5).is_pending());
    assert_eq!(ring.sender_tracker().handed_out(), 6);
    assert_eq!(recv_now(&mut receiver, &mut ring), 0);
    assert_eq!(recv_now(&mut receiver, &mut ring), 1);
    // the receiver has left the slot of id 4, not yet that of id 5
    assert!(matches!(second.resume(&mut ring), Poll::Pending(Pause::Block)));
    assert_eq!(recv_now(&mut receiver, &mut ring), 2);
    // the later claim is written first and has to wait for the earlier one
    assert!(matches!(second.resume(&mut ring), Poll::Pending(Pause::Spin)));
    assert_eq!(ring.sender_tracker().current(), 3);
    assert!(matches!(second.resume(&mut ring), Poll::Pending(Pause::Spin)));
    assert!(first.resume(&mut ring).is_ready());
    assert_eq!(ring.sender_tracker().current(), 4);
    assert!(second.resume(&mut ring).is_ready());
    assert_eq!(ring.sender_tracker().current(), 5);
    let mut out = Vec::new();
    assert_eq!(receiver.batch_recv_into(&mut ring, &mut out, 8), Ok(()));
    assert_eq!(out, vec![3, 4, 5]);
}

#[test]
fn the_traits_do_what_the_handles_do() {
    fn push<S: Sender<u8>>(sender: &mut S, ring: &mut Ring<u8>, value: u8) -> Poll<()> {
        sender.send(ring, value)
    }
    fn pull<R: Receiver<u8>>(receiver: &mut R, ring: &mut Ring<u8>) -> Result<Poll<u8>, ReceiverError> {
        receiver.recv(ring)
    }
    let (mut ring, mut sender, mut receiver) = channel(2).expect("couldn't create channel").dissolve();
    assert!(matches!(pull(&mut receiver, &mut ring), Ok(Poll::Pending(Pause::Listen))));
    assert!(matches!(pull(&mut receiver, &mut ring), Ok(Poll::Pending(Pause::Block))));
    assert!(push(&mut sender, &mut ring, 7).is_ready());
    assert!(matches!(pull(&mut receiver, &mut ring), Ok(Poll::Ready(7))));
}

/// A small generator of numbers that look random and are the same in every
/// run.
struct Dice(u64);

impl Dice {
    fn roll(&mut self, sides: usize) -> usize {
        self.0 = self.0.wrapping_mul(6364136223846793005).wrapping_add(1442695040888963407);
        ((self.0 >> 33) as usize) % sides
    }
}

#[test]
fn any_schedule_delivers_every_value_in_the_order_of_the_claims() {
    for seed in 0..40u64 {
        let mut dice = Dice(seed);
        let size = 1 + dice.roll(9);
        let (mut ring, sender, receiver) = channel::<usize>(size).expect("couldn't create channel").dissolve();
        // the value of each sequence id, in the order of the claims
        let mut claims: Vec<usize> = Vec::new();
        let mut writers = vec![sender.clone(), sender.clone(), sender];
        // each reader with the sequence id that it receives next
        let mut readers: Vec<(BroadcastReceiver<usize>, usize)> = vec![(receiver, 0)];
        for step in 0..4000usize {
            match dice.roll(10) {
                0..=3 => {
                    let index = dice.roll(writers.len());
                    let writer = &mut writers[index];
                    if writer.in_flight() {
                        let _ = writer.resume(&mut ring);
                    } else {
                        claims.push(step);
                        let _ = writer.send(&mut ring, step);
                    }
                }
                4..=6 => {
                    let index = dice.roll(readers.len());
                    let (reader, next) = &mut readers[index];
                    match reader.recv(&mut ring) {
                        Poll::Ready(value) => {
                            assert_eq!(value, claims[*next]);
                            *next += 1;
                        }
                        Poll::Pending(_) => {
                            assert!(ring.sender_tracker().current() < *next as isize);
                        }
                    }
                }
                7 => {
                    let index = dice.roll(readers.len());
                    let (reader, next) = &mut readers[index];
                    let room = dice.roll(5);
                    let mut out = Vec::new();
                    let before = ring.sender_tracker().current();
                    match reader.batch_recv_into(&mut ring, &mut out, room) {
                        Ok(()) => {
                            let ready = (before + 1) as usize - *next;
                            assert_eq!(out.len(), ready.min(room));
                            for value in out {
                                assert_eq!(value, claims[*next]);
                                *next += 1;
                            }
                        }
                        Err(ReceiverError::NoNewData) => assert!(before < *next as isize),
                        Err(ReceiverError::DestinationFull) => assert_eq!(room, 0),
                        Err(other) => panic!("unexpected error {:?}", other),
                    }
                }
                8 => {
                    if readers.len() < 5 {
                        let index = dice.roll(readers.len());
                        let next = readers[index].1;
                        let copy = readers[index].0.clone(&mut ring).expect("couldn't clone");
                        readers.push((copy, next));
                        let watermark = ring.sender_tracker().current();
                        let late = readers[0].0.add_stream(&mut ring).expect("couldn't add a stream");
                        readers.push((late, watermark.max(0) as usize));
                    }
                }
                _ => {
                    if readers.len() > 1 {
                        let index = dice.roll(readers.len());
                        let (reader, _) = readers.swap_remove(index);
                        reader.release(&mut ring);
                    }
                }
            }
            // no cursor stands behind the tail, and the tail is the slowest
            let tail = ring.reader_tracker().current();
            let slowest = readers.iter().map(|(reader, next)| {
                assert!(reader.cursor() + 1 == *next as isize);
                assert!(reader.position() == reader.cursor() || reader.position() == *next as isize);
                assert!(ring.reader_tracker().count_at(reader.position()) >= 1);
                reader.position()
            });
            assert_eq!(tail, slowest.min().expect("there is a reader"));
            assert_eq!(ring.reader_tracker().num_readers(), readers.len() as isize);
            assert!(ring.sender_tracker().current() < ring.sender_tracker().handed_out());
            assert_eq!(ring.sender_tracker().handed_out(), claims.len() as isize);
        }
    }
}

#[test]
fn the_listeners_of_a_ring_hear_its_watermark_and_its_tail() {
    let (mut ring, mut sender, mut receiver) = channel::<u8>(2).expect("couldn't create channel").dissolve();
    let for_a_value = ring
        .sender_tracker()
        .wait_strategy()
        .listen()
        .expect("the default strategy lets waiters sleep");
    let for_room = ring
        .reader_tracker()
        .wait_strategy()
        .listen()
        .expect("the default strategy lets waiters sleep");
    send_now(&mut sender, &mut ring, 1);
    // the watermark has moved: who waits for a value is woken
    assert!(for_a_value.wait_timeout(Duration::from_secs(5)));
    send_now(&mut sender, &mut ring, 2);
    assert_eq!(recv_now(&mut receiver, &mut ring), 1);
    let unmoved = ring
        .reader_tracker()
        .wait_strategy()
        .listen()
        .expect("the default strategy lets waiters sleep");
    assert_eq!(ring.reader_tracker().current(), 0);
    assert_eq!(recv_now(&mut receiver, &mut ring), 2);
    // the tail has moved: who waits for room is woken
    assert_eq!(ring.reader_tracker().current(), 1);
    assert!(for_room.wait_timeout(Duration::from_secs(5)));
    assert!(unmoved.wait_timeout(Duration::from_secs(5)));
    // a listener of another strategy hears nothing of this ring
    let elsewhere = SpinBlockWait::new(0, 0);
    let deaf = elsewhere.listen().expect("a blocking strategy has an event");
    send_now(&mut sender, &mut ring, 3);
    assert!(!deaf.wait_timeout(Duration::from_millis(10)));
}
