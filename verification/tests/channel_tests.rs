use concurrency_lib::channel::{bounded, unbounded, Occupancy, ReceiveAttempt, SendAttempt};
use concurrency_lib::error::PipelineError;
use std::sync::atomic::{AtomicBool, Ordering};
use std::sync::Arc;
use std::time::Duration;

fn pause(millis: u64) {
    let _ = crossbeam::channel::after(Duration::from_millis(millis)).recv();
}

#[test]
fn values_come_out_in_the_order_sent() {
    let (mut tx, mut rx) = bounded::<i32>(3);
    assert_eq!(tx.send(7), Ok(()));
    assert_eq!(tx.send(8), Ok(()));
    assert_eq!(tx.send(9), Ok(()));
    assert_eq!(rx.receive(), Some(7));
    assert_eq!(rx.receive(), Some(8));
    assert_eq!(rx.receive(), Some(9));
}

#[test]
fn closed_sender_ends_iteration_after_the_buffer_is_drained() {
    let (mut tx, mut rx) = bounded::<i32>(4);
    for v in [1, 2, 3] {
        assert_eq!(tx.send(v), Ok(()));
    }
    tx.close();
    assert_eq!(rx.iterate(100), vec![1, 2, 3]);
    assert_eq!(rx.iterate(100), Vec::<i32>::new());
    assert_eq!(rx.receive(), None);
    assert!(matches!(rx.try_receive(), ReceiveAttempt::EndOfStream));
}

#[test]
fn pending_iteration_ends_when_the_sender_closes() {
    let (mut tx, rx) = bounded::<i32>(1);
    let mut waiting = rx.clone_handle();
    rx.release();
    let received = crossbeam::scope(|s| {
        let reader = s.spawn(move |_| waiting.iterate(100));
        pause(50);
        assert_eq!(tx.send(5), Ok(()));
        tx.close();
        reader.join().unwrap()
    })
    .unwrap();
    assert_eq!(received, vec![5]);
}

#[test]
fn stream_ends_only_when_every_sender_is_closed() {
    let (mut first, mut rx) = unbounded::<i32>();
    let mut second = first.clone_handle();
    first.close();
    assert!(matches!(rx.try_receive(), ReceiveAttempt::Empty));
    assert_eq!(second.send(1), Ok(()));
    second.close();
    assert_eq!(rx.receive(), Some(1));
    assert_eq!(rx.receive(), None);
}

#[test]
fn close_is_idempotent_and_stops_sending() {
    let (mut tx, mut rx) = bounded::<i32>(2);
    assert!(!tx.is_closed());
    tx.close();
    assert!(tx.is_closed());
    tx.close();
    assert!(tx.is_closed());
    assert_eq!(tx.send(1), Err(PipelineError::ChannelClosed));
    assert_eq!(tx.try_send(1), SendAttempt::Closed);
    assert!(tx.clone_handle().is_closed());
    assert_eq!(rx.receive(), None);
}

#[test]
fn send_fails_when_no_receiver_is_left() {
    let (mut tx, rx) = bounded::<i32>(2);
    rx.release();
    assert_eq!(tx.send(1), Err(PipelineError::ChannelClosed));
    assert_eq!(tx.try_send(1), SendAttempt::Closed);
    assert!(!tx.is_closed());
}

#[test]
fn capacity_one_holds_at_most_one() {
    let (mut tx, mut rx) = bounded::<i32>(1);
    assert_eq!(rx.occupancy(), Occupancy { queued: 0, capacity: Some(1) });
    assert_eq!(tx.try_send(1), SendAttempt::Sent);
    assert_eq!(rx.occupancy(), Occupancy { queued: 1, capacity: Some(1) });
    assert_eq!(tx.try_send(2), SendAttempt::Full);
    assert_eq!(rx.occupancy(), Occupancy { queued: 1, capacity: Some(1) });
    assert_eq!(rx.receive(), Some(1));
    assert_eq!(rx.occupancy().queued, 0);
    assert_eq!(tx.try_send(3), SendAttempt::Sent);
    assert!(matches!(rx.try_receive(), ReceiveAttempt::Item(3)));
    assert!(matches!(rx.try_receive(), ReceiveAttempt::Empty));
}

#[test]
fn second_send_waits_for_a_receive() {
    let (mut tx, mut rx) = bounded::<i32>(1);
    assert_eq!(tx.send(1), Ok(()));
    let done = Arc::new(AtomicBool::new(false));
    let flag = done.clone();
    crossbeam::scope(|s| {
        let sender = s.spawn(move |_| {
            let sent = tx.send(2);
            flag.store(true, Ordering::SeqCst);
            sent
        });
        pause(100);
        assert!(!done.load(Ordering::SeqCst));
        assert!(rx.occupancy().queued <= 1);
        assert_eq!(rx.receive(), Some(1));
        assert_eq!(sender.join().unwrap(), Ok(()));
        assert!(done.load(Ordering::SeqCst));
        assert_eq!(rx.receive(), Some(2));
    })
    .unwrap();
}

#[test]
fn unbounded_channel_never_fills() {
    let (mut tx, mut rx) = unbounded::<i32>();
    for v in 0..1000 {
        assert_eq!(tx.try_send(v), SendAttempt::Sent);
    }
    assert_eq!(rx.occupancy(), Occupancy { queued: 1000, capacity: None });
    assert_eq!(rx.iterate(10).len(), 10);
    assert_eq!(rx.occupancy().queued, 990);
}

#[test]
fn each_value_goes_to_one_receiver() {
    let (mut tx, mut first) = unbounded::<i32>();
    let mut second = first.clone_handle();
    for v in 0..10 {
        assert_eq!(tx.send(v), Ok(()));
    }
    tx.close();
    let mut seen = first.iterate(4);
    seen.extend(second.iterate(100));
    seen.extend(first.iterate(100));
    assert_eq!(seen, (0..10).collect::<Vec<i32>>());
}

#[test]
fn receiver_stays_at_the_end_of_the_stream() {
    let (mut tx, mut rx) = bounded::<i32>(2);
    assert!(!rx.has_ended());
    assert_eq!(tx.send(1), Ok(()));
    assert!(matches!(rx.try_receive(), ReceiveAttempt::Item(1)));
    assert!(matches!(rx.try_receive(), ReceiveAttempt::Empty));
    assert!(!rx.has_ended());
    tx.close();
    assert_eq!(rx.receive(), None);
    assert!(rx.has_ended());
    assert_eq!(rx.receive(), None);
    assert!(matches!(rx.try_receive(), ReceiveAttempt::EndOfStream));
    assert_eq!(rx.iterate(5), Vec::<i32>::new());
    assert!(rx.has_ended());
    let mut fresh = rx.clone_handle();
    assert!(!fresh.has_ended());
    assert_eq!(fresh.receive(), None);
    assert!(fresh.has_ended());
}

#[test]
fn iterate_short_of_its_limit_has_ended() {
    let (mut tx, mut rx) = unbounded::<i32>();
    for v in 0..5 {
        assert_eq!(tx.send(v), Ok(()));
    }
    assert_eq!(rx.iterate(3), vec![0, 1, 2]);
    assert!(!rx.has_ended());
    assert_eq!(rx.iterate(0), Vec::<i32>::new());
    assert!(!rx.has_ended());
    tx.close();
    assert_eq!(rx.iterate(2), vec![3, 4]);
    assert!(!rx.has_ended());
    assert_eq!(rx.iterate(1), Vec::<i32>::new());
    assert!(rx.has_ended());
}

#[test]
fn try_receive_finds_the_end_of_the_stream() {
    let (mut tx, mut rx) = bounded::<i32>(1);
    tx.close();
    assert!(matches!(rx.try_receive(), ReceiveAttempt::EndOfStream));
    assert!(rx.has_ended());
    assert_eq!(rx.receive(), None);
}

#[test]
fn handle_reports_the_capacity_it_was_opened_with() {
    let (mut tx, rx) = bounded::<i32>(3);
    assert_eq!(rx.occupancy(), Occupancy { queued: 0, capacity: Some(3) });
    assert_eq!(tx.send(1), Ok(()));
    assert_eq!(tx.send(2), Ok(()));
    let copy = rx.clone_handle();
    assert_eq!(copy.occupancy(), Occupancy { queued: 2, capacity: Some(3) });
    assert_eq!(tx.send(3), Ok(()));
    assert_eq!(tx.try_send(4), SendAttempt::Full);
    assert_eq!(rx.occupancy(), Occupancy { queued: 3, capacity: Some(3) });
    let (_tx, rx) = unbounded::<i32>();
    assert_eq!(rx.clone_handle().occupancy().capacity, None);
}
