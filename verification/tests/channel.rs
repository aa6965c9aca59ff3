//! A channel whose two ends take turns on one thread.
use unbounded_spsc::receiving::{Renewal, Timed};
use unbounded_spsc::{
    channel, RecvError, RecvTimeoutError, SelectionResult, SendError, TryRecvError, INITIAL_CAPACITY,
    MAX_STEALS,
};

#[test]
fn lib_smoke() {
    let (tx, rx, mut link) = channel::<i32>();
    tx.send(&mut link, 1).ok().unwrap();
    assert_eq!(rx.recv(&mut link).unwrap(), 1);
}

#[test]
fn drop_full() {
    let (tx, rx, mut link) = channel::<Box<isize>>();
    tx.send(&mut link, Box::new(1)).ok().unwrap();
    rx.close(&mut link);
    tx.close(&mut link);
}

#[test]
fn smoke_port_gone() {
    let (tx, rx, mut link) = channel::<i32>();
    rx.close(&mut link);
    assert!(tx.send(&mut link, 1).is_err());
}

#[test]
fn smoke_shared_port_gone() {
    let (tx, rx, mut link) = channel::<i32>();
    rx.close(&mut link);
    assert!(tx.send(&mut link, 1).is_err())
}

#[test]
fn smoke_chan_gone() {
    let (tx, rx, mut link) = channel::<i32>();
    tx.close(&mut link);
    assert!(rx.recv(&mut link).is_err());
}

#[test]
fn oneshot_single_thread_close_port_first() {
    // Simple test of closing without sending
    let (_tx, rx, mut link) = channel::<i32>();
    rx.close(&mut link);
}

#[test]
fn oneshot_single_thread_close_chan_first() {
    // Simple test of closing without sending
    let (tx, _rx, mut link) = channel::<i32>();
    tx.close(&mut link);
}

#[test]
fn oneshot_single_thread_send_port_close() {
    // Testing that the sender cleans up the payload if receiver is closed
    let (tx, rx, mut link) = channel::<Box<i32>>();
    rx.close(&mut link);
    assert!(tx.send(&mut link, Box::new(0)).is_err());
}

#[test]
fn oneshot_single_thread_send_then_recv() {
    let (tx, rx, mut link) = channel::<Box<i32>>();
    tx.send(&mut link, Box::new(10)).ok().unwrap();
    assert!(*rx.recv(&mut link).unwrap() == 10);
}

#[test]
fn oneshot_single_thread_try_send_open() {
    let (tx, rx, mut link) = channel::<i32>();
    assert!(tx.send(&mut link, 10).is_ok());
    assert!(rx.recv(&mut link).unwrap() == 10);
}

#[test]
fn oneshot_single_thread_try_send_closed() {
    let (tx, rx, mut link) = channel::<i32>();
    rx.close(&mut link);
    assert!(tx.send(&mut link, 10).is_err());
}

#[test]
fn oneshot_single_thread_try_recv_open() {
    let (tx, rx, mut link) = channel::<i32>();
    tx.send(&mut link, 10).ok().unwrap();
    assert!(rx.recv(&mut link) == Ok(10));
}

#[test]
fn oneshot_single_thread_try_recv_closed() {
    let (tx, rx, mut link) = channel::<i32>();
    tx.close(&mut link);
    assert!(rx.recv(&mut link).is_err());
}

#[test]
fn oneshot_single_thread_peek_data() {
    let (tx, rx, mut link) = channel::<i32>();
    assert_eq!(rx.try_recv(&mut link), Err(TryRecvError::Empty));
    tx.send(&mut link, 10).ok().unwrap();
    assert_eq!(rx.try_recv(&mut link), Ok(10));
}

#[test]
fn oneshot_single_thread_peek_close() {
    let (tx, rx, mut link) = channel::<i32>();
    tx.close(&mut link);
    assert_eq!(rx.try_recv(&mut link), Err(TryRecvError::Disconnected));
    assert_eq!(rx.try_recv(&mut link), Err(TryRecvError::Disconnected));
}

#[test]
fn oneshot_single_thread_peek_open() {
    let (_tx, rx, mut link) = channel::<i32>();
    assert_eq!(rx.try_recv(&mut link), Err(TryRecvError::Empty));
}

#[test]
fn oneshot_single_thread_recv_timeout() {
    let (tx, rx, mut link) = channel();
    tx.send(&mut link, true).ok().unwrap();
    assert_eq!(rx.recv_timeout(&mut link, 1), Ok(true));
    assert_eq!(
        rx.recv_timeout(&mut link, 1),
        Err(RecvTimeoutError::Timeout)
    );
    tx.send(&mut link, true).ok().unwrap();
    assert_eq!(rx.recv_timeout(&mut link, 1), Ok(true));
}

#[test]
fn recv_a_lot() {
    // Regression test that we don't run out of stack in scheduler context
    let (tx, rx, mut link) = channel();
    for _ in 0..10000 {
        tx.send(&mut link, true).ok().unwrap();
    }
    for _ in 0..10000 {
        rx.recv(&mut link).unwrap();
    }
}

#[test]
fn test_recv_into_iter_owned() {
    let (mut iter, mut link) = {
        let (tx, rx, mut link) = channel::<i32>();
        tx.send(&mut link, 1).ok().unwrap();
        tx.send(&mut link, 2).ok().unwrap();
        tx.close(&mut link);

        (rx.into_iter(), link)
    };
    assert_eq!(iter.next(&mut link).unwrap(), 1);
    assert_eq!(iter.next(&mut link).unwrap(), 2);
    assert_eq!(iter.next(&mut link).is_none(), true);
}

#[test]
fn test_recv_into_iter_borrowed() {
    let (tx, rx, mut link) = channel::<i32>();
    tx.send(&mut link, 1).ok().unwrap();
    tx.send(&mut link, 2).ok().unwrap();
    tx.close(&mut link);
    let mut iter = (&rx).iter();
    assert_eq!(iter.next(&mut link).unwrap(), 1);
    assert_eq!(iter.next(&mut link).unwrap(), 2);
    assert_eq!(iter.next(&mut link).is_none(), true);
}

#[test]
fn issue_32114() {
    let (tx, rx, mut link) = channel();
    rx.close(&mut link);
    let _ = tx.send(&mut link, 123);
    assert!(tx.send(&mut link, 123) == Err(SendError(123)));
}

#[test]
fn send_hands_the_message_back() {
    let (tx, rx, mut link) = channel::<String>();
    rx.close(&mut link);
    let SendError(back) = tx.send(&mut link, "letter".to_string()).err().unwrap();
    assert_eq!(back, "letter");
}

#[test]
fn messages_come_in_order() {
    let (tx, rx, mut link) = channel::<u32>();
    for i in 0..1000 {
        assert!(tx.send(&mut link, i).is_ok());
        if i % 3 == 0 {
            assert_eq!(rx.try_recv(&mut link), Ok(i / 3));
        }
    }
    for i in 334..1000 {
        assert_eq!(rx.recv(&mut link), Ok(i));
    }
    assert_eq!(rx.try_recv(&mut link), Err(TryRecvError::Empty));
}

#[test]
fn messages_outlive_the_sender() {
    let (tx, rx, mut link) = channel::<u32>();
    for i in 0..200 {
        tx.send(&mut link, i).ok().unwrap();
    }
    tx.close(&mut link);
    for i in 0..200 {
        assert_eq!(rx.try_recv(&mut link), Ok(i));
    }
    assert_eq!(rx.try_recv(&mut link), Err(TryRecvError::Disconnected));
    assert_eq!(rx.recv(&mut link), Err(RecvError));
    assert_eq!(
        rx.recv_timeout(&mut link, 5),
        Err(RecvTimeoutError::Disconnected)
    );
}

#[test]
fn capacity_doubles() {
    let (tx, rx, mut link) = channel::<usize>();
    assert_eq!(INITIAL_CAPACITY, 128);
    assert_eq!(rx.capacity(&link), 128);
    for i in 0..128 + 256 + 1 {
        tx.send(&mut link, i).ok().unwrap();
    }
    assert_eq!(rx.capacity(&link), 128);
    for i in 0..129 {
        assert_eq!(rx.try_recv(&mut link), Ok(i));
    }
    assert_eq!(rx.capacity(&link), 256);
    for i in 129..385 {
        assert_eq!(rx.try_recv(&mut link), Ok(i));
    }
    assert_eq!(rx.capacity(&link), 512);
    assert_eq!(rx.try_recv(&mut link), Err(TryRecvError::Empty));
    assert_eq!(rx.capacity(&link), 512);
}

#[test]
fn capacity_of_a_drained_queue() {
    let (tx, rx, mut link) = channel::<usize>();
    for i in 0..128 {
        tx.send(&mut link, i).ok().unwrap();
    }
    for i in 0..128 {
        assert_eq!(rx.try_recv(&mut link), Ok(i));
    }
    // the queue has room again, so none is added
    tx.send(&mut link, 128).ok().unwrap();
    assert_eq!(rx.try_recv(&mut link), Ok(128));
    assert_eq!(rx.capacity(&link), 128);
}

#[test]
fn many_steals_are_settled() {
    let (tx, rx, mut link) = channel::<u32>();
    let n = MAX_STEALS as u32 + 5;
    for i in 0..n {
        tx.send(&mut link, i).ok().unwrap();
        assert_eq!(rx.try_recv(&mut link), Ok(i));
    }
    for i in 0..3 {
        tx.send(&mut link, i).ok().unwrap();
    }
    for i in 0..3 {
        assert_eq!(rx.recv(&mut link), Ok(i));
    }
    assert_eq!(
        rx.recv_timeout(&mut link, 1),
        Err(RecvTimeoutError::Timeout)
    );
    rx.close(&mut link);
    assert!(tx.send(&mut link, 7) == Err(SendError(7)));
}

#[test]
fn many_steals_after_the_sender_left() {
    let (tx, rx, mut link) = channel::<u32>();
    let n = MAX_STEALS as u32 + 5;
    for i in 0..n {
        tx.send(&mut link, i).ok().unwrap();
    }
    tx.close(&mut link);
    for i in 0..n {
        assert_eq!(rx.try_recv(&mut link), Ok(i));
    }
    assert_eq!(rx.try_recv(&mut link), Err(TryRecvError::Disconnected));
}

#[test]
fn timeouts_lose_nothing() {
    let (tx, rx, mut link) = channel::<u32>();
    for i in 0..50 {
        assert_eq!(
            rx.recv_timeout(&mut link, 3),
            Err(RecvTimeoutError::Timeout)
        );
        tx.send(&mut link, i).ok().unwrap();
        tx.send(&mut link, i + 1000).ok().unwrap();
        assert_eq!(rx.recv_timeout(&mut link, 3), Ok(i));
        assert_eq!(rx.try_recv(&mut link), Ok(i + 1000));
    }
    rx.close(&mut link);
}

#[test]
fn deadline_in_the_past() {
    let (tx, rx, mut link) = channel::<u32>();
    assert_eq!(
        rx.recv_deadline(&mut link, 0),
        Err(RecvTimeoutError::Timeout)
    );
    assert_eq!(
        rx.recv_max_until(&mut link, 10),
        Err(RecvTimeoutError::Timeout)
    );
    tx.send(&mut link, 4).ok().unwrap();
    assert_eq!(rx.recv_max_until(&mut link, 10), Ok(4));
}

#[test]
fn receives_that_are_made_again() {
    assert!(matches!(
        Renewal::<u32>::decided(Err(RecvTimeoutError::Timeout), 10, 9),
        Renewal::Again
    ));
    match Renewal::<u32>::decided(Err(RecvTimeoutError::Timeout), 10, 10) {
        Renewal::Return(result) => assert_eq!(result, Err(RecvTimeoutError::Timeout)),
        Renewal::Again => panic!(),
    }
    match Renewal::<u32>::decided(Err(RecvTimeoutError::Disconnected), 10, 9) {
        Renewal::Return(result) => assert_eq!(result, Err(RecvTimeoutError::Disconnected)),
        Renewal::Again => panic!(),
    }
    match Renewal::<u32>::decided(Ok(6), 10, 9) {
        Renewal::Return(result) => assert_eq!(result, Ok(6)),
        Renewal::Again => panic!(),
    }
}

#[test]
fn receives_with_a_time_limit_begin_with_a_look() {
    assert!(matches!(
        Timed::<u32>::decided(Err(TryRecvError::Empty)),
        Timed::Wait
    ));
    match Timed::<u32>::decided(Err(TryRecvError::Disconnected)) {
        Timed::Return(result) => assert_eq!(result, Err(RecvTimeoutError::Disconnected)),
        Timed::Wait => panic!(),
    }
    match Timed::<u32>::decided(Ok(6)) {
        Timed::Return(result) => assert_eq!(result, Ok(6)),
        Timed::Wait => panic!(),
    }
}

#[test]
fn one_queue_shows_all_messages() {
    let (tx, rx, mut link) = channel::<u32>();
    for round in 0..5 {
        for i in 0..128 {
            tx.send(&mut link, i + round).ok().unwrap();
            assert!(rx.can_recv(&link));
        }
        for i in 0..128 {
            assert!(rx.can_recv(&link));
            assert_eq!(rx.try_recv(&mut link), Ok(i + round));
        }
        assert!(!rx.can_recv(&link));
        assert_eq!(rx.capacity(&link), 128);
    }
    tx.send(&mut link, 9).ok().unwrap();
    tx.close(&mut link);
    assert!(rx.can_recv(&link));
    assert_eq!(rx.recv(&mut link), Ok(9));
    assert!(!rx.can_recv(&link));
}

#[test]
fn two_channels_are_independent() {
    let (tx1, rx1, mut link1) = channel::<u32>();
    let (tx2, rx2, mut link2) = channel::<char>();
    tx1.send(&mut link1, 1).ok().unwrap();
    assert_eq!(rx2.try_recv(&mut link2), Err(TryRecvError::Empty));
    tx2.send(&mut link2, 'a').ok().unwrap();
    rx1.close(&mut link1);
    assert!(tx1.send(&mut link1, 2) == Err(SendError(2)));
    assert_eq!(rx2.try_recv(&mut link2), Ok('a'));
    tx1.close(&mut link1);
    assert_eq!(rx2.try_recv(&mut link2), Err(TryRecvError::Empty));
    assert!(tx2.send(&mut link2, 'b').is_ok());
}

#[test]
fn leaving_receiver_drains_all_queues() {
    let (tx, rx, mut link) = channel::<u32>();
    for i in 0..1000 {
        tx.send(&mut link, i).ok().unwrap();
    }
    rx.close(&mut link);
    assert!(tx.send(&mut link, 1) == Err(SendError(1)));
    tx.close(&mut link);
}

#[test]
fn both_ends_leave() {
    let (tx, rx, mut link) = channel::<u32>();
    tx.send(&mut link, 1).ok().unwrap();
    tx.close(&mut link);
    rx.close(&mut link);
}

#[test]
fn announcement_is_refused_when_a_message_is_pending() {
    let (tx, rx, mut link) = channel::<u32>();
    tx.send(&mut link, 5).ok().unwrap();
    assert_eq!(
        rx.start_selection(&mut link, 9),
        SelectionResult::SelCanceled
    );
    assert_eq!(rx.try_recv(&mut link), Ok(5));
    tx.close(&mut link);
    assert_eq!(
        rx.start_selection(&mut link, 9),
        SelectionResult::SelCanceled
    );
    assert_eq!(rx.try_recv(&mut link), Err(TryRecvError::Disconnected));
}

#[test]
fn announcement_is_undone() {
    let (tx, rx, mut link) = channel::<u32>();
    for i in 0..20 {
        assert_eq!(rx.start_selection(&mut link, 9), SelectionResult::SelSuccess);
        assert!(!rx.abort_selection(&mut link));
        tx.send(&mut link, i).ok().unwrap();
        assert_eq!(rx.recv(&mut link), Ok(i));
    }
    assert_eq!(rx.start_selection(&mut link, 9), SelectionResult::SelSuccess);
    tx.send(&mut link, 77).ok().unwrap();
    assert!(rx.abort_selection(&mut link));
    assert_eq!(rx.recv(&mut link), Ok(77));
    assert_eq!(rx.start_selection(&mut link, 9), SelectionResult::SelSuccess);
    tx.close(&mut link);
    assert!(rx.abort_selection(&mut link));
    assert_eq!(rx.recv(&mut link), Err(RecvError));
}

#[test]
fn visible_messages() {
    let (tx, rx, mut link) = channel::<u32>();
    assert!(!rx.can_recv(&link));
    for i in 0..129 {
        tx.send(&mut link, i).ok().unwrap();
    }
    assert!(rx.can_recv(&link));
    for i in 0..128 {
        assert_eq!(rx.recv(&mut link), Ok(i));
    }
    // the last message is in the next queue
    assert!(!rx.can_recv(&link));
    assert_eq!(rx.recv(&mut link), Ok(128));
    assert!(!rx.can_recv(&link));
}

#[test]
fn iterations() {
    let (tx, rx, mut link) = channel::<u32>();
    for i in 0..6 {
        tx.send(&mut link, i).ok().unwrap();
    }
    let mut pending = rx.try_iter();
    let mut sum = 0;
    while let Some(x) = pending.next(&mut link) {
        sum += x;
    }
    assert_eq!(sum, 15);
    assert_eq!(rx.try_recv(&mut link), Err(TryRecvError::Empty));
    tx.send(&mut link, 6).ok().unwrap();
    assert_eq!(pending.next(&mut link), Some(6));
    assert_eq!(pending.next(&mut link), None);
    tx.send(&mut link, 7).ok().unwrap();
    tx.close(&mut link);
    let mut all = rx.iter();
    assert_eq!(all.next(&mut link), Some(7));
    assert_eq!(all.next(&mut link), None);
}

#[test]
fn texts() {
    let (tx, rx, _link) = channel::<u32>();
    assert_eq!(tx.debug(), "Sender { .. }");
    assert_eq!(rx.debug(), "Receiver { .. }");
    assert_eq!(rx.iter().debug(), "Iter { rx: Receiver { .. } }");
    assert_eq!(rx.try_iter().debug(), "TryIter { rx: Receiver { .. } }");
    assert_eq!(rx.into_iter().debug(), "IntoIter { rx: Receiver { .. } }");
    assert_eq!(RecvError.description(), "receiving on a closed cahnnel");
    assert_eq!(SendError(1).description(), "sending on a closed cahnnel");
    assert_eq!(SendError(1).debug(), "\"SendError(..)\"");
    assert_eq!(
        TryRecvError::Empty.description(),
        "receiving on an empty channel"
    );
    assert_eq!(
        TryRecvError::Disconnected.description(),
        "receiving on a closed channel"
    );
}
