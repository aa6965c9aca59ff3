//! Channels whose two ends run at the same time, one access at a time.
use unbounded_spsc::arming::{Arming, Selecting, Withdrawing};
use unbounded_spsc::blocking::{signal, Waiting};
use unbounded_spsc::polling::Polling;
use unbounded_spsc::receiving::{Awaiting, Leaving, Receiving};
use unbounded_spsc::select::Round;
use unbounded_spsc::sending::{Hangup, Sending};
use unbounded_spsc::{
    channel, Link, RecvError, RecvTimeoutError, Select, SelectionResult, SendError,
    TryRecvError, DISCONNECTED,
};

/// A source of choices that is the same in each run.
struct Dice(u64);

impl Dice {
    fn roll(&mut self, sides: u64) -> u64 {
        self.0 = self
            .0
            .wrapping_mul(6364136223846793005)
            .wrapping_add(1442695040888963407);
        (self.0 >> 33) % sides
    }
}

/// Sends to the end.
fn send<T>(link: &mut Link<T>, t: T) -> Result<(), SendError<T>> {
    let mut at = Sending::start(t);
    loop {
        match at {
            Sending::Done(result) => return result,
            next => at = link.send_step(next),
        }
    }
}

/// Looks for a message to the end.
fn poll<T>(link: &mut Link<T>) -> Result<T, TryRecvError> {
    let mut at = Polling::start();
    loop {
        match at {
            Polling::Done(result) => return result,
            next => at = link.poll_step(next),
        }
    }
}

/// The sender sends `count` numbers and leaves; the receiver takes them in one of three ways.
fn run(seed: u64, count: u32, way: u64) {
    let mut dice = Dice(seed);
    let mut link: Link<u32> = Link::new();
    let mut sent: u32 = 0;
    let mut sending: Option<Sending<u32>> = None;
    let mut hangup: Option<Hangup> = None;
    let mut received: u32 = 0;
    let mut polling: Option<Polling<u32>> = None;
    let mut receiving: Option<Receiving<u32>> = None;
    let mut awaiting: Option<(Awaiting<u32>, u64)> = None;
    let mut now: u64 = 0;
    loop {
        if dice.roll(2) == 0 {
            // the sender moves
            if let Some(at) = hangup {
                hangup = Some(link.hangup_step(at));
            } else {
                sending = match sending.take() {
                    None if sent == count => {
                        hangup = Some(Hangup::start());
                        None
                    }
                    None => Some(Sending::start(sent)),
                    Some(Sending::Done(result)) => {
                        assert!(result.is_ok());
                        sent += 1;
                        None
                    }
                    Some(at) => Some(link.send_step(at)),
                };
            }
        } else if way == 0 {
            polling = match polling.take() {
                None => Some(Polling::start()),
                Some(Polling::Done(Ok(t))) => {
                    assert_eq!(t, received);
                    received += 1;
                    None
                }
                Some(Polling::Done(Err(TryRecvError::Empty))) => None,
                Some(Polling::Done(Err(TryRecvError::Disconnected))) => break,
                Some(at) => Some(link.poll_step(at)),
            };
        } else if way == 1 {
            receiving = match receiving.take() {
                None => Some(Receiving::start()),
                Some(Receiving::Done(Ok(t))) => {
                    assert_eq!(t, received);
                    received += 1;
                    None
                }
                Some(Receiving::Done(Err(RecvError))) => break,
                Some(at) => Some(link.receive_step(at)),
            };
        } else {
            awaiting = match awaiting.take() {
                None => {
                    now += dice.roll(3);
                    Some((Awaiting::start(), now))
                }
                Some((Awaiting::Done(Ok(t)), _)) => {
                    assert_eq!(t, received);
                    received += 1;
                    None
                }
                Some((Awaiting::Done(Err(RecvTimeoutError::Timeout)), _)) => None,
                Some((Awaiting::Done(Err(RecvTimeoutError::Disconnected)), _)) => break,
                Some((at, deadline)) => Some((link.await_step(at, deadline), deadline)),
            };
        }
    }
    assert_eq!(received, count);
}

#[test]
fn interleaved_polls() {
    for seed in 0..300 {
        run(seed, 300, 0);
    }
}

#[test]
fn interleaved_receives() {
    for seed in 0..300 {
        run(seed, 300, 1);
    }
}

#[test]
fn interleaved_receives_with_deadlines() {
    for seed in 0..300 {
        run(seed, 300, 2);
    }
}

#[test]
fn interleaved_leaving_receiver() {
    for seed in 0..2000 {
        let mut dice = Dice(seed);
        let mut link: Link<u32> = Link::new();
        let before = dice.roll(300) as u32;
        for i in 0..before {
            assert!(send(&mut link, i).is_ok());
        }
        let taken = dice.roll(before as u64 + 1) as u32;
        for i in 0..taken {
            assert_eq!(poll(&mut link), Ok(i));
        }
        let mut leaving = Leaving::start();
        let mut sending = Sending::start(1000);
        let result = loop {
            if dice.roll(2) == 0 {
                leaving = link.leave_step(leaving);
            } else {
                match sending {
                    Sending::Done(result) => break result,
                    at => sending = link.send_step(at),
                }
            }
        };
        while leaving != Leaving::Done {
            leaving = link.leave_step(leaving);
        }
        if let Err(SendError(back)) = result {
            assert_eq!(back, 1000);
        }
        assert!(send(&mut link, 1001) == Err(SendError(1001)));
    }
}

#[test]
fn interleaved_selection() {
    for seed in 0..2000 {
        let mut dice = Dice(seed);
        let mut link: Link<u32> = Link::new();
        let leaves = dice.roll(2) == 0;
        let mut sending = Sending::start(5);
        let mut hangup = Hangup::start();
        // a receive that is given up while it waits leaves the announcement in place
        let mut receiving: Receiving<u32> = Receiving::start();
        let mut waits = false;
        for _ in 0..12 {
            if dice.roll(3) == 0 {
                if leaves {
                    hangup = link.hangup_step(hangup);
                } else {
                    sending = link.send_step(sending);
                }
            } else {
                match receiving {
                    Receiving::Wait(_) => {
                        waits = true;
                        break;
                    }
                    at => receiving = link.receive_step(at),
                }
            }
        }
        if !waits {
            continue;
        }
        let mut at = Withdrawing::start();
        let has_data = loop {
            if dice.roll(2) == 0 {
                if leaves {
                    hangup = link.hangup_step(hangup);
                } else {
                    sending = link.send_step(sending);
                }
            } else {
                match at {
                    Withdrawing::Done(has_data) => break has_data,
                    next => at = link.withdraw_step(next),
                }
            }
        };
        let found = poll(&mut link);
        if has_data {
            assert_ne!(found, Err(TryRecvError::Empty));
        }
    }
}

#[test]
fn a_receiver_sleeps_and_is_woken() {
    let mut link: Link<u32> = Link::new();
    let mut at = Receiving::start();
    for _ in 0..50 {
        at = link.receive_step(at);
    }
    assert!(matches!(at, Receiving::Wait(_)));
    let mut sending = Sending::start(8);
    sending = link.send_step(sending);
    sending = link.send_step(sending);
    assert!(matches!(sending, Sending::Count));
    at = link.receive_step(at);
    assert!(matches!(at, Receiving::Wait(_)));
    sending = link.send_step(sending);
    assert!(matches!(sending, Sending::Take));
    sending = link.send_step(sending);
    assert!(matches!(sending, Sending::Wake(_)));
    at = link.receive_step(at);
    assert!(matches!(at, Receiving::Wait(_)));
    sending = link.send_step(sending);
    assert!(matches!(sending, Sending::Done(Ok(()))));
    at = link.receive_step(at);
    assert!(matches!(at, Receiving::Second(_)));
    loop {
        match at {
            Receiving::Done(result) => {
                assert_eq!(result, Ok(8));
                break;
            }
            next => at = link.receive_step(next),
        }
    }
}

#[test]
fn a_sender_wakes_the_receiver_when_it_leaves() {
    let mut link: Link<u32> = Link::new();
    let mut at = Receiving::start();
    for _ in 0..50 {
        at = link.receive_step(at);
    }
    assert!(matches!(at, Receiving::Wait(_)));
    let mut hangup = Hangup::start();
    let mut steps = 0;
    while hangup != Hangup::Done {
        hangup = link.hangup_step(hangup);
        steps += 1;
    }
    assert_eq!(steps, 5);
    for _ in 0..50 {
        at = link.receive_step(at);
    }
    assert!(matches!(at, Receiving::Done(Err(RecvError))));
}

#[test]
fn a_message_orphaned_by_the_receiver_comes_back() {
    let mut link: Link<u32> = Link::new();
    let mut sending = Sending::start(3);
    // the receiver leaves after the sender has looked whether it is there
    sending = link.send_step(sending);
    let mut leaving = Leaving::start();
    while leaving != Leaving::Done {
        leaving = link.leave_step(leaving);
    }
    sending = link.send_step(sending);
    sending = link.send_step(sending);
    assert!(matches!(sending, Sending::Mark));
    sending = link.send_step(sending);
    sending = link.send_step(sending);
    assert!(matches!(sending, Sending::Verify(Some(3))));
    sending = link.send_step(sending);
    match sending {
        Sending::Done(result) => assert!(result == Err(SendError(3))),
        _ => panic!(),
    }
}

#[test]
fn a_queue_that_nobody_takes() {
    let mut link: Link<u32> = Link::new();
    for i in 0..128 {
        assert!(send(&mut link, i).is_ok());
    }
    let mut sending = Sending::start(128);
    sending = link.send_step(sending);
    sending = link.send_step(sending);
    assert!(matches!(sending, Sending::Grow(128)));
    let mut leaving = Leaving::start();
    while leaving != Leaving::Done {
        leaving = link.leave_step(leaving);
    }
    sending = link.send_step(sending);
    match sending {
        Sending::Done(result) => assert!(result == Err(SendError(128))),
        _ => panic!(),
    }
}

#[test]
fn a_message_that_came_while_the_next_queue_was_fetched() {
    let mut link: Link<u32> = Link::new();
    // the receiver finds its queue empty
    let mut at: Polling<u32> = Polling::start();
    at = link.poll_step(at);
    assert!(matches!(at, Polling::Fetch));
    // the sender fills it and goes on to the next one
    for i in 0..129 {
        assert!(send(&mut link, i).is_ok());
    }
    at = link.poll_step(at);
    assert!(matches!(at, Polling::Recheck));
    at = link.poll_step(at);
    assert!(matches!(at, Polling::Done(Ok(0))));
    for i in 1..129 {
        assert_eq!(poll(&mut link), Ok(i));
    }
    assert_eq!(poll(&mut link), Err(TryRecvError::Empty));
}

#[test]
fn waiting_steps() {
    assert_eq!(Waiting::start(), Waiting::Look);
    assert_eq!(Waiting::looked(true), Waiting::Woken);
    assert_eq!(Waiting::looked(false), Waiting::Clock);
    assert_eq!(Waiting::timed(10, 9), Waiting::Sleep);
    assert_eq!(Waiting::timed(10, 10), Waiting::Expired);
    assert_eq!(Waiting::timed(10, 11), Waiting::Expired);
    assert_eq!(Waiting::slept(), Waiting::Look);
    assert!(signal(false));
    assert!(!signal(true));
}

#[test]
fn a_message_that_the_sender_left_during_a_search() {
    let mut link: Link<u32> = Link::new();
    let mut at: Receiving<u32> = Receiving::start();
    for _ in 0..50 {
        at = link.receive_step(at);
    }
    assert!(matches!(at, Receiving::Wait(_)));
    // the receiver is woken by the sender's first message and takes it; in its next call it
    // looks just before the second one comes and the sender leaves
    assert!(send(&mut link, 1).is_ok());
    while !matches!(at, Receiving::Done(_)) {
        at = link.receive_step(at);
    }
    let mut polling: Polling<u32> = Polling::start();
    polling = link.poll_step(polling);
    assert!(matches!(polling, Polling::Fetch));
    assert!(send(&mut link, 2).is_ok());
    let mut hangup = Hangup::start();
    while hangup != Hangup::Done {
        hangup = link.hangup_step(hangup);
    }
    polling = link.poll_step(polling);
    assert!(matches!(polling, Polling::Last));
    polling = link.poll_step(polling);
    assert!(matches!(polling, Polling::Done(Ok(2))));
    assert_eq!(poll(&mut link), Err(TryRecvError::Disconnected));
}

#[test]
fn arming_steps() {
    assert_eq!(Arming::toll(4), 5);
    assert_eq!(Arming::subtracted(9, 4, 4), Arming::Armed(9));
    assert_eq!(Arming::subtracted(9, 4, 3), Arming::Armed(9));
    assert_eq!(Arming::subtracted(9, 4, 5), Arming::Withdraw(9));
    assert_eq!(Arming::subtracted(9, 4, DISCONNECTED), Arming::Restore(9));
    assert_eq!(
        Selecting::armed(Arming::Armed(9)),
        Selecting::Done(SelectionResult::SelSuccess)
    );
    assert_eq!(Selecting::armed(Arming::Refused(9)), Selecting::Undo);
    assert_eq!(
        Selecting::undone(0),
        Selecting::Done(SelectionResult::SelCanceled)
    );
    assert_eq!(Selecting::undone(DISCONNECTED), Selecting::Restore);
    assert_eq!(Withdrawing::bumped(DISCONNECTED), Withdrawing::Restore);
    assert_eq!(Withdrawing::bumped(-1), Withdrawing::Take);
    assert_eq!(Withdrawing::bumped(0), Withdrawing::Drain);
    assert_eq!(Withdrawing::drained(0, 7), (0, Withdrawing::Drain));
    assert_eq!(Withdrawing::drained(0, 0), (1, Withdrawing::Done(true)));
    assert_eq!(Withdrawing::drained_gone(7), Withdrawing::DrainGone);
    assert_eq!(Withdrawing::taken(0, 7), (1, Withdrawing::Done(false)));
}

#[test]
fn settling_steps() {
    match Polling::settled(10, 'a', 25) {
        (0, Polling::Rebump('a', 15)) => {}
        _ => panic!(),
    }
    match Polling::settled(10, 'a', 4) {
        (6, Polling::Rebump('a', 0)) => {}
        _ => panic!(),
    }
    match Polling::settled(10, 'a', DISCONNECTED) {
        (10, Polling::Restore('a')) => {}
        _ => panic!(),
    }
    match Sending::<char>::counted(-1) {
        Sending::Take => {}
        _ => panic!(),
    }
    match Sending::<char>::counted(-2) {
        Sending::Done(Ok(())) => {}
        _ => panic!(),
    }
    match Sending::<char>::counted(DISCONNECTED) {
        Sending::Mark => {}
        _ => panic!(),
    }
    assert_eq!(Sending::<char>::wider(128), 256);
    assert_eq!(Sending::<char>::weight(), 1);
    assert_eq!(Withdrawing::refund(), 2);
    assert_eq!(Selecting::refund(), 1);
    assert!(matches!(
        Polling::left_over(Some('a')),
        Polling::Done(Ok('a'))
    ));
    assert!(matches!(
        Polling::<char>::left_over(None),
        Polling::Done(Err(TryRecvError::Disconnected))
    ));
    // a message that was waited for is no steal, and one that was left over was none
    match Receiving::repolled(1, Polling::Done(Ok('a'))) {
        (0, Receiving::Done(Ok('a'))) => {}
        _ => panic!(),
    }
    match Receiving::repolled(0, Polling::Done(Ok('a'))) {
        (-1, Receiving::Done(Ok('a'))) => {}
        _ => panic!(),
    }
    assert_eq!(Hangup::swapped(-1), Hangup::Take);
    assert_eq!(Hangup::swapped(3), Hangup::Release);
    assert_eq!(Leaving::marked(3, 3), Leaving::Release);
    assert_eq!(Leaving::marked(3, 4), Leaving::Drain);
    assert_eq!(Leaving::marked(3, DISCONNECTED), Leaving::Release);
}

#[test]
fn the_sender_takes_the_token_that_it_has_claimed() {
    let (_tx, rx, mut link) = channel::<u32>();
    assert_eq!(
        rx.start_selection(&mut link, 9),
        SelectionResult::SelSuccess
    );
    let mut sending = Sending::start(4);
    for _ in 0..3 {
        sending = link.send_step(sending);
    }
    assert!(matches!(sending, Sending::Take));
    // the receiver gives up waiting, but the token is the sender's now
    let mut at = Withdrawing::start();
    at = link.withdraw_step(at);
    assert_eq!(at, Withdrawing::Drain);
    at = link.withdraw_step(at);
    assert_eq!(at, Withdrawing::Drain);
    sending = link.send_step(sending);
    assert!(matches!(sending, Sending::Wake(9)));
    at = link.withdraw_step(at);
    assert_eq!(at, Withdrawing::Done(true));
    sending = link.send_step(sending);
    assert!(matches!(sending, Sending::Done(Ok(()))));
    assert_eq!(poll(&mut link), Ok(4));
    assert_eq!(poll(&mut link), Err(TryRecvError::Empty));
}

#[test]
fn a_receiver_takes_its_own_token_back() {
    let (_tx, rx, mut link) = channel::<u32>();
    assert_eq!(
        rx.start_selection(&mut link, 9),
        SelectionResult::SelSuccess
    );
    // the sender has not counted its message yet
    let mut sending = Sending::start(4);
    for _ in 0..2 {
        sending = link.send_step(sending);
    }
    let mut at = Withdrawing::start();
    at = link.withdraw_step(at);
    assert_eq!(at, Withdrawing::Take);
    sending = link.send_step(sending);
    assert!(matches!(sending, Sending::Done(Ok(()))));
    at = link.withdraw_step(at);
    assert_eq!(at, Withdrawing::Done(false));
    assert_eq!(poll(&mut link), Ok(4));
}

#[test]
fn a_sender_that_leaves_takes_the_token_first() {
    let (_tx, rx, mut link) = channel::<u32>();
    assert_eq!(
        rx.start_selection(&mut link, 9),
        SelectionResult::SelSuccess
    );
    let mut hangup = Hangup::start();
    for _ in 0..2 {
        hangup = link.hangup_step(hangup);
    }
    assert_eq!(hangup, Hangup::Take);
    let mut at = Withdrawing::start();
    at = link.withdraw_step(at);
    assert_eq!(at, Withdrawing::Restore);
    at = link.withdraw_step(at);
    assert_eq!(at, Withdrawing::DrainGone);
    at = link.withdraw_step(at);
    assert_eq!(at, Withdrawing::DrainGone);
    hangup = link.hangup_step(hangup);
    assert_eq!(hangup, Hangup::Wake(9));
    at = link.withdraw_step(at);
    assert_eq!(at, Withdrawing::Done(true));
    assert_eq!(link.hangup_step(hangup), Hangup::Release);
}

#[test]
fn calls_take_few_moves() {
    // one search over three queues, two of them drained
    let mut link: Link<u32> = Link::new();
    for i in 0..500 {
        assert!(send(&mut link, i).is_ok());
    }
    for i in 0..384 {
        assert_eq!(poll(&mut link), Ok(i));
    }
    let mut at: Polling<u32> = Polling::start();
    let mut moves = 0;
    while !matches!(at, Polling::Done(_)) {
        at = link.poll_step(at);
        moves += 1;
    }
    assert!(matches!(at, Polling::Done(Ok(384))));
    assert_eq!(moves, 5);
    // a leave with messages in the last queue
    let mut leaving = Leaving::start();
    let mut moves = 0;
    while leaving != Leaving::Done {
        leaving = link.leave_step(leaving);
        moves += 1;
    }
    assert!(moves <= 10 * (1 + 115) + 9);
}

/// A selection over three channels whose senders move in between.
#[test]
fn a_selection_while_the_senders_run() {
    for seed in 0..500 {
        let mut dice = Dice(seed);
        let (_tx1, rx1, link1) = channel::<u32>();
        let (_tx2, rx2, link2) = channel::<u32>();
        let (_tx3, rx3, link3) = channel::<u32>();
        let rxs = [&rx1, &rx2, &rx3];
        let mut links = vec![link1, link2, link3];
        let mut sel = Select::new();
        for rx in rxs {
            sel.handle(rx).add(&mut sel);
        }
        let mut sendings: Vec<Option<Sending<u32>>> = vec![None, None, None];
        let chosen = dice.roll(3) as usize;
        sendings[chosen] = Some(Sending::start(7));
        let mut woken = false;
        let mut at = sel.begin(dice.roll(2) == 0);
        let id = loop {
            if dice.roll(2) == 0 {
                sendings[chosen] = match sendings[chosen].take() {
                    Some(Sending::Done(result)) => {
                        assert!(result.is_ok());
                        None
                    }
                    Some(next) => {
                        woken = woken || matches!(next, Sending::Wake(_));
                        Some(links[chosen].send_step(next))
                    }
                    None => None,
                };
                continue;
            }
            let yes = match at {
                Round::Done(id) => break id,
                Round::Probe(id) => rxs[id - 1].can_recv(&links[id - 1]),
                Round::Token => true,
                Round::Install(id, _) => {
                    rxs[id - 1].start_selection(&mut links[id - 1], 5)
                        == SelectionResult::SelCanceled
                }
                Round::Rollback(id, _, _) | Round::Collect(id, _) => {
                    // the sender may have to take the token first
                    let mut back = Withdrawing::start();
                    loop {
                        match back {
                            Withdrawing::Done(has_data) => break has_data,
                            next => back = links[id - 1].withdraw_step(next),
                        }
                        if let Some(next) = sendings[id - 1].take() {
                            woken = woken || matches!(next, Sending::Wake(_));
                            sendings[id - 1] = Some(links[id - 1].send_step(next));
                        }
                    }
                }
                Round::Wait => woken,
            };
            at = sel.answer(at, yes);
        };
        assert_eq!(id, chosen + 1);
        assert_eq!(poll(&mut links[chosen]), Ok(7));
    }
}
