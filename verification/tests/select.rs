//! Sets of receivers.
use unbounded_spsc::select::Round;
use unbounded_spsc::{channel, Handle, Link, Packet, Receiver, Select, StartResult, TryRecvError};

/// Waits for one of the receivers; returns the place of the one that has something to offer.
fn select(rxs: &[&Receiver<i32>], links: &mut Vec<Link<i32>>) -> usize {
    let mut sel = Select::new();
    let mut handles: Vec<Handle<'_, i32>> = Vec::new();
    for rx in rxs {
        handles.push(sel.handle(rx));
    }
    for handle in handles.iter_mut() {
        handle.add(&mut sel);
    }
    let ret = sel.wait(links);
    let mut found = None;
    for (i, handle) in handles.into_iter().enumerate() {
        if ret == handle.id() {
            found = Some(i);
        }
        handle.close(&mut sel);
    }
    assert!(sel.is_empty());
    found.unwrap()
}

#[test]
fn select_smoke() {
    let (tx1, rx1, link1) = channel::<i32>();
    let (tx2, rx2, link2) = channel::<i32>();
    let mut links = vec![link1, link2];
    tx1.send(&mut links[0], 1).ok().unwrap();
    assert_eq!(select(&[&rx1, &rx2], &mut links), 0);
    assert_eq!(rx1.recv(&mut links[0]).unwrap(), 1);
    tx2.send(&mut links[1], 2).ok().unwrap();
    assert_eq!(select(&[&rx1, &rx2], &mut links), 1);
    assert_eq!(rx2.recv(&mut links[1]).unwrap(), 2);
    tx1.close(&mut links[0]);
    assert_eq!(select(&[&rx1, &rx2], &mut links), 0);
    assert!(rx1.recv(&mut links[0]).is_err());
    tx2.close(&mut links[1]);
    let mut links = vec![links.remove(1)];
    assert_eq!(select(&[&rx2], &mut links), 0);
    assert!(rx2.recv(&mut links[0]).is_err());
}

#[test]
fn smoke2() {
    let (_tx1, rx1, link1) = channel::<i32>();
    let (_tx2, rx2, link2) = channel::<i32>();
    let (_tx3, rx3, link3) = channel::<i32>();
    let (_tx4, rx4, link4) = channel::<i32>();
    let (tx5, rx5, link5) = channel::<i32>();
    let mut links = vec![link1, link2, link3, link4, link5];
    tx5.send(&mut links[4], 4).ok().unwrap();
    assert_eq!(select(&[&rx1, &rx2, &rx3, &rx4, &rx5], &mut links), 4);
    assert_eq!(rx5.recv(&mut links[4]).unwrap(), 4);
}

#[test]
fn closed() {
    let (_tx1, rx1, link1) = channel::<i32>();
    let (tx2, rx2, link2) = channel::<i32>();
    let mut links = vec![link1, link2];
    tx2.close(&mut links[1]);

    assert_eq!(select(&[&rx1, &rx2], &mut links), 1);
    assert!(rx2.recv(&mut links[1]).is_err());
}

#[test]
fn preflight1() {
    let (tx, rx, mut link) = channel();
    tx.send(&mut link, true).ok().unwrap();
    let mut links = vec![link];
    let mut sel = Select::new();
    let mut h = sel.handle(&rx);
    h.add(&mut sel);
    assert_eq!(sel.wait(&mut links), h.id());
    let _n = h.recv(&mut links[0]);
}

#[test]
fn preflight2() {
    let (tx, rx, mut link) = channel();
    tx.send(&mut link, true).ok().unwrap();
    tx.send(&mut link, true).ok().unwrap();
    let mut links = vec![link];
    let mut sel = Select::new();
    let mut h = sel.handle(&rx);
    h.add(&mut sel);
    assert_eq!(sel.wait(&mut links), h.id());
    let _n = h.recv(&mut links[0]);
}

#[test]
fn preflight4() {
    let (tx, rx, mut link) = channel();
    tx.send(&mut link, true).ok().unwrap();
    let mut s = Select::new();
    let mut h = s.handle(&rx);
    h.add(&mut s);
    assert_eq!(s.wait2(&mut vec![link], false), h.id());
}

#[test]
fn preflight5() {
    let (tx, rx, mut link) = channel();
    tx.send(&mut link, true).ok().unwrap();
    tx.send(&mut link, true).ok().unwrap();
    let mut s = Select::new();
    let mut h = s.handle(&rx);
    h.add(&mut s);
    assert_eq!(s.wait2(&mut vec![link], false), h.id());
}

#[test]
fn preflight7() {
    let (tx, rx, mut link) = channel::<bool>();
    tx.close(&mut link);
    let mut s = Select::new();
    let mut h = s.handle(&rx);
    h.add(&mut s);
    assert_eq!(s.wait2(&mut vec![link], false), h.id());
}

#[test]
fn preflight8() {
    let (tx, rx, mut link) = channel();
    tx.send(&mut link, true).ok().unwrap();
    tx.close(&mut link);
    rx.recv(&mut link).unwrap();
    let mut s = Select::new();
    let mut h = s.handle(&rx);
    h.add(&mut s);
    assert_eq!(s.wait2(&mut vec![link], false), h.id());
}

#[test]
fn fmt_debug_select() {
    let sel = Select::new();
    assert_eq!(sel.debug(), "Select { .. }");
}

#[test]
fn fmt_debug_handle() {
    let (_, rx, _link) = channel::<i32>();
    let mut sel = Select::new();
    let handle = sel.handle(&rx);
    assert_eq!(handle.debug(), "Handle { .. }");
}

/// The handles of a set in their order.
fn members(sel: &Select) -> Vec<usize> {
    let mut ids = Vec::new();
    let mut iter = sel.iter();
    while let Some(id) = iter.next(sel) {
        ids.push(id);
    }
    ids
}

#[test]
fn handles_come_and_go() {
    let (_tx, rx, _link) = channel::<i32>();
    let mut sel = Select::new();
    let mut h: Vec<Handle<'_, i32>> = Vec::new();
    for i in 0..5 {
        let handle = sel.handle(&rx);
        assert_eq!(handle.id(), i + 1);
        h.push(handle);
    }
    assert!(sel.is_empty());
    assert_eq!(members(&sel), Vec::<usize>::new());
    for handle in h.iter_mut() {
        handle.add(&mut sel);
    }
    assert!(!sel.is_empty());
    assert_eq!(members(&sel), vec![1, 2, 3, 4, 5]);
    // adding again changes nothing
    h[2].add(&mut sel);
    assert_eq!(members(&sel), vec![1, 2, 3, 4, 5]);
    // in the middle, at the front, at the end
    h[2].remove(&mut sel);
    assert_eq!(members(&sel), vec![1, 2, 4, 5]);
    h[0].remove(&mut sel);
    assert_eq!(members(&sel), vec![2, 4, 5]);
    h[4].remove(&mut sel);
    assert_eq!(members(&sel), vec![2, 4]);
    // removing again changes nothing
    h[4].remove(&mut sel);
    assert_eq!(members(&sel), vec![2, 4]);
    h[0].add(&mut sel);
    assert_eq!(members(&sel), vec![2, 4, 1]);
    h[1].remove(&mut sel);
    h[3].remove(&mut sel);
    assert_eq!(members(&sel), vec![1]);
    assert_eq!(sel.successor(1), 0);
    h[0].remove(&mut sel);
    assert!(sel.is_empty());
    h[3].add(&mut sel);
    assert_eq!(members(&sel), vec![4]);
}

#[test]
fn a_visible_message_goes_first() {
    // The first receiver has only the news that its sender is gone, which is not seen at
    // first sight.
    let (tx1, rx1, link1) = channel::<i32>();
    let (tx2, rx2, link2) = channel::<i32>();
    let mut links = vec![link1, link2];
    tx1.close(&mut links[0]);
    tx2.send(&mut links[1], 3).ok().unwrap();
    assert_eq!(select(&[&rx1, &rx2], &mut links), 1);
    let mut sel = Select::new();
    let mut h1 = sel.handle(&rx1);
    let mut h2 = sel.handle(&rx2);
    h1.add(&mut sel);
    h2.add(&mut sel);
    assert_eq!(sel.wait2(&mut links, true), h2.id());
    assert_eq!(sel.wait2(&mut links, false), h1.id());
}

#[test]
fn waiting_disturbs_nobody() {
    let (tx1, rx1, link1) = channel::<i32>();
    let (tx2, rx2, link2) = channel::<i32>();
    let (tx3, rx3, link3) = channel::<i32>();
    let mut links = vec![link1, link2, link3];
    for i in 0..20 {
        tx3.send(&mut links[2], i).ok().unwrap();
        let mut sel = Select::new();
        let mut h1 = sel.handle(&rx1);
        let mut h2 = sel.handle(&rx2);
        let mut h3 = sel.handle(&rx3);
        h1.add(&mut sel);
        h2.add(&mut sel);
        h3.add(&mut sel);
        assert_eq!(sel.wait2(&mut links, false), 3);
        assert_eq!(h3.recv(&mut links[2]), Ok(i));
    }
    assert_eq!(rx1.try_recv(&mut links[0]), Err(TryRecvError::Empty));
    tx1.send(&mut links[0], 5).ok().unwrap();
    assert_eq!(rx1.try_recv(&mut links[0]), Ok(5));
    assert_eq!(rx2.try_recv(&mut links[1]), Err(TryRecvError::Empty));
    tx2.close(&mut links[1]);
    assert_eq!(rx2.try_recv(&mut links[1]), Err(TryRecvError::Disconnected));
}

#[test]
fn packets_answer() {
    let (tx, _rx, mut link) = channel::<i32>();
    assert!(!Packet::can_recv(&link));
    assert!(Packet::start_selection(&mut link, 7) == StartResult::Installed);
    tx.send(&mut link, 1).ok().unwrap();
    assert!(Packet::can_recv(&link));
    assert!(Packet::abort_selection(&mut link));
    assert!(Packet::start_selection(&mut link, 7) == StartResult::Abort);
}

#[test]
fn a_round_that_sleeps() {
    let (_tx, rx, _link) = channel::<i32>();
    let mut sel = Select::new();
    for _ in 0..3 {
        sel.handle(&rx).add(&mut sel);
    }
    let mut at = sel.begin(true);
    for id in 1..4 {
        assert_eq!(at, Round::Probe(id));
        at = sel.answer(at, false);
    }
    assert_eq!(at, Round::Token);
    at = sel.answer(at, true);
    for id in 1..4 {
        assert_eq!(at, Round::Install(id, id - 1));
        at = sel.answer(at, false);
    }
    assert_eq!(at, Round::Wait);
    at = sel.answer(at, false);
    assert_eq!(at, Round::Wait);
    at = sel.answer(at, true);
    assert_eq!(at, Round::Collect(1, None));
    at = sel.answer(at, true);
    assert_eq!(at, Round::Collect(2, Some(1)));
    at = sel.answer(at, true);
    assert_eq!(at, Round::Collect(3, Some(2)));
    at = sel.answer(at, false);
    assert_eq!(at, Round::Done(2));
}

#[test]
fn a_round_that_is_called_off() {
    let (_tx, rx, _link) = channel::<i32>();
    let mut sel = Select::new();
    for _ in 0..4 {
        sel.handle(&rx).add(&mut sel);
    }
    let mut at = sel.begin(false);
    assert_eq!(at, Round::Token);
    at = sel.answer(at, true);
    at = sel.answer(at, false);
    at = sel.answer(at, false);
    assert_eq!(at, Round::Install(3, 2));
    at = sel.answer(at, true);
    assert_eq!(at, Round::Rollback(1, 2, 3));
    at = sel.answer(at, false);
    assert_eq!(at, Round::Rollback(2, 1, 3));
    at = sel.answer(at, true);
    assert_eq!(at, Round::Done(3));
}
