//! The sending end of a channel whose ends take turns.
use crate::channel::{hung_up, queued, rx_at_rest, sent, Sender};
use crate::coherence::{
    inv, lemma_begin_tx, lemma_end_hangup, lemma_end_send, lemma_hangup_step,
    lemma_messages_extend, lemma_send_step, lemma_some_queue, room, RxView,
    TxState,
};
use crate::errors::SendError;
use crate::limits::{DISCONNECTED, MAX_STEALS};
use crate::link::{Link, Memory};
use crate::sending::{hangup_step, send_step, Hangup, Sending};
use crate::texts;
use crate::turns::law_send_appends;
use vstd::prelude::*;

verus! {

/// How far a send has come that nothing interrupts.
spec fn send_so_far<T>(m0: Memory<T>, t: T, m: Memory<T>, at: Sending<T>) -> bool {
    match at {
        Sending::Check(x) => x == t && m == m0,
        Sending::Push(x) => x == t && m == m0 && m0.connected,
        Sending::Grow(x) => x == t && m == m0 && m0.connected && m0.back().full(),
        Sending::Repush(x) => {
            &&& x == t && m0.connected && m0.back().full()
            &&& m == m0.extend(2 * m0.back().capacity).0
        },
        Sending::Count => {
            &&& m0.connected
            &&& m == Memory { segments: queued(m0.segments, t), ..m0 }
        },
        Sending::Take => {
            &&& m0.connected && m0.counter == -1
            &&& m == Memory { segments: queued(m0.segments, t), counter: 0, ..m0 }
        },
        Sending::Wake(p) => {
            &&& m0.connected && m0.counter == -1 && p == m0.to_wake
            &&& m == Memory { segments: queued(m0.segments, t), counter: 0, to_wake: 0, ..m0 }
        },
        Sending::Done(Ok(_)) => m0.connected && m == sent(m0, t),
        Sending::Done(Err(e)) => !m0.connected && m == m0 && e.0 == t,
        _ => false,
    }
}

/// How many accesses a send has before it at most.
spec fn send_rank<T>(at: Sending<T>) -> nat {
    match at {
        Sending::Check(_) => 10,
        Sending::Push(_) => 9,
        Sending::Grow(_) => 8,
        Sending::Repush(_) => 7,
        Sending::Count => 6,
        Sending::Take => 5,
        Sending::Wake(_) => 4,
        Sending::Mark => 3,
        Sending::Reclaim => 2,
        Sending::Verify(_) => 1,
        Sending::Done(_) => 0,
    }
}

/// An uninterrupted send goes where it should.
proof fn lemma_send_so_far<T>(m0: Memory<T>, t: T, m: Memory<T>, at: Sending<T>, a: RxView)
    requires
        inv(m0, TxState::<T>::Idle, a),
        inv(m, TxState::Sending(at, t), a),
        send_so_far(m0, t, m, at),
        !(at is Done),
        m0.connected ==> room(m0, a),
    ensures
        at is Push || at is Repush ==> room(m, a),
        send_so_far(m0, t, send_step(m, at).0, send_step(m, at).1),
        send_rank(send_step(m, at).1) < send_rank(at),
{
    reveal(inv);
    let m2 = send_step(m, at).0;
    if at is Repush {
        lemma_messages_extend(m0.segments, 2 * m0.back().capacity);
        assert(m2.segments =~= queued(m0.segments, t));
    }
}

impl<T> Sender<T> {
    /// Sends `t` without waiting. It fails if the receiver is gone, and hands `t` back then.
    /// The counter has to have room for the message.
    pub fn send(&self, link: &mut Link<T>, t: T) -> (r: Result<(), SendError<T>>)
        requires
            self.of(*old(link)),
            old(link).wf(),
            old(link)@.sender_open,
            old(link)@.connected ==> old(link)@.items().len() < isize::MAX - MAX_STEALS - 16,
        ensures
            final(link).identity() == old(link).identity(),
            final(link).wf(),
            final(link).armed() == old(link).armed(),
            old(link)@.connected ==> {
                &&& r is Ok
                &&& final(link)@ == sent(old(link)@, t)
                &&& final(link)@.items() == old(link)@.items().push(t)
                &&& old(link).armed() ==> final(link)@.woken
            },
            !old(link)@.connected ==> {
                &&& r == Err::<(), SendError<T>>(SendError(t))
                &&& final(link)@ == old(link)@
            },
            old(link)@.receiver_open ==> {
                &&& r is Ok
                &&& final(link)@.items() == old(link)@.items().push(t)
            },
            !old(link)@.receiver_open ==> {
                &&& r == Err::<(), SendError<T>>(SendError(t))
                &&& final(link)@.items() == old(link)@.items()
            },
            !old(link).armed() ==> {
                &&& final(link)@.woken == old(link)@.woken
                &&& final(link)@.to_wake == old(link)@.to_wake
            },
            final(link)@.token == old(link)@.token,
            final(link)@.sender_open == old(link)@.sender_open,
            final(link)@.receiver_open == old(link)@.receiver_open,
            final(link)@.connected == old(link)@.connected,
            final(link)@.clock == old(link)@.clock,
    {
        let ghost m0 = link@;
        let ghost a = rx_at_rest(m0, link.armed());
        let mut at = Sending::start(t);
        proof {
            lemma_begin_tx(m0, a, t);
            assert(m0.connected ==> room(m0, a)) by {
                reveal(inv);
            }
            lemma_some_queue(m0, TxState::<T>::Idle, a);
        }
        loop
            invariant
                inv(m0, TxState::<T>::Idle, a),
                inv(link@, TxState::Sending(at, t), a),
                send_so_far(m0, t, link@, at),
                m0.connected ==> room(m0, a),
                link.armed() == old(link).armed(),
                m0 == old(link)@,
                link.identity() == old(link).identity(),
                a == rx_at_rest(m0, old(link).armed()),
                m0.sender_open,
                link.armed() ==> m0.receiver_open,
            decreases send_rank(at),
        {
            match at {
                Sending::Done(result) => {
                    proof {
                        lemma_end_send(link@, result, t, a);
                        assert(a == rx_at_rest(link@, link.armed()));
                        reveal(inv);
                        law_send_appends(m0, t);
                    }
                    return result;
                },
                next => {
                    proof {
                        lemma_send_so_far(m0, t, link@, next, a);
                        lemma_send_step(link@, next, t, a);
                        lemma_some_queue(link@, TxState::Sending(next, t), a);
                    }
                    at = link.send_step(next);
                },
            }
        }
    }
}

/// How far a sender that nothing interrupts has come on its way out.
spec fn hangup_so_far<T>(m0: Memory<T>, m: Memory<T>, at: Hangup) -> bool {
    match at {
        Hangup::Disconnect => m == m0,
        Hangup::Swap => m == m0.disconnect(),
        Hangup::Take => {
            &&& m0.counter == -1
            &&& m == m0.disconnect().set_count(DISCONNECTED)
        },
        Hangup::Wake(p) => {
            &&& m0.counter == -1 && p == m0.to_wake
            &&& m == m0.disconnect().set_count(DISCONNECTED).set_wake(0)
        },
        Hangup::Release => m == (Memory { sender_open: true, ..hung_up(m0) }),
        Hangup::Done => m == hung_up(m0),
    }
}

/// How many accesses a leaving sender has before it at most.
spec fn hangup_rank(at: Hangup) -> nat {
    match at {
        Hangup::Disconnect => 5,
        Hangup::Swap => 4,
        Hangup::Take => 3,
        Hangup::Wake(_) => 2,
        Hangup::Release => 1,
        Hangup::Done => 0,
    }
}

/// A sender that nothing interrupts on its way out goes where it should.
proof fn lemma_hangup_so_far<T>(m0: Memory<T>, m: Memory<T>, at: Hangup, a: RxView)
    requires
        inv(m0, TxState::<T>::Idle, a),
        inv(m, TxState::<T>::Leaving(at), a),
        hangup_so_far(m0, m, at),
        !(at is Done),
    ensures
        hangup_so_far(m0, hangup_step(m, at).0, hangup_step(m, at).1),
        hangup_rank(hangup_step(m, at).1) < hangup_rank(at),
{
    reveal(inv);
}

impl<T> Sender<T> {
    /// The sender leaves. Messages that are pending stay, and a receiver that waits is woken.
    pub fn close(self, link: &mut Link<T>)
        requires
            self.of(*old(link)),
            old(link).wf(),
            old(link)@.sender_open,
        ensures
            final(link).identity() == old(link).identity(),
            final(link).wf(),
            final(link).armed() == old(link).armed(),
            final(link)@ == hung_up(old(link)@),
            final(link)@.items() == old(link)@.items(),
            old(link).armed() ==> final(link)@.woken,
            !final(link)@.sender_open,
            !final(link)@.connected,
            final(link)@.receiver_open == old(link)@.receiver_open,
            final(link)@.segments == old(link)@.segments,
            final(link)@.token == old(link)@.token,
            final(link)@.clock == old(link)@.clock,
            !old(link).armed() ==> {
                &&& final(link)@.woken == old(link)@.woken
                &&& final(link)@.to_wake == old(link)@.to_wake
            },
    {
        let ghost m0 = link@;
        let ghost a = rx_at_rest(m0, link.armed());
        let mut at = Hangup::start();
        proof {
            reveal(inv);
        }
        loop
            invariant
                inv(m0, TxState::<T>::Idle, a),
                inv(link@, TxState::<T>::Leaving(at), a),
                hangup_so_far(m0, link@, at),
                link.armed() == old(link).armed(),
                m0 == old(link)@,
                link.identity() == old(link).identity(),
                a == rx_at_rest(m0, old(link).armed()),
                m0.sender_open,
                link.armed() ==> m0.receiver_open,
            decreases hangup_rank(at),
        {
            match at {
                Hangup::Done => {
                    proof {
                        lemma_end_hangup(link@, a);
                        assert(a == rx_at_rest(link@, link.armed()));
                        reveal(inv);
                    }
                    return;
                },
                next => {
                    proof {
                        lemma_hangup_so_far(m0, link@, next, a);
                        lemma_hangup_step(link@, next, a);
                    }
                    at = link.hangup_step(next);
                },
            }
        }
    }
}

impl<T> Sender<T> {
    /// The text shown for a sender.
    pub fn debug(&self) -> (text: &'static str)
        ensures
            text@ == "Sender { .. }"@,
    {
        texts::sender()
    }
}

} // verus!
