//! The receiving end of a channel whose ends take turns: how it receives.
use crate::arming::{Arming, Withdrawing};
use crate::blocking::Waiting;
use crate::channel::{
    accounted, await_result, lemma_polled, lemma_reached, poll_result, polled, ready,
    receive_result, timed_out, tx_at_rest, Receiver,
};
use crate::coherence::{
    blanked, idle, in_hand, inv, lemma_advance, lemma_begin_poll, lemma_end_poll,
    lemma_poll_step, lemma_pop, lemma_some_queue, polling,
};
use crate::errors::{RecvError, RecvTimeoutError, TryRecvError};
use crate::limits::{DISCONNECTED, MAX_STEALS};
use crate::link::{Link, Memory};
use crate::polling::{lemma_poll_frame, poll_step, stolen, Polling};
use crate::receiving::{await_step, Awaiting, Receiving, Renewal, Timed};
use crate::system::{lemma_await_moved, Move, RxState, System};
use vstd::prelude::*;

verus! {

/// How far a search that nothing interrupts has come.
spec fn poll_so_far<T>(m0: Memory<T>, m: Memory<T>, at: Polling<T>) -> bool {
    let same = polled(m) == polled(m0) && poll_result(m) == poll_result(m0);
    match at {
        Polling::Pop => same,
        Polling::Fetch => same && m.front().items.len() == 0,
        Polling::Recheck => same && m.front().items.len() == 0 && m.held,
        Polling::Advance => same && m.front().items.len() == 0 && m.held,
        Polling::Load => {
            &&& m == polled(m0) && m.sender_open
            &&& poll_result(m0) == Err::<T, TryRecvError>(TryRecvError::Empty)
        },
        Polling::Refetch => false,
        Polling::Last => {
            &&& m == polled(m0) && m.front().items.len() == 0
            &&& poll_result(m0) == Err::<T, TryRecvError>(TryRecvError::Disconnected)
        },
        Polling::Settle(t) => {
            &&& m.steals > MAX_STEALS && accounted(m) == polled(m0)
            &&& poll_result(m0) == Ok::<T, TryRecvError>(t)
        },
        Polling::Restore(t) => {
            &&& Memory { counter: DISCONNECTED, steals: stolen(m.steals), ..m } == polled(m0)
            &&& poll_result(m0) == Ok::<T, TryRecvError>(t)
        },
        Polling::Rebump(t, amount) => {
            &&& m.counter == 0 && m.steals == 0
            &&& Memory { counter: amount, steals: 1, ..m } == polled(m0)
            &&& poll_result(m0) == Ok::<T, TryRecvError>(t)
        },
        Polling::Done(result) => m == polled(m0) && result == poll_result(m0),
    }
}

/// How many accesses a search has before it at most until it goes over to the next queue.
spec fn poll_rank<T>(at: Polling<T>) -> nat {
    match at {
        Polling::Pop => 9,
        Polling::Fetch => 8,
        Polling::Recheck => 7,
        Polling::Advance => 6,
        Polling::Load => 5,
        Polling::Refetch => 4,
        Polling::Last => 3,
        Polling::Settle(_) => 3,
        Polling::Rebump(_, _) => 2,
        Polling::Restore(_) => 1,
        Polling::Done(_) => 0,
    }
}

/// A search that nothing interrupts goes where it should.
proof fn lemma_poll_so_far<T>(m0: Memory<T>, m: Memory<T>, at: Polling<T>, blank: bool)
    requires
        inv(m, tx_at_rest(m), polling(at, false, blank)),
        poll_so_far(m0, m, at),
        !(at is Done),
    ensures
        poll_so_far(m0, poll_step(m, at).0, poll_step(m, at).1),
        poll_step(m, at).0.segments.len() < m.segments.len() || (poll_step(
            m,
            at,
        ).0.segments.len() == m.segments.len() && poll_rank(poll_step(m, at).1) < poll_rank(at)),
{
    reveal(inv);
    reveal(poll_step);
    let m2 = poll_step(m, at).0;
    lemma_pop(m, tx_at_rest(m));
    match at {
        Polling::Advance => {
            lemma_advance(m, tx_at_rest(m));
        },
        Polling::Fetch => {
            lemma_reached(m.segments);
            lemma_reached(m.segments.drop_first());
        },
        _ => {},
    }
}

impl<T> Receiver<T> {
    /// Takes the oldest message without waiting. From a channel whose sender is gone it keeps
    /// taking messages until none is left.
    pub fn try_recv(&self, link: &mut Link<T>) -> (r: Result<T, TryRecvError>)
        requires
            self.of(*old(link)),
            old(link).wf(),
            old(link)@.receiver_open,
            !old(link).armed(),
        ensures
            final(link).identity() == old(link).identity(),
            final(link).wf(),
            !final(link).armed(),
            r == poll_result(old(link)@),
            old(link)@.items().len() > 0 ==> r == Ok::<T, TryRecvError>(old(link)@.items()[0]),
            old(link)@.items().len() == 0 && old(link)@.sender_open ==> r == Err::<
                T,
                TryRecvError,
            >(TryRecvError::Empty),
            old(link)@.items().len() == 0 && !old(link)@.sender_open ==> r == Err::<
                T,
                TryRecvError,
            >(TryRecvError::Disconnected),
            final(link)@ == polled(old(link)@),
            final(link)@.sender_open == old(link)@.sender_open,
            final(link)@.receiver_open == old(link)@.receiver_open,
            final(link)@.connected == old(link)@.connected,
            final(link)@.clock == old(link)@.clock,
            r is Ok ==> final(link)@.items() == old(link)@.items().drop_first(),
            r is Err ==> final(link)@.items() == old(link)@.items(),
    {
        let ghost m0 = link@;
        let ghost mut blank = false;
        let mut at = Polling::start();
        proof {
            lemma_begin_poll(m0, tx_at_rest(m0), blank);
        }
        loop
            invariant
                inv(link@, tx_at_rest(link@), polling(at, false, blank)),
                poll_so_far(m0, link@, at),
                m0 == old(link)@,
                link.identity() == old(link).identity(),
                m0.receiver_open == link@.receiver_open,
                m0.receiver_open,
                !link.armed(),
                in_hand(at) + link@.items() == m0.items(),
            decreases link@.segments.len(), poll_rank(at),
        {
            match at {
                Polling::Done(result) => {
                    proof {
                        lemma_end_poll(link@, tx_at_rest(link@), result, blank);
                    }
                    return result;
                },
                next => {
                    proof {
                        lemma_poll_so_far(m0, link@, next, blank);
                        lemma_poll_step(link@, tx_at_rest(link@), next, false, blank);
                        lemma_some_queue(link@, tx_at_rest(link@), polling(next, false, blank));
                        blank = blanked(link@, next, blank);
                    }
                    at = link.poll_step(next);
                },
            }
        }
    }
}

impl<T> Receiver<T> {
    /// Takes the oldest message, and waits for one if none is pending. Nobody can end the
    /// wait of a thread that owns both ends, so there has to be a message, or the sender has
    /// to be gone.
    pub fn recv(&self, link: &mut Link<T>) -> (r: Result<T, RecvError>)
        requires
            self.of(*old(link)),
            old(link).wf(),
            old(link)@.receiver_open,
            !old(link).armed(),
            ready(old(link)@),
        ensures
            final(link).identity() == old(link).identity(),
            final(link).wf(),
            !final(link).armed(),
            r == receive_result(old(link)@),
            old(link)@.items().len() > 0 ==> r == Ok::<T, RecvError>(old(link)@.items()[0]),
            old(link)@.items().len() == 0 ==> r == Err::<T, RecvError>(RecvError)
                && !old(link)@.sender_open,
            final(link)@ == polled(old(link)@),
            final(link)@.sender_open == old(link)@.sender_open,
            final(link)@.receiver_open == old(link)@.receiver_open,
            final(link)@.connected == old(link)@.connected,
            final(link)@.clock == old(link)@.clock,
            r is Ok ==> final(link)@.items() == old(link)@.items().drop_first(),
            r is Err ==> final(link)@.items() == old(link)@.items(),
    {
        let ghost m0 = link@;
        let ghost mut blank = false;
        let mut at = Receiving::start();
        proof {
            lemma_begin_poll(m0, tx_at_rest(m0), blank);
        }
        loop
            invariant
                match at {
                    Receiving::First(p) => {
                        &&& !(p is Done)
                        &&& inv(link@, tx_at_rest(link@), polling(p, false, blank))
                        &&& poll_so_far(m0, link@, p)
                        &&& in_hand(p) + link@.items() == m0.items()
                    },
                    Receiving::Done(result) => {
                        &&& inv(link@, tx_at_rest(link@), idle())
                        &&& link@ == polled(m0)
                        &&& result == receive_result(m0)
                        &&& result is Ok ==> link@.items() == m0.items().drop_first()
                        &&& result is Err ==> link@.items() == m0.items()
                    },
                    _ => false,
                },
                m0 == old(link)@,
                link.identity() == old(link).identity(),
                m0.receiver_open == link@.receiver_open,
                m0.receiver_open,
                ready(m0),
                !link.armed(),
            decreases
                    link@.segments.len(),
                    match at {
                        Receiving::First(p) => poll_rank(p) + 1,
                        _ => 0nat,
                    },
        {
            match at {
                Receiving::Done(result) => {
                    return result;
                },
                next => {
                    proof {
                        let p = next->First_0;
                        lemma_poll_so_far(m0, link@, p, blank);
                        lemma_poll_step(link@, tx_at_rest(link@), p, false, blank);
                        lemma_some_queue(link@, tx_at_rest(link@), polling(p, false, blank));
                        blank = blanked(link@, p, blank);
                        let m2 = poll_step(link@, p).0;
                        if let Polling::Done(result) = poll_step(link@, p).1 {
                            lemma_end_poll(m2, tx_at_rest(m2), result, blank);
                        }
                    }
                    at = link.receive_step(next);
                },
            }
        }
    }
}

/// A channel in use whose receiver is the only one to move.
spec fn alone<T>(m: Memory<T>, rx: RxState<T>, blank: bool) -> System<T> {
    System {
        m,
        tx: tx_at_rest(m),
        rx,
        blank,
        sent: rx.hand() + m.items(),
        accepted: rx.hand() + m.items(),
        taken: rx.hand(),
        received: Seq::empty(),
    }
}

/// How far a receive that nothing interrupts has come.
spec fn await_so_far<T>(m0: Memory<T>, m: Memory<T>, at: Awaiting<T>, deadline: u64) -> bool {
    let renewed = polled(m0).renew(m.token);
    let posted = renewed.set_wake(m.token);
    let armed = Memory { counter: -1isize, steals: 0, ..posted };
    let late = timed_out(m0, deadline, m.token);
    match at {
        Awaiting::First(p) => poll_so_far(m0, m, p),
        Awaiting::Token => !ready(m0) && m == polled(m0),
        Awaiting::Arm(Arming::Inspect(p)) => !ready(m0) && p == m.token && m == renewed,
        Awaiting::Arm(Arming::Post(p)) => !ready(m0) && p == m.token && m == renewed,
        Awaiting::Arm(Arming::Subtract(p)) => !ready(m0) && p == m.token && m == posted,
        Awaiting::Arm(_) => false,
        Awaiting::Wait(p, w) => {
            &&& !ready(m0) && p == m.token
            &&& m == armed || (m == armed.sleep(deadline) && w is Look) || (m == armed.sleep(
                deadline,
            ) && w is Clock)
        },
        Awaiting::Cancel(Withdrawing::Bump) => !ready(m0) && m == armed.sleep(deadline),
        Awaiting::Cancel(Withdrawing::Take) => {
            !ready(m0) && m == armed.sleep(deadline).set_count(1)
        },
        Awaiting::Cancel(_) => false,
        Awaiting::Second(_) => false,
        Awaiting::Late(p) => !ready(m0) && poll_so_far(late, m, p),
        Awaiting::Done(result) => {
            &&& result == await_result(m0)
            &&& ready(m0) ==> m == polled(m0)
            &&& !ready(m0) ==> m == late
        },
    }
}

/// How many parts a receive has before it.
spec fn await_stage<T>(at: Awaiting<T>) -> nat {
    match at {
        Awaiting::First(_) => 6,
        Awaiting::Token => 5,
        Awaiting::Arm(_) => 4,
        Awaiting::Wait(_, _) => 3,
        Awaiting::Cancel(_) => 2,
        Awaiting::Second(_) => 1,
        Awaiting::Late(_) => 1,
        Awaiting::Done(_) => 0,
    }
}

/// How many accesses the current part of a receive has before it at most.
spec fn await_rank<T>(m: Memory<T>, at: Awaiting<T>, deadline: u64) -> nat {
    match at {
        Awaiting::First(p) => poll_rank(p),
        Awaiting::Arm(Arming::Inspect(_)) => 2,
        Awaiting::Arm(Arming::Post(_)) => 1,
        Awaiting::Wait(_, Waiting::Look) => if m.clock < deadline {
            4
        } else {
            1
        },
        Awaiting::Wait(_, Waiting::Clock) => if m.clock < deadline {
            3
        } else {
            0
        },
        Awaiting::Wait(_, Waiting::Sleep) => 2,
        Awaiting::Cancel(Withdrawing::Bump) => 1,
        Awaiting::Late(p) => poll_rank(p),
        _ => 0,
    }
}

/// A receive has come closer to its end.
spec fn await_advances<T>(
    m: Memory<T>,
    at: Awaiting<T>,
    m2: Memory<T>,
    at2: Awaiting<T>,
    deadline: u64,
) -> bool {
    ||| await_stage(at2) < await_stage(at)
    ||| await_stage(at2) == await_stage(at) && m2.segments.len() < m.segments.len()
    ||| {
        &&& await_stage(at2) == await_stage(at) && m2.segments.len() == m.segments.len()
        &&& await_rank(m2, at2, deadline) < await_rank(m, at, deadline)
    }
}

/// A search within a receive that nothing interrupts goes where it should.
proof fn lemma_await_searched_so_far<T>(
    m0: Memory<T>,
    m: Memory<T>,
    at: Awaiting<T>,
    blank: bool,
    deadline: u64,
    token: usize,
)
    requires
        inv(m0, tx_at_rest(m0), idle()),
        alone(m, RxState::Awaiting(at, deadline), blank).coherent(),
        await_so_far(m0, m, at, deadline),
        at is First || at is Late,
        m.sender_open == m0.sender_open,
    ensures
        ({
            let m2 = await_step(m, at, deadline, token).0;
            let at2 = await_step(m, at, deadline, token).1;
            &&& m2.token == if at is Token {
                token
            } else {
                m.token
            }
            &&& m2.sender_open == m0.sender_open
            &&& m2.receiver_open == m.receiver_open
            &&& await_so_far(m0, m2, at2, deadline)
            &&& await_advances(m, at, m2, at2, deadline)
        }),
{
    lemma_some_queue(m0, tx_at_rest(m0), idle());
    lemma_polled(m0);
    match at {
        Awaiting::First(p) => {
            lemma_poll_frame(m, p);
            lemma_poll_so_far(m0, m, p, blank);
        },
        Awaiting::Late(p) => {
            let late = timed_out(m0, deadline, m.token);
            lemma_reached(m0.segments);
            lemma_poll_frame(m, p);
            lemma_poll_so_far(late, m, p, blank);
            lemma_polled(late);
        },
        _ => {},
    }
}

/// The wait within a receive that nothing interrupts goes where it should.
proof fn lemma_await_waited_so_far<T>(
    m0: Memory<T>,
    m: Memory<T>,
    at: Awaiting<T>,
    blank: bool,
    deadline: u64,
    token: usize,
)
    requires
        inv(m0, tx_at_rest(m0), idle()),
        alone(m, RxState::Awaiting(at, deadline), blank).coherent(),
        await_so_far(m0, m, at, deadline),
        !(at is First) && !(at is Late) && !(at is Done),
        m.sender_open == m0.sender_open,
    ensures
        ({
            let m2 = await_step(m, at, deadline, token).0;
            let at2 = await_step(m, at, deadline, token).1;
            &&& m2.token == if at is Token {
                token
            } else {
                m.token
            }
            &&& m2.sender_open == m0.sender_open
            &&& m2.receiver_open == m.receiver_open
            &&& await_so_far(m0, m2, at2, deadline)
            &&& await_advances(m, at, m2, at2, deadline)
        }),
{
    reveal(inv);
    lemma_polled(m0);
}

/// A receive that nothing interrupts goes where it should.
proof fn lemma_await_so_far<T>(
    m0: Memory<T>,
    m: Memory<T>,
    at: Awaiting<T>,
    blank: bool,
    deadline: u64,
    token: usize,
)
    requires
        inv(m0, tx_at_rest(m0), idle()),
        alone(m, RxState::Awaiting(at, deadline), blank).coherent(),
        await_so_far(m0, m, at, deadline),
        !(at is Done),
        token != 0,
        m.sender_open == m0.sender_open,
    ensures
        at.admissible(m),
        ({
            let m2 = await_step(m, at, deadline, token).0;
            let at2 = await_step(m, at, deadline, token).1;
            let blank2 = alone(m, RxState::Awaiting(at, deadline), blank).rx_moved(token).blank;
            &&& alone(m2, RxState::Awaiting(at2, deadline), blank2).coherent()
            &&& m2.token == if at is Token {
                token
            } else {
                m.token
            }
            &&& m2.sender_open == m0.sender_open
            &&& m2.receiver_open == m.receiver_open
            &&& await_so_far(m0, m2, at2, deadline)
            &&& await_advances(m, at, m2, at2, deadline)
        }),
{
    let s = alone(m, RxState::Awaiting(at, deadline), blank);
    lemma_await_moved(s, at, deadline, token);
    if at is First || at is Late {
        lemma_await_searched_so_far(m0, m, at, blank, deadline, token);
    } else {
        lemma_await_waited_so_far(m0, m, at, blank, deadline, token);
    }
    let s2 = s.moved(Move::Rx(token));
    assert(s2.taken =~= s2.rx.hand());
    assert(s2 == alone(s2.m, s2.rx, s2.blank));
}

impl<T> Receiver<T> {
    /// Takes the oldest message, and waits for one until `deadline` if none is pending.
    pub fn recv_deadline(&self, link: &mut Link<T>, deadline: u64) -> (r: Result<
        T,
        RecvTimeoutError,
    >)
        requires
            self.of(*old(link)),
            old(link).wf(),
            old(link)@.receiver_open,
            !old(link).armed(),
        ensures
            final(link).identity() == old(link).identity(),
            final(link).wf(),
            !final(link).armed(),
            r == await_result(old(link)@),
            old(link)@.items().len() > 0 ==> r == Ok::<T, RecvTimeoutError>(old(link)@.items()[0]),
            old(link)@.items().len() == 0 && old(link)@.sender_open ==> r == Err::<
                T,
                RecvTimeoutError,
            >(RecvTimeoutError::Timeout),
            old(link)@.items().len() == 0 && !old(link)@.sender_open ==> r == Err::<
                T,
                RecvTimeoutError,
            >(RecvTimeoutError::Disconnected),
            old(link)@.items().len() > 0 || !old(link)@.sender_open ==> final(link)@.clock == old(
                link,
            )@.clock,
            old(link)@.items().len() == 0 && old(link)@.sender_open ==> final(link)@.clock == (
            if old(link)@.clock < deadline {
                deadline
            } else {
                old(link)@.clock
            }),
            final(link)@.sender_open == old(link)@.sender_open,
            final(link)@.receiver_open == old(link)@.receiver_open,
            final(link)@.connected == old(link)@.connected,
            ready(old(link)@) ==> final(link)@ == polled(old(link)@),
            !ready(old(link)@) ==> {
                &&& final(link)@ == timed_out(old(link)@, deadline, final(link)@.token)
                &&& final(link)@.token != 0 && final(link)@.token != old(link)@.token
            },
            r is Ok ==> final(link)@.items() == old(link)@.items().drop_first(),
            r is Err ==> final(link)@.items() == old(link)@.items(),
    {
        let ghost m0 = link@;
        let ghost mut blank = false;
        let mut at = Awaiting::start();
        proof {
            lemma_begin_poll(m0, tx_at_rest(m0), blank);
            let s = alone(m0, RxState::Awaiting(at, deadline), blank);
            assert(s.sent =~= s.taken + s.m.items());
            assert(s.taken =~= s.received + s.rx.hand());
        }
        loop
            invariant
                inv(m0, tx_at_rest(m0), idle()),
                alone(link@, RxState::Awaiting(at, deadline), blank).coherent(),
                await_so_far(m0, link@, at, deadline),
                m0 == old(link)@,
                link.identity() == old(link).identity(),
                link@.sender_open == m0.sender_open,
                m0.receiver_open == link@.receiver_open,
                m0.receiver_open,
                !link.armed(),
                await_stage(at) >= 5 ==> link@.token == m0.token,
                await_stage(at) < 5 && !ready(m0) ==> link@.token != 0 && link@.token != m0.token,
            decreases await_stage(at), link@.segments.len(), await_rank(link@, at, deadline),
        {
            match at {
                Awaiting::Done(result) => {
                    proof {
                        lemma_some_queue(m0, tx_at_rest(m0), idle());
                        lemma_reached(m0.segments);
                        lemma_polled(m0);
                    }
                    return result;
                },
                next => {
                    let ghost s = alone(link@, RxState::Awaiting(next, deadline), blank);
                    proof {
                        lemma_some_queue(link@, s.tx, s.rx_view());
                        lemma_await_so_far(m0, link@, next, blank, deadline, 1);
                        blank = s.rx_moved(1).blank;
                    }
                    let ghost before = link@;
                    at = link.await_step(next, deadline);
                    proof {
                        if next is Token {
                            lemma_await_so_far(m0, before, next, s.blank, deadline, link@.token);
                        }
                    }
                },
            }
        }
    }

    /// Takes the oldest message, and waits for one until `deadline` if none is pending.
    pub fn recv_max_until(&self, link: &mut Link<T>, deadline: u64) -> (r: Result<
        T,
        RecvTimeoutError,
    >)
        requires
            self.of(*old(link)),
            old(link).wf(),
            old(link)@.receiver_open,
            !old(link).armed(),
        ensures
            final(link).identity() == old(link).identity(),
            final(link).wf(),
            !final(link).armed(),
            r == await_result(old(link)@),
            old(link)@.items().len() > 0 ==> r == Ok::<T, RecvTimeoutError>(old(link)@.items()[0]),
            old(link)@.items().len() == 0 && old(link)@.sender_open ==> r == Err::<
                T,
                RecvTimeoutError,
            >(RecvTimeoutError::Timeout),
            old(link)@.items().len() == 0 && !old(link)@.sender_open ==> r == Err::<
                T,
                RecvTimeoutError,
            >(RecvTimeoutError::Disconnected),
            old(link)@.items().len() > 0 || !old(link)@.sender_open ==> final(link)@.clock == old(
                link,
            )@.clock,
            old(link)@.items().len() == 0 && old(link)@.sender_open ==> final(link)@.clock == (
            if old(link)@.clock < deadline {
                deadline
            } else {
                old(link)@.clock
            }),
            final(link)@.sender_open == old(link)@.sender_open,
            final(link)@.receiver_open == old(link)@.receiver_open,
            final(link)@.connected == old(link)@.connected,
            ready(old(link)@) ==> final(link)@ == polled(old(link)@),
            !ready(old(link)@) ==> {
                &&& final(link)@ == timed_out(old(link)@, deadline, final(link)@.token)
                &&& final(link)@.token != 0 && final(link)@.token != old(link)@.token
            },
            r is Ok ==> final(link)@.items() == old(link)@.items().drop_first(),
            r is Err ==> final(link)@.items() == old(link)@.items(),
    {
        loop
            invariant
                *link == *old(link),
                self.of(*link),
                link.wf(),
                link@.receiver_open,
                !link.armed(),
            decreases 0nat,
        {
            let result = self.recv_deadline(link, deadline);
            if let Renewal::Return(result) = Renewal::decided(result, deadline, link.now()) {
                return result;
            }
        }
    }

    /// Takes the oldest message, and waits for one for `timeout` ticks of the clock if none
    /// is pending.
    pub fn recv_timeout(&self, link: &mut Link<T>, timeout: u64) -> (r: Result<
        T,
        RecvTimeoutError,
    >)
        requires
            self.of(*old(link)),
            old(link).wf(),
            old(link)@.receiver_open,
            !old(link).armed(),
            !ready(old(link)@) ==> old(link)@.clock + timeout <= u64::MAX,
        ensures
            final(link).identity() == old(link).identity(),
            final(link).wf(),
            !final(link).armed(),
            r == await_result(old(link)@),
            old(link)@.items().len() > 0 ==> r == Ok::<T, RecvTimeoutError>(old(link)@.items()[0]),
            old(link)@.items().len() == 0 && old(link)@.sender_open ==> r == Err::<
                T,
                RecvTimeoutError,
            >(RecvTimeoutError::Timeout),
            old(link)@.items().len() == 0 && !old(link)@.sender_open ==> r == Err::<
                T,
                RecvTimeoutError,
            >(RecvTimeoutError::Disconnected),
            old(link)@.items().len() > 0 || !old(link)@.sender_open ==> final(link)@.clock == old(
                link,
            )@.clock,
            old(link)@.items().len() == 0 && old(link)@.sender_open ==> final(link)@.clock == (
            old(link)@.clock + timeout),
            final(link)@.sender_open == old(link)@.sender_open,
            final(link)@.receiver_open == old(link)@.receiver_open,
            final(link)@.connected == old(link)@.connected,
            ready(old(link)@) ==> final(link)@ == polled(old(link)@),
            !ready(old(link)@) ==> {
                &&& final(link)@ == timed_out(
                    old(link)@,
                    (old(link)@.clock + timeout) as u64,
                    final(link)@.token,
                )
                &&& final(link)@.token != 0 && final(link)@.token != old(link)@.token
            },
            r is Ok ==> final(link)@.items() == old(link)@.items().drop_first(),
            r is Err ==> final(link)@.items() == old(link)@.items(),
    {
        proof {
            let m0 = link@;
            lemma_some_queue(m0, tx_at_rest(m0), idle());
            lemma_reached(m0.segments);
            lemma_polled(m0);
        }
        let result = self.try_recv(link);
        match Timed::decided(result) {
            Timed::Return(result) => result,
            Timed::Wait => {
                let deadline: u64 = link.now() + timeout;
                self.recv_max_until(link, deadline)
            },
        }
    }
}

} // verus!
