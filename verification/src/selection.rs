//! The receiving end of a channel whose ends take turns: its part in a selection.
use crate::arming::{select_step, withdraw_step, Arming, Selecting, SelectionResult, Withdrawing};
use crate::channel::{announced, ready, rx_at_rest, tx_at_rest, withdrawn, Receiver};
use crate::coherence::{
    announces, armed, idle, inv, lemma_messages_len, lemma_renew, lemma_select_step,
    lemma_some_queue, lemma_withdraw_step, selecting, withdrawing,
};
use crate::limits::DISCONNECTED;
use crate::link::{Link, Memory};
use vstd::prelude::*;

verus! {

/// How far an announcement that nothing interrupts has come.
spec fn select_so_far<T>(m0: Memory<T>, m: Memory<T>, at: Selecting, p: usize) -> bool {
    let renewed = m0.renew(p);
    let paid = Memory {
        counter: if m0.sender_open {
            (m0.items().len() - 1) as isize
        } else {
            DISCONNECTED
        },
        steals: 0,
        ..renewed
    };
    match at {
        Selecting::Arm(Arming::Inspect(q)) => q == p && m == renewed,
        Selecting::Arm(Arming::Post(q)) => q == p && m == renewed,
        Selecting::Arm(Arming::Subtract(q)) => q == p && m == renewed.set_wake(p),
        Selecting::Arm(Arming::Restore(q)) => {
            &&& q == p && !m0.sender_open
            &&& m.set_count(DISCONNECTED) == paid.set_wake(p)
        },
        Selecting::Arm(Arming::Withdraw(q)) => q == p && ready(m0) && m == paid.set_wake(p),
        Selecting::Arm(_) => false,
        Selecting::Undo => ready(m0) && m == paid,
        Selecting::Restore => !m0.sender_open && m.set_count(DISCONNECTED) == paid,
        Selecting::Done(SelectionResult::SelSuccess) => !ready(m0) && m == announced(m0, p),
        Selecting::Done(SelectionResult::SelCanceled) => ready(m0) && m == announced(m0, p),
    }
}

/// How many accesses an announcement has before it at most.
spec fn select_rank(at: Selecting) -> nat {
    match at {
        Selecting::Arm(Arming::Inspect(_)) => 8,
        Selecting::Arm(Arming::Post(_)) => 7,
        Selecting::Arm(Arming::Subtract(_)) => 6,
        Selecting::Arm(Arming::Restore(_)) => 5,
        Selecting::Arm(Arming::Withdraw(_)) => 4,
        Selecting::Arm(_) => 3,
        Selecting::Undo => 2,
        Selecting::Restore => 1,
        Selecting::Done(_) => 0,
    }
}

/// An announcement that nothing interrupts goes where it should.
proof fn lemma_select_so_far<T>(m0: Memory<T>, m: Memory<T>, at: Selecting, p: usize)
    requires
        inv(m0, tx_at_rest(m0), idle()),
        inv(m, tx_at_rest(m0), selecting(at, p)),
        select_so_far(m0, m, at, p),
        !(at is Done),
    ensures
        select_so_far(m0, select_step(m, at).0, select_step(m, at).1, p),
        select_rank(select_step(m, at).1) < select_rank(at),
{
    reveal(inv);
}

/// How far the way back from an announcement that nothing interrupts has come.
spec fn withdraw_so_far<T>(m0: Memory<T>, m: Memory<T>, at: Withdrawing) -> bool {
    let counted = m0.set_count((m0.items().len() + 1) as isize);
    match at {
        Withdrawing::Bump => m == m0,
        Withdrawing::Restore => !m0.sender_open && m.set_count(DISCONNECTED) == m0,
        Withdrawing::Take => !ready(m0) && m == counted,
        Withdrawing::Drain => m0.sender_open && ready(m0) && m == counted,
        Withdrawing::DrainGone => !m0.sender_open && m == m0,
        Withdrawing::Done(has_data) => has_data == ready(m0) && m == withdrawn(m0),
    }
}

/// How many accesses the way back from an announcement has before it at most.
spec fn withdraw_rank(at: Withdrawing) -> nat {
    match at {
        Withdrawing::Bump => 3,
        Withdrawing::Restore => 2,
        Withdrawing::Done(_) => 0,
        _ => 1,
    }
}

/// The way back from an announcement that nothing interrupts goes where it should.
proof fn lemma_withdraw_so_far<T>(m0: Memory<T>, m: Memory<T>, at: Withdrawing)
    requires
        inv(m0, tx_at_rest(m0), armed(m0.token)),
        inv(m, tx_at_rest(m0), withdrawing(at, m0.token)),
        withdraw_so_far(m0, m, at),
        !(at is Done),
    ensures
        withdraw_so_far(m0, withdraw_step(m, at).0, withdraw_step(m, at).1),
        withdraw_rank(withdraw_step(m, at).1) < withdraw_rank(at),
{
    reveal(inv);
}

impl<T> Receiver<T> {
    /// Whether a message is in the queue that the receiver takes from.
    pub fn can_recv(&self, link: &Link<T>) -> (r: bool)
        requires
            self.of(*link),
            link.wf(),
        ensures
            r == (link@.front().items.len() > 0),
            r == (link@.segments[0].items.len() > 0),
            r ==> link@.items().len() > 0,
    {
        proof {
            lemma_some_queue(
                link@,
                tx_at_rest(link@),
                rx_at_rest(link@, link.armed()),
            );
            lemma_messages_len(link@.segments, 0);
        }
        0 < link.front_size()
    }

    /// The capacity of the queue that the receiver takes from.
    pub fn capacity(&self, link: &Link<T>) -> (r: usize)
        requires
            self.of(*link),
            link.wf(),
        ensures
            r == link@.front().capacity,
            r == link@.segments[0].capacity,
    {
        proof {
            lemma_some_queue(
                link@,
                tx_at_rest(link@),
                rx_at_rest(link@, link.armed()),
            );
        }
        link.front_capacity()
    }

    /// Announces that the receiver waits under `token`, unless a message is pending or the
    /// sender is gone.
    pub fn start_selection(&self, link: &mut Link<T>, token: usize) -> (r: SelectionResult)
        requires
            self.of(*old(link)),
            old(link).wf(),
            old(link)@.receiver_open,
            !old(link).armed(),
            token != 0,
        ensures
            final(link).identity() == old(link).identity(),
            final(link).wf(),
            final(link).armed() == (r is SelSuccess),
            r is SelCanceled == ready(old(link)@),
            r is SelCanceled == (old(link)@.items().len() > 0 || !old(link)@.sender_open),
            final(link)@.segments == old(link)@.segments,
            final(link)@.token == token,
            !final(link)@.woken,
            final(link)@.to_wake == (if r is SelSuccess {
                token
            } else {
                0
            }),
            final(link)@.sender_open == old(link)@.sender_open,
            final(link)@.receiver_open == old(link)@.receiver_open,
            final(link)@.connected == old(link)@.connected,
            final(link)@.clock == old(link)@.clock,
            final(link)@ == announced(old(link)@, token),
            final(link)@.items() == old(link)@.items(),
    {
        let ghost m0 = link@;
        link.adopt_token(token);
        let mut at = Selecting::start(token);
        proof {
            lemma_renew(m0, tx_at_rest(m0), token);
        }
        loop
            invariant
                inv(m0, tx_at_rest(m0), idle()),
                inv(link@, tx_at_rest(m0), selecting(at, token)),
                at matches Selecting::Arm(arm) ==> announces(arm, token),
                select_so_far(m0, link@, at, token),
                m0 == old(link)@,
                link.identity() == old(link).identity(),
                m0.receiver_open,
                !link.armed(),
            decreases select_rank(at),
        {
            match at {
                Selecting::Done(result) => {
                    proof {
                        reveal(inv);
                    }
                    let ghost success = result is SelSuccess;
                    link.set_armed(Ghost(success));
                    return result;
                },
                next => {
                    proof {
                        lemma_select_so_far(m0, link@, next, token);
                        lemma_select_step(link@, tx_at_rest(m0), next, token);
                    }
                    at = link.select_step(next);
                },
            }
        }
    }

    /// Takes an announcement back. Returns whether a message is pending or the sender is
    /// gone.
    pub fn abort_selection(&self, link: &mut Link<T>) -> (r: bool)
        requires
            self.of(*old(link)),
            old(link).wf(),
            old(link).armed(),
        ensures
            final(link).identity() == old(link).identity(),
            final(link).wf(),
            !final(link).armed(),
            r == ready(old(link)@),
            r == (old(link)@.items().len() > 0 || !old(link)@.sender_open),
            final(link)@.segments == old(link)@.segments,
            final(link)@.to_wake == 0,
            final(link)@.token == old(link)@.token,
            final(link)@.sender_open == old(link)@.sender_open,
            final(link)@.receiver_open == old(link)@.receiver_open,
            final(link)@.connected == old(link)@.connected,
            final(link)@.clock == old(link)@.clock,
            final(link)@ == withdrawn(old(link)@),
            final(link)@.items() == old(link)@.items(),
    {
        let ghost m0 = link@;
        let mut at = Withdrawing::start();
        loop
            invariant
                inv(m0, tx_at_rest(m0), armed(m0.token)),
                inv(link@, tx_at_rest(m0), withdrawing(at, m0.token)),
                withdraw_so_far(m0, link@, at),
                m0 == old(link)@,
                link.identity() == old(link).identity(),
                m0.receiver_open,
            decreases withdraw_rank(at),
        {
            match at {
                Withdrawing::Done(has_data) => {
                    proof {
                        reveal(inv);
                    }
                    link.set_armed(Ghost(false));
                    return has_data;
                },
                next => {
                    proof {
                        lemma_withdraw_so_far(m0, link@, next);
                        lemma_withdraw_step(link@, tx_at_rest(m0), next, m0.token);
                    }
                    at = link.withdraw_step(next);
                },
            }
        }
    }
}

} // verus!
