//! The receiving end of a channel whose ends take turns: how it leaves.
use crate::channel::{departed, tx_at_rest, Receiver};
use crate::coherence::{
    inv, leaving, lemma_advance, lemma_leave_step, lemma_messages_single, lemma_pop,
    lemma_some_queue,
};
use crate::limits::DISCONNECTED;
use crate::link::{Link, Memory};
use crate::receiving::{leave_step, Leaving};
use vstd::prelude::*;

verus! {

/// How many accesses a leaving receiver has before it at most until it takes a message or
/// goes over to the next queue.
spec fn leave_rank<T>(m: Memory<T>, at: Leaving) -> nat {
    match at {
        Leaving::Disconnect => 8,
        Leaving::Mark => if m.items().len() > 0 {
            7
        } else {
            2
        },
        Leaving::Drain => 6,
        Leaving::Fetch => 5,
        Leaving::Recheck => 4,
        Leaving::Advance => 3,
        Leaving::Release => 1,
        Leaving::Done => 0,
    }
}

/// How far a receiver that nothing interrupts has come on its way out.
spec fn leave_so_far<T>(m0: Memory<T>, m: Memory<T>, at: Leaving) -> bool {
    let frame = Memory {
        segments: m.segments,
        held: m.held,
        counter: m.counter,
        steals: m.steals,
        ..m0
    };
    &&& m == match at {
        Leaving::Disconnect => frame,
        Leaving::Done => frame.disconnect().close_receiver(),
        _ => frame.disconnect(),
    }
    &&& if m0.sender_open && m0.items().len() > 0 {
        &&& m.steals + m.items().len() == m0.steals + m0.items().len()
        &&& m.back().capacity == m0.back().capacity
        &&& m.items().len() == 0 && !(at is Drain) ==> m.segments.len() == 1 || at is Fetch
            || at is Recheck || at is Advance
    } else {
        m.segments == m0.segments && m.held == m0.held && m.steals == m0.steals
    }
    &&& match at {
        Leaving::Disconnect | Leaving::Mark => true,
        Leaving::Release | Leaving::Done => {
            &&& m.counter == DISCONNECTED
            &&& m0.sender_open ==> m.items().len() == 0
        },
        Leaving::Drain => m0.sender_open && m0.items().len() > 0,
        _ => m0.sender_open && m0.items().len() > 0 && m.front().items.len() == 0,
    }
}

/// A receiver that nothing interrupts on its way out goes where it should.
proof fn lemma_leave_so_far<T>(m0: Memory<T>, m: Memory<T>, at: Leaving)
    requires
        inv(m, tx_at_rest(m0), leaving(at)),
        leave_so_far(m0, m, at),
        !(at is Done),
    ensures
        leave_so_far(m0, leave_step(m, at).0, leave_step(m, at).1),
        ({
            let m2 = leave_step(m, at).0;
            let size = m.segments.len() + m.items().len();
            let size2 = m2.segments.len() + m2.items().len();
            ||| size2 < size
            ||| size2 == size && leave_rank(m2, leave_step(m, at).1) < leave_rank(m, at)
        }),
{
    reveal(inv);
    lemma_pop(m, tx_at_rest(m0));
    if at is Advance {
        lemma_advance(m, tx_at_rest(m0));
    }
}

impl<T> Receiver<T> {
    /// The receiver leaves and drops the messages that are pending. If the sender is gone,
    /// they stay in the memory.
    pub fn close(self, link: &mut Link<T>)
        requires
            self.of(*old(link)),
            old(link).wf(),
            old(link)@.receiver_open,
            !old(link).armed(),
        ensures
            final(link).identity() == old(link).identity(),
            final(link).wf(),
            !final(link).armed(),
            final(link)@ == departed(old(link)@),
            !final(link)@.receiver_open,
            !final(link)@.connected,
            final(link)@.sender_open == old(link)@.sender_open,
            final(link)@.clock == old(link)@.clock,
            old(link)@.sender_open ==> final(link)@.items().len() == 0,
            !old(link)@.sender_open ==> final(link)@.items() == old(link)@.items(),
    {
        let ghost m0 = link@;
        let mut at = Leaving::start();
        loop
            invariant
                inv(link@, tx_at_rest(m0), leaving(at)),
                leave_so_far(m0, link@, at),
                m0 == old(link)@,
                link.identity() == old(link).identity(),
                m0.receiver_open,
                !link.armed(),
            decreases link@.segments.len() + link@.items().len(), leave_rank(link@, at),
        {
            match at {
                Leaving::Done => {
                    proof {
                        reveal(inv);
                        if m0.sender_open && m0.items().len() > 0 {
                            lemma_messages_single(link@.segments);
                            assert(link@.segments =~~= departed(m0).segments);
                        }
                    }
                    return;
                },
                next => {
                    proof {
                        lemma_some_queue(link@, tx_at_rest(m0), leaving(next));
                        lemma_leave_so_far(m0, link@, next);
                        lemma_leave_step(link@, tx_at_rest(m0), next);
                    }
                    at = link.leave_step(next);
                },
            }
        }
    }
}

} // verus!
