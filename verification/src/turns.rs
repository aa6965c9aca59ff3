//! What holds of a channel whose ends take turns.
use crate::channel::{
    announced, hung_up, lemma_polled, lemma_reached, poll_result, polled, queued, reached, ready, sent,
    timed_out, withdrawn,
};
use crate::coherence::{lemma_messages_extend, lemma_messages_push};
use crate::errors::TryRecvError;
use crate::link::{messages, Memory};
use crate::ring::Segment;
use vstd::prelude::*;

verus! {

/// The memory after messages have been sent one after the other.
pub open spec fn sent_all<T>(m: Memory<T>, ts: Seq<T>) -> Memory<T>
    decreases ts.len(),
{
    if ts.len() == 0 {
        m
    } else {
        sent(sent_all(m, ts.drop_last()), ts.last())
    }
}

/// The memory after `n` receives.
pub open spec fn polled_times<T>(m: Memory<T>, n: nat) -> Memory<T>
    decreases n,
{
    if n == 0 {
        m
    } else {
        polled(polled_times(m, (n - 1) as nat))
    }
}

/// A message that is sent comes last.
pub proof fn law_send_appends<T>(m: Memory<T>, t: T)
    requires
        m.segments.len() > 0,
    ensures
        sent(m, t).items() == m.items().push(t),
        sent(m, t).segments.len() > 0,
{
    let wide = m.segments.push(Segment::new(2 * m.back().capacity));
    lemma_messages_push(m.segments, t);
    lemma_messages_extend(m.segments, 2 * m.back().capacity);
    lemma_messages_push(wide, t);
    if m.back().full() {
        assert(wide.update(wide.len() - 1, wide.last().pushed(t)) =~= queued(m.segments, t));
    }
}

/// Messages that are sent one after the other come last, in their order.
pub proof fn law_sends_append<T>(m: Memory<T>, ts: Seq<T>)
    requires
        m.segments.len() > 0,
    ensures
        sent_all(m, ts).items() == m.items() + ts,
        sent_all(m, ts).segments.len() > 0,
    decreases ts.len(),
{
    if ts.len() > 0 {
        law_sends_append(m, ts.drop_last());
        law_send_appends(sent_all(m, ts.drop_last()), ts.last());
        assert(m.items() + ts =~= (m.items() + ts.drop_last()).push(ts.last()));
    }
}

/// A receive takes the first message and leaves the others.
pub proof fn law_receive_takes_first<T>(m: Memory<T>)
    requires
        m.segments.len() > 0,
    ensures
        polled(m).segments.len() > 0,
        polled(m).items() == if m.items().len() > 0 {
            m.items().drop_first()
        } else {
            m.items()
        },
{
    lemma_reached(m.segments);
    lemma_polled(m);
}

/// Messages arrive in the order in which they were sent: after the messages `ts` have been
/// sent into a channel, the receive number `n`, counted from zero, gets the message number
/// `n` of those that were pending and of `ts`.
pub proof fn law_first_in_first_out<T>(m: Memory<T>, ts: Seq<T>, n: nat)
    requires
        m.segments.len() > 0,
        n < m.items().len() + ts.len(),
    ensures
        poll_result(polled_times(sent_all(m, ts), n)) == Ok::<T, TryRecvError>(
            (m.items() + ts)[n as int],
        ),
        polled_times(sent_all(m, ts), n).items() == (m.items() + ts).skip(n as int),
        polled_times(sent_all(m, ts), n).segments.len() > 0,
    decreases n,
{
    law_sends_append(m, ts);
    let all = m.items() + ts;
    if n == 0 {
        assert(all.skip(0) =~= all);
    } else {
        law_first_in_first_out(m, ts, (n - 1) as nat);
        law_receive_takes_first(polled_times(sent_all(m, ts), (n - 1) as nat));
        assert(all.skip(n - 1).drop_first() =~= all.skip(n as int));
    }
}

/// A channel whose sender has left still hands out its messages, and reports the sender's
/// absence only when none is left, from then on each time.
pub proof fn law_messages_outlive_sender<T>(m: Memory<T>)
    requires
        m.segments.len() > 0,
    ensures
        hung_up(m).items() == m.items(),
        m.items().len() > 0 ==> poll_result(hung_up(m)) == poll_result(m),
        m.items().len() == 0 ==> {
            &&& poll_result(hung_up(m)) == Err::<T, TryRecvError>(TryRecvError::Disconnected)
            &&& poll_result(polled(hung_up(m))) == Err::<T, TryRecvError>(
                TryRecvError::Disconnected,
            )
        },
{
    law_receive_takes_first(hung_up(m));
}

/// An announcement that is taken back again leaves the messages and the sender's presence as
/// they were, and so does one that is refused.
pub proof fn law_announcement_undone<T>(m: Memory<T>, token: usize)
    ensures
        announced(m, token).segments == m.segments,
        poll_result(announced(m, token)) == poll_result(m),
        withdrawn(announced(m, token)).segments == m.segments,
        poll_result(withdrawn(announced(m, token))) == poll_result(m),
        ready(withdrawn(announced(m, token))) == ready(m),
{
}

/// A receiver that waits is signalled by the next message, and by the sender when it leaves.
pub proof fn law_waiting_is_signalled<T>(m: Memory<T>, token: usize, t: T)
    requires
        !ready(m),
    ensures
        !announced(m, token).woken,
        sent(announced(m, token), t).woken,
        sent(announced(m, token), t).to_wake == 0,
        hung_up(announced(m, token)).woken,
        hung_up(announced(m, token)).to_wake == 0,
{
}

/// A wait in vain loses nothing: what is sent after it is received.
pub proof fn law_timeout_loses_nothing<T>(m: Memory<T>, deadline: u64, token: usize, t: T)
    requires
        m.segments.len() > 0,
        !ready(m),
    ensures
        timed_out(m, deadline, token).items() == m.items(),
        timed_out(m, deadline, token).clock >= deadline,
        poll_result(sent(timed_out(m, deadline, token), t)) == Ok::<T, TryRecvError>(t),
{
    lemma_reached(m.segments);
    law_send_appends(timed_out(m, deadline, token), t);
}

/// Each queue can hold twice as many messages as the one before it.
pub open spec fn doubling<T>(segments: Seq<Segment<T>>) -> bool {
    forall|i: int, j: int|
        0 <= i && j == i + 1 && j < segments.len() ==> (#[trigger] segments[j]).capacity == 2 * (
        #[trigger] segments[i]).capacity
}

/// The capacities of the queues keep doubling, whatever is sent and received.
pub proof fn law_capacities_double<T>(m: Memory<T>, t: T)
    requires
        m.segments.len() > 0,
        doubling(m.segments),
    ensures
        doubling(sent(m, t).segments),
        doubling(polled(m).segments),
        sent(m, t).back().capacity == if m.back().full() {
            2 * m.back().capacity
        } else {
            m.back().capacity
        },
        polled(m).back().capacity == m.back().capacity,
{
    lemma_doubling_reached(m.segments);
}

/// The queues that are left keep their capacities.
proof fn lemma_doubling_reached<T>(segments: Seq<Segment<T>>)
    requires
        segments.len() > 0,
        doubling(segments),
    ensures
        doubling(reached(segments)),
        reached(segments).len() > 0,
        reached(segments).last() == segments.last(),
    decreases segments.len(),
{
    if segments.len() > 1 && segments[0].items.len() == 0 {
        lemma_doubling_reached(segments.drop_first());
    }
}

} // verus!
