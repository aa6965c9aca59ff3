//! What the calls on a channel are for.
//!
//! The laws speak of the messages that are pending, of which ends are there, of the clock and
//! of the queues, as they are before and after a call.
use crate::channel::{
    announced, await_result, departed, hung_up, lemma_reached, poll_result, polled, reached, ready,
    receive_result, sent, timed_out, withdrawn,
};
use crate::coherence::{
    inv, lemma_messages_len, lemma_messages_pop, lemma_messages_push, lemma_messages_single,
};
use crate::errors::{RecvError, RecvTimeoutError, TryRecvError};
use crate::limits::{DISCONNECTED, INITIAL_CAPACITY, MAX_STEALS};
use crate::link::{messages, Link, Memory};
use crate::ring::Segment;
use crate::turns::{law_receive_takes_first, law_send_appends};
use vstd::prelude::*;

verus! {

/// The pending messages are those of all queues, one queue after the other.
pub proof fn law_pending_are_all_queued<T>(segments: Seq<Segment<T>>)
    ensures
        messages(segments) == segments.map_values(|s: Segment<T>| s.items).flatten(),
    decreases segments.len(),
{
    let items = segments.map_values(|s: Segment<T>| s.items);
    if segments.len() > 0 {
        let rest = segments.drop_first();
        law_pending_are_all_queued(rest);
        assert(items.drop_first() =~= rest.map_values(|s: Segment<T>| s.items));
        assert(items.first() == segments[0].items);
    }
}

/// The same of a memory.
pub proof fn law_items_are_all_queued<T>(m: Memory<T>)
    ensures
        m.items() == m.segments.map_values(|s: Segment<T>| s.items).flatten(),
{
    law_pending_are_all_queued(m.segments);
}

/// The receiver works on the first queue and the sender on the last one. A queue is full when
/// it holds as many messages as it has room for.
pub proof fn law_ends_of_the_row<T>(m: Memory<T>)
    requires
        m.segments.len() > 0,
    ensures
        m.front() == m.segments[0],
        m.back() == m.segments[m.segments.len() - 1],
        m.back().full() == (m.segments.last().items.len() >= m.segments.last().capacity),
{
}

/// The numbers that the protocol rests on.
pub proof fn law_limits()
    ensures
        INITIAL_CAPACITY == 128,
        MAX_STEALS == 1024 * 1024,
        DISCONNECTED == isize::MIN,
{
}

/// A receive need not wait exactly if a message is pending or the sender is gone.
pub proof fn law_when_ready<T>(m: Memory<T>)
    ensures
        ready(m) == (m.items().len() > 0 || !m.sender_open),
{
}

/// A receive that does not wait gets the oldest message if one is pending. If none is, it
/// reports that the channel is empty exactly while the sender is there, and that it is
/// disconnected exactly when the sender is gone.
pub proof fn law_poll_tells<T>(m: Memory<T>)
    ensures
        poll_result(m) is Ok == (m.items().len() > 0),
        m.items().len() > 0 ==> poll_result(m)->Ok_0 == m.items()[0],
        (poll_result(m) == Err::<T, TryRecvError>(TryRecvError::Empty)) == (m.items().len() == 0
            && m.sender_open),
        (poll_result(m) == Err::<T, TryRecvError>(TryRecvError::Disconnected)) == (
        m.items().len() == 0 && !m.sender_open),
{
}

/// A receive that waits gets the oldest message if one is pending, and otherwise, if it need
/// not wait, reports that the sender is gone.
pub proof fn law_receive_tells<T>(m: Memory<T>)
    ensures
        receive_result(m) is Ok == (m.items().len() > 0),
        m.items().len() > 0 ==> receive_result(m)->Ok_0 == m.items()[0],
        receive_result(m) is Err ==> receive_result(m)->Err_0 == RecvError,
{
}

/// A receive with a time limit gets the oldest message if one is pending. If none is, it
/// reports the timeout exactly if the sender is there, and the disconnection exactly if the
/// sender has left, so that a loop that goes on after timeouts comes to an end.
pub proof fn law_await_tells<T>(m: Memory<T>)
    ensures
        await_result(m) is Ok == (m.items().len() > 0),
        m.items().len() > 0 ==> await_result(m)->Ok_0 == m.items()[0],
        (await_result(m) == Err::<T, RecvTimeoutError>(RecvTimeoutError::Timeout)) == (
        m.items().len() == 0 && m.sender_open),
        (await_result(m) == Err::<T, RecvTimeoutError>(RecvTimeoutError::Disconnected)) == (
        m.items().len() == 0 && !m.sender_open),
{
}

/// The three ways to receive agree where none of them has to wait.
pub proof fn law_receives_agree<T>(m: Memory<T>)
    requires
        m.items().len() > 0 || !m.sender_open,
    ensures
        poll_result(m).ok() == receive_result(m).ok(),
        poll_result(m).ok() == await_result(m).ok(),
        receive_result(m) is Err == (poll_result(m) == Err::<T, TryRecvError>(
            TryRecvError::Disconnected,
        )),
        receive_result(m) is Err == (await_result(m) == Err::<T, RecvTimeoutError>(
            RecvTimeoutError::Disconnected,
        )),
{
}

/// A receive takes the oldest message and nothing else, and leaves the ends, the token and
/// the clock alone.
pub proof fn law_poll_takes_one<T>(m: Memory<T>)
    requires
        m.segments.len() > 0,
    ensures
        m.items().len() > 0 ==> polled(m).items() == m.items().drop_first(),
        m.items().len() == 0 ==> polled(m).items() == m.items(),
        polled(m).sender_open == m.sender_open,
        polled(m).receiver_open == m.receiver_open,
        polled(m).connected == m.connected,
        polled(m).to_wake == m.to_wake,
        polled(m).token == m.token,
        polled(m).woken == m.woken,
        polled(m).clock == m.clock,
{
    law_receive_takes_first(m);
}

/// Where the empty queues before the queue `k` end.
proof fn lemma_reached_at<T>(segments: Seq<Segment<T>>, k: int)
    requires
        0 <= k < segments.len(),
        forall|j: int| 0 <= j < k ==> (#[trigger] segments[j]).items.len() == 0,
        segments[k].items.len() > 0 || k == segments.len() - 1,
    ensures
        reached(segments) == segments.skip(k),
    decreases segments.len(),
{
    if k == 0 {
        assert(segments.skip(0) =~= segments);
    } else {
        assert(segments[0].items.len() == 0);
        let rest = segments.drop_first();
        assert forall|j: int| 0 <= j < k - 1 implies (#[trigger] rest[j]).items.len() == 0 by {
            assert(segments[j + 1].items.len() == 0);
        }
        lemma_reached_at(rest, k - 1);
        assert(rest.skip(k - 1) =~= segments.skip(k));
    }
}

/// A receive takes from the first queue that has a message, `k`, and drops the empty ones
/// before it; if none has one, only the last queue is left. The queues behind it stay as they
/// are.
pub proof fn law_poll_goes_over_empty_queues<T>(m: Memory<T>, k: int)
    requires
        0 <= k < m.segments.len(),
        forall|j: int| 0 <= j < k ==> (#[trigger] m.segments[j]).items.len() == 0,
        m.segments[k].items.len() > 0 || k == m.segments.len() - 1,
    ensures
        polled(m).segments.len() == m.segments.len() - k,
        polled(m).segments[0].capacity == m.segments[k].capacity,
        polled(m).segments[0].items == if m.segments[k].items.len() > 0 {
            m.segments[k].items.drop_first()
        } else {
            m.segments[k].items
        },
        forall|j: int|
            0 < j < m.segments.len() - k ==> #[trigger] polled(m).segments[j] == m.segments[k + j],
{
    lemma_reached_at(m.segments, k);
}

/// A message that is sent while the receiver is there comes last, after all others.
pub proof fn law_send_comes_last<T>(m: Memory<T>, t: T)
    requires
        m.segments.len() > 0,
    ensures
        sent(m, t).items() == m.items().push(t),
        sent(m, t).sender_open == m.sender_open,
        sent(m, t).receiver_open == m.receiver_open,
        sent(m, t).connected == m.connected,
        sent(m, t).token == m.token,
        sent(m, t).clock == m.clock,
        m.woken ==> sent(m, t).woken,
{
    law_send_appends(m, t);
}

/// A message goes into the last queue while there is room in it. If there is none, it goes
/// into a new queue of twice the capacity. The other queues stay as they are.
pub proof fn law_send_adds_to_last_queue<T>(m: Memory<T>, t: T)
    requires
        m.segments.len() > 0,
    ensures
        m.segments.last().items.len() < m.segments.last().capacity ==> {
            &&& sent(m, t).segments.len() == m.segments.len()
            &&& sent(m, t).segments.last().items == m.segments.last().items.push(t)
            &&& sent(m, t).segments.last().capacity == m.segments.last().capacity
            &&& sent(m, t).segments.drop_last() == m.segments.drop_last()
        },
        m.segments.last().items.len() >= m.segments.last().capacity ==> {
            &&& sent(m, t).segments.len() == m.segments.len() + 1
            &&& sent(m, t).segments.last().items == seq![t]
            &&& sent(m, t).segments.last().capacity == 2 * m.segments.last().capacity
            &&& sent(m, t).segments.drop_last() == m.segments
        },
{
    assert(m.segments.last().items.len() < m.segments.last().capacity
        ==> sent(m, t).segments.drop_last() =~= m.segments.drop_last());
    assert(m.segments.last().items.len() >= m.segments.last().capacity
        ==> sent(m, t).segments.drop_last() =~= m.segments);
}

/// A sender that leaves takes no message with it and leaves the receiver there.
pub proof fn law_hang_up_leaves_messages<T>(m: Memory<T>)
    ensures
        hung_up(m).items() == m.items(),
        hung_up(m).segments == m.segments,
        !hung_up(m).sender_open,
        !hung_up(m).connected,
        hung_up(m).receiver_open == m.receiver_open,
        hung_up(m).token == m.token,
        hung_up(m).clock == m.clock,
        m.woken ==> hung_up(m).woken,
{
}

/// A receiver that leaves drops the messages that are pending while the sender is there, and
/// leaves the sender there.
pub proof fn law_leave_drops_messages<T>(m: Memory<T>)
    requires
        m.segments.len() > 0,
    ensures
        m.sender_open ==> departed(m).items().len() == 0,
        !m.sender_open ==> departed(m).items() == m.items(),
        departed(m).segments.last().capacity == m.segments.last().capacity,
        !departed(m).receiver_open,
        !departed(m).connected,
        departed(m).sender_open == m.sender_open,
        departed(m).clock == m.clock,
{
    if m.sender_open && m.items().len() > 0 {
        lemma_messages_single(departed(m).segments);
    }
}

/// An announcement changes no queue, and it makes the token the receiver's, not signalled
/// yet. The sender will find the token in the memory exactly if nothing is pending and the
/// sender is there.
pub proof fn law_announcement_only_announces<T>(m: Memory<T>, token: usize)
    ensures
        announced(m, token).segments == m.segments,
        announced(m, token).token == token,
        !announced(m, token).woken,
        announced(m, token).to_wake == if m.items().len() == 0 && m.sender_open {
            token
        } else {
            m.to_wake
        },
        announced(m, token).sender_open == m.sender_open,
        announced(m, token).receiver_open == m.receiver_open,
        announced(m, token).connected == m.connected,
        announced(m, token).clock == m.clock,
{
}

/// To take an announcement back changes no queue and leaves no token for a sender that is
/// there to find.
pub proof fn law_withdrawal_only_withdraws<T>(m: Memory<T>)
    ensures
        withdrawn(m).segments == m.segments,
        m.sender_open ==> withdrawn(m).to_wake == 0,
        withdrawn(m).token == m.token,
        withdrawn(m).woken == m.woken,
        withdrawn(m).sender_open == m.sender_open,
        withdrawn(m).receiver_open == m.receiver_open,
        withdrawn(m).connected == m.connected,
        withdrawn(m).clock == m.clock,
{
}

/// Between calls the counter tells what is pending. While both ends are there, it holds the
/// pending messages and the steals, or, while a token is announced, one less than the pending
/// messages. It shows when one of the ends is gone.
pub proof fn law_counter_counts<T>(link: Link<T>)
    requires
        link.wf(),
    ensures
        ({
            let m = link@;
            &&& m.connected == (m.sender_open && m.receiver_open)
            &&& m.sender_open && m.receiver_open && !link.armed() ==> {
                &&& m.counter == m.steals + m.items().len()
                &&& 0 <= m.steals <= MAX_STEALS + 1
                &&& m.to_wake == 0
            }
            &&& link.armed() ==> {
                &&& m.token != 0
                &&& m.steals == 0
                &&& m.sender_open ==> m.counter == m.items().len() - 1
                &&& m.sender_open && m.items().len() == 0 ==> m.to_wake == m.token && !m.woken
                &&& m.items().len() > 0 || !m.sender_open ==> m.to_wake == 0 && m.woken
            }
            &&& m.sender_open != m.receiver_open ==> m.counter == isize::MIN
            &&& m.sender_open && !m.receiver_open ==> m.items().len() == 0
        }),
{
    reveal(inv);
}

/// A receive that finds a message is a steal, until there are too many of them: then the
/// counter is told of all but this one. A search in vain, a send and a sender that leaves
/// change no steals.
pub proof fn law_steals<T>(m: Memory<T>, t: T)
    requires
        m.segments.len() > 0,
    ensures
        m.items().len() == 0 ==> polled(m).steals == m.steals && polled(m).counter == m.counter,
        m.items().len() > 0 && m.steals <= 1024 * 1024 ==> {
            &&& polled(m).steals == m.steals + 1
            &&& polled(m).counter == m.counter
        },
        m.items().len() > 0 && m.steals > 1024 * 1024 && m.counter == isize::MIN ==> {
            &&& polled(m).steals == if m.steals < isize::MAX - 1 {
                m.steals + 1
            } else {
                m.steals as int
            }
            &&& polled(m).counter == m.counter
        },
        m.items().len() > 0 && m.steals > 1024 * 1024 && m.steals <= m.counter ==> {
            &&& polled(m).steals == 1
            &&& polled(m).counter == m.counter - m.steals
        },
        sent(m, t).steals == m.steals,
        m.counter < isize::MAX ==> sent(m, t).counter == m.counter + 1,
        hung_up(m).steals == m.steals,
        hung_up(m).counter == isize::MIN,
        departed(m).counter == isize::MIN,
{
    lemma_reached(m.segments);
    lemma_messages_len(reached(m.segments), 0);
    if reached(m.segments)[0].items.len() == 0 {
        lemma_messages_single(reached(m.segments));
    }
}

/// A wait in vain ends at its deadline and no later, or at once if the deadline has passed. It
/// takes no message, leaves both ends there and leaves no token to find.
pub proof fn law_wait_ends_at_deadline<T>(m: Memory<T>, deadline: u64, token: usize)
    requires
        m.segments.len() > 0,
    ensures
        m.clock <= deadline ==> timed_out(m, deadline, token).clock == deadline,
        m.clock >= deadline ==> timed_out(m, deadline, token).clock == m.clock,
        timed_out(m, deadline, token).items() == m.items(),
        timed_out(m, deadline, token).to_wake == 0,
        timed_out(m, deadline, token).token == token,
        timed_out(m, deadline, token).sender_open == m.sender_open,
        timed_out(m, deadline, token).receiver_open == m.receiver_open,
        timed_out(m, deadline, token).connected == m.connected,
{
    lemma_reached(m.segments);
}

/// A longer time limit is never over before a shorter one.
pub proof fn law_later_deadline_later_timeout<T>(m: Memory<T>, one: u64, two: u64, token: usize)
    requires
        one <= two,
    ensures
        timed_out(m, one, token).clock <= timed_out(m, two, token).clock,
        timed_out(m, two, token).clock - timed_out(m, one, token).clock <= two - one,
{
}

/// The sender's access to its queue: the message comes last if there is room in the last
/// queue, and is handed back if there is none.
pub proof fn law_access_push<T>(m: Memory<T>, t: T)
    requires
        m.segments.len() > 0,
    ensures
        m.segments.last().items.len() < m.segments.last().capacity ==> {
            &&& m.try_push(t).1 is None
            &&& m.try_push(t).0.items() == m.items().push(t)
            &&& m.try_push(t).0.segments.len() == m.segments.len()
        },
        m.segments.last().items.len() >= m.segments.last().capacity ==> {
            &&& m.try_push(t).1 == Some(t)
            &&& m.try_push(t).0 == m
        },
        m.try_push(t).0 == (Memory { segments: m.try_push(t).0.segments, ..m }),
{
    lemma_messages_push(m.segments, t);
}

/// The receiver's access to its queue: it takes the oldest message, and finds none exactly if
/// the first queue is empty.
pub proof fn law_access_pop<T>(m: Memory<T>)
    requires
        m.segments.len() > 0,
    ensures
        m.segments[0].items.len() > 0 ==> {
            &&& m.try_pop().1 == Some(m.items()[0])
            &&& m.try_pop().0.items() == m.items().drop_first()
            &&& m.try_pop().0.segments.len() == m.segments.len()
        },
        m.segments[0].items.len() == 0 ==> m.try_pop().1 is None && m.try_pop().0 == m,
        m.try_pop().0 == (Memory { segments: m.try_pop().0.segments, ..m }),
{
    if m.segments[0].items.len() > 0 {
        lemma_messages_pop(m.segments);
    }
}

/// The sender's way to take a message back: the first of its own queue.
pub proof fn law_access_take_back<T>(m: Memory<T>)
    requires
        m.segments.len() > 0,
    ensures
        m.segments.last().items.len() > 0 ==> {
            &&& m.take_back().1 == Some(m.segments.last().items[0])
            &&& m.take_back().0.segments.last().items == m.segments.last().items.drop_first()
            &&& m.take_back().0.segments.drop_last() == m.segments.drop_last()
        },
        m.segments.last().items.len() == 0 ==> m.take_back().1 is None && m.take_back().0 == m,
        m.take_back().0 == (Memory { segments: m.take_back().0.segments, ..m }),
{
    if m.segments.last().items.len() > 0 {
        assert(m.take_back().0.segments.drop_last() =~= m.segments.drop_last());
    }
}

/// The hand-over of queues: a new queue is empty, comes last and is refused exactly if the
/// receiver's end of the line is closed. The receiver is handed each one once, and is told
/// that none will come exactly if none waits and the sender's end of the line is closed. It
/// goes over to a queue that it was handed by dropping the one before it.
pub proof fn law_access_hand_over<T>(m: Memory<T>, capacity: nat)
    ensures
        m.extend(capacity).1 == m.receiver_open,
        m.receiver_open ==> {
            &&& m.extend(capacity).0.segments.len() == m.segments.len() + 1
            &&& m.extend(capacity).0.segments.drop_last() == m.segments
            &&& m.extend(capacity).0.segments.last().items.len() == 0
            &&& m.extend(capacity).0.segments.last().capacity == capacity
        },
        m.extend(capacity).0 == (Memory { segments: m.extend(capacity).0.segments, ..m }),
        !m.receiver_open ==> m.extend(capacity).0 == m,
        (m.fetch().1 is Queue) == (!m.held && m.segments.len() >= 2),
        (m.fetch().1 is Closed) == (!(m.fetch().1 is Queue) && !m.sender_open),
        m.fetch().0 == (Memory { held: m.held || m.fetch().1 is Queue, ..m }),
        m.held && m.segments.len() >= 2 ==> m.advance() == (Memory {
            segments: m.segments.drop_first(),
            held: false,
            ..m
        }),
{
    assert(m.receiver_open ==> m.extend(capacity).0.segments.drop_last() =~= m.segments);
}

/// The accesses to the counter: they change nothing else, and they count as numbers do where
/// the result fits.
pub proof fn law_access_counter<T>(m: Memory<T>, n: isize)
    ensures
        m.add_count(n) == (Memory { counter: m.add_count(n).counter, ..m }),
        isize::MIN <= m.counter + n <= isize::MAX ==> m.add_count(n).counter == m.counter + n,
        m.sub_count(n) == (Memory { counter: m.sub_count(n).counter, ..m }),
        isize::MIN <= m.counter - n <= isize::MAX ==> m.sub_count(n).counter == m.counter - n,
        m.set_count(n) == (Memory { counter: n, ..m }),
        m.counter == n ==> m.mark_if(n) == (Memory { counter: isize::MIN, ..m }),
        m.counter != n ==> m.mark_if(n) == m,
        m.with_steals(n) == (Memory { steals: n, ..m }),
{
}

/// The accesses to the token: a new token is not signalled, and a signal reaches the token
/// that it is for and no other.
pub proof fn law_access_token<T>(m: Memory<T>, token: usize)
    ensures
        m.set_wake(token) == (Memory { to_wake: token, ..m }),
        m.renew(token) == (Memory { token, woken: false, ..m }),
        m.token == token ==> m.signal(token) == (Memory { woken: true, ..m }),
        m.token != token ==> m.signal(token) == m,
{
}

/// The marks of the ends that leave, and the clock of one that sleeps: a sleep ends at its
/// deadline, or at once if the deadline has passed.
pub proof fn law_access_doors_and_clock<T>(m: Memory<T>, deadline: u64)
    ensures
        m.disconnect() == (Memory { connected: false, ..m }),
        m.close_sender() == (Memory { sender_open: false, ..m }),
        m.close_receiver() == (Memory { receiver_open: false, ..m }),
        m.clock <= deadline ==> m.sleep(deadline) == (Memory { clock: deadline, ..m }),
        m.clock >= deadline ==> m.sleep(deadline) == m,
{
}

} // verus!
