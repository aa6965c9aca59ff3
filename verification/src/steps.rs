//! When the ends come to which decision.
//!
//! The laws go back from what an end is about to do to what it must have found in the memory.
use crate::arming::{
    arm_step, select_step, withdraw_step, Arming, Selecting, SelectionResult, Withdrawing,
};
use crate::blocking::Waiting;
use crate::errors::{RecvError, RecvTimeoutError, SendError, TryRecvError};
use crate::link::Memory;
use crate::polling::{poll_step, Polling};
use crate::receiving::{
    await_step, leave_step, receive_step, wait_step, Awaiting, Leaving, Receiving, Renewal, Timed,
};
use crate::sending::{hangup_step, send_step, Hangup, Sending};
use vstd::prelude::*;

verus! {

/// A send fails exactly if it found the channel not connected, found the receiver's end of
/// the hand-over line closed, or has taken its message back. It hands back that message.
pub proof fn law_send_fails_when<T>(m: Memory<T>, at: Sending<T>, t: T)
    requires
        at.admissible(m),
        !(at is Done),
    ensures
        (send_step(m, at).1 == Sending::Done(Err(SendError(t)))) == {
            ||| at == Sending::Check(t) && !m.connected
            ||| at == Sending::Grow(t) && !m.receiver_open
            ||| at == Sending::Verify(Some(t))
        },
{
    let next = send_step(m, at).1;
    if next == Sending::Done(Err(SendError(t))) {
        assert(next->Done_0->Err_0.0 == t);
    }
}

/// A send succeeds exactly if it has counted its message and nobody waits for it, has
/// signalled the receiver that waits, or has found its message gone from an abandoned
/// channel.
pub proof fn law_send_succeeds_when<T>(m: Memory<T>, at: Sending<T>)
    requires
        at.admissible(m),
        !(at is Done),
    ensures
        (send_step(m, at).1 == Sending::<T>::Done(Ok(()))) == {
            ||| at is Count && m.counter != isize::MIN && m.counter != -1
            ||| at is Wake
            ||| at == Sending::<T>::Verify(None)
        },
        (send_step(m, at).1 is Count) == {
            ||| at is Push && m.back().items.len() < m.back().capacity
            ||| at is Repush
        },
        (send_step(m, at).1 is Take) == (at is Count && m.counter == -1),
        (send_step(m, at).1 is Mark) == (at is Count && m.counter == isize::MIN),
        at is Take ==> send_step(m, at).1 == Sending::<T>::Wake(m.to_wake),
        at is Mark ==> send_step(m, at).1 is Reclaim,
{
}

/// A send goes on with its message until the message is in a queue. A queue that is full is
/// followed by another one.
pub proof fn law_send_keeps_message<T>(m: Memory<T>, t: T)
    ensures
        m.connected ==> send_step(m, Sending::start(t)) == (m, Sending::Push(t)),
        m.back().items.len() >= m.back().capacity ==> send_step(m, Sending::Push(t)) == (
            m,
            Sending::Grow(t),
        ),
        m.receiver_open ==> send_step(m, Sending::Grow(t)).1 == Sending::Repush(t),
        m.receiver_open ==> send_step(m, Sending::Grow(t)).0.back().capacity == 2
            * m.back().capacity,
{
}

/// A sender that leaves says so before it is gone: it marks the channel, disconnects the
/// counter, signals a receiver that waits and closes its end of the hand-over line, in this
/// order.
pub proof fn law_hangup_when<T>(m: Memory<T>, at: Hangup)
    requires
        at.admissible(m),
        !(at is Done),
    ensures
        Hangup::start() is Disconnect,
        (hangup_step(m, at).1 is Swap) == (at is Disconnect),
        (hangup_step(m, at).1 is Take) == (at is Swap && m.counter == -1),
        (hangup_step(m, at).1 is Wake) == (at is Take),
        at is Take ==> hangup_step(m, at).1 == Hangup::Wake(m.to_wake),
        (hangup_step(m, at).1 is Release) == (at is Wake || (at is Swap && m.counter != -1)),
        (hangup_step(m, at).1 is Done) == (at is Release),
        at is Disconnect ==> !hangup_step(m, at).0.connected,
        at is Swap ==> hangup_step(m, at).0.counter == isize::MIN,
        at is Wake && m.token == at->Wake_0 ==> hangup_step(m, at).0.woken,
        at is Release ==> !hangup_step(m, at).0.sender_open,
        hangup_step(m, at).0.segments == m.segments,
{
}

/// A search ends without a message exactly if it was about to read the counter and the
/// counter was in use, or the sender was gone and the last queue empty.
pub proof fn law_search_fails_when<T>(m: Memory<T>, at: Polling<T>)
    requires
        at.admissible(m),
        !(at is Done),
    ensures
        (poll_step(m, at).1 == Polling::<T>::Done(Err(TryRecvError::Empty))) == (at is Load
            && m.counter != isize::MIN),
        (poll_step(m, at).1 == Polling::<T>::Done(Err(TryRecvError::Disconnected))) == (at is Last
            && m.front().items.len() == 0),
        (poll_step(m, at).1 is Refetch) == (at is Load && m.counter == isize::MIN),
{
    reveal(poll_step);
}

/// A search ends with a message when it has found one, once it has told the counter of its
/// steals if there were too many of them.
pub proof fn law_search_succeeds_when<T>(m: Memory<T>, at: Polling<T>, t: T)
    requires
        at.admissible(m),
        !(at is Done),
    ensures
        (poll_step(m, at).1 == Polling::<T>::Done(Ok(t))) == {
            ||| (at is Pop || at is Recheck) && m.front().items.len() > 0 && m.front().items[0] == t
                && m.steals <= 1024 * 1024
            ||| at is Last && m.front().items.len() > 0 && m.front().items[0] == t
            ||| at == Polling::Restore(t)
            ||| at is Rebump && at->Rebump_0 == t && m.counter != isize::MIN
        },
        (poll_step(m, at).1 == Polling::Settle(t)) == {
            &&& at is Pop || at is Recheck
            &&& m.front().items.len() > 0 && m.front().items[0] == t
            &&& m.steals > 1024 * 1024
        },
        (poll_step(m, at).1 == Polling::Restore(t)) == {
            &&& at == Polling::Settle(t) || (at is Rebump && at->Rebump_0 == t)
            &&& m.counter == isize::MIN
        },
{
    reveal(poll_step);
    let next = poll_step(m, at).1;
    if next == Polling::<T>::Done(Ok(t)) {
        assert(next->Done_0->Ok_0 == t);
    }
}

/// What a search does not find in its queue it looks for in the queues that follow: it goes
/// over to the next queue only when the current one is empty, and asks for one only then.
pub proof fn law_search_goes_on_when<T>(m: Memory<T>, at: Polling<T>)
    requires
        at.admissible(m),
        !(at is Done),
    ensures
        Polling::<T>::start() is Pop,
        (poll_step(m, at).1 is Advance) == {
            ||| at is Pop && m.front().items.len() == 0 && m.held
            ||| at is Recheck && m.front().items.len() == 0
        },
        (poll_step(m, at).1 is Fetch) == (at is Pop && m.front().items.len() == 0 && !m.held),
        (poll_step(m, at).1 is Recheck) == {
            &&& at is Fetch || at is Refetch
            &&& !m.held && m.segments.len() >= 2
        },
        (poll_step(m, at).1 is Pop) == (at is Advance),
        (poll_step(m, at).1 is Load) == (at is Fetch && (m.held || m.segments.len() < 2)
            && m.sender_open),
        (poll_step(m, at).1 is Last) == {
            ||| at is Fetch && (m.held || m.segments.len() < 2) && !m.sender_open
            ||| at is Refetch && (m.held || m.segments.len() < 2)
        },
{
    reveal(poll_step);
}

/// The receiver is told to wait exactly if the counter was in use and no message was pending
/// that is not a steal. Where it is not told so, the token is taken out of the memory.
pub proof fn law_told_to_wait_when<T>(m: Memory<T>, at: Arming)
    requires
        at.admissible(m),
        !(at is Armed),
        !(at is Refused),
    ensures
        (arm_step(m, at).1 is Armed) == (at is Subtract && m.counter != isize::MIN && m.counter
            <= m.steals),
        (arm_step(m, at).1 is Restore) == (at is Subtract && m.counter == isize::MIN),
        (arm_step(m, at).1 is Withdraw) == {
            ||| at is Subtract && m.counter != isize::MIN && m.counter > m.steals
            ||| at is Restore
        },
        (arm_step(m, at).1 is Refused) == (at is Withdraw),
        at is Withdraw ==> arm_step(m, at).0.to_wake == 0,
        at is Post ==> arm_step(m, at).0.to_wake == at->Post_0,
        arm_step(m, at).0.segments == m.segments,
{
}

/// An announcement for a selection ends with success exactly if the receiver is told to wait,
/// and is cancelled exactly when what it took off the counter has been put back.
pub proof fn law_selection_ends_when<T>(m: Memory<T>, at: Selecting)
    requires
        at.admissible(m),
        !(at is Done),
        at is Arm ==> !(at->Arm_0 is Armed) && !(at->Arm_0 is Refused),
    ensures
        (select_step(m, at).1 == Selecting::Done(SelectionResult::SelSuccess)) == (at is Arm
            && at->Arm_0 is Subtract && m.counter != isize::MIN && m.counter <= m.steals),
        (select_step(m, at).1 == Selecting::Done(SelectionResult::SelCanceled)) == {
            ||| at is Undo && m.counter != isize::MIN
            ||| at is Restore
        },
        (select_step(m, at).1 is Undo) == (at is Arm && at->Arm_0 is Withdraw),
        (select_step(m, at).1 is Restore) == (at is Undo && m.counter == isize::MIN),
{
}

/// The receiver that takes an announcement back comes back with nothing exactly if the
/// counter showed that no message had come, and otherwise waits until the sender has taken
/// the token.
pub proof fn law_withdrawal_ends_when<T>(m: Memory<T>, at: Withdrawing)
    requires
        at.admissible(m),
        !(at is Done),
    ensures
        Withdrawing::start() is Bump,
        (withdraw_step(m, at).1 == Withdrawing::Done(false)) == (at is Take),
        (withdraw_step(m, at).1 == Withdrawing::Done(true)) == {
            &&& at is Drain || at is DrainGone
            &&& m.to_wake == 0
        },
        (withdraw_step(m, at).1 is Take) == (at is Bump && m.counter != isize::MIN && m.counter
            < 0),
        (withdraw_step(m, at).1 is Drain) == {
            ||| at is Bump && m.counter >= 0
            ||| at is Drain && m.to_wake != 0
        },
        (withdraw_step(m, at).1 is Restore) == (at is Bump && m.counter == isize::MIN),
        at is Take ==> withdraw_step(m, at).0.to_wake == 0,
        withdraw_step(m, at).0.segments == m.segments,
{
}

/// A wait until a deadline, by itself: it ends at once if the token has been signalled.
/// Otherwise it ends at once if the deadline has come, or sleeps until the deadline and no
/// longer.
pub proof fn law_wait_runs<T>(m: Memory<T>, deadline: u64)
    ensures
        ({
            let one = wait_step(m, Waiting::start(), deadline);
            let two = wait_step(one.0, one.1, deadline);
            let three = wait_step(two.0, two.1, deadline);
            let four = wait_step(three.0, three.1, deadline);
            let five = wait_step(four.0, four.1, deadline);
            &&& m.woken ==> one == (m, Waiting::Woken)
            &&& !m.woken && deadline <= m.clock ==> two == (m, Waiting::Expired)
            &&& !m.woken && m.clock < deadline ==> {
                &&& two == (m, Waiting::Sleep)
                &&& three.0 == (Memory { clock: deadline, ..m })
                &&& five == (Memory { clock: deadline, ..m }, Waiting::Expired)
            }
        }),
{
}

/// A receive that waits ends exactly when one of its searches ends, unless the first one
/// found the channel empty. It hands on the message that the search found.
pub proof fn law_receive_ends_when<T>(m: Memory<T>, at: Receiving<T>, token: usize, t: T)
    requires
        at.admissible(m),
        !(at is Done),
        at is First ==> !(at->First_0 is Done),
        at is Second ==> !(at->Second_0 is Done),
        at is Arm ==> !(at->Arm_0 is Armed) && !(at->Arm_0 is Refused),
    ensures
        ({
            let next = receive_step(m, at, token).1;
            let found = Polling::<T>::Done(Ok(t));
            let gone = Polling::<T>::Done(Err(TryRecvError::Disconnected));
            let empty = Polling::<T>::Done(Err(TryRecvError::Empty));
            &&& (next == Receiving::<T>::Done(Ok(t))) == {
                ||| at is First && poll_step(m, at->First_0).1 == found
                ||| at is Second && poll_step(m, at->Second_0).1 == found
            }
            &&& (next == Receiving::<T>::Done(Err(RecvError))) == {
                ||| at is First && poll_step(m, at->First_0).1 == gone
                ||| at is Second && poll_step(m, at->Second_0).1 == gone
            }
            &&& (next is Token) == (at is First && poll_step(m, at->First_0).1 == empty)
            &&& (next is Wait) == {
                ||| at is Arm && arm_step(m, at->Arm_0).1 is Armed
                ||| at is Wait && !m.woken
            }
            &&& at is Wait && m.woken ==> next == Receiving::<T>::Second(Polling::start())
            &&& at is Arm && arm_step(m, at->Arm_0).1 is Refused ==> next == Receiving::<T>::Second(
                Polling::start(),
            )
        }),
{
    let next = receive_step(m, at, token).1;
    if next == Receiving::<T>::Done(Ok(t)) {
        assert(next->Done_0->Ok_0 == t);
    }
    if at is Second && next is Done && next->Done_0 is Err {
        let error = poll_step(m, at->Second_0).1->Done_0->Err_0;
        assert(error is Empty || error is Disconnected);
    }
}

/// A receive that waits until a deadline reports a timeout exactly if a search after the wait
/// found the channel empty, and the disconnection exactly if one of its searches did. It
/// hands on the message that a search found.
pub proof fn law_await_ends_when<T>(
    m: Memory<T>,
    at: Awaiting<T>,
    deadline: u64,
    token: usize,
    t: T,
)
    requires
        at.admissible(m),
        !(at is Done),
        at is First ==> !(at->First_0 is Done),
        at is Second ==> !(at->Second_0 is Done),
        at is Late ==> !(at->Late_0 is Done),
    ensures
        ({
            let next = await_step(m, at, deadline, token).1;
            let found = Polling::<T>::Done(Ok(t));
            let gone = Polling::<T>::Done(Err(TryRecvError::Disconnected));
            let empty = Polling::<T>::Done(Err(TryRecvError::Empty));
            &&& (next == Awaiting::<T>::Done(Ok(t))) == {
                ||| at is First && poll_step(m, at->First_0).1 == found
                ||| at is Second && poll_step(m, at->Second_0).1 == found
                ||| at is Late && poll_step(m, at->Late_0).1 == found
            }
            &&& (next == Awaiting::<T>::Done(Err(RecvTimeoutError::Disconnected))) == {
                ||| at is First && poll_step(m, at->First_0).1 == gone
                ||| at is Second && poll_step(m, at->Second_0).1 == gone
                ||| at is Late && poll_step(m, at->Late_0).1 == gone
            }
            &&& (next == Awaiting::<T>::Done(Err(RecvTimeoutError::Timeout))) == {
                ||| at is Second && poll_step(m, at->Second_0).1 == empty
                ||| at is Late && poll_step(m, at->Late_0).1 == empty
            }
            &&& (next is Token) == (at is First && poll_step(m, at->First_0).1 == empty)
        }),
{
    let next = await_step(m, at, deadline, token).1;
    if next == Awaiting::<T>::Done(Ok(t)) {
        assert(next->Done_0->Ok_0 == t);
    }
}

/// A receive that waits until a deadline looks for the message as soon as it is told not to
/// wait or finds the token signalled, and calls its wait off exactly when it reads a clock
/// that has come to the deadline.
pub proof fn law_await_goes_on_when<T>(m: Memory<T>, at: Awaiting<T>, deadline: u64, token: usize)
    requires
        at.admissible(m),
        at is Arm ==> !(at->Arm_0 is Armed) && !(at->Arm_0 is Refused),
        at is Wait ==> !(at->Wait_1 is Woken) && !(at->Wait_1 is Expired),
        at is Cancel ==> !(at->Cancel_0 is Done),
    ensures
        ({
            let next = await_step(m, at, deadline, token).1;
            &&& at is Arm && arm_step(m, at->Arm_0).1 is Refused ==> next == Awaiting::<T>::Second(
                Polling::start(),
            )
            &&& at is Arm && arm_step(m, at->Arm_0).1 is Armed ==> next is Wait && next->Wait_1
                == Waiting::start()
            &&& at is Wait && at->Wait_1 is Look && m.woken ==> next == Awaiting::<T>::Second(
                Polling::start(),
            )
            &&& at is Wait ==> (next is Cancel) == (at->Wait_1 is Clock && deadline <= m.clock)
            &&& at is Cancel && withdraw_step(m, at->Cancel_0).1 is Done ==> next == Awaiting::<
                T,
            >::Late(Polling::start())
            &&& at is Cancel && !(withdraw_step(m, at->Cancel_0).1 is Done) ==> next is Cancel
        }),
{
}

/// A receive with a time limit that has looked once returns what it found, unless it found
/// the channel empty.
pub proof fn law_time_limit_counts_when<T>(result: Result<T, TryRecvError>)
    ensures
        (Timed::decided(result) is Wait) == (result == Err::<T, TryRecvError>(TryRecvError::Empty)),
        forall|t: T|
            (#[trigger] Timed::decided(Ok::<T, TryRecvError>(t))) == Timed::Return(
                Ok::<T, RecvTimeoutError>(t),
            ),
        Timed::decided(Err::<T, TryRecvError>(TryRecvError::Disconnected)) == Timed::Return(
            Err::<T, RecvTimeoutError>(RecvTimeoutError::Disconnected),
        ),
{
}

/// A receive that came back is made again exactly if it timed out before the deadline;
/// otherwise its result stands.
pub proof fn law_renewed_when<T>(result: Result<T, RecvTimeoutError>, deadline: u64, now: u64)
    ensures
        (Renewal::decided(result, deadline, now) is Again) == (result == Err::<T, RecvTimeoutError>(
            RecvTimeoutError::Timeout,
        ) && now < deadline),
        Renewal::decided(result, deadline, now) is Return ==> Renewal::decided(
            result,
            deadline,
            now,
        )->Return_0 == result,
{
}

/// A receiver that leaves closes its end of the hand-over line last, once the counter is
/// disconnected. It drains the queues only while the counter shows messages that are not
/// steals.
pub proof fn law_leave_when<T>(m: Memory<T>, at: Leaving)
    requires
        !(at is Done),
    ensures
        Leaving::start() is Disconnect,
        at is Disconnect ==> !leave_step(m, at).0.connected,
        (leave_step(m, at).1 is Mark) == {
            ||| at is Disconnect
            ||| at is Fetch && (m.held || m.segments.len() < 2)
        },
        (leave_step(m, at).1 is Release) == (at is Mark && (m.counter == isize::MIN || m.counter
            == m.steals)),
        at is Mark && leave_step(m, at).1 is Release ==> leave_step(m, at).0.counter == isize::MIN,
        (leave_step(m, at).1 is Drain) == {
            ||| at is Mark && m.counter != isize::MIN && m.counter != m.steals
            ||| (at is Drain || at is Recheck) && m.front().items.len() > 0
            ||| at is Advance
        },
        (leave_step(m, at).1 is Fetch) == (at is Drain && m.front().items.len() == 0 && !m.held),
        (leave_step(m, at).1 is Recheck) == (at is Fetch && !m.held && m.segments.len() >= 2),
        (leave_step(m, at).1 is Advance) == {
            ||| at is Drain && m.front().items.len() == 0 && m.held
            ||| at is Recheck && m.front().items.len() == 0
        },
        (leave_step(m, at).1 is Done) == (at is Release),
        at is Release ==> !leave_step(m, at).0.receiver_open,
{
}

} // verus!
