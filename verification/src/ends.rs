//! What the two ends and the clock show of each other however the ends are interleaved.
use crate::arming::Withdrawing;
use crate::blocking::Waiting;
use crate::coherence::{inv, TxState};
use crate::errors::{RecvTimeoutError, SendError, TryRecvError};
use crate::laws::{after, lemma_coherent, possible};
use crate::polling::{lemma_poll_frame, poll_step, Polling};
use crate::receiving::{Awaiting, Leaving, Receiving};
use crate::sending::Sending;
use crate::system::{search, Move, RxState};
use vstd::prelude::*;

verus! {

/// One more move.
proof fn lemma_after_push<T>(moves: Seq<Move<T>>, mv: Move<T>)
    ensures
        after(moves.push(mv)) == after(moves).moved(mv),
{
    assert(moves.push(mv).drop_last() =~= moves);
}

/// Nothing but a receive that waits until a deadline moves the clock, apart from the time
/// that passes by itself, and such a receive sleeps until its deadline and no longer.
pub proof fn law_sleeps_no_longer<T>(moves: Seq<Move<T>>, mv: Move<T>)
    requires
        possible(moves),
        after(moves).enabled(mv),
    ensures
        ({
            let s = after(moves);
            let s2 = after(moves.push(mv));
            &&& !(mv is Tick) && !(mv is Rx) ==> s2.m.clock == s.m.clock
            &&& mv is Rx && !(s.rx is Awaiting) ==> s2.m.clock == s.m.clock
            &&& mv is Rx && s.rx is Awaiting && s2.m.clock != s.m.clock ==> {
                &&& s.m.clock < s.rx->Awaiting_1
                &&& s2.m.clock == s.rx->Awaiting_1
            }
            &&& s.m.clock <= s2.m.clock
        }),
{
    lemma_after_push(moves, mv);
    let s = after(moves);
    if let Some(at) = search(s.rx) {
        lemma_poll_frame(s.m, at);
    }
}

/// A receive comes to the report that no message is there, or that none came in time, only
/// while the sender has not disconnected: a receiver whose sender is gone is told so.
pub proof fn law_empty_while_sender_is_there<T>(moves: Seq<Move<T>>, token: usize)
    requires
        possible(moves),
        after(moves).enabled(Move::Rx(token)),
        !after(moves).rx.done(),
        ({
            let rx = after(moves.push(Move::Rx(token))).rx;
            ||| rx == RxState::<T>::Polling(Polling::Done(Err(TryRecvError::Empty)))
            ||| rx matches RxState::Awaiting(Awaiting::Done(Err(RecvTimeoutError::Timeout)), _)
        }),
    ensures
        !after(moves).tx.quit(),
        !(after(moves).tx is Gone),
        after(moves).m.sender_open,
{
    lemma_coherent(moves);
    lemma_after_push(moves, Move::Rx(token));
    reveal(inv);
    reveal(poll_step);
}

/// A receive reports that the sender is gone only after the sender has begun to leave and has
/// marked the channel, and once no message is pending.
pub proof fn law_disconnected_after_sender_left<T>(moves: Seq<Move<T>>)
    requires
        possible(moves),
        ({
            let rx = after(moves).rx;
            ||| rx == RxState::<T>::Polling(Polling::Done(Err(TryRecvError::Disconnected)))
            ||| rx matches RxState::Receiving(Receiving::Done(Err(_)))
            ||| rx matches RxState::Awaiting(Awaiting::Done(Err(RecvTimeoutError::Disconnected)), _)
        }),
    ensures
        after(moves).tx is Leaving || after(moves).tx is Gone,
        !after(moves).m.connected,
        after(moves).m.items() == Seq::<T>::empty(),
{
    lemma_coherent(moves);
    reveal(inv);
}

/// A receive that returns a message returns the oldest one that was sent and that no receive
/// has returned before it. One that returns none changes nothing of what has been received.
pub proof fn law_returns_oldest<T>(moves: Seq<Move<T>>, token: usize, t: T)
    requires
        possible(moves),
        after(moves).enabled(Move::Rx(token)),
    ensures
        ({
            let s = after(moves);
            let s2 = after(moves.push(Move::Rx(token)));
            let n = s.received.len() as int;
            let hands_out = {
                ||| s.rx == RxState::<T>::Polling(Polling::Done(Ok(t)))
                ||| s.rx == RxState::<T>::Receiving(Receiving::Done(Ok(t)))
                ||| s.rx is Awaiting && s.rx->Awaiting_0 == Awaiting::<T>::Done(Ok(t))
            };
            &&& hands_out ==> {
                &&& s2.rx is Idle
                &&& n < s.sent.len() && s.sent[n] == t
                &&& s2.received == s.received.push(t)
            }
            &&& s2.received != s.received ==> s2.rx is Idle && s2.received == s.sent.take(n + 1)
        }),
{
    lemma_coherent(moves);
    lemma_after_push(moves, Move::Rx(token));
    let s = after(moves);
    let s2 = after(moves.push(Move::Rx(token)));
    if s.rx.done() && !s.rx.leaves() && s.rx.hand().len() > 0 {
        let u = s.rx.hand()[0];
        assert(s.rx.hand() =~= seq![u]);
        assert(s.taken[s.received.len() as int] == u);
        assert(s2.received =~= s.received.push(u));
        assert(s2.received =~= s.sent.take(s.received.len() as int + 1));
    } else {
        assert(s2.received =~= s.received);
    }
}

/// A send fails only after the receiver has begun to leave.
pub proof fn law_send_fails_after_receiver_left<T>(moves: Seq<Move<T>>, t: T)
    requires
        possible(moves),
        after(moves).tx is Sending,
        after(moves).tx->Sending_0 == Sending::Done(Err(SendError(t))),
    ensures
        after(moves).rx is Leaving || after(moves).rx is Gone,
        !after(moves).m.connected,
        after(moves).tx->Sending_1 == t,
{
    lemma_coherent(moves);
    reveal(inv);
}

/// A receiver that sleeps without a deadline goes on sleeping until it has been signalled,
/// and looks for its message at once when it has been.
pub proof fn law_signal_ends_sleep<T>(moves: Seq<Move<T>>, p: usize, token: usize)
    requires
        possible(moves),
        after(moves).rx == RxState::<T>::Receiving(Receiving::Wait(p)),
    ensures
        after(moves).m.woken ==> after(moves.push(Move::Rx(token))).rx == RxState::<T>::Receiving(
            Receiving::Second(Polling::Pop),
        ),
        !after(moves).m.woken ==> after(moves.push(Move::Rx(token))) == after(moves),
{
    lemma_after_push(moves, Move::Rx(token));
    assert(after(moves).taken + Seq::<T>::empty() =~= after(moves).taken);
}

/// A receiver that waits until a deadline looks for its message when it finds that it has
/// been signalled, whatever the time. It goes to sleep only while the deadline has not come,
/// and calls the wait off only when it has.
pub proof fn law_signal_ends_wait<T>(
    moves: Seq<Move<T>>,
    p: usize,
    at: Waiting,
    deadline: u64,
    token: usize,
)
    requires
        possible(moves),
        after(moves).rx == RxState::<T>::Awaiting(Awaiting::Wait(p, at), deadline),
    ensures
        ({
            let s = after(moves);
            let s2 = after(moves.push(Move::Rx(token)));
            &&& at is Look && s.m.woken ==> s2.rx == RxState::<T>::Awaiting(
                Awaiting::Second(Polling::Pop),
                deadline,
            )
            &&& at is Clock && s.m.clock < deadline ==> s2.rx == RxState::<T>::Awaiting(
                Awaiting::Wait(p, Waiting::Sleep),
                deadline,
            )
            &&& at is Clock && s.m.clock >= deadline ==> s2.rx == RxState::<T>::Awaiting(
                Awaiting::Cancel(Withdrawing::Bump),
                deadline,
            )
            &&& at is Sleep ==> s2.rx == RxState::<T>::Awaiting(
                Awaiting::Wait(p, Waiting::Look),
                deadline,
            )
        }),
{
    lemma_after_push(moves, Move::Rx(token));
}

/// A receiver that has closed its end of the hand-over line keeps it closed.
proof fn lemma_receiver_closes<T>(moves: Seq<Move<T>>)
    requires
        possible(moves),
    ensures
        ({
            let s = after(moves);
            s.rx is Gone || s.rx == RxState::<T>::Leaving(Leaving::Done) ==> !s.m.receiver_open
        }),
    decreases moves.len(),
{
    if moves.len() > 0 {
        lemma_receiver_closes(moves.drop_last());
        let s = after(moves.drop_last());
        if let Some(at) = search(s.rx) {
            lemma_poll_frame(s.m, at);
        }
    }
}

/// An end that is gone has closed its end of the hand-over line, and one that does not leave
/// has it open. The channel counts as connected while neither end leaves.
pub proof fn law_doors<T>(moves: Seq<Move<T>>)
    requires
        possible(moves),
    ensures
        ({
            let s = after(moves);
            &&& s.tx is Idle || s.tx is Sending ==> s.m.sender_open
            &&& s.tx is Gone ==> !s.m.sender_open && !s.m.connected
            &&& !s.rx.leaves() ==> s.m.receiver_open
            &&& s.rx is Gone ==> !s.m.receiver_open && !s.m.connected
            &&& (s.tx is Idle || s.tx is Sending) && !s.rx.leaves() ==> s.m.connected
        }),
{
    lemma_coherent(moves);
    lemma_receiver_closes(moves);
    reveal(inv);
}

/// A send that begins once the receiver is gone fails with its first move, hands its message
/// back and leaves the channel as it is.
pub proof fn law_send_to_nobody<T>(moves: Seq<Move<T>>, t: T)
    requires
        possible(moves),
        after(moves).tx is Idle,
        after(moves).rx is Gone,
    ensures
        ({
            let s = after(moves);
            let s2 = after(moves.push(Move::Send(t)).push(Move::Tx));
            &&& s2.tx == TxState::Sending(Sending::Done(Err(SendError(t))), t)
            &&& s2.m == s.m
            &&& s2.sent == s.sent
        }),
{
    law_doors(moves);
    lemma_after_push(moves, Move::Send(t));
    lemma_after_push(moves.push(Move::Send(t)), Move::Tx);
}

/// A send that begins while the receiver is there puts its message into the queue at once if
/// there is room, behind all that were sent before it.
pub proof fn law_send_to_somebody<T>(moves: Seq<Move<T>>, t: T)
    requires
        possible(moves),
        after(moves).tx is Idle,
        !after(moves).rx.leaves(),
        after(moves).m.back().items.len() < after(moves).m.back().capacity,
    ensures
        ({
            let s = after(moves);
            let s2 = after(moves.push(Move::Send(t)).push(Move::Tx).push(Move::Tx));
            &&& s2.tx == TxState::Sending(Sending::<T>::Count, t)
            &&& s2.sent == s.sent.push(t)
        }),
{
    law_doors(moves);
    let one = moves.push(Move::Send(t));
    lemma_after_push(moves, Move::Send(t));
    lemma_after_push(one, Move::Tx);
    lemma_after_push(one.push(Move::Tx), Move::Tx);
}

} // verus!
