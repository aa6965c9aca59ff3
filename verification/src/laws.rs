//! What holds of a channel however its two ends are interleaved.
use crate::arming::{withdraw_step, Arming, Selecting, SelectionResult, Withdrawing};
use crate::coherence::{
    inv, lemma_messages_extend, lemma_messages_push, lemma_some_queue, lemma_withdraw_step,
    TxState,
};
use crate::errors::{RecvTimeoutError, TryRecvError};
use crate::limits::INITIAL_CAPACITY;
use crate::link::Memory;
use crate::polling::{poll_step, Polling};
use crate::receiving::{Awaiting, Receiving};
use crate::sending::Sending;
use crate::system::{
    lemma_fresh, lemma_moved, lemma_rx_moved, lemma_tx_moved, search, Move, RxState, System,
};
use crate::turns::doubling;
use vstd::prelude::*;

verus! {

/// A fresh channel after a row of moves.
pub open spec fn after<T>(moves: Seq<Move<T>>) -> System<T>
    decreases moves.len(),
{
    if moves.len() == 0 {
        System::fresh()
    } else {
        after(moves.drop_last()).moved(moves.last())
    }
}

/// Each move of the row can be made when its turn comes.
pub open spec fn possible<T>(moves: Seq<Move<T>>) -> bool
    decreases moves.len(),
{
    moves.len() > 0 ==> possible(moves.drop_last()) && after(moves.drop_last()).enabled(
        moves.last(),
    )
}

/// A channel in use is coherent.
pub proof fn lemma_coherent<T>(moves: Seq<Move<T>>)
    requires
        possible(moves),
    ensures
        after(moves).coherent(),
    decreases moves.len(),
{
    if moves.len() == 0 {
        lemma_fresh::<T>();
    } else {
        lemma_coherent(moves.drop_last());
        lemma_moved(after(moves.drop_last()), moves.last());
    }
}

/// Messages arrive once each and in the order in which they were sent: those that receives
/// have returned, the one that a receive is about to return, those that a leaving receiver
/// has dropped and those that are pending make up those that were sent. Sends that returned
/// success sent them, apart from the one that is under way.
pub proof fn law_order<T>(moves: Seq<Move<T>>)
    requires
        possible(moves),
    ensures
        ({
            let s = after(moves);
            &&& s.sent == s.taken + s.m.items()
            &&& s.accepted.is_prefix_of(s.sent) && s.sent.len() <= s.accepted.len() + 1
            &&& !(s.tx is Sending) ==> s.sent == s.accepted
            &&& s.received.is_prefix_of(s.taken)
            &&& !s.rx.leaves() ==> s.taken == s.received + s.rx.hand()
            &&& s.tx is Idle && s.rx is Idle ==> s.accepted == s.received + s.m.items()
        }),
{
    lemma_coherent(moves);
    let s = after(moves);
    if s.rx is Idle {
        assert(s.taken =~= s.received);
    }
}

/// No wake-up is lost: a receiver that waits and has not been signalled waits for a reason.
/// If the sender is between calls, no message is pending and the sender will find the token;
/// if the sender is gone, the receiver has been signalled.
pub proof fn law_no_lost_wakeup<T>(moves: Seq<Move<T>>, p: usize)
    requires
        possible(moves),
        ({
            let rx = after(moves).rx;
            ||| rx == RxState::<T>::Receiving(Receiving::Wait(p))
            ||| rx matches RxState::Awaiting(Awaiting::Wait(q, _), _) && q == p
            ||| rx == RxState::<T>::Selected(p)
        }),
    ensures
        ({
            let s = after(moves);
            &&& s.tx is Idle && !s.m.woken ==> {
                &&& s.m.items().len() == 0
                &&& s.m.counter == -1
                &&& s.m.to_wake == p
            }
            &&& s.tx is Gone ==> s.m.woken
        }),
{
    lemma_coherent(moves);
    reveal(inv);
}

/// A receiver that was told not to wait, or has been woken, has a message to find until it
/// has found one, unless the sender is gone.
pub proof fn law_woken_finds_message<T>(moves: Seq<Move<T>>)
    requires
        possible(moves),
        ({
            let rx = after(moves).rx;
            ||| rx is Receiving && rx->Receiving_0 is Second
            ||| rx is Awaiting && rx->Awaiting_0 is Second
        }),
    ensures
        ({
            let s = after(moves);
            s.m.items().len() > 0 || s.rx.hand().len() > 0 || s.tx.quit()
        }),
{
    lemma_coherent(moves);
    reveal(inv);
}

/// Neither end is ever told something that it cannot go on with: no check that the ends
/// make of what they read can fail.
pub proof fn law_checks_hold<T>(moves: Seq<Move<T>>)
    requires
        possible(moves),
    ensures
        ({
            let s = after(moves);
            &&& s.enabled(Move::Tx) ==> (s.tx matches TxState::Sending(at, _)
                ==> at.admissible(s.m))
            &&& s.tx matches TxState::Leaving(at) ==> at.admissible(s.m)
            &&& s.rx.admissible(s.m)
        }),
{
    lemma_coherent(moves);
    let s = after(moves);
    if s.enabled(Move::Tx) {
        lemma_tx_moved(s);
    }
    if s.enabled(Move::Rx(0)) {
        lemma_rx_moved(s, 0);
    }
}

/// A receive reports that the sender is gone only when it is gone and has left no message,
/// so that messages keep coming from a channel that is disconnected until none is left.
pub proof fn law_disconnected_is_final<T>(moves: Seq<Move<T>>)
    requires
        possible(moves),
        ({
            let rx = after(moves).rx;
            ||| rx == RxState::<T>::Polling(Polling::Done(Err(TryRecvError::Disconnected)))
            ||| rx matches RxState::Receiving(Receiving::Done(Err(_)))
            ||| rx matches RxState::Awaiting(Awaiting::Done(Err(RecvTimeoutError::Disconnected)), _)
        }),
    ensures
        after(moves).tx.quit(),
        after(moves).m.items().len() == 0,
{
    lemma_coherent(moves);
}

/// A receive reports that no message is there only if at some time since it began there was
/// none, and reports a timeout only once the deadline has come.
pub proof fn law_empty_and_timeout<T>(moves: Seq<Move<T>>, deadline: u64)
    requires
        possible(moves),
    ensures
        ({
            let s = after(moves);
            &&& s.rx == RxState::<T>::Polling(Polling::Done(Err(TryRecvError::Empty))) ==> s.blank
            &&& s.rx == RxState::<T>::Awaiting(
                Awaiting::Done(Err(RecvTimeoutError::Timeout)),
                deadline,
            ) ==> s.blank && deadline <= s.m.clock
        }),
{
    lemma_coherent(moves);
}

/// A send that fails hands back the message that it was given. The receiver has left or is
/// leaving, and the message is not in the channel.
pub proof fn law_failed_send<T>(moves: Seq<Move<T>>)
    requires
        possible(moves),
    ensures
        ({
            let s = after(moves);
            s.tx matches TxState::Sending(Sending::Done(Err(e)), msg) ==> {
                &&& e.0 == msg
                &&& s.rx.leaves()
                &&& s.sent == s.accepted
            }
        }),
{
    lemma_coherent(moves);
    reveal(inv);
}

/// Once the receiver is gone, the channel holds at most the message of a send that is under
/// way.
pub proof fn law_nothing_left_behind<T>(moves: Seq<Move<T>>)
    requires
        possible(moves),
        after(moves).rx is Gone,
    ensures
        ({
            let s = after(moves);
            &&& s.tx is Idle ==> s.m.items().len() == 0
            &&& s.tx is Sending ==> s.m.items().len() <= 1
        }),
{
    lemma_coherent(moves);
    reveal(inv);
}

/// A receiver that is told on behalf of a selection that it need not wait has a message to
/// find, or the sender is gone.
pub proof fn law_selection_tells_truth<T>(moves: Seq<Move<T>>)
    requires
        possible(moves),
        ({
            let rx = after(moves).rx;
            ||| rx matches RxState::Selecting(Selecting::Done(SelectionResult::SelCanceled), _)
            ||| rx matches RxState::Withdrawing(Withdrawing::Done(true), _)
        }),
    ensures
        after(moves).m.items().len() > 0 || after(moves).tx.quit(),
{
    lemma_coherent(moves);
}

/// A receiver that was signalled during a selection is told that it need not wait when it
/// takes its announcement back, so that a selection that has been woken finds a receiver that
/// has something to offer.
pub proof fn law_signalled_selection_is_ready<T>(moves: Seq<Move<T>>)
    requires
        possible(moves),
        after(moves).rx is Withdrawing,
        after(moves).rx->Withdrawing_0 is Bump,
        after(moves).m.woken,
    ensures
        ({
            let next = withdraw_step(after(moves).m, Withdrawing::Bump).1;
            &&& next is Restore || next is Drain
            &&& forall|m: Memory<T>| #[trigger] withdraw_step(m, Withdrawing::Restore).1 is DrainGone
            &&& forall|m: Memory<T>|
                #[trigger] withdraw_step(m, Withdrawing::Drain).1 is Drain || withdraw_step(
                    m,
                    Withdrawing::Drain,
                ).1 == Withdrawing::Done(true)
            &&& forall|m: Memory<T>|
                #[trigger] withdraw_step(m, Withdrawing::DrainGone).1 is DrainGone
                    || withdraw_step(m, Withdrawing::DrainGone).1 == Withdrawing::Done(true)
        }),
{
    lemma_coherent(moves);
    let s = after(moves);
    lemma_withdraw_step(s.m, s.tx, Withdrawing::Bump, s.rx->Withdrawing_1);
}

/// A signal stays until the receiver makes another token: whatever happens to a receiver that
/// takes part in a selection and was signalled, it is still signalled when it takes its
/// announcement back. A selection that sleeps on one token for several receivers is woken by
/// the signal of one of them, and so has that one to find.
pub proof fn law_signal_stays<T>(moves: Seq<Move<T>>, mv: Move<T>)
    requires
        possible(moves),
        after(moves).enabled(mv),
        after(moves).rx is Selected,
        after(moves).m.woken,
    ensures
        ({
            let s = after(moves.push(mv));
            &&& s.m.woken
            &&& s.rx is Selected || (s.rx is Withdrawing && s.rx->Withdrawing_0 is Bump)
        }),
{
    assert(moves.push(mv).drop_last() =~= moves);
}

/// No move of the sender takes away what the receiver has to offer.
pub proof fn lemma_event_stays<T>(s: System<T>, mv: Move<T>)
    requires
        s.coherent(),
        s.enabled(mv),
        mv is Send || mv is HangUp || mv is Tx || mv is Tick,
        !s.rx.leaves(),
        s.eventful(),
    ensures
        s.moved(mv).eventful(),
{
    reveal(inv);
    if let TxState::Sending(at, msg) = s.tx {
        match at {
            Sending::Push(t) => {
                lemma_messages_push(s.m.segments, t);
            },
            Sending::Repush(t) => {
                lemma_messages_push(s.m.segments, t);
            },
            Sending::Grow(_) => {
                lemma_messages_extend(s.m.segments, 2 * s.m.back().capacity);
            },
            _ => {},
        }
    }
}

/// What a receiver has to offer stays until the receiver takes it: no move of the sender
/// takes it away.
pub proof fn law_event_stays<T>(moves: Seq<Move<T>>, mv: Move<T>)
    requires
        possible(moves),
        after(moves).enabled(mv),
        mv is Send || mv is HangUp || mv is Tx || mv is Tick,
        !after(moves).rx.leaves(),
        after(moves).eventful(),
    ensures
        after(moves.push(mv)).eventful(),
{
    lemma_coherent(moves);
    assert(moves.push(mv).drop_last() =~= moves);
    lemma_event_stays(after(moves), mv);
}

/// A receiver that takes its announcement back is told that there is nothing to come back
/// for only if no send had been completed and the sender had not gone.
pub proof fn law_withdrawal_misses_nothing<T>(moves: Seq<Move<T>>)
    requires
        possible(moves),
        after(moves).rx is Withdrawing,
        after(moves).rx->Withdrawing_0 is Bump,
        withdraw_step(after(moves).m, Withdrawing::Bump).1 is Take,
    ensures
        ({
            let s = after(moves);
            &&& s.m.items().len() <= s.tx.inflight()
            &&& s.tx is Idle ==> s.m.items().len() == 0
            &&& !s.tx.quit()
        }),
{
    lemma_coherent(moves);
    let s = after(moves);
    lemma_withdraw_step(s.m, s.tx, Withdrawing::Bump, s.rx->Withdrawing_1);
    reveal(inv);
}

/// The announcement that a receiver is busy with, if any.
pub open spec fn announcement<T>(rx: RxState<T>) -> Option<Arming> {
    match rx {
        RxState::Receiving(Receiving::Arm(at)) => Some(at),
        RxState::Awaiting(Awaiting::Arm(at), _) => Some(at),
        RxState::Selecting(Selecting::Arm(at), _) => Some(at),
        _ => None,
    }
}

/// The receiver takes the token out of the memory with its next access.
pub open spec fn takes_token<T>(rx: RxState<T>) -> bool {
    ||| announcement(rx) matches Some(at) && at is Withdraw
    ||| rx matches RxState::Awaiting(Awaiting::Cancel(Withdrawing::Take), _)
    ||| rx matches RxState::Withdrawing(Withdrawing::Take, _)
}

/// Each token that is put into the memory is taken out once, by one of the ends: it is put
/// where none is, an end that is about to take it finds the token that the receiver made
/// last, and the ends are never both about to take it. None is left there by a receiver that
/// is between calls or gone.
pub proof fn law_token_has_one_taker<T>(moves: Seq<Move<T>>)
    requires
        possible(moves),
    ensures
        ({
            let s = after(moves);
            &&& (announcement(s.rx) matches Some(at) && at is Post) ==> s.m.to_wake == 0
            &&& s.tx.taking() ==> s.m.to_wake == s.m.token && s.m.to_wake != 0
            &&& takes_token(s.rx) ==> {
                &&& s.m.to_wake == s.m.token && s.m.to_wake != 0
                &&& !s.tx.taking()
            }
            &&& announcement(s.rx) matches Some(Arming::Withdraw(p)) ==> p == s.m.to_wake
            &&& s.rx is Idle || s.rx is Gone ==> s.m.to_wake == 0 && !s.tx.taking()
        }),
{
    lemma_coherent(moves);
    reveal(inv);
}

/// The accesses that change the queues keep the capacities doubling.
proof fn lemma_doubling_accesses<T>(m: Memory<T>, t: T)
    requires
        m.segments.len() > 0,
        doubling(m.segments),
    ensures
        doubling(m.try_push(t).0.segments),
        doubling(m.take_back().0.segments),
        doubling(m.extend(2 * m.back().capacity).0.segments),
        doubling(m.try_pop().0.segments),
        doubling(m.advance().segments),
{
}

/// A search keeps the capacities doubling.
proof fn lemma_doubling_polled<T>(m: Memory<T>, at: Polling<T>)
    requires
        m.segments.len() > 0,
        doubling(m.segments),
    ensures
        doubling(poll_step(m, at).0.segments),
{
    reveal(poll_step);
    lemma_doubling_accesses(m, arbitrary());
}

/// A move keeps the capacities doubling.
proof fn lemma_doubling_moved<T>(s: System<T>, mv: Move<T>)
    requires
        s.m.segments.len() > 0,
        doubling(s.m.segments),
    ensures
        doubling(s.moved(mv).m.segments),
{
    match mv {
        Move::Tx => {
            if let TxState::Sending(at, msg) = s.tx {
                match at {
                    Sending::Push(t) => {
                        lemma_doubling_accesses(s.m, t);
                    },
                    Sending::Repush(t) => {
                        lemma_doubling_accesses(s.m, t);
                    },
                    _ => {
                        lemma_doubling_accesses(s.m, msg);
                    },
                }
            }
        },
        Move::Rx(token) => {
            match search(s.rx) {
                Some(at) => {
                    lemma_doubling_polled(s.m, at);
                },
                None => {
                    lemma_doubling_accesses(s.m, arbitrary());
                },
            }
        },
        _ => {},
    }
}

/// The first queue of a channel holds 128 messages, and each one that the sender adds holds
/// twice as many as the one before it.
pub proof fn law_queues_double<T>(moves: Seq<Move<T>>)
    requires
        possible(moves),
    ensures
        doubling(after(moves).m.segments),
        after(Seq::<Move<T>>::empty()).m.front().capacity == INITIAL_CAPACITY,
    decreases moves.len(),
{
    if moves.len() > 0 {
        law_queues_double(moves.drop_last());
        let s = after(moves.drop_last());
        lemma_coherent(moves.drop_last());
        lemma_some_queue(s.m, s.tx, s.rx_view());
        lemma_doubling_moved(s, moves.last());
    }
}

} // verus!
