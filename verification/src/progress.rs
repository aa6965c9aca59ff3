//! How many moves the calls of the two ends take.
use crate::arming::{withdraw_step, Arming, Selecting, Withdrawing};
use crate::blocking::Waiting;
use crate::coherence::{inv, leaving, lemma_advance, lemma_pop, polling, withdrawing, TxState};
use crate::laws::{after, lemma_coherent, possible};
use crate::link::Memory;
use crate::polling::{poll_step, Polling};
use crate::receiving::{leave_step, Awaiting, Leaving, Receiving};
use crate::sending::{Hangup, Sending};
use crate::system::{Move, RxState, System};
use vstd::prelude::*;

verus! {

/// How many moves a call of the sender has before it at most.
pub open spec fn sender_left<T>(tx: TxState<T>) -> nat {
    match tx {
        TxState::Sending(at, _) => match at {
            Sending::Check(_) => 11,
            Sending::Push(_) => 10,
            Sending::Grow(_) => 9,
            Sending::Repush(_) => 8,
            Sending::Count => 7,
            Sending::Take => 6,
            Sending::Wake(_) => 5,
            Sending::Mark => 4,
            Sending::Reclaim => 3,
            Sending::Verify(_) => 2,
            Sending::Done(_) => 1,
        },
        TxState::Leaving(at) => match at {
            Hangup::Disconnect => 6,
            Hangup::Swap => 5,
            Hangup::Take => 4,
            Hangup::Wake(_) => 3,
            Hangup::Release => 2,
            Hangup::Done => 1,
        },
        _ => 0,
    }
}

/// How many accesses a search has before it at most.
pub open spec fn poll_left<T>(m: Memory<T>, at: Polling<T>) -> nat {
    let rank: nat = match at {
        Polling::Pop => 9,
        Polling::Fetch => 8,
        Polling::Load => 7,
        Polling::Refetch => 6,
        Polling::Recheck => 5,
        Polling::Advance => 4,
        Polling::Last => 3,
        Polling::Settle(_) => 3,
        Polling::Rebump(_, _) => 2,
        Polling::Restore(_) => 1,
        Polling::Done(_) => 0,
    };
    if at is Done {
        0
    } else {
        10 * m.segments.len() + rank
    }
}

/// How many accesses a search takes at most, and one more.
pub open spec fn search_length<T>(m: Memory<T>) -> nat {
    10 * m.segments.len() + 10
}

/// How many accesses an announcement has before it at most.
pub open spec fn arm_left(at: Arming) -> nat {
    match at {
        Arming::Inspect(_) => 5,
        Arming::Post(_) => 4,
        Arming::Subtract(_) => 3,
        Arming::Restore(_) => 2,
        Arming::Withdraw(_) => 1,
        Arming::Armed(_) => 0,
        Arming::Refused(_) => 0,
    }
}

/// How many accesses an announcement for a selection has before it at most.
pub open spec fn select_left(at: Selecting) -> nat {
    match at {
        Selecting::Arm(at) => 3 + arm_left(at),
        Selecting::Undo => 2,
        Selecting::Restore => 1,
        Selecting::Done(_) => 0,
    }
}

/// How many accesses the way back from an announcement has before it at most, if the sender
/// is not about to take the token.
pub open spec fn withdraw_left(at: Withdrawing) -> nat {
    match at {
        Withdrawing::Bump => 3,
        Withdrawing::Restore => 2,
        Withdrawing::Take => 1,
        Withdrawing::Drain => 1,
        Withdrawing::DrainGone => 1,
        Withdrawing::Done(_) => 0,
    }
}

/// How many steps a wait until a deadline has before it at most.
pub open spec fn wait_left<T>(m: Memory<T>, at: Waiting, deadline: u64) -> nat {
    match at {
        Waiting::Look => if m.clock < deadline {
            4
        } else {
            1
        },
        Waiting::Clock => if m.clock < deadline {
            3
        } else {
            0
        },
        Waiting::Sleep => 2,
        Waiting::Woken => 0,
        Waiting::Expired => 0,
    }
}

/// How many accesses a leaving receiver has before it at most, if the sender makes none.
pub open spec fn leave_left<T>(m: Memory<T>, at: Leaving) -> nat {
    let rank: nat = match at {
        Leaving::Disconnect => 9,
        Leaving::Mark => if m.items().len() > 0 {
            8
        } else {
            2
        },
        Leaving::Drain => 6,
        Leaving::Fetch => if m.segments.len() == 1 && m.items().len() > 0 {
            9
        } else {
            5
        },
        Leaving::Recheck => 4,
        Leaving::Advance => 3,
        Leaving::Release => 1,
        Leaving::Done => 0,
    };
    if at is Done {
        0
    } else {
        10 * (m.segments.len() + m.items().len()) + rank
    }
}

/// How many moves a call of the receiver has before it at most, if the sender makes none.
pub open spec fn receiver_left<T>(s: System<T>) -> nat {
    let length = search_length(s.m);
    match s.rx {
        RxState::Polling(at) => poll_left(s.m, at) + 1,
        RxState::Receiving(at) => match at {
            Receiving::First(at) => poll_left(s.m, at) + length + 13,
            Receiving::Token => length + 12,
            Receiving::Arm(at) => length + 4 + arm_left(at),
            Receiving::Wait(_) => length + 3,
            Receiving::Second(at) => poll_left(s.m, at) + 2,
            Receiving::Done(_) => 1,
        },
        RxState::Awaiting(at, deadline) => match at {
            Awaiting::First(at) => poll_left(s.m, at) + length + 21,
            Awaiting::Token => length + 20,
            Awaiting::Arm(at) => length + 12 + arm_left(at),
            Awaiting::Wait(_, at) => length + 6 + wait_left(s.m, at, deadline),
            Awaiting::Cancel(at) => length + 2 + withdraw_left(at),
            Awaiting::Second(at) => poll_left(s.m, at) + 2,
            Awaiting::Late(at) => poll_left(s.m, at) + 2,
            Awaiting::Done(_) => 1,
        },
        RxState::Selecting(at, _) => select_left(at) + 1,
        RxState::Withdrawing(at, _) => withdraw_left(at) + 1,
        RxState::Leaving(at) => leave_left(s.m, at) + 1,
        _ => 0,
    }
}

/// The sender is between calls or gone.
pub open spec fn sender_rests<T>(s: System<T>) -> bool {
    s.tx is Idle || s.tx is Gone
}

/// The receiver is in a call.
pub open spec fn receiver_busy<T>(s: System<T>) -> bool {
    !(s.rx is Idle) && !(s.rx is Selected) && !(s.rx is Gone)
}

/// The receiver sleeps without a deadline and has not been signalled.
pub open spec fn sleeps<T>(s: System<T>) -> bool {
    (s.rx matches RxState::Receiving(Receiving::Wait(_))) && !s.m.woken
}

/// Each access brings a search closer to its end.
proof fn lemma_poll_left<T>(m: Memory<T>, tx: TxState<T>, at: Polling<T>, sure: bool, blank: bool)
    requires
        inv(m, tx, polling(at, sure, blank)),
        !(at is Done),
    ensures
        poll_left(poll_step(m, at).0, poll_step(m, at).1) < poll_left(m, at),
        poll_step(m, at).0.segments.len() <= m.segments.len(),
{
    reveal(inv);
    reveal(poll_step);
}

/// Each access brings the receiver closer to the end of its way back from an announcement.
proof fn lemma_withdraw_left<T>(m: Memory<T>, tx: TxState<T>, at: Withdrawing, p: usize)
    requires
        inv(m, tx, withdrawing(at, p)),
        !(at is Done),
        !tx.taking(),
    ensures
        withdraw_left(withdraw_step(m, at).1) < withdraw_left(at),
{
    reveal(inv);
}

/// Each access brings a receiver closer to its leave.
proof fn lemma_leave_left<T>(m: Memory<T>, tx: TxState<T>, at: Leaving)
    requires
        inv(m, tx, leaving(at)),
        !(at is Done),
        tx is Idle || tx is Gone,
    ensures
        leave_left(leave_step(m, at).0, leave_step(m, at).1) < leave_left(m, at),
{
    reveal(inv);
    lemma_pop(m, tx);
    if at is Advance {
        lemma_advance(m, tx);
    }
}

/// Each move brings a receive that waits closer to its end.
proof fn lemma_receive_left<T>(s: System<T>, at: Receiving<T>, token: usize)
    requires
        s.coherent(),
        s.rx == RxState::Receiving(at),
        !sleeps(s),
    ensures
        receiver_left(s.moved(Move::Rx(token))) < receiver_left(s),
{
    match at {
        Receiving::First(p) => {
            lemma_poll_left(s.m, s.tx, p, false, s.blank);
        },
        Receiving::Second(p) => {
            lemma_poll_left(s.m, s.tx, p, true, s.blank);
        },
        _ => {},
    }
}

/// Each move of a search brings a receive that waits until a deadline closer to its end.
proof fn lemma_await_searched_left<T>(s: System<T>, at: Awaiting<T>, deadline: u64, token: usize)
    requires
        s.coherent(),
        s.rx == RxState::Awaiting(at, deadline),
        at is First || at is Second || at is Late,
    ensures
        receiver_left(s.moved(Move::Rx(token))) < receiver_left(s),
{
    match at {
        Awaiting::First(p) => {
            lemma_poll_left(s.m, s.tx, p, false, s.blank);
        },
        Awaiting::Second(p) => {
            lemma_poll_left(s.m, s.tx, p, true, s.blank);
        },
        Awaiting::Late(p) => {
            lemma_poll_left(s.m, s.tx, p, false, s.blank);
        },
        _ => {},
    }
}

/// Each move brings a receive that waits until a deadline closer to its end.
proof fn lemma_await_left<T>(s: System<T>, at: Awaiting<T>, deadline: u64, token: usize)
    requires
        s.coherent(),
        s.rx == RxState::Awaiting(at, deadline),
        !s.tx.taking(),
    ensures
        receiver_left(s.moved(Move::Rx(token))) < receiver_left(s),
{
    match at {
        Awaiting::First(_) | Awaiting::Second(_) | Awaiting::Late(_) => {
            lemma_await_searched_left(s, at, deadline, token);
        },
        Awaiting::Cancel(p) => {
            lemma_withdraw_left(s.m, s.tx, p, s.m.token);
        },
        _ => {},
    }
}

/// Each move of its own brings a receiver closer to the end of its call.
proof fn lemma_receiver_left<T>(s: System<T>, token: usize)
    requires
        s.coherent(),
        s.enabled(Move::Rx(token)),
        sender_rests(s),
        !sleeps(s),
    ensures
        receiver_left(s.moved(Move::Rx(token))) < receiver_left(s),
{
    match s.rx {
        RxState::Polling(at) => {
            if !(at is Done) {
                lemma_poll_left(s.m, s.tx, at, false, s.blank);
            }
        },
        RxState::Receiving(at) => {
            lemma_receive_left(s, at, token);
        },
        RxState::Awaiting(at, deadline) => {
            lemma_await_left(s, at, deadline, token);
        },
        RxState::Withdrawing(at, p) => {
            if !(at is Done) {
                lemma_withdraw_left(s.m, s.tx, at, p);
            }
        },
        RxState::Leaving(at) => {
            if !(at is Done) {
                lemma_leave_left(s.m, s.tx, at);
            }
        },
        _ => {},
    }
}

/// A receiver's move leaves the sender where it is.
proof fn lemma_sender_untouched<T>(s: System<T>, token: usize)
    ensures
        s.moved(Move::Rx(token)).tx == s.tx,
{
}

/// A receiver in a call can make its next move, and has one to make.
pub proof fn law_receiver_is_never_stuck<T>(moves: Seq<Move<T>>)
    requires
        possible(moves),
        sender_rests(after(moves)),
        receiver_busy(after(moves)),
    ensures
        after(moves).enabled(Move::Rx(1)),
        receiver_left(after(moves)) > 0,
{
    lemma_coherent(moves);
}

/// A call of the receiver ends after finitely many moves of its own once the sender is
/// between calls or gone: it makes no more of them than `receiver_left` says, unless it
/// sleeps without a deadline and has not been signalled. A receive that waits until a
/// deadline, the way back from an announcement and a leave have no such exception.
pub proof fn law_receiver_finishes<T>(moves: Seq<Move<T>>, own: Seq<Move<T>>)
    requires
        possible(moves),
        possible(moves + own),
        sender_rests(after(moves)),
        forall|k: int| 0 <= k < own.len() ==> #[trigger] own[k] is Rx,
        forall|k: int| 0 <= k < own.len() ==> !sleeps(#[trigger] after(moves + own.take(k))),
    ensures
        own.len() + receiver_left(after(moves + own)) <= receiver_left(after(moves)),
        after(moves + own).tx == after(moves).tx,
    decreases own.len(),
{
    let all = moves + own;
    if own.len() == 0 {
        assert(all =~= moves);
    } else {
        let fewer = own.drop_last();
        assert(all.drop_last() =~= moves + fewer);
        assert(own.take(own.len() - 1) =~= fewer);
        assert forall|k: int| 0 <= k < fewer.len() implies !sleeps(
            #[trigger] after(moves + fewer.take(k)),
        ) by {
            assert(fewer.take(k) =~= own.take(k));
        }
        law_receiver_finishes(moves, fewer);
        lemma_coherent(moves + fewer);
        assert(own[own.len() - 1] is Rx);
        let token = own.last()->Rx_0;
        lemma_receiver_left(after(moves + fewer), token);
        lemma_sender_untouched(after(moves + fewer), token);
    }
}

/// A call of the sender ends after finitely many moves of its own, whatever the receiver
/// does: each of them brings it closer to its end, and no move of the receiver takes it
/// further away.
pub proof fn law_sender_finishes<T>(moves: Seq<Move<T>>, mv: Move<T>)
    requires
        possible(moves),
        after(moves).enabled(mv),
    ensures
        mv is Tx ==> sender_left(after(moves.push(mv)).tx) < sender_left(after(moves).tx),
        !(mv is Tx) && !(mv is Send) && !(mv is HangUp) ==> after(moves.push(mv)).tx == after(
            moves,
        ).tx,
{
    assert(moves.push(mv).drop_last() =~= moves);
}

} // verus!
