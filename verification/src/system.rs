//! A channel whose two ends run at the same time.
//!
//! A [`System`] is a channel's memory together with how far each end has come in what it
//! does. A [`Move`] is a call that one end begins, an access to the memory that it makes, or
//! the return of a call. The moves of the two ends come in any order.
use crate::arming::{
    arm_step, select_step, withdraw_step, Arming, Selecting, SelectionResult, Withdrawing,
};
use crate::coherence::{
    announces, armed, arming, idle, in_hand, inv, leaving, lemma_advance, lemma_arm_step,
    lemma_armed_token, lemma_begin_poll, lemma_begin_tx, lemma_end_hangup, lemma_end_poll,
    lemma_end_send, lemma_end_sure, lemma_hangup_step, lemma_leave_step, lemma_messages_extend,
    lemma_messages_push, lemma_messages_single, lemma_messages_take_back, lemma_poll_step,
    lemma_pop, lemma_refused, lemma_renew, lemma_select_step, lemma_send_step, lemma_sleep,
    lemma_withdraw_step, lemma_woken, polling, room, selecting, taken, withdrawing, RxView,
    TxState,
};
use crate::errors::{RecvTimeoutError, TryRecvError};
use crate::link::Memory;
use crate::polling::{poll_step, Polling};
use crate::receiving::{await_step, leave_step, receive_step, Awaiting, Leaving, Receiving};
use crate::sending::{hangup_step, send_step, Hangup, Sending};
use vstd::prelude::*;

verus! {

/// How far the receiver has come.
pub enum RxState<T> {
    /// Between calls.
    Idle,
    /// In a receive that does not wait.
    Polling(Polling<T>),
    /// In a receive that waits as long as it takes.
    Receiving(Receiving<T>),
    /// In a receive that waits until a deadline.
    Awaiting(Awaiting<T>, u64),
    /// Announcing a token for a selection.
    Selecting(Selecting, usize),
    /// Between calls, with a token announced.
    Selected(usize),
    /// Taking the announcement of a token back.
    Withdrawing(Withdrawing, usize),
    /// On its way out.
    Leaving(Leaving),
    /// Gone.
    Gone,
}

/// A channel in use.
pub struct System<T> {
    /// The memory.
    pub m: Memory<T>,
    /// The sender.
    pub tx: TxState<T>,
    /// The receiver.
    pub rx: RxState<T>,
    /// No message was pending at some time during the receiver's current call.
    pub blank: bool,
    /// The messages that were put into the queues and not taken back by the sender.
    pub sent: Seq<T>,
    /// The messages that sends have returned success for.
    pub accepted: Seq<T>,
    /// The messages that the receiver took out of the queues.
    pub taken: Seq<T>,
    /// The messages that receives have returned.
    pub received: Seq<T>,
}

/// Something that one of the ends does.
pub enum Move<T> {
    /// The sender begins to send a message.
    Send(T),
    /// The sender begins to leave.
    HangUp,
    /// The sender makes its next access, or its call returns.
    Tx,
    /// The receiver begins a receive that does not wait.
    Poll,
    /// The receiver begins a receive that waits.
    Receive,
    /// The receiver begins a receive that waits until a deadline.
    Await(u64),
    /// The receiver begins to announce a new token for a selection.
    Select(usize),
    /// The receiver begins to take the announcement back.
    Withdraw,
    /// The receiver begins to leave.
    Leave,
    /// The receiver makes its next access, or its call returns; if the access makes a token,
    /// it is this one.
    Rx(usize),
    /// Time passes.
    Tick(u64),
}

/// The search that a receiver is in, if any.
pub open spec fn search<T>(rx: RxState<T>) -> Option<Polling<T>> {
    match rx {
        RxState::Polling(at) => Some(at),
        RxState::Receiving(Receiving::First(at)) => Some(at),
        RxState::Receiving(Receiving::Second(at)) => Some(at),
        RxState::Awaiting(Awaiting::First(at), _) => Some(at),
        RxState::Awaiting(Awaiting::Second(at), _) => Some(at),
        RxState::Awaiting(Awaiting::Late(at), _) => Some(at),
        _ => None,
    }
}

impl<T> RxState<T> {
    /// What the invariant needs to know.
    pub open spec fn view(self, m: Memory<T>, blank: bool) -> RxView {
        match self {
            RxState::Idle => idle(),
            RxState::Polling(at) => polling(at, false, blank),
            RxState::Receiving(at) => match at {
                Receiving::First(at) => polling(at, false, blank),
                Receiving::Token => idle(),
                Receiving::Arm(at) => arming(at),
                Receiving::Wait(p) => armed(p),
                Receiving::Second(at) => polling(at, true, blank),
                Receiving::Done(_) => idle(),
            },
            RxState::Awaiting(at, _) => match at {
                Awaiting::First(at) => polling(at, false, blank),
                Awaiting::Token => idle(),
                Awaiting::Arm(at) => arming(at),
                Awaiting::Wait(p, _) => armed(p),
                Awaiting::Cancel(at) => withdrawing(at, m.token),
                Awaiting::Second(at) => polling(at, true, blank),
                Awaiting::Late(at) => polling(at, false, blank),
                Awaiting::Done(_) => idle(),
            },
            RxState::Selecting(at, p) => selecting(at, p),
            RxState::Selected(p) => armed(p),
            RxState::Withdrawing(at, p) => withdrawing(at, p),
            RxState::Leaving(at) => leaving(at),
            RxState::Gone => leaving(Leaving::Done),
        }
    }

    /// The messages that the receiver has taken for its current call.
    pub open spec fn hand(self) -> Seq<T> {
        match self {
            RxState::Receiving(Receiving::Done(Ok(t))) => seq![t],
            RxState::Awaiting(Awaiting::Done(Ok(t)), _) => seq![t],
            _ => match search(self) {
                Some(at) => in_hand(at),
                None => Seq::empty(),
            },
        }
    }

    /// On its way out, or gone.
    pub open spec fn leaves(self) -> bool {
        self is Leaving || self is Gone
    }

    /// The next access makes a token.
    pub open spec fn makes_token(self) -> bool {
        ||| self == RxState::<T>::Receiving(Receiving::Token)
        ||| self matches RxState::Awaiting(Awaiting::Token, _)
    }

    /// Whether the next access can only return something that the functions that go on
    /// accept.
    pub open spec fn admissible(self, m: Memory<T>) -> bool {
        match self {
            RxState::Polling(at) => at.admissible(m),
            RxState::Receiving(at) => at.admissible(m),
            RxState::Awaiting(at, _) => at.admissible(m),
            RxState::Selecting(at, _) => at.admissible(m),
            RxState::Withdrawing(at, _) => at.admissible(m),
            _ => true,
        }
    }

    /// In what way a search in the receiver's place would go on: its next access and what
    /// becomes of the receiver after it.
    pub open spec fn next(self, m: Memory<T>, token: usize) -> (Memory<T>, Self) {
        match self {
            RxState::Polling(at) => (poll_step(m, at).0, RxState::Polling(poll_step(m, at).1)),
            RxState::Receiving(at) => {
                let r = receive_step(m, at, token);
                (r.0, RxState::Receiving(r.1))
            },
            RxState::Awaiting(at, deadline) => {
                let r = await_step(m, at, deadline, token);
                (r.0, RxState::Awaiting(r.1, deadline))
            },
            RxState::Selecting(at, p) => {
                let r = select_step(m, at);
                (r.0, RxState::Selecting(r.1, p))
            },
            RxState::Withdrawing(at, p) => {
                let r = withdraw_step(m, at);
                (r.0, RxState::Withdrawing(r.1, p))
            },
            RxState::Leaving(at) => {
                let r = leave_step(m, at);
                (r.0, RxState::Leaving(r.1))
            },
            _ => (m, self),
        }
    }

    /// A part of a call that is finished has been left.
    pub open spec fn proper(self) -> bool {
        match self {
            RxState::Receiving(Receiving::First(at)) => !(at is Done),
            RxState::Receiving(Receiving::Arm(at)) => !(at is Armed) && !(at is Refused),
            RxState::Receiving(Receiving::Second(at)) => !(at is Done),
            RxState::Awaiting(Awaiting::First(at), _) => !(at is Done),
            RxState::Awaiting(Awaiting::Arm(at), _) => !(at is Armed) && !(at is Refused),
            RxState::Awaiting(Awaiting::Wait(_, at), _) => !(at is Woken) && !(at is Expired),
            RxState::Awaiting(Awaiting::Cancel(at), _) => !(at is Done),
            RxState::Awaiting(Awaiting::Second(at), _) => !(at is Done),
            RxState::Awaiting(Awaiting::Late(at), _) => !(at is Done),
            RxState::Selecting(Selecting::Arm(at), p) => {
                announces(at, p) && !(at is Armed) && !(at is Refused)
            },
            _ => true,
        }
    }

    /// The call has its result and returns with the next move.
    pub open spec fn done(self) -> bool {
        match self {
            RxState::Polling(at) => at is Done,
            RxState::Receiving(at) => at is Done,
            RxState::Awaiting(at, _) => at is Done,
            RxState::Selecting(at, _) => at is Done,
            RxState::Withdrawing(at, _) => at is Done,
            RxState::Leaving(at) => at is Done,
            _ => false,
        }
    }

    /// The receiver after its call has returned.
    pub open spec fn returned(self) -> Self {
        match self {
            RxState::Selecting(Selecting::Done(SelectionResult::SelSuccess), p) => {
                RxState::Selected(p)
            },
            RxState::Leaving(_) => RxState::Gone,
            _ => RxState::Idle,
        }
    }

    /// The message that the next access takes out of the queues, if any.
    pub open spec fn takes(self, m: Memory<T>) -> Seq<T> {
        let got = match self {
            RxState::Leaving(at) => if at is Drain || at is Recheck {
                m.try_pop().1
            } else {
                None
            },
            _ => match search(self) {
                Some(at) => taken(m, at),
                None => None,
            },
        };
        match got {
            Some(t) => seq![t],
            None => Seq::empty(),
        }
    }
}

/// The sender puts its message into the queues with its next access.
pub open spec fn puts<T>(m: Memory<T>, at: Sending<T>) -> bool {
    (at is Push || at is Repush) && !m.back().full()
}

impl<T> System<T> {
    /// A fresh channel.
    pub open spec fn fresh() -> Self {
        System {
            m: Memory::fresh(),
            tx: TxState::Idle,
            rx: RxState::Idle,
            blank: false,
            sent: Seq::empty(),
            accepted: Seq::empty(),
            taken: Seq::empty(),
            received: Seq::empty(),
        }
    }

    /// What the invariant needs to know of the receiver.
    pub open spec fn rx_view(self) -> RxView {
        self.rx.view(self.m, self.blank)
    }

    /// Whether a token is unlike any that the sender still holds.
    pub open spec fn unused(self, p: usize) -> bool {
        p != 0 && !self.tx.waking(p)
    }

    /// Whether a move can come next. A message can be put into the queues only while the
    /// counter has room for it.
    pub open spec fn enabled(self, mv: Move<T>) -> bool {
        match mv {
            Move::Send(_) => self.tx is Idle,
            Move::HangUp => self.tx is Idle,
            Move::Tx => {
                &&& self.tx is Sending || self.tx is Leaving
                &&& (self.tx matches TxState::Sending(at, _) && (at is Push || at is Repush))
                    ==> room(self.m, self.rx_view())
            },
            Move::Poll => self.rx is Idle,
            Move::Receive => self.rx is Idle,
            Move::Await(_) => self.rx is Idle,
            Move::Select(p) => self.rx is Idle && self.unused(p),
            Move::Withdraw => self.rx is Selected,
            Move::Leave => self.rx is Idle,
            Move::Rx(p) => {
                &&& !(self.rx is Idle) && !(self.rx is Selected) && !(self.rx is Gone)
                &&& self.rx.makes_token() ==> self.unused(p)
            },
            Move::Tick(now) => self.m.clock <= now,
        }
    }

    /// The sender's next access, or the return of its call.
    pub open spec fn tx_moved(self) -> Self {
        match self.tx {
            TxState::Sending(Sending::Done(result), msg) => System {
                tx: TxState::Idle,
                accepted: if result is Ok {
                    self.accepted.push(msg)
                } else {
                    self.accepted
                },
                ..self
            },
            TxState::Sending(at, msg) => System {
                m: send_step(self.m, at).0,
                tx: TxState::Sending(send_step(self.m, at).1, msg),
                sent: if puts(self.m, at) {
                    self.sent.push(msg)
                } else if at is Reclaim && self.m.back().items.len() > 0 {
                    self.sent.drop_last()
                } else {
                    self.sent
                },
                ..self
            },
            TxState::Leaving(Hangup::Done) => System { tx: TxState::Gone, ..self },
            TxState::Leaving(at) => System {
                m: hangup_step(self.m, at).0,
                tx: TxState::Leaving(hangup_step(self.m, at).1),
                ..self
            },
            _ => self,
        }
    }

    /// The receiver's next access, or the return of its call.
    pub open spec fn rx_moved(self, token: usize) -> Self {
        if self.rx.done() {
            System {
                rx: self.rx.returned(),
                received: self.received + self.rx.hand(),
                ..self
            }
        } else {
            System {
                m: self.rx.next(self.m, token).0,
                rx: self.rx.next(self.m, token).1,
                blank: self.blank || (search(self.rx) matches Some(at) && at is Pop
                    && self.m.items().len() == 0),
                taken: self.taken + self.rx.takes(self.m),
                ..self
            }
        }
    }

    /// The channel after a move.
    pub open spec fn moved(self, mv: Move<T>) -> Self {
        match mv {
            Move::Send(t) => System { tx: TxState::Sending(Sending::start(t), t), ..self },
            Move::HangUp => System { tx: TxState::Leaving(Hangup::start()), ..self },
            Move::Tx => self.tx_moved(),
            Move::Poll => System {
                rx: RxState::Polling(Polling::start()),
                blank: false,
                ..self
            },
            Move::Receive => System {
                rx: RxState::Receiving(Receiving::start()),
                blank: false,
                ..self
            },
            Move::Await(deadline) => System {
                rx: RxState::Awaiting(Awaiting::start(), deadline),
                blank: false,
                ..self
            },
            Move::Select(p) => System {
                m: self.m.renew(p),
                rx: RxState::Selecting(Selecting::start(p), p),
                ..self
            },
            Move::Withdraw => System {
                rx: RxState::Withdrawing(Withdrawing::start(), self.m.token),
                ..self
            },
            Move::Leave => System { rx: RxState::Leaving(Leaving::start()), ..self },
            Move::Rx(token) => self.rx_moved(token),
            Move::Tick(now) => System { m: Memory { clock: now, ..self.m }, ..self },
        }
    }

    /// The messages that the sender's finished and unfinished sends have put into the
    /// queues.
    pub open spec fn tx_log(self) -> bool {
        self.sent == match self.tx {
            TxState::Sending(Sending::Count, msg) => self.accepted.push(msg),
            TxState::Sending(Sending::Take, msg) => self.accepted.push(msg),
            TxState::Sending(Sending::Wake(_), msg) => self.accepted.push(msg),
            TxState::Sending(Sending::Mark, msg) => self.accepted.push(msg),
            TxState::Sending(Sending::Reclaim, msg) => self.accepted.push(msg),
            TxState::Sending(Sending::Done(Ok(_)), msg) => self.accepted.push(msg),
            _ => self.accepted,
        }
    }

    /// The sender is gone for good and has left no message.
    pub open spec fn over(self) -> bool {
        self.tx.quit() && self.m.items().len() == 0
    }

    /// What a receive is about to report is so.
    pub open spec fn verdict(self) -> bool {
        match self.rx {
            RxState::Polling(Polling::Done(Err(TryRecvError::Empty))) => self.blank,
            RxState::Polling(Polling::Done(Err(TryRecvError::Disconnected))) => self.over(),
            RxState::Receiving(Receiving::Done(Err(_))) => self.over(),
            RxState::Awaiting(Awaiting::Cancel(_), deadline) => deadline <= self.m.clock,
            RxState::Awaiting(Awaiting::Late(_), deadline) => deadline <= self.m.clock,
            RxState::Awaiting(Awaiting::Done(Err(RecvTimeoutError::Timeout)), deadline) => {
                deadline <= self.m.clock && self.blank
            },
            RxState::Awaiting(Awaiting::Done(Err(RecvTimeoutError::Disconnected)), _) => {
                self.over()
            },
            RxState::Selecting(Selecting::Done(SelectionResult::SelCanceled), _) => self.eventful(),
            RxState::Withdrawing(Withdrawing::Done(true), _) => self.eventful(),
            _ => true,
        }
    }

    /// A message is pending, or no more will come.
    pub open spec fn eventful(self) -> bool {
        self.m.items().len() > 0 || self.tx.quit()
    }

    /// What holds of a channel in use.
    pub open spec fn coherent(self) -> bool {
        &&& inv(self.m, self.tx, self.rx_view())
        &&& self.sent == self.taken + self.m.items()
        &&& self.tx_log()
        &&& !self.rx.leaves() ==> self.taken == self.received + self.rx.hand()
        &&& self.rx.leaves() ==> self.received.is_prefix_of(self.taken)
        &&& self.rx.proper()
        &&& self.verdict()
    }
}

/// A sender's move keeps the channel coherent.
pub proof fn lemma_tx_moved<T>(s: System<T>)
    requires
        s.coherent(),
        s.enabled(Move::Tx),
    ensures
        s.moved(Move::Tx).coherent(),
        s.tx matches TxState::Sending(at, _) ==> at.admissible(s.m),
        s.tx matches TxState::Leaving(at) ==> at.admissible(s.m),
{
    let s2 = s.tx_moved();
    match s.tx {
        TxState::Sending(at, msg) => {
            lemma_send_step(s.m, at, msg, s.rx_view());
            match at {
                Sending::Push(t) => {
                    reveal(inv);
                    lemma_messages_push(s.m.segments, t);
                },
                Sending::Repush(t) => {
                    reveal(inv);
                    lemma_messages_push(s.m.segments, t);
                },
                Sending::Grow(t) => {
                    lemma_messages_extend(s.m.segments, 2 * s.m.back().capacity);
                },
                Sending::Verify(_) => {
                    reveal(inv);
                },
                Sending::Done(result) => {
                    lemma_end_send(s.m, result, msg, s.rx_view());
                },
                Sending::Reclaim => {
                    reveal(inv);
                    lemma_messages_take_back(s.m.segments);
                    assert(s2.sent =~= s.accepted);
                },
                _ => {},
            }
            assert(s2.sent =~= s2.taken + s2.m.items());
            assert(s2.tx_log());
        },
        TxState::Leaving(at) => {
            lemma_hangup_step(s.m, at, s.rx_view());
            if at is Done {
                lemma_end_hangup(s.m, s.rx_view());
            }
        },
        _ => {},
    }
}

/// A move of a search within a receive that waits keeps the channel coherent.
pub proof fn lemma_receive_searched<T>(s: System<T>, at: Receiving<T>, token: usize)
    requires
        s.coherent(),
        s.enabled(Move::Rx(token)),
        s.rx == RxState::Receiving(at),
        at is First || at is Second,
    ensures
        s.moved(Move::Rx(token)).coherent(),
        at.admissible(s.m),
{
    let s2 = s.rx_moved(token);
    match at {
        Receiving::First(p) => {
            lemma_poll_step(s.m, s.tx, p, false, s.blank);
            if let Polling::Done(result) = poll_step(s.m, p).1 {
                lemma_end_poll(s2.m, s.tx, result, s2.blank);
            }
        },
        Receiving::Second(p) => {
            lemma_poll_step(s.m, s.tx, p, true, s.blank);
            if let Polling::Done(result) = poll_step(s.m, p).1 {
                lemma_end_sure(poll_step(s.m, p).0, s.tx, result, s2.blank);
            }
        },
        _ => {},
    }
    assert(s2.sent =~= s2.taken + s2.m.items());
    assert(s2.taken =~= s2.received + s2.rx.hand());
}

/// A move within a receive that waits keeps the channel coherent.
pub proof fn lemma_receive_moved<T>(s: System<T>, at: Receiving<T>, token: usize)
    requires
        s.coherent(),
        s.enabled(Move::Rx(token)),
        s.rx == RxState::Receiving(at),
    ensures
        s.moved(Move::Rx(token)).coherent(),
        at.admissible(s.m),
{
    let s2 = s.rx_moved(token);
    match at {
        Receiving::Token => {
            lemma_renew(s.m, s.tx, token);
        },
        Receiving::Arm(p) => {
            lemma_arm_step(s.m, s.tx, p);
            if let Arming::Refused(q) = arm_step(s.m, p).1 {
                lemma_refused(s2.m, s.tx, q, s2.blank);
            }
        },
        Receiving::Wait(p) => {
            if s.m.woken {
                lemma_woken(s.m, s.tx, p, s2.blank);
            }
        },
        Receiving::Done(_) => {},
        _ => {
            lemma_receive_searched(s, at, token);
        },
    }
    assert(s2.sent =~= s2.taken + s2.m.items());
    assert(s2.taken =~= s2.received + s2.rx.hand());
}

/// A move of a search within a receive that waits until a deadline keeps the channel
/// coherent.
pub proof fn lemma_await_searched<T>(
    s: System<T>,
    at: Awaiting<T>,
    deadline: u64,
    token: usize,
)
    requires
        s.coherent(),
        s.enabled(Move::Rx(token)),
        s.rx == RxState::Awaiting(at, deadline),
        at is First || at is Second || at is Late,
    ensures
        s.moved(Move::Rx(token)).coherent(),
        at.admissible(s.m),
{
    let s2 = s.rx_moved(token);
    match at {
        Awaiting::First(p) => {
            lemma_poll_step(s.m, s.tx, p, false, s.blank);
            if let Polling::Done(result) = poll_step(s.m, p).1 {
                lemma_end_poll(s2.m, s.tx, result, s2.blank);
            }
        },
        Awaiting::Second(p) => {
            lemma_poll_step(s.m, s.tx, p, true, s.blank);
            if let Polling::Done(result) = poll_step(s.m, p).1 {
                lemma_end_sure(poll_step(s.m, p).0, s.tx, result, s2.blank);
            }
        },
        Awaiting::Late(p) => {
            lemma_poll_step(s.m, s.tx, p, false, s.blank);
            if let Polling::Done(result) = poll_step(s.m, p).1 {
                lemma_end_poll(s2.m, s.tx, result, s2.blank);
            }
        },
        _ => {},
    }
    assert(s2.sent =~= s2.taken + s2.m.items());
    assert(s2.taken =~= s2.received + s2.rx.hand());
}

/// A move within a receive that waits until a deadline keeps the channel coherent.
pub proof fn lemma_await_moved<T>(
    s: System<T>,
    at: Awaiting<T>,
    deadline: u64,
    token: usize,
)
    requires
        s.coherent(),
        s.enabled(Move::Rx(token)),
        s.rx == RxState::Awaiting(at, deadline),
    ensures
        s.moved(Move::Rx(token)).coherent(),
        at.admissible(s.m),
{
    let s2 = s.rx_moved(token);
    match at {
        Awaiting::Token => {
            lemma_renew(s.m, s.tx, token);
        },
        Awaiting::Arm(p) => {
            lemma_arm_step(s.m, s.tx, p);
            if let Arming::Refused(q) = arm_step(s.m, p).1 {
                lemma_refused(s2.m, s.tx, q, s2.blank);
            }
        },
        Awaiting::Wait(p, w) => {
            lemma_armed_token(s.m, s.tx, p);
            lemma_sleep(s.m, s.tx, armed(p), deadline);
            if s.m.woken {
                lemma_woken(s.m, s.tx, p, s2.blank);
            }
        },
        Awaiting::Cancel(p) => {
            lemma_withdraw_step(s.m, s.tx, p, s.m.token);
            if withdraw_step(s.m, p).1 is Done {
                lemma_begin_poll(s2.m, s.tx, s2.blank);
            }
        },
        Awaiting::Done(_) => {},
        _ => {
            lemma_await_searched(s, at, deadline, token);
        },
    }
    assert(s2.sent =~= s2.taken + s2.m.items());
    assert(s2.taken =~= s2.received + s2.rx.hand());
}

/// A receiver's move keeps the channel coherent.
pub proof fn lemma_rx_moved<T>(s: System<T>, token: usize)
    requires
        s.coherent(),
        s.enabled(Move::Rx(token)),
    ensures
        s.moved(Move::Rx(token)).coherent(),
        s.rx.admissible(s.m),
{
    let s2 = s.rx_moved(token);
    match s.rx {
        RxState::Polling(at) => {
            if let Polling::Done(result) = at {
                lemma_end_poll(s.m, s.tx, result, s.blank);
            } else {
                lemma_poll_step(s.m, s.tx, at, false, s.blank);
            }
            assert(s2.taken =~= s2.received + s2.rx.hand());
        },
        RxState::Receiving(at) => {
            lemma_receive_moved(s, at, token);
        },
        RxState::Awaiting(at, deadline) => {
            lemma_await_moved(s, at, deadline, token);
        },
        RxState::Selecting(at, p) => {
            lemma_select_step(s.m, s.tx, at, p);
            assert(s2.taken =~= s2.received + s2.rx.hand());
        },
        RxState::Withdrawing(at, p) => {
            lemma_withdraw_step(s.m, s.tx, at, p);
            assert(s2.taken =~= s2.received + s2.rx.hand());
        },
        RxState::Leaving(at) => {
            lemma_leave_step(s.m, s.tx, at);
            match at {
                Leaving::Drain | Leaving::Recheck => {
                    reveal(inv);
                    lemma_pop(s.m, s.tx);
                },
                Leaving::Advance => {
                    reveal(inv);
                    lemma_advance(s.m, s.tx);
                },
                _ => {},
            }
        },
        _ => {},
    }
    assert(s2.sent =~= s2.taken + s2.m.items());
}

/// Every move keeps the channel coherent.
pub proof fn lemma_moved<T>(s: System<T>, mv: Move<T>)
    requires
        s.coherent(),
        s.enabled(mv),
    ensures
        s.moved(mv).coherent(),
{
    match mv {
        Move::Tx => {
            lemma_tx_moved(s);
        },
        Move::Rx(token) => {
            lemma_rx_moved(s, token);
        },
        Move::Send(t) => {
            lemma_begin_tx(s.m, s.rx_view(), t);
        },
        Move::HangUp => {
            reveal(inv);
        },
        Move::Poll | Move::Receive | Move::Await(_) => {
            lemma_begin_poll(s.m, s.tx, false);
        },
        Move::Select(p) => {
            lemma_renew(s.m, s.tx, p);
        },
        Move::Withdraw => {
            lemma_armed_token(s.m, s.tx, s.rx->Selected_0);
        },
        Move::Leave => {},
        Move::Tick(now) => {
            lemma_sleep(s.m, s.tx, s.rx_view(), now);
        },
    }
}

/// A fresh channel is coherent.
pub proof fn lemma_fresh<T>()
    ensures
        System::<T>::fresh().coherent(),
{
    let s = System::<T>::fresh();
    reveal(inv);
    lemma_messages_single(s.m.segments);
    assert(s.m.items() =~= Seq::<T>::empty());
}

} // verus!
