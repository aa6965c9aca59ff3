//! What holds of a channel between any two accesses to its memory.
//!
//! The sender and the receiver each run a sequence of accesses, and the two sequences
//! interleave in any way. [`inv`] relates the memory to how far each side has come. The
//! lemmas show that no access breaks it, and that what an access returns is what the side
//! that made it can go on with.
use crate::arming::{
    arm_step, select_step, withdraw_step, Arming, Selecting, SelectionResult, Withdrawing,
};
use crate::errors::{SendError, TryRecvError};
use crate::limits::{DISCONNECTED, MAX_STEALS};
use crate::link::{messages, Memory};
use crate::polling::{poll_step, Polling};
use crate::receiving::{leave_step, Leaving};
use crate::ring::Segment;
use crate::sending::{hangup_step, send_step, Hangup, Sending};
use vstd::prelude::*;

verus! {

/// How far the sender has come.
pub enum TxState<T> {
    /// Between calls.
    Idle,
    /// Sending the message that stands second.
    Sending(Sending<T>, T),
    /// On its way out.
    Leaving(Hangup),
    /// Gone.
    Gone,
}

impl<T> TxState<T> {
    /// Messages in the queue that the counter does not know of yet.
    pub open spec fn inflight(self) -> int {
        if self matches TxState::Sending(Sending::Count, _) {
            1
        } else {
            0
        }
    }

    /// About to take the receiver's token.
    pub open spec fn taking(self) -> bool {
        ||| self matches TxState::Sending(Sending::Take, _)
        ||| self == TxState::<T>::Leaving(Hangup::Take)
    }

    /// About to signal `token`.
    pub open spec fn waking(self, token: usize) -> bool {
        ||| self matches TxState::Sending(Sending::Wake(p), _) && p == token
        ||| self == TxState::<T>::Leaving(Hangup::Wake(token))
    }

    /// Has set the counter to disconnected for good.
    pub open spec fn quit(self) -> bool {
        match self {
            TxState::Leaving(Hangup::Disconnect) => false,
            TxState::Leaving(Hangup::Swap) => false,
            TxState::Leaving(_) => true,
            TxState::Gone => true,
            _ => false,
        }
    }

    /// Has begun to leave and marked the channel as not connected.
    pub open spec fn left(self) -> bool {
        match self {
            TxState::Leaving(at) => !(at is Disconnect),
            TxState::Gone => true,
            _ => false,
        }
    }

    /// Has given up its end of the hand-over line.
    pub open spec fn released(self) -> bool {
        ||| self is Gone
        ||| self == TxState::<T>::Leaving(Hangup::Done)
    }
}

/// What the memory holds of the receiver's token.
pub enum Token {
    /// Nothing.
    Off,
    /// Nothing yet; the token has just been made.
    Fresh(usize),
    /// The token, and the sender does not take it.
    Posted(usize),
    /// The token until the sender takes it, which it does with the next message.
    Armed(usize),
    /// The token if the sender is about to take it.
    Drain(usize),
}

/// Where the receiver is in its search for a message, as far as the memory shows it.
pub enum Phase {
    /// Nowhere in particular.
    Any,
    /// About to put back a part of the count.
    Rebump,
    /// About to ask for the next queue.
    Fetch,
    /// About to look into the current queue again.
    Recheck,
    /// About to go over to the next queue.
    Advance,
    /// About to read the counter.
    Load,
    /// About to ask for a queue that a sender that is gone has left.
    Refetch,
    /// About to take a message that a sender that is gone has left.
    Last,
}

/// How far the receiver has come, as far as the invariant needs it.
pub struct RxView {
    /// Messages that have been taken and are not counted as steals yet.
    pub hand: int,
    /// What has been taken off the counter and will be put back.
    pub owed: int,
    /// What has been taken off the counter for messages not taken yet.
    pub advance: int,
    /// About to set the counter to disconnected again.
    pub restoring: bool,
    /// Has begun to leave and marked the channel as not connected.
    pub left: bool,
    /// Has left the counter for good.
    pub quit: bool,
    /// The receiver's token.
    pub token: Token,
    /// Where the search for a message is.
    pub phase: Phase,
    /// No steal is outstanding.
    pub clean: bool,
    /// Has seen that the sender is gone.
    pub gone: bool,
    /// The search ends with a message unless the sender is gone.
    pub sure: bool,
    /// No message was pending at some time during the search.
    pub blank: bool,
}

/// Neither side has disconnected the counter.
pub open spec fn open<T>(tx: TxState<T>, a: RxView) -> bool {
    !tx.quit() && !a.quit
}

/// The row of queues: none is over-full, and those that neither side works on are full.
pub open spec fn shape<T>(m: Memory<T>, tx: TxState<T>) -> bool {
    &&& m.segments.len() >= 1
    &&& forall|i: int|
        0 <= i < m.segments.len() ==> 1 <= (#[trigger] m.segments[i]).capacity
            && m.segments[i].items.len() <= m.segments[i].capacity
    &&& forall|i: int| 0 < i < m.segments.len() - 1 ==> (#[trigger] m.segments[i]).full()
    &&& m.held ==> m.segments.len() >= 2
    &&& (tx matches TxState::Sending(Sending::Grow(_), _) ==> {
        &&& m.back().full() || m.segments.len() == 1
        &&& 2 * m.back().capacity <= usize::MAX
    })
    &&& (tx matches TxState::Sending(Sending::Repush(_), _) ==> m.back().items.len() == 0)
    &&& (!(tx matches TxState::Sending(Sending::Repush(_), _)) && m.back().items.len() == 0
        ==> m.items().len() == 0)
}

/// What the counter may have to hold: the messages and the steals, of which a wait that is
/// called off leaves one.
pub open spec fn load<T>(m: Memory<T>, a: RxView) -> int {
    m.items().len() + a.hand + (if m.steals >= 1 {
        m.steals as int
    } else {
        1
    })
}

/// The counter: what it holds is what has been sent and not been accounted for.
pub open spec fn accounts<T>(m: Memory<T>, tx: TxState<T>, a: RxView) -> bool {
    &&& -1 <= m.steals < isize::MAX
    &&& !tx.quit() || a.hand > 0 ==> 0 <= m.steals
    &&& 0 <= a.hand <= 1
    &&& 0 <= a.owed
    &&& -1 <= a.advance <= 1
    &&& a.clean ==> m.steals == 0 && a.hand == 0 && a.owed == 0
    &&& a.gone ==> tx.quit()
    &&& open(tx, a) ==> {
        &&& m.counter + a.owed == m.steals + m.items().len() + a.hand - tx.inflight() - a.advance
        &&& !a.restoring
        &&& load(m, a) <= isize::MAX - 8
        &&& !(a.token is Armed) ==> m.counter >= 0
        &&& !a.left ==> m.steals <= MAX_STEALS + 1
    }
    &&& tx.quit() && !a.quit ==> a.restoring || m.counter == DISCONNECTED
    &&& a.quit && !tx.quit() ==> (tx matches TxState::Sending(Sending::Mark, _))
        || m.counter == DISCONNECTED
}

/// The token: it is there as long as the receiver waits and the sender has not taken it.
pub open spec fn tokens<T>(m: Memory<T>, tx: TxState<T>, a: RxView) -> bool {
    match a.token {
        Token::Off => m.to_wake == 0 && !tx.taking(),
        Token::Fresh(p) => {
            &&& p != 0 && m.token == p && !m.woken
            &&& m.to_wake == 0 && !tx.taking() && !tx.waking(p)
        },
        Token::Posted(p) => {
            &&& p != 0 && m.token == p && !m.woken
            &&& m.to_wake == p && !tx.taking() && !tx.waking(p)
        },
        Token::Armed(p) => {
            &&& p != 0 && m.token == p
            &&& a.advance == 1 && a.clean && !a.restoring && !a.quit
            &&& if m.to_wake == p && !tx.taking() {
                !tx.waking(p) && !m.woken && open(tx, a) && m.counter < 0
            } else {
                &&& open(tx, a) ==> m.counter >= 0
                &&& if tx.taking() {
                    m.to_wake == p && !m.woken
                } else {
                    m.to_wake == 0 && (m.woken != tx.waking(p) || m.woken)
                }
            }
        },
        Token::Drain(p) => {
            &&& p != 0 && m.token == p
            &&& a.clean && !a.quit
            &&& open(tx, a) ==> m.counter >= 2
            &&& m.to_wake == (if tx.taking() {
                p
            } else {
                0
            })
        },
    }
}

/// The search for a message: what has been seen of the queues still holds.
pub open spec fn phases<T>(m: Memory<T>, tx: TxState<T>, a: RxView) -> bool {
    &&& a.sure ==> a.advance == 1 && a.clean && !(a.token is Armed) && !a.quit
    &&& match a.phase {
        Phase::Any => true,
        Phase::Rebump => open(tx, a) ==> m.steals <= MAX_STEALS,
        Phase::Fetch => {
            &&& !m.held
            &&& m.segments.len() == 1 ==> a.blank
            &&& a.sure && open(tx, a) ==> m.segments.len() >= 2
        },
        Phase::Recheck => m.held,
        Phase::Advance => m.held && m.front().items.len() == 0,
        Phase::Load => !m.held && a.blank && (a.sure ==> !open(tx, a)),
        Phase::Refetch => !m.held && tx.quit(),
        Phase::Last => !m.held && tx.quit() && m.segments.len() == 1,
    }
}

/// The marks that the two sides leave when they go.
pub open spec fn doors<T>(m: Memory<T>, tx: TxState<T>, a: RxView) -> bool {
    &&& m.connected == (!tx.left() && !a.left)
    &&& m.sender_open == !tx.released()
    &&& !m.receiver_open ==> a.quit
    &&& a.quit ==> a.left
}

/// The message being sent: it is the newest one in the queue until it is taken, and a
/// sender whose receiver is gone finds it there.
pub open spec fn message<T>(m: Memory<T>, tx: TxState<T>, a: RxView) -> bool {
    &&& match tx {
        TxState::Sending(Sending::Check(t), msg) => t == msg,
        TxState::Sending(Sending::Push(t), msg) => t == msg,
        TxState::Sending(Sending::Grow(t), msg) => t == msg,
        TxState::Sending(Sending::Repush(t), msg) => t == msg,
        TxState::Sending(Sending::Count, msg) => m.back().items.len() > 0
            ==> m.back().items.last() == msg,
        TxState::Sending(Sending::Mark, msg) => a.quit && m.back().items == seq![msg],
        TxState::Sending(Sending::Reclaim, msg) => a.quit && m.back().items == seq![msg],
        TxState::Sending(Sending::Verify(first), msg) => a.quit && first == Some(msg),
        TxState::Sending(Sending::Done(Err(e)), msg) => !m.connected && e.0 == msg,
        _ => true,
    }
    &&& a.quit && !tx.quit() ==> m.items().len() == (match tx {
        TxState::Sending(Sending::Count, _) => 1int,
        TxState::Sending(Sending::Mark, _) => 1int,
        TxState::Sending(Sending::Reclaim, _) => 1int,
        _ => 0int,
    })
}

/// What holds of a channel between any two accesses to its memory.
#[verifier::opaque]
pub open spec fn inv<T>(m: Memory<T>, tx: TxState<T>, a: RxView) -> bool {
    &&& shape(m, tx)
    &&& accounts(m, tx, a)
    &&& tokens(m, tx, a)
    &&& phases(m, tx, a)
    &&& doors(m, tx, a)
    &&& message(m, tx, a)
}

/// A row of queues holds at least what each of them holds.
pub proof fn lemma_messages_len<T>(segments: Seq<Segment<T>>, i: int)
    requires
        0 <= i < segments.len(),
    ensures
        messages(segments).len() >= segments[i].items.len(),
    decreases segments.len(),
{
    if i > 0 {
        lemma_messages_len(segments.drop_first(), i - 1);
    }
}

/// A message added to the last queue comes last.
pub proof fn lemma_messages_push<T>(segments: Seq<Segment<T>>, t: T)
    requires
        segments.len() > 0,
    ensures
        messages(segments.update(segments.len() - 1, segments.last().pushed(t))) == messages(
            segments,
        ).push(t),
    decreases segments.len(),
{
    let after = segments.update(segments.len() - 1, segments.last().pushed(t));
    if segments.len() == 1 {
        assert(after.drop_first() =~= segments.drop_first());
        assert(messages(segments.drop_first()) =~= Seq::<T>::empty());
        assert(messages(after) =~= messages(segments).push(t));
    } else {
        let rest = segments.drop_first();
        lemma_messages_push(rest, t);
        assert(after.drop_first() =~= rest.update(rest.len() - 1, rest.last().pushed(t)));
        assert(messages(after) =~= messages(segments).push(t));
    }
}

/// What the first queue hands out is the oldest message.
pub proof fn lemma_messages_pop<T>(segments: Seq<Segment<T>>)
    requires
        segments.len() > 0,
        segments[0].items.len() > 0,
    ensures
        messages(segments).len() > 0,
        messages(segments)[0] == segments[0].items[0],
        messages(segments.update(0, segments[0].popped())) == messages(segments).drop_first(),
{
    let after = segments.update(0, segments[0].popped());
    assert(after.drop_first() =~= segments.drop_first());
    assert(messages(after) =~= messages(segments).drop_first());
}

/// An empty queue at the end adds no message.
pub proof fn lemma_messages_extend<T>(segments: Seq<Segment<T>>, capacity: nat)
    ensures
        messages(segments.push(Segment::new(capacity))) == messages(segments),
    decreases segments.len(),
{
    let after = segments.push(Segment::new(capacity));
    if segments.len() == 0 {
        assert(after.drop_first() =~= segments);
        assert(messages(after) =~= messages(segments));
    } else {
        lemma_messages_extend(segments.drop_first(), capacity);
        assert(after.drop_first() =~= segments.drop_first().push(Segment::new(capacity)));
    }
}

/// An empty queue at the front holds no message.
pub proof fn lemma_messages_advance<T>(segments: Seq<Segment<T>>)
    requires
        segments.len() > 0,
        segments[0].items.len() == 0,
    ensures
        messages(segments.drop_first()) == messages(segments),
{
    assert(messages(segments) =~= messages(segments.drop_first()));
}

/// A single queue holds all there is.
pub proof fn lemma_messages_single<T>(segments: Seq<Segment<T>>)
    requires
        segments.len() == 1,
    ensures
        messages(segments) == segments[0].items,
{
    assert(messages(segments.drop_first()) =~= Seq::<T>::empty());
    assert(messages(segments) =~= segments[0].items);
}

/// A queue at the end that holds the only message: without it nothing is left.
pub proof fn lemma_messages_take_back<T>(segments: Seq<Segment<T>>)
    requires
        segments.len() > 0,
        messages(segments).len() == 1,
        segments.last().items.len() == 1,
    ensures
        messages(segments) == segments.last().items,
        messages(segments.update(segments.len() - 1, segments.last().popped())).len() == 0,
    decreases segments.len(),
{
    let after = segments.update(segments.len() - 1, segments.last().popped());
    if segments.len() == 1 {
        lemma_messages_single(segments);
        lemma_messages_single(after);
    } else {
        let rest = segments.drop_first();
        lemma_messages_len(rest, rest.len() - 1);
        lemma_messages_take_back(rest);
        assert(after.drop_first() =~= rest.update(rest.len() - 1, rest.last().popped()));
        assert(messages(segments) =~= messages(rest));
    }
}

/// There is room for one more message: the counter does not run over.
pub open spec fn room<T>(m: Memory<T>, a: RxView) -> bool {
    load(m, a) < isize::MAX - 8
}

/// No access of a sending sender breaks the invariant.
pub proof fn lemma_send_step<T>(m: Memory<T>, at: Sending<T>, msg: T, a: RxView)
    requires
        inv(m, TxState::Sending(at, msg), a),
        at is Push || at is Repush ==> room(m, a),
    ensures
        at.admissible(m),
        inv(send_step(m, at).0, TxState::Sending(send_step(m, at).1, msg), a),
{
    reveal(inv);
    let tx = TxState::Sending(at, msg);
    let m2 = send_step(m, at).0;
    let tx2 = TxState::Sending(send_step(m, at).1, msg);
    lemma_messages_len(m.segments, m.segments.len() - 1);
    match at {
        Sending::Push(t) => {
            lemma_messages_push(m.segments, t);
        },
        Sending::Repush(t) => {
            lemma_messages_push(m.segments, t);
        },
        Sending::Grow(t) => {
            lemma_messages_extend(m.segments, 2 * m.back().capacity);
        },
        Sending::Reclaim => {
            lemma_messages_take_back(m.segments);
        },
        Sending::Count => {
            if a.quit {
                assert(m.back().items =~= seq![msg]);
            }
        },
        _ => {},
    }
    assert(shape(m2, tx2));
    assert(accounts(m2, tx2, a));
    assert(tokens(m2, tx2, a));
    assert(message(m2, tx2, a));
}

/// No access of a leaving sender breaks the invariant.
pub proof fn lemma_hangup_step<T>(m: Memory<T>, at: Hangup, a: RxView)
    requires
        inv(m, TxState::Leaving(at), a),
    ensures
        at.admissible(m),
        inv(hangup_step(m, at).0, TxState::<T>::Leaving(hangup_step(m, at).1), a),
{
    reveal(inv);
}

/// The receiver between calls.
pub open spec fn idle() -> RxView {
    RxView {
        hand: 0,
        owed: 0,
        advance: 0,
        restoring: false,
        left: false,
        quit: false,
        token: Token::Off,
        phase: Phase::Any,
        clean: false,
        gone: false,
        sure: false,
        blank: false,
    }
}

/// The receiver in a search for a message; `sure` if the search ends with one.
pub open spec fn polling<T>(at: Polling<T>, sure: bool, blank: bool) -> RxView {
    let base = RxView {
        advance: if sure {
            1
        } else {
            0
        },
        blank,
        ..idle()
    };
    match at {
        Polling::Pop => RxView { clean: sure, sure, ..base },
        Polling::Settle(_) => RxView { hand: 1, ..base },
        Polling::Restore(_) => RxView { hand: 1, restoring: true, ..base },
        Polling::Rebump(_, amount) => RxView {
            hand: 1,
            owed: amount as int,
            phase: Phase::Rebump,
            ..base
        },
        Polling::Fetch => RxView { phase: Phase::Fetch, clean: sure, sure, ..base },
        Polling::Recheck => RxView { phase: Phase::Recheck, clean: sure, sure, ..base },
        Polling::Advance => RxView { phase: Phase::Advance, clean: sure, sure, ..base },
        Polling::Load => RxView { phase: Phase::Load, clean: sure, sure, ..base },
        Polling::Refetch => RxView { phase: Phase::Refetch, clean: sure, sure, ..base },
        Polling::Last => RxView { phase: Phase::Last, clean: sure, sure, ..base },
        Polling::Done(_) => base,
    }
}

/// Whether the search has seen the channel without a message after its next access.
pub open spec fn blanked<T>(m: Memory<T>, at: Polling<T>, blank: bool) -> bool {
    blank || (at is Pop && m.items().len() == 0)
}

/// The messages that a search has in its hands.
pub open spec fn in_hand<T>(at: Polling<T>) -> Seq<T> {
    match at {
        Polling::Settle(t) => seq![t],
        Polling::Restore(t) => seq![t],
        Polling::Rebump(t, _) => seq![t],
        Polling::Done(Ok(t)) => seq![t],
        _ => Seq::empty(),
    }
}

/// The message that the next access of a search takes, if any.
pub open spec fn taken<T>(m: Memory<T>, at: Polling<T>) -> Option<T> {
    if at is Pop || at is Recheck || at is Last {
        m.try_pop().1
    } else {
        None
    }
}

/// What a receiver takes from the queues is the oldest message.
pub proof fn lemma_pop<T>(m: Memory<T>, tx: TxState<T>)
    requires
        shape(m, tx),
    ensures
        shape(m.try_pop().0, tx),
        match m.try_pop().1 {
            Some(t) => m.items() == seq![t] + m.try_pop().0.items(),
            None => m.try_pop().0 == m && m.front().items.len() == 0 && (m.segments.len() == 1
                ==> m.items().len() == 0),
        },
        m.segments.len() == 1 ==> m.items() == m.front().items,
        m.back().items.len() > 0 && m.try_pop().0.back().items.len() > 0
            ==> m.try_pop().0.back().items.last() == m.back().items.last(),
{
    if m.segments.len() == 1 {
        lemma_messages_single(m.segments);
    }
    if m.front().items.len() > 0 {
        lemma_messages_pop(m.segments);
        let m2 = m.try_pop().0;
        assert(m.items() =~= seq![m.front().items[0]] + m2.items());
        if m2.back().items.len() == 0 {
            if m.segments.len() == 1 {
                lemma_messages_single(m2.segments);
            }
        }
    }
}

/// Going over to the next queue loses no message.
pub proof fn lemma_advance<T>(m: Memory<T>, tx: TxState<T>)
    requires
        shape(m, tx),
        m.held,
        m.front().items.len() == 0,
    ensures
        shape(m.advance(), tx),
        m.advance().items() == m.items(),
        m.advance().back() == m.back(),
{
    lemma_messages_advance(m.segments);
}

/// No access of a search that looks into a queue breaks the invariant.
proof fn lemma_poll_pop<T>(
    m: Memory<T>,
    tx: TxState<T>,
    at: Polling<T>,
    sure: bool,
    blank: bool,
)
    requires
        inv(m, tx, polling(at, sure, blank)),
        at is Pop || at is Recheck || at is Last,
    ensures
        at.admissible(m),
        inv(
            poll_step(m, at).0,
            tx,
            polling(poll_step(m, at).1, sure, blanked(m, at, blank)),
        ),
{
    reveal(poll_step);
    reveal(inv);
    let m2 = poll_step(m, at).0;
    let at2 = poll_step(m, at).1;
    let a2 = polling(at2, sure, blanked(m, at, blank));
    lemma_pop(m, tx);
    assert(m2.segments == m.try_pop().0.segments);
    assert(shape(m2, tx));
    assert(accounts(m2, tx, a2));
    assert(phases(m2, tx, a2));
    assert(message(m2, tx, a2));
}

/// No other access of a search breaks the invariant.
proof fn lemma_poll_other<T>(
    m: Memory<T>,
    tx: TxState<T>,
    at: Polling<T>,
    sure: bool,
    blank: bool,
)
    requires
        inv(m, tx, polling(at, sure, blank)),
        !(at is Pop) && !(at is Recheck) && !(at is Last),
    ensures
        at.admissible(m),
        inv(
            poll_step(m, at).0,
            tx,
            polling(poll_step(m, at).1, sure, blanked(m, at, blank)),
        ),
{
    reveal(poll_step);
    reveal(inv);
    let m2 = poll_step(m, at).0;
    let at2 = poll_step(m, at).1;
    let a2 = polling(at2, sure, blanked(m, at, blank));
    if at is Advance {
        lemma_advance(m, tx);
        assert(message(m2, tx, a2));
    } else {
        assert(m2.segments == m.segments);
        assert(accounts(m2, tx, a2));
        assert(phases(m2, tx, a2));
    }
}

/// A search says what it should.
proof fn lemma_poll_outcome<T>(
    m: Memory<T>,
    tx: TxState<T>,
    at: Polling<T>,
    sure: bool,
    blank: bool,
)
    requires
        inv(m, tx, polling(at, sure, blank)),
        !(at is Done),
    ensures
        match taken(m, at) {
            Some(t) => {
                &&& m.items() == seq![t] + poll_step(m, at).0.items()
                &&& poll_step(m, at).1 == Polling::Settle(t) || poll_step(m, at).1
                    == Polling::<T>::Done(Ok(t))
                &&& in_hand(at) == Seq::<T>::empty()
            },
            None => {
                &&& poll_step(m, at).0.items() == m.items()
                &&& in_hand(poll_step(m, at).1) == in_hand(at)
            },
        },
        match poll_step(m, at).1 {
            Polling::Done(Err(TryRecvError::Empty)) => !sure && blank && !tx.quit(),
            Polling::Done(Err(TryRecvError::Disconnected)) => tx.quit() && m.items().len() == 0,
            Polling::Done(Ok(_)) => sure ==> poll_step(m, at).0.steals > 0 || (tx.quit()
                && poll_step(m, at).0.steals == 0),
            _ => true,
        },
        poll_step(m, at).0.clock == m.clock,
{
    reveal(poll_step);
    reveal(inv);
    lemma_pop(m, tx);
    if at is Advance {
        lemma_advance(m, tx);
    } else if taken(m, at) is Some {
        assert(poll_step(m, at).0.segments == m.try_pop().0.segments);
    } else {
        assert(poll_step(m, at).0.segments == m.segments);
    }
}

/// No access of a search for a message breaks the invariant, and the search says what it
/// should: a message is the oldest one, the channel is empty only if it was, and the sender
/// is gone only if it is gone and has left nothing.
pub proof fn lemma_poll_step<T>(
    m: Memory<T>,
    tx: TxState<T>,
    at: Polling<T>,
    sure: bool,
    blank: bool,
)
    requires
        inv(m, tx, polling(at, sure, blank)),
        !(at is Done),
    ensures
        at.admissible(m),
        inv(
            poll_step(m, at).0,
            tx,
            polling(poll_step(m, at).1, sure, blanked(m, at, blank)),
        ),
        match taken(m, at) {
            Some(t) => {
                &&& m.items() == seq![t] + poll_step(m, at).0.items()
                &&& poll_step(m, at).1 == Polling::Settle(t) || poll_step(m, at).1
                    == Polling::<T>::Done(Ok(t))
                &&& in_hand(at) == Seq::<T>::empty()
            },
            None => {
                &&& poll_step(m, at).0.items() == m.items()
                &&& in_hand(poll_step(m, at).1) == in_hand(at)
            },
        },
        match poll_step(m, at).1 {
            Polling::Done(Err(TryRecvError::Empty)) => !sure && blank && !tx.quit(),
            Polling::Done(Err(TryRecvError::Disconnected)) => tx.quit() && m.items().len() == 0,
            Polling::Done(Ok(_)) => sure ==> poll_step(m, at).0.steals > 0 || (tx.quit()
                && poll_step(m, at).0.steals == 0),
            _ => true,
        },
        poll_step(m, at).0.clock == m.clock,
{
    lemma_poll_outcome(m, tx, at, sure, blank);
    if at is Pop || at is Recheck || at is Last {
        lemma_poll_pop(m, tx, at, sure, blank);
    } else {
        lemma_poll_other(m, tx, at, sure, blank);
    }
}

/// The receiver on its way to announce a token.
pub open spec fn arming(at: Arming) -> RxView {
    match at {
        Arming::Inspect(p) => RxView { token: Token::Fresh(p), ..idle() },
        Arming::Post(p) => RxView { token: Token::Fresh(p), ..idle() },
        Arming::Subtract(p) => RxView { token: Token::Posted(p), ..idle() },
        Arming::Restore(p) => RxView {
            token: Token::Posted(p),
            advance: 1,
            clean: true,
            restoring: true,
            sure: true,
            ..idle()
        },
        Arming::Withdraw(p) => RxView {
            token: Token::Posted(p),
            advance: 1,
            clean: true,
            sure: true,
            ..idle()
        },
        Arming::Armed(p) => armed(p),
        Arming::Refused(_) => RxView { advance: 1, clean: true, sure: true, ..idle() },
    }
}

/// The receiver that has announced a token.
pub open spec fn armed(p: usize) -> RxView {
    RxView { token: Token::Armed(p), advance: 1, clean: true, ..idle() }
}

/// No access of an announcement breaks the invariant or takes a message.
pub proof fn lemma_arm_step<T>(m: Memory<T>, tx: TxState<T>, at: Arming)
    requires
        inv(m, tx, arming(at)),
    ensures
        at.admissible(m),
        inv(arm_step(m, at).0, tx, arming(arm_step(m, at).1)),
        arm_step(m, at).0.segments == m.segments,
{
    reveal(inv);
    let m2 = arm_step(m, at).0;
    let a2 = arming(arm_step(m, at).1);
    assert(accounts(m2, tx, a2));
    assert(tokens(m2, tx, a2));
}

/// The receiver on its way back from the announcement of `p`.
pub open spec fn withdrawing(at: Withdrawing, p: usize) -> RxView {
    match at {
        Withdrawing::Bump => armed(p),
        Withdrawing::Restore => RxView {
            token: Token::Drain(p),
            advance: -1,
            clean: true,
            gone: true,
            restoring: true,
            ..idle()
        },
        Withdrawing::Take => RxView {
            token: Token::Posted(p),
            advance: -1,
            clean: true,
            ..idle()
        },
        Withdrawing::Drain => RxView {
            token: Token::Drain(p),
            advance: -1,
            clean: true,
            ..idle()
        },
        Withdrawing::DrainGone => RxView {
            token: Token::Drain(p),
            advance: -1,
            clean: true,
            gone: true,
            ..idle()
        },
        Withdrawing::Done(_) => idle(),
    }
}

/// No access on the way back from an announcement breaks the invariant or takes a message,
/// and what the receiver is told at the end is right: a message is pending or the sender is
/// gone, or no message had come when the counter was read. A receiver that was signalled is
/// not told that none had come.
pub proof fn lemma_withdraw_step<T>(m: Memory<T>, tx: TxState<T>, at: Withdrawing, p: usize)
    requires
        inv(m, tx, withdrawing(at, p)),
    ensures
        at.admissible(m),
        inv(withdraw_step(m, at).0, tx, withdrawing(withdraw_step(m, at).1, p)),
        withdraw_step(m, at).0.segments == m.segments,
        withdraw_step(m, at).1 == Withdrawing::Done(true) && !(at is Done) ==> m.items().len() > 0
            || tx.quit(),
        at is Bump && m.woken ==> !(withdraw_step(m, at).1 is Take),
        at is Bump && withdraw_step(m, at).1 is Take ==> m.items().len() <= tx.inflight(),
{
    reveal(inv);
    let m2 = withdraw_step(m, at).0;
    let a2 = withdrawing(withdraw_step(m, at).1, p);
    assert(accounts(m2, tx, a2));
    assert(tokens(m2, tx, a2));
}

/// The receiver on its way to announce `p` for a selection.
pub open spec fn selecting(at: Selecting, p: usize) -> RxView {
    match at {
        Selecting::Arm(at) => arming(at),
        Selecting::Undo => arming(Arming::Refused(p)),
        Selecting::Restore => RxView { restoring: true, ..idle() },
        Selecting::Done(SelectionResult::SelSuccess) => armed(p),
        Selecting::Done(SelectionResult::SelCanceled) => idle(),
    }
}

/// The token that an announcement is about.
pub open spec fn announces(at: Arming, p: usize) -> bool {
    match at {
        Arming::Inspect(q) => q == p,
        Arming::Post(q) => q == p,
        Arming::Subtract(q) => q == p,
        Arming::Restore(q) => q == p,
        Arming::Withdraw(q) => q == p,
        Arming::Armed(q) => q == p,
        Arming::Refused(q) => q == p,
    }
}

/// No access of an announcement for a selection breaks the invariant or takes a message.
pub proof fn lemma_select_step<T>(m: Memory<T>, tx: TxState<T>, at: Selecting, p: usize)
    requires
        inv(m, tx, selecting(at, p)),
        at matches Selecting::Arm(arm) ==> announces(arm, p),
    ensures
        at.admissible(m),
        inv(select_step(m, at).0, tx, selecting(select_step(m, at).1, p)),
        select_step(m, at).1 matches Selecting::Arm(arm) ==> announces(arm, p),
        select_step(m, at).0.segments == m.segments,
        select_step(m, at).1 == Selecting::Done(SelectionResult::SelCanceled) && !(at is Done)
            ==> m.items().len() > 0 || tx.quit(),
{
    reveal(inv);
    if let Selecting::Arm(arm) = at {
        lemma_arm_step(m, tx, arm);
    }
}

/// The receiver on its way out.
pub open spec fn leaving(at: Leaving) -> RxView {
    let base = RxView { left: true, blank: true, ..idle() };
    match at {
        Leaving::Disconnect => idle(),
        Leaving::Mark => base,
        Leaving::Drain => base,
        Leaving::Fetch => RxView { phase: Phase::Fetch, ..base },
        Leaving::Recheck => RxView { phase: Phase::Recheck, ..base },
        Leaving::Advance => RxView { phase: Phase::Advance, ..base },
        Leaving::Release => RxView { quit: true, ..base },
        Leaving::Done => RxView { quit: true, ..base },
    }
}

/// No access of a leaving receiver breaks the invariant.
pub proof fn lemma_leave_step<T>(m: Memory<T>, tx: TxState<T>, at: Leaving)
    requires
        inv(m, tx, leaving(at)),
    ensures
        inv(leave_step(m, at).0, tx, leaving(leave_step(m, at).1)),
{
    reveal(inv);
    let m2 = leave_step(m, at).0;
    let a2 = leaving(leave_step(m, at).1);
    match at {
        Leaving::Drain | Leaving::Recheck => {
            lemma_pop(m, tx);
            assert(m2.segments == m.try_pop().0.segments);
        },
        Leaving::Advance => {
            lemma_advance(m, tx);
        },
        _ => {
            assert(m2.segments == m.segments);
        },
    }
    assert(shape(m2, tx));
    assert(accounts(m2, tx, a2));
    assert(message(m2, tx, a2));
}

/// A receiver between calls begins a search.
pub proof fn lemma_begin_poll<T>(m: Memory<T>, tx: TxState<T>, blank: bool)
    requires
        inv(m, tx, idle()),
    ensures
        inv(m, tx, polling(Polling::<T>::Pop, false, blank)),
{
    reveal(inv);
}

/// A search that is over leaves the receiver between calls.
pub proof fn lemma_end_poll<T>(
    m: Memory<T>,
    tx: TxState<T>,
    result: Result<T, TryRecvError>,
    blank: bool,
)
    requires
        inv(m, tx, polling(Polling::Done(result), false, blank)),
    ensures
        inv(m, tx, idle()),
{
    reveal(inv);
}

/// A message that was waited for leaves the receiver between calls once it is no steal any
/// more; one that a sender that is gone has left was none. If there was none, the sender is
/// gone.
pub proof fn lemma_end_sure<T>(
    m: Memory<T>,
    tx: TxState<T>,
    result: Result<T, TryRecvError>,
    blank: bool,
)
    requires
        inv(m, tx, polling(Polling::Done(result), true, blank)),
        result is Ok ==> m.steals > 0 || (tx.quit() && m.steals == 0),
        result is Err ==> tx.quit(),
    ensures
        result is Ok ==> inv(m.with_steals((m.steals - 1) as isize), tx, idle()),
        result is Err ==> inv(m, tx, idle()),
{
    reveal(inv);
}

/// A receiver between calls makes a token.
pub proof fn lemma_renew<T>(m: Memory<T>, tx: TxState<T>, p: usize)
    requires
        inv(m, tx, idle()),
        p != 0,
        !tx.waking(p),
    ensures
        inv(m.renew(p), tx, arming(Arming::Inspect(p))),
{
    reveal(inv);
}

/// A receiver that need not wait begins a search that ends with a message.
pub proof fn lemma_refused<T>(m: Memory<T>, tx: TxState<T>, p: usize, blank: bool)
    requires
        inv(m, tx, arming(Arming::Refused(p))),
    ensures
        inv(m, tx, polling(Polling::<T>::Pop, true, blank)),
{
    reveal(inv);
}

/// A receiver that has been woken begins a search that ends with a message.
pub proof fn lemma_woken<T>(m: Memory<T>, tx: TxState<T>, p: usize, blank: bool)
    requires
        inv(m, tx, armed(p)),
        m.woken,
    ensures
        inv(m, tx, polling(Polling::<T>::Pop, true, blank)),
{
    reveal(inv);
}

/// The clock has no part in the protocol.
pub proof fn lemma_sleep<T>(m: Memory<T>, tx: TxState<T>, a: RxView, deadline: u64)
    requires
        inv(m, tx, a),
    ensures
        inv(m.sleep(deadline), tx, a),
{
    reveal(inv);
    assert(m.sleep(deadline).segments == m.segments);
}

/// A sender between calls begins to send or to leave.
pub proof fn lemma_begin_tx<T>(m: Memory<T>, a: RxView, msg: T)
    requires
        inv(m, TxState::<T>::Idle, a),
    ensures
        inv(m, TxState::Sending(Sending::Check(msg), msg), a),
        inv(m, TxState::<T>::Leaving(Hangup::Disconnect), a),
{
    reveal(inv);
}

/// A send that is over leaves the sender between calls.
pub proof fn lemma_end_send<T>(
    m: Memory<T>,
    result: Result<(), SendError<T>>,
    msg: T,
    a: RxView,
)
    requires
        inv(m, TxState::Sending(Sending::Done(result), msg), a),
    ensures
        inv(m, TxState::<T>::Idle, a),
{
    reveal(inv);
}

/// A sender that has left is gone.
pub proof fn lemma_end_hangup<T>(m: Memory<T>, a: RxView)
    requires
        inv(m, TxState::<T>::Leaving(Hangup::Done), a),
    ensures
        inv(m, TxState::<T>::Gone, a),
{
    reveal(inv);
}

/// The token of a receiver that has announced one is the last that it made.
pub proof fn lemma_armed_token<T>(m: Memory<T>, tx: TxState<T>, p: usize)
    requires
        inv(m, tx, armed(p)),
    ensures
        m.token == p,
{
    reveal(inv);
}

/// There is always a queue.
pub proof fn lemma_some_queue<T>(m: Memory<T>, tx: TxState<T>, a: RxView)
    requires
        inv(m, tx, a),
    ensures
        m.segments.len() > 0,
{
    reveal(inv);
}

} // verus!
