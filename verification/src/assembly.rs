//! A selection over channels whose senders run at the same time.
//!
//! One thread owns the receiving ends of several channels and waits for one of them, one
//! question after the other; the senders of all the channels move in between in any way.
use crate::arming::{Selecting, SelectionResult, Withdrawing};
use crate::coherence::{
    lemma_messages_len, lemma_select_step, lemma_some_queue, lemma_withdraw_step,
};
use crate::laws::{after, lemma_coherent, lemma_event_stays, possible};
use crate::select::{distinct, following, lemma_round_proper, Round};
use crate::system::{lemma_moved, Move, RxState, System};
use vstd::prelude::*;

verus! {

/// A selection in progress.
pub struct Assembly<T> {
    /// The channels; the channel of a handle stands at the handle's number, counted from
    /// one.
    pub channels: Seq<System<T>>,
    /// The set.
    pub set: Seq<usize>,
    /// The question that comes next.
    pub round: Round,
    /// The token that the thread sleeps on.
    pub token: usize,
}

/// Something that happens during a selection.
pub enum Event<T> {
    /// The sender of a channel moves, or the time of the channel passes.
    Sender(int, Move<T>),
    /// The thread that selects makes its next access; if it makes a token, it is this one.
    Selector(usize),
}

/// The moves that are not the receiver's.
pub open spec fn foreign<T>(mv: Move<T>) -> bool {
    mv is Send || mv is HangUp || mv is Tx || mv is Tick
}

impl<T> Assembly<T> {
    /// The channel of a handle.
    pub open spec fn channel(self, id: usize) -> System<T> {
        self.channels[id - 1]
    }

    /// The selection with another state of the channel of a handle.
    pub open spec fn with(self, id: usize, s: System<T>) -> Self {
        Assembly { channels: self.channels.update(id - 1, s), ..self }
    }

    /// The token has been signalled by one of the senders.
    pub open spec fn woken(self) -> bool {
        exists|i: int| 0 <= i < self.set.len() && (#[trigger] self.channel(self.set[i])).m.woken
    }

    /// A fresh selection.
    pub open spec fn start(
        channels: Seq<System<T>>,
        set: Seq<usize>,
        do_preflight_checks: bool,
    ) -> Self {
        Assembly { channels, set, round: Round::start(set, do_preflight_checks), token: 0 }
    }

    /// The answer that the thread has got to its question, if it has got one.
    pub open spec fn answer(self) -> Option<bool> {
        match self.round {
            Round::Probe(id) => Some(self.channel(id).m.front().items.len() > 0),
            Round::Token => Some(true),
            Round::Install(id, _) => match self.channel(id).rx {
                RxState::Selecting(Selecting::Done(result), _) => {
                    Some(result == SelectionResult::SelCanceled)
                },
                _ => None,
            },
            Round::Rollback(id, _, _) => match self.channel(id).rx {
                RxState::Withdrawing(Withdrawing::Done(has_data), _) => Some(has_data),
                _ => None,
            },
            Round::Collect(id, _) => match self.channel(id).rx {
                RxState::Withdrawing(Withdrawing::Done(has_data), _) => Some(has_data),
                _ => None,
            },
            Round::Wait => Some(self.woken()),
            Round::Done(_) => None,
        }
    }

    /// The move that the thread makes on the receiver that it asks, if any.
    pub open spec fn inquiry(self) -> Option<(usize, Move<T>)> {
        match self.round {
            Round::Install(id, _) => Some(
                (
                    id,
                    if self.channel(id).rx is Idle {
                        Move::Select(self.token)
                    } else {
                        Move::Rx(0)
                    },
                ),
            ),
            Round::Rollback(id, _, _) => Some(
                (
                    id,
                    if self.channel(id).rx is Selected {
                        Move::Withdraw
                    } else {
                        Move::Rx(0)
                    },
                ),
            ),
            Round::Collect(id, _) => Some(
                (
                    id,
                    if self.channel(id).rx is Selected {
                        Move::Withdraw
                    } else {
                        Move::Rx(0)
                    },
                ),
            ),
            _ => None,
        }
    }

    /// Whether something can happen next.
    pub open spec fn enabled(self, event: Event<T>) -> bool {
        match event {
            Event::Sender(k, mv) => {
                &&& 0 <= k < self.channels.len()
                &&& foreign(mv)
                &&& self.channels[k].enabled(mv)
            },
            Event::Selector(token) => {
                &&& !(self.round is Done)
                &&& self.round is Token ==> token != 0
                &&& self.inquiry() matches Some((id, mv)) ==> self.channel(id).enabled(mv)
            },
        }
    }

    /// The selection after the thread's next access.
    pub open spec fn asked(self, token: usize) -> Self {
        let moved = match self.inquiry() {
            Some((id, mv)) => self.with(id, self.channel(id).moved(mv)),
            None => self,
        };
        Assembly {
            round: match self.answer() {
                Some(yes) => self.round.next(self.set, yes),
                None => self.round,
            },
            token: if self.round is Token {
                token
            } else {
                self.token
            },
            ..moved
        }
    }

    /// The selection after something has happened.
    pub open spec fn happened(self, event: Event<T>) -> Self {
        match event {
            Event::Sender(k, mv) => Assembly {
                channels: self.channels.update(k, self.channels[k].moved(mv)),
                ..self
            },
            Event::Selector(token) => self.asked(token),
        }
    }

    /// What a channel is busy with, by where its handle stands to the question.
    pub open spec fn part(self, i: int) -> bool {
        let s = self.channel(self.set[i]);
        let waits = s.rx == RxState::<T>::Selected(self.token);
        match self.round {
            Round::Install(_, n) => if i < n {
                waits
            } else if i == n {
                s.rx is Idle || (s.rx matches RxState::Selecting(_, p) && p == self.token)
            } else {
                s.rx is Idle
            },
            Round::Rollback(id, left, _) => {
                let j = self.set.index_of(id);
                if i == j {
                    waits || s.rx is Withdrawing
                } else if j < i < j + left {
                    waits
                } else {
                    s.rx is Idle
                }
            },
            Round::Wait => waits,
            Round::Collect(id, _) => {
                let j = self.set.index_of(id);
                if i == j {
                    waits || s.rx is Withdrawing
                } else if j < i {
                    waits
                } else {
                    s.rx is Idle
                }
            },
            _ => s.rx is Idle,
        }
    }

    /// The channel will say that it has something to offer when it is asked.
    pub open spec fn assured(self, i: int) -> bool {
        let s = self.channel(self.set[i]);
        match s.rx {
            RxState::Selected(_) => s.m.woken,
            RxState::Withdrawing(Withdrawing::Bump, _) => s.m.woken,
            RxState::Withdrawing(Withdrawing::Restore, _) => true,
            RxState::Withdrawing(Withdrawing::Drain, _) => true,
            RxState::Withdrawing(Withdrawing::DrainGone, _) => true,
            RxState::Withdrawing(Withdrawing::Done(has_data), _) => has_data,
            _ => false,
        }
    }

    /// The handle that the selection has settled on has something to offer, and after a
    /// wake-up one is found.
    pub open spec fn verdict(self) -> bool {
        match self.round {
            Round::Rollback(_, _, ready) => self.channel(ready).eventful(),
            Round::Collect(id, Some(ready)) => self.channel(ready).eventful(),
            Round::Collect(id, None) => exists|i: int|
                self.set.index_of(id) <= i < self.set.len() && #[trigger] self.assured(i),
            Round::Done(id) => self.channel(id).eventful(),
            _ => true,
        }
    }

    /// What holds of a selection in progress.
    pub open spec fn coherent(self) -> bool {
        &&& distinct(self.set)
        &&& self.set.len() <= usize::MAX
        &&& forall|i: int|
            0 <= i < self.set.len() ==> 1 <= #[trigger] self.set[i] <= self.channels.len()
        &&& forall|k: int| 0 <= k < self.channels.len() ==> (#[trigger] self.channels[k]).coherent()
        &&& forall|i: int| 0 <= i < self.set.len() ==> #[trigger] self.part(i)
        &&& self.round.proper(self.set)
        &&& self.verdict()
    }
}

/// A move that is not the receiver's leaves the receiver and a signal as they are.
proof fn lemma_foreign<T>(s: System<T>, mv: Move<T>)
    requires
        s.coherent(),
        s.enabled(mv),
        foreign(mv),
    ensures
        s.moved(mv).coherent(),
        s.moved(mv).rx == s.rx,
        s.m.woken ==> s.moved(mv).m.woken,
        s.eventful() && !s.rx.leaves() ==> s.moved(mv).eventful(),
{
    lemma_moved(s, mv);
    if s.eventful() && !s.rx.leaves() {
        lemma_event_stays(s, mv);
    }
}

/// A move of a sender keeps a selection coherent.
proof fn lemma_sender_happened<T>(a: Assembly<T>, k: int, mv: Move<T>)
    requires
        a.coherent(),
        a.enabled(Event::Sender(k, mv)),
    ensures
        a.happened(Event::Sender(k, mv)).coherent(),
{
    let b = a.happened(Event::Sender(k, mv));
    lemma_foreign(a.channels[k], mv);
    assert forall|i: int| 0 <= i < b.set.len() implies #[trigger] b.part(i) by {
        assert(a.part(i));
    }
    assert forall|i: int| 0 <= i < b.set.len() && #[trigger] a.assured(i) implies b.assured(i) by {
    }
    if let Round::Rollback(id, left, ready) = a.round {
        let r = a.set.index_of(id) + left;
        assert(a.part(r));
    }
    if let Round::Collect(id, Some(ready)) = a.round {
        assert(a.part(a.set.index_of(ready)));
    }
    if let Round::Done(id) = a.round {
        assert(a.part(a.set.index_of(id)));
    }
    if let Round::Collect(id, None) = a.round {
        let i = choose|i: int| a.set.index_of(id) <= i < a.set.len() && #[trigger] a.assured(i);
        assert(b.assured(i));
    }
}

/// What a selection is told is something that it can go on with: nobody wakes a thread that
/// asked nobody, and after a wake-up some receiver has something to offer.
proof fn lemma_answerable<T>(a: Assembly<T>)
    requires
        a.coherent(),
    ensures
        a.answer() matches Some(yes) ==> a.round.answerable(a.set, yes),
{
    if let Round::Collect(id, None) = a.round {
        let j = a.set.index_of(id);
        let i = choose|i: int| j <= i < a.set.len() && #[trigger] a.assured(i);
        if following(a.set, id) == 0 {
            if j + 1 < a.set.len() {
                assert(a.set.contains(a.set[j + 1]));
            }
            assert(i == j);
            assert(a.set[j] == id);
        }
    }
}

/// The next access of the thread on the receiver that it asks keeps that channel coherent,
/// and what the channel says at the end is so.
proof fn lemma_inquiry<T>(a: Assembly<T>)
    requires
        a.coherent(),
        a.enabled(Event::Selector(0)),
        a.inquiry() is Some,
    ensures
        ({
            let (id, mv) = a.inquiry()->0;
            let s = a.channel(id);
            let s2 = s.moved(mv);
            &&& a.set.contains(id) && 1 <= id <= a.channels.len()
            &&& s2.coherent()
            &&& a.answer() is None ==> match a.round {
                Round::Install(_, _) => s2.rx matches RxState::Selecting(_, p) && p == a.token,
                _ => s2.rx is Withdrawing,
            }
            &&& a.answer() matches Some(yes) ==> {
                &&& s2.m == s.m && s2.tx == s.tx
                &&& yes ==> s.eventful()
                &&& s2.rx == if a.round is Install && !yes {
                    RxState::<T>::Selected(a.token)
                } else {
                    RxState::<T>::Idle
                }
            }
            &&& !(a.round is Install) && a.answer() is None && a.assured(a.set.index_of(id))
                ==> a.with(id, s2).assured(a.set.index_of(id))
        }),
{
    let (id, mv) = a.inquiry()->0;
    let i = match a.round {
        Round::Install(_, n) => n as int,
        _ => a.set.index_of(id),
    };
    assert(a.set[i] == id);
    assert(a.set.contains(a.set[i]));
    assert(a.part(i));
    let s = a.channel(id);
    assert(a.channels[id - 1].coherent());
    lemma_moved(s, mv);
    match s.rx {
        RxState::Withdrawing(at, p) => {
            lemma_withdraw_step(s.m, s.tx, at, p);
        },
        RxState::Selecting(at, p) => {
            lemma_select_step(s.m, s.tx, at, p);
        },
        _ => {},
    }
}

/// A move of the thread that asks a receiver keeps a selection coherent while the receiver
/// has not answered.
proof fn lemma_inquiry_happened<T>(a: Assembly<T>, token: usize)
    requires
        a.coherent(),
        a.enabled(Event::Selector(token)),
        a.inquiry() is Some,
        a.answer() is None,
    ensures
        a.happened(Event::Selector(token)).coherent(),
{
    lemma_inquiry(a);
    let (id, mv) = a.inquiry()->0;
    let b = a.happened(Event::Selector(token));
    assert(a.set.contains(id));
    let j = a.set.index_of(id);
    assert forall|i: int| 0 <= i < b.set.len() implies #[trigger] b.part(i) by {
        assert(a.part(i));
        if i != j {
            assert(b.channel(b.set[i]) == a.channel(a.set[i]));
        }
    }
    if let Round::Rollback(_, left, ready) = a.round {
        assert(a.set[j + left] == ready);
        assert(b.channel(ready) == a.channel(ready));
    }
    if let Round::Collect(_, Some(ready)) = a.round {
        assert(b.channel(ready) == a.channel(ready));
    }
    if let Round::Collect(_, None) = a.round {
        let i = choose|i: int| j <= i < a.set.len() && #[trigger] a.assured(i);
        if i != j {
            assert(b.channel(b.set[i]) == a.channel(a.set[i]));
        }
        assert(b.assured(i));
    }
}

/// The answer of a receiver keeps a selection coherent.
proof fn lemma_answer_happened<T>(a: Assembly<T>, token: usize)
    requires
        a.coherent(),
        a.enabled(Event::Selector(token)),
        a.inquiry() is Some,
        a.answer() is Some,
    ensures
        a.happened(Event::Selector(token)).coherent(),
{
    lemma_inquiry(a);
    lemma_answerable(a);
    let (id, mv) = a.inquiry()->0;
    let yes = a.answer()->0;
    let b = a.happened(Event::Selector(token));
    lemma_round_proper(a.set, a.round, yes);
    assert(a.set.contains(id));
    let j = a.set.index_of(id);
    assert(a.set[j] == id);
    assert(a.set.contains(a.set[0]) && a.set.index_of(a.set[0]) == 0);
    if j + 1 < a.set.len() {
        assert(a.set.contains(a.set[j + 1]) && a.set.index_of(a.set[j + 1]) == j + 1);
    }
    if let Round::Install(_, n) = a.round {
        assert(j == n);
    }
    if let Round::Rollback(_, left, ready) = a.round {
        assert(a.set.contains(a.set[j + left]) && a.set.index_of(ready) == j + left);
    }
    assert forall|i: int| 0 <= i < b.set.len() implies #[trigger] b.part(i) by {
        assert(a.part(i));
        if i != j {
            assert(b.channel(b.set[i]) == a.channel(a.set[i]));
        }
    }
    match a.round {
        Round::Rollback(_, _, ready) => {
            assert(b.channel(ready) == a.channel(ready));
        },
        Round::Collect(_, Some(ready)) => {
            assert(b.channel(ready) == a.channel(ready));
        },
        Round::Collect(_, None) => {
            if !yes {
                let i = choose|i: int| j <= i < a.set.len() && #[trigger] a.assured(i);
                assert(i != j);
                assert(b.channel(b.set[i]) == a.channel(a.set[i]));
                assert(b.assured(i));
            }
        },
        _ => {},
    }
}

/// The other moves of the thread keep a selection coherent.
proof fn lemma_other_happened<T>(a: Assembly<T>, token: usize)
    requires
        a.coherent(),
        a.enabled(Event::Selector(token)),
        a.inquiry() is None,
    ensures
        a.happened(Event::Selector(token)).coherent(),
{
    lemma_answerable(a);
    let yes = a.answer()->0;
    let b = a.happened(Event::Selector(token));
    lemma_round_proper(a.set, a.round, yes);
    assert(a.set.len() > 0 ==> a.set.contains(a.set[0]) && a.set.index_of(a.set[0]) == 0);
    assert forall|i: int| 0 <= i < b.set.len() implies #[trigger] b.part(i) by {
        assert(a.part(i));
    }
    if let Round::Probe(id) = a.round {
        let k = a.set.index_of(id);
        assert(a.set[k] == id);
        let s = a.channel(id);
        assert(a.channels[id - 1].coherent());
        lemma_some_queue(s.m, s.tx, s.rx_view());
        lemma_messages_len(s.m.segments, 0);
    }
    if a.round is Wait && yes {
        let i = choose|i: int| 0 <= i < a.set.len() && (#[trigger] a.channel(a.set[i])).m.woken;
        assert(a.part(i));
        assert(b.assured(i));
    }
}

/// Whatever happens keeps a selection coherent.
pub proof fn lemma_happened<T>(a: Assembly<T>, event: Event<T>)
    requires
        a.coherent(),
        a.enabled(event),
    ensures
        a.happened(event).coherent(),
        a.answer() matches Some(yes) ==> a.round.answerable(a.set, yes),
{
    lemma_answerable(a);
    match event {
        Event::Sender(k, mv) => {
            lemma_sender_happened(a, k, mv);
        },
        Event::Selector(token) => {
            if a.inquiry() is None {
                lemma_other_happened(a, token);
            } else if a.answer() is None {
                lemma_inquiry_happened(a, token);
            } else {
                lemma_answer_happened(a, token);
            }
        },
    }
}

/// A selection after a row of events.
pub open spec fn ran<T>(a: Assembly<T>, events: Seq<Event<T>>) -> Assembly<T>
    decreases events.len(),
{
    if events.len() == 0 {
        a
    } else {
        ran(a, events.drop_last()).happened(events.last())
    }
}

/// Each event of the row can happen when its turn comes.
pub open spec fn runs<T>(a: Assembly<T>, events: Seq<Event<T>>) -> bool
    decreases events.len(),
{
    events.len() > 0 ==> runs(a, events.drop_last()) && ran(a, events.drop_last()).enabled(
        events.last(),
    )
}

/// Channels that have come to where they are by moves of their ends, and whose receivers are
/// between calls where the set has them.
pub open spec fn selectable<T>(
    channels: Seq<System<T>>,
    histories: Seq<Seq<Move<T>>>,
    set: Seq<usize>,
) -> bool {
    &&& histories.len() == channels.len()
    &&& forall|k: int|
        0 <= k < channels.len() ==> possible(histories[k]) && #[trigger] channels[k] == after(
            histories[k],
        )
    &&& distinct(set)
    &&& set.len() <= usize::MAX
    &&& forall|i: int|
        0 <= i < set.len() ==> 1 <= #[trigger] set[i] <= channels.len() && channels[set[i]
            - 1].rx is Idle
}

/// A selection in progress is coherent.
pub proof fn lemma_ran<T>(
    channels: Seq<System<T>>,
    histories: Seq<Seq<Move<T>>>,
    set: Seq<usize>,
    do_preflight_checks: bool,
    events: Seq<Event<T>>,
)
    requires
        selectable(channels, histories, set),
        runs(Assembly::start(channels, set, do_preflight_checks), events),
    ensures
        ran(Assembly::start(channels, set, do_preflight_checks), events).coherent(),
    decreases events.len(),
{
    let a = Assembly::start(channels, set, do_preflight_checks);
    if events.len() == 0 {
        assert forall|k: int| 0 <= k < channels.len() implies (
        #[trigger] a.channels[k]).coherent() by {
            assert(channels[k] == after(histories[k]));
            lemma_coherent(histories[k]);
        }
        assert forall|i: int| 0 <= i < set.len() implies #[trigger] a.part(i) by {
            assert(1 <= set[i]);
        }
        assert(set.len() > 0 ==> set.contains(set[0]));
    } else {
        lemma_ran(channels, histories, set, do_preflight_checks, events.drop_last());
        lemma_happened(ran(a, events.drop_last()), events.last());
    }
}

/// A selection over several channels whose senders move as they like returns the handle of a
/// receiver that has something to offer: a message is pending there, or its sender is gone.
pub proof fn law_selection_returns_an_event<T>(
    channels: Seq<System<T>>,
    histories: Seq<Seq<Move<T>>>,
    set: Seq<usize>,
    do_preflight_checks: bool,
    events: Seq<Event<T>>,
)
    requires
        selectable(channels, histories, set),
        runs(Assembly::start(channels, set, do_preflight_checks), events),
    ensures
        ({
            let a = ran(Assembly::start(channels, set, do_preflight_checks), events);
            a.round matches Round::Done(id) ==> {
                &&& a.set.contains(id)
                &&& a.channel(id).eventful()
                &&& a.channel(id).rx is Idle
            }
        }),
{
    lemma_ran(channels, histories, set, do_preflight_checks, events);
    let a = ran(Assembly::start(channels, set, do_preflight_checks), events);
    if let Round::Done(id) = a.round {
        assert(a.part(a.set.index_of(id)));
    }
}

/// A selection over several channels that has been woken finds a receiver that has something
/// to offer: when the last announcement is being taken back and none was found before, that
/// receiver says yes. So the selection is never told something that it cannot go on with.
pub proof fn law_woken_selection_finds_one<T>(
    channels: Seq<System<T>>,
    histories: Seq<Seq<Move<T>>>,
    set: Seq<usize>,
    do_preflight_checks: bool,
    events: Seq<Event<T>>,
)
    requires
        selectable(channels, histories, set),
        runs(Assembly::start(channels, set, do_preflight_checks), events),
    ensures
        ({
            let a = ran(Assembly::start(channels, set, do_preflight_checks), events);
            &&& a.answer() matches Some(yes) ==> a.round.answerable(a.set, yes)
            &&& a.round matches Round::Collect(id, ready) ==> ready is Some || exists|i: int|
                a.set.index_of(id) <= i < a.set.len() && #[trigger] a.assured(i)
        }),
{
    lemma_ran(channels, histories, set, do_preflight_checks, events);
    lemma_answerable(ran(Assembly::start(channels, set, do_preflight_checks), events));
}

} // verus!
