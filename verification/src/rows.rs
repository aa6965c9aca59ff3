//! Rows of calls on channels whose ends take turns, and on sets of receivers.
use crate::channel::{
    announced, departed, hung_up, lemma_reached, poll_result, polled, ready, sent, timed_out,
    withdrawn,
};
use crate::coherence::{lemma_messages_len, lemma_messages_single};
use crate::limits::{INITIAL_CAPACITY, MAX_STEALS};
use crate::link::Memory;
use crate::select::{
    distinct, law_added_is_member, law_removed_is_no_member, with, without,
};
use crate::turns::{law_receive_takes_first, law_send_appends};
use vstd::prelude::*;

verus! {

/// A call on one of the ends of a channel.
pub enum Call<T> {
    /// Send a message.
    Send(T),
    /// The sender leaves.
    HangUp,
    /// Receive without waiting.
    Poll,
    /// Receive where there is no need to wait.
    Receive,
    /// Receive, and wait until a deadline; if a token is made, it is the second value.
    Await(u64, usize),
    /// Announce a token.
    Announce(usize),
    /// Take the announcement back.
    Withdraw,
    /// The receiver leaves.
    Leave,
}

/// A channel between two calls.
pub struct Turn<T> {
    /// The memory.
    pub m: Memory<T>,
    /// A token is announced.
    pub armed: bool,
    /// The messages that sends have returned success for.
    pub accepted: Seq<T>,
    /// The messages that receives have returned.
    pub received: Seq<T>,
}

impl<T> Turn<T> {
    /// A fresh channel.
    pub open spec fn fresh() -> Self {
        Turn {
            m: Memory::fresh(),
            armed: false,
            accepted: Seq::empty(),
            received: Seq::empty(),
        }
    }

    /// The receiver is there and has announced nothing.
    pub open spec fn receives(self) -> bool {
        self.m.receiver_open && !self.armed
    }

    /// Whether a call can be made.
    pub open spec fn allows(self, call: Call<T>) -> bool {
        match call {
            Call::Send(_) => {
                &&& self.m.sender_open
                &&& self.m.connected ==> self.m.items().len() < isize::MAX - MAX_STEALS - 16
            },
            Call::HangUp => self.m.sender_open,
            Call::Poll => self.receives(),
            Call::Receive => self.receives() && ready(self.m),
            Call::Await(_, token) => self.receives() && token != 0 && token != self.m.token,
            Call::Announce(token) => self.receives() && token != 0,
            Call::Withdraw => self.armed,
            Call::Leave => self.receives(),
        }
    }

    /// The channel after a receive that found what there was to find.
    pub open spec fn taken(self) -> Self {
        Turn {
            m: polled(self.m),
            received: match poll_result(self.m) {
                Ok(t) => self.received.push(t),
                Err(_) => self.received,
            },
            ..self
        }
    }

    /// The channel after a call.
    pub open spec fn made(self, call: Call<T>) -> Self {
        match call {
            Call::Send(t) => if self.m.connected {
                Turn { m: sent(self.m, t), accepted: self.accepted.push(t), ..self }
            } else {
                self
            },
            Call::HangUp => Turn { m: hung_up(self.m), ..self },
            Call::Poll => self.taken(),
            Call::Receive => self.taken(),
            Call::Await(deadline, token) => if ready(self.m) {
                self.taken()
            } else {
                Turn { m: timed_out(self.m, deadline, token), ..self }
            },
            Call::Announce(token) => Turn {
                m: announced(self.m, token),
                armed: !ready(self.m),
                ..self
            },
            Call::Withdraw => Turn { m: withdrawn(self.m), armed: false, ..self },
            Call::Leave => Turn { m: departed(self.m), ..self },
        }
    }
}

/// A fresh channel after a row of calls.
pub open spec fn made_all<T>(calls: Seq<Call<T>>) -> Turn<T>
    decreases calls.len(),
{
    if calls.len() == 0 {
        Turn::fresh()
    } else {
        made_all(calls.drop_last()).made(calls.last())
    }
}

/// Each call of the row can be made when its turn comes.
pub open spec fn allowed<T>(calls: Seq<Call<T>>) -> bool
    decreases calls.len(),
{
    calls.len() > 0 ==> allowed(calls.drop_last()) && made_all(calls.drop_last()).allows(
        calls.last(),
    )
}

/// Messages arrive in the order in which they were sent, each once, over any row of calls:
/// those that receives have returned and those that are pending make up those that sends have
/// returned success for. A receive comes back without a message only when every one of them
/// has been returned. Once the receiver has left, those that were pending are gone.
pub proof fn law_rows_keep_order<T>(calls: Seq<Call<T>>)
    requires
        allowed(calls),
    ensures
        ({
            let t = made_all(calls);
            &&& t.m.segments.len() > 0
            &&& t.received.is_prefix_of(t.accepted)
            &&& t.m.receiver_open ==> t.accepted == t.received + t.m.items()
            &&& t.m.receiver_open && poll_result(t.m) is Err ==> t.accepted == t.received
            &&& !t.m.receiver_open ==> !t.m.connected
        }),
    decreases calls.len(),
{
    let t = made_all(calls);
    if calls.len() == 0 {
        lemma_messages_single(t.m.segments);
        assert(t.accepted =~= t.received + t.m.items());
    } else {
        let before = made_all(calls.drop_last());
        let call = calls.last();
        law_rows_keep_order(calls.drop_last());
        match call {
            Call::Send(x) => {
                law_send_appends(before.m, x);
            },
            Call::Poll | Call::Receive => {
                law_receive_takes_first(before.m);
            },
            Call::Await(_, _) => {
                law_receive_takes_first(before.m);
                lemma_reached(before.m.segments);
            },
            _ => {},
        }
        if before.m.receiver_open && t.m.receiver_open {
            assert(t.accepted =~= t.received + t.m.items());
        }
        assert(t.received.is_prefix_of(t.accepted));
    }
}

/// No more messages than the first queue holds were ever pending, and the receiver is there.
pub open spec fn narrow<T>(calls: Seq<Call<T>>) -> bool
    decreases calls.len(),
{
    &&& made_all(calls).m.items().len() <= INITIAL_CAPACITY
    &&& made_all(calls).m.receiver_open
    &&& calls.len() > 0 ==> narrow(calls.drop_last())
}

/// While no more messages were ever pending than the first queue holds, a channel has one
/// queue, so that what can be seen in it says whether a message is pending at all, whether or
/// not the sender is there.
pub proof fn law_narrow_rows_show_messages<T>(calls: Seq<Call<T>>)
    requires
        allowed(calls),
        narrow(calls),
    ensures
        ({
            let m = made_all(calls).m;
            &&& m.segments.len() == 1
            &&& m.front().capacity == INITIAL_CAPACITY
            &&& m.front().items == m.items()
            &&& (m.front().items.len() > 0) == (m.items().len() > 0)
        }),
    decreases calls.len(),
{
    let m = made_all(calls).m;
    if calls.len() > 0 {
        let before = made_all(calls.drop_last()).m;
        law_narrow_rows_show_messages(calls.drop_last());
        law_rows_keep_order(calls);
        if let Call::Send(t) = calls.last() {
            law_send_appends(before, t);
        }
    }
    lemma_messages_single(m.segments);
}

/// A message that can be seen is the sign that the next receive gets one, over any row of
/// calls.
pub proof fn law_visible_is_received<T>(calls: Seq<Call<T>>)
    requires
        allowed(calls),
        made_all(calls).m.front().items.len() > 0,
    ensures
        poll_result(made_all(calls).m) is Ok,
{
    law_rows_keep_order(calls);
    lemma_messages_len(made_all(calls).m.segments, 0);
}

/// A call on one of two channels.
pub enum Either<T, U> {
    /// On the first channel.
    First(Call<T>),
    /// On the second channel.
    Second(Call<U>),
}

/// Two fresh channels after a row of calls on them.
pub open spec fn made_both<T, U>(calls: Seq<Either<T, U>>) -> (Turn<T>, Turn<U>)
    decreases calls.len(),
{
    if calls.len() == 0 {
        (Turn::fresh(), Turn::fresh())
    } else {
        let (one, two) = made_both(calls.drop_last());
        match calls.last() {
            Either::First(call) => (one.made(call), two),
            Either::Second(call) => (one, two.made(call)),
        }
    }
}

/// The calls on the first of two channels.
pub open spec fn on_first<T, U>(calls: Seq<Either<T, U>>) -> Seq<Call<T>>
    decreases calls.len(),
{
    if calls.len() == 0 {
        Seq::empty()
    } else {
        match calls.last() {
            Either::First(call) => on_first(calls.drop_last()).push(call),
            Either::Second(_) => on_first(calls.drop_last()),
        }
    }
}

/// The calls on the second of two channels.
pub open spec fn on_second<T, U>(calls: Seq<Either<T, U>>) -> Seq<Call<U>>
    decreases calls.len(),
{
    if calls.len() == 0 {
        Seq::empty()
    } else {
        match calls.last() {
            Either::First(_) => on_second(calls.drop_last()),
            Either::Second(call) => on_second(calls.drop_last()).push(call),
        }
    }
}

/// Two channels have nothing to do with each other: each is where its own calls have brought
/// it, so that what is sent into one arrives only there, and no call on one changes what a
/// call on the other returns.
pub proof fn law_channels_are_independent<T, U>(calls: Seq<Either<T, U>>)
    ensures
        made_both(calls).0 == made_all(on_first(calls)),
        made_both(calls).1 == made_all(on_second(calls)),
    decreases calls.len(),
{
    if calls.len() > 0 {
        law_channels_are_independent(calls.drop_last());
        match calls.last() {
            Either::First(call) => {
                assert(on_first(calls).drop_last() =~= on_first(calls.drop_last()));
            },
            Either::Second(call) => {
                assert(on_second(calls).drop_last() =~= on_second(calls.drop_last()));
            },
        }
    }
}

/// A call on a set of receivers.
pub enum SetCall {
    /// Make a handle.
    Handle,
    /// Add the receiver of a handle.
    Add(usize),
    /// Remove the receiver of a handle.
    Remove(usize),
}

/// A set between two calls: the numbers of the handles that were made, in the order in which
/// they were made, and the numbers of those in the set.
pub struct SetTurn {
    /// The handles that were made.
    pub made: Seq<usize>,
    /// The handles in the set.
    pub set: Seq<usize>,
}

/// A fresh set after a row of calls.
pub open spec fn set_after(calls: Seq<SetCall>) -> SetTurn
    decreases calls.len(),
{
    if calls.len() == 0 {
        SetTurn { made: Seq::empty(), set: Seq::empty() }
    } else {
        let t = set_after(calls.drop_last());
        match calls.last() {
            SetCall::Handle => SetTurn { made: t.made.push((t.made.len() + 1) as usize), ..t },
            SetCall::Add(id) => SetTurn { set: with(t.set, id), ..t },
            SetCall::Remove(id) => SetTurn { set: without(t.set, id), ..t },
        }
    }
}

/// Each call of the row can be made when its turn comes: there is a number left for a new
/// handle and for the one after it, and handles are used that were made.
pub open spec fn set_allowed(calls: Seq<SetCall>) -> bool
    decreases calls.len(),
{
    calls.len() > 0 ==> {
        let made = set_after(calls.drop_last()).made;
        &&& set_allowed(calls.drop_last())
        &&& match calls.last() {
            SetCall::Handle => made.len() + 2 <= usize::MAX,
            SetCall::Add(id) => 1 <= id <= made.len(),
            SetCall::Remove(id) => 1 <= id <= made.len(),
        }
    }
}

/// The handles of a set are numbered from one in the order in which they are made, and no
/// number is given twice, whatever is added and removed in between. A handle is in the set
/// only if it was added, so that a wait never returns one that was not.
pub proof fn law_handles_are_numbered(calls: Seq<SetCall>)
    requires
        set_allowed(calls),
    ensures
        ({
            let t = set_after(calls);
            &&& t.made.len() < usize::MAX
            &&& forall|k: int| 0 <= k < t.made.len() ==> #[trigger] t.made[k] == k + 1
            &&& t.made.no_duplicates()
            &&& distinct(t.set)
            &&& forall|i: int| 0 <= i < t.set.len() ==> 1 <= #[trigger] t.set[i] <= t.made.len()
            &&& forall|id: usize| #[trigger]
                t.set.contains(id) ==> calls.contains(SetCall::Add(id))
        }),
    decreases calls.len(),
{
    if calls.len() > 0 {
        let before = set_after(calls.drop_last());
        let t = set_after(calls);
        law_handles_are_numbered(calls.drop_last());
        assert forall|id: usize| #[trigger] t.set.contains(id) implies calls.contains(
            SetCall::Add(id),
        ) && 1 <= id <= t.made.len() by {
            if before.set.contains(id) {
                let k = before.set.index_of(id);
                assert(1 <= before.set[k] <= before.made.len());
                let c = calls.drop_last().index_of(SetCall::Add(id));
                assert(calls[c] == SetCall::Add(id));
            } else {
                match calls.last() {
                    SetCall::Add(added) => {
                        let k = t.set.index_of(id);
                        if !before.set.contains(added) {
                            if k < before.set.len() {
                                assert(before.set[k] == id);
                            }
                            assert(added == id);
                            assert(calls[calls.len() - 1] == SetCall::Add(id));
                        }
                    },
                    SetCall::Remove(gone) => {
                        if before.set.contains(gone) {
                            let r = before.set.index_of(gone);
                            let k = t.set.index_of(id);
                            assert(before.set[if k < r {
                                k
                            } else {
                                k + 1
                            }] == id);
                        }
                    },
                    _ => {},
                }
            }
        }
        assert forall|i: int| 0 <= i < t.set.len() implies 1 <= #[trigger] t.set[i]
            <= t.made.len() by {
            assert(t.set.contains(t.set[i]));
        }
    }
}

/// The handle was added at some time and has not been removed since.
pub open spec fn added_since(calls: Seq<SetCall>, id: usize) -> bool {
    exists|i: int|
        0 <= i < calls.len() && #[trigger] calls[i] == SetCall::Add(id) && forall|j: int|
            i < j < calls.len() ==> #[trigger] calls[j] != SetCall::Remove(id)
}

/// A handle is in a set exactly if it was added and has not been removed since, over any row
/// of calls.
pub proof fn law_members_were_added(calls: Seq<SetCall>, id: usize)
    requires
        set_allowed(calls),
    ensures
        set_after(calls).set.contains(id) == added_since(calls, id),
    decreases calls.len(),
{
    if calls.len() > 0 {
        let fewer = calls.drop_last();
        let before = set_after(fewer).set;
        let n = calls.len() - 1;
        law_members_were_added(fewer, id);
        law_handles_are_numbered(fewer);
        match calls.last() {
            SetCall::Add(x) => {
                law_added_is_member(before, x);
            },
            SetCall::Remove(x) => {
                law_removed_is_no_member(before, x);
            },
            _ => {},
        }
        if calls.last() == SetCall::Add(id) {
            assert(calls[n] == SetCall::Add(id));
        } else if calls.last() == SetCall::Remove(id) {
            assert(calls[n] == SetCall::Remove(id));
            assert(!added_since(calls, id));
        } else {
            if added_since(fewer, id) {
                let i = choose|i: int|
                    0 <= i < fewer.len() && #[trigger] fewer[i] == SetCall::Add(id) && forall|
                        j: int,
                    |
                        i < j < fewer.len() ==> #[trigger] fewer[j] != SetCall::Remove(id);
                assert(calls[i] == SetCall::Add(id));
                assert forall|j: int| i < j < calls.len() implies #[trigger] calls[j]
                    != SetCall::Remove(id) by {
                    if j < n {
                        assert(fewer[j] == calls[j]);
                    }
                }
            }
            if added_since(calls, id) {
                let i = choose|i: int|
                    0 <= i < calls.len() && #[trigger] calls[i] == SetCall::Add(id) && forall|
                        j: int,
                    |
                        i < j < calls.len() ==> #[trigger] calls[j] != SetCall::Remove(id);
                assert(fewer[i] == SetCall::Add(id));
                assert forall|j: int| i < j < fewer.len() implies #[trigger] fewer[j]
                    != SetCall::Remove(id) by {
                    assert(calls[j] == fewer[j]);
                }
            }
        }
    }
}

/// The members of a set keep their order over any row of calls: the next call leaves those
/// that stay in the order in which they were, and a handle that it adds comes last.
pub proof fn law_members_keep_order(calls: Seq<SetCall>, call: SetCall)
    requires
        set_allowed(calls),
        set_allowed(calls.push(call)),
    ensures
        ({
            let before = set_after(calls).set;
            let now = set_after(calls.push(call)).set;
            match call {
                SetCall::Handle => now == before,
                SetCall::Add(id) => before.is_prefix_of(now) && now.contains(id) && (
                !before.contains(id) ==> now.len() == before.len() + 1 && now.last() == id),
                SetCall::Remove(id) => now == before.filter(|x: usize| x != id),
            }
        }),
{
    assert(calls.push(call).drop_last() =~= calls);
    law_handles_are_numbered(calls);
    match call {
        SetCall::Add(id) => {
            law_added_is_member(set_after(calls).set, id);
        },
        SetCall::Remove(id) => {
            law_removed_is_no_member(set_after(calls).set, id);
        },
        _ => {},
    }
}

} // verus!
