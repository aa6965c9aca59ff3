//! A channel whose two ends take turns.
//!
//! The ends work on a [`Link`], which is handed to them call by call. No call is interrupted
//! by the other end, so each can say exactly what it returns and leaves behind. The spec
//! functions here are what the calls leave behind.
use crate::coherence::{
    armed, idle, inv, leaving, lemma_messages_advance, lemma_messages_len, lemma_messages_pop,
    lemma_messages_single, RxView, TxState,
};
use crate::errors::{RecvError, RecvTimeoutError, TryRecvError};
use crate::limits::{DISCONNECTED, MAX_STEALS};
use crate::link::{messages, Link, Memory};
use crate::polling::stolen;
use crate::receiving::{Awaiting, Leaving};
use crate::ring::Segment;
use crate::system::lemma_fresh;
use crate::texts;
use std::marker::PhantomData;
use vstd::prelude::*;

verus! {

/// The sending end of a channel.
pub struct Sender<T> {
    marker: PhantomData<T>,
    identity: Ghost<int>,
}

/// The receiving end of a channel.
pub struct Receiver<T> {
    marker: PhantomData<T>,
    identity: Ghost<int>,
}

/// The sender between calls, or gone.
pub open spec fn tx_at_rest<T>(m: Memory<T>) -> TxState<T> {
    if m.sender_open {
        TxState::Idle
    } else {
        TxState::Gone
    }
}

/// The receiver between calls, or gone.
pub open spec fn rx_at_rest<T>(m: Memory<T>, is_armed: bool) -> RxView {
    if !m.receiver_open {
        leaving(Leaving::Done)
    } else if is_armed {
        armed(m.token)
    } else {
        idle()
    }
}

impl<T> Link<T> {
    /// The memory is as it is between calls.
    pub open spec fn wf(&self) -> bool {
        &&& inv(self@, tx_at_rest(self@), rx_at_rest(self@, self.armed()))
        &&& self.armed() ==> self@.receiver_open
    }
}

/// The queues after one more message.
pub open spec fn queued<T>(segments: Seq<Segment<T>>, t: T) -> Seq<Segment<T>> {
    if segments.last().full() {
        segments.push(Segment { items: seq![t], capacity: 2 * segments.last().capacity })
    } else {
        segments.update(segments.len() - 1, segments.last().pushed(t))
    }
}

/// The memory after a message has been sent through a channel that is connected. A receiver
/// that waits is woken.
pub open spec fn sent<T>(m: Memory<T>, t: T) -> Memory<T> {
    Memory {
        segments: queued(m.segments, t),
        counter: (m.counter + 1) as isize,
        to_wake: if m.counter == -1 {
            0
        } else {
            m.to_wake
        },
        woken: m.woken || m.counter == -1,
        ..m
    }
}

/// The memory after the sender has left. A receiver that waits is woken.
pub open spec fn hung_up<T>(m: Memory<T>) -> Memory<T> {
    Memory {
        counter: DISCONNECTED,
        connected: false,
        to_wake: if m.counter == -1 {
            0
        } else {
            m.to_wake
        },
        woken: m.woken || m.counter == -1,
        sender_open: false,
        ..m
    }
}

/// The queues from the first on that the receiver can take a message from; the last one if
/// there is none.
pub open spec fn reached<T>(segments: Seq<Segment<T>>) -> Seq<Segment<T>>
    decreases segments.len(),
{
    if segments.len() > 1 && segments[0].items.len() == 0 {
        reached(segments.drop_first())
    } else {
        segments
    }
}

/// The memory after the receiver has gone over to the queue that it can take a message from.
pub open spec fn gone_over<T>(m: Memory<T>) -> Memory<T> {
    Memory {
        segments: reached(m.segments),
        held: m.held && reached(m.segments).len() == m.segments.len(),
        ..m
    }
}

/// The memory after one more steal. When there are many, the counter is told of them.
pub open spec fn accounted<T>(m: Memory<T>) -> Memory<T> {
    if m.steals <= MAX_STEALS {
        Memory { steals: (m.steals + 1) as isize, ..m }
    } else if m.counter == DISCONNECTED {
        Memory { steals: stolen(m.steals), ..m }
    } else {
        Memory { counter: (m.counter - m.steals) as isize, steals: 1, ..m }
    }
}

/// The memory after the receiver has taken a message if there is one.
pub open spec fn polled<T>(m: Memory<T>) -> Memory<T> {
    let g = gone_over(m);
    if g.front().items.len() > 0 {
        accounted(Memory { segments: g.segments.update(0, g.front().popped()), ..g })
    } else {
        g
    }
}

/// What the receiver gets.
pub open spec fn poll_result<T>(m: Memory<T>) -> Result<T, TryRecvError> {
    if m.items().len() > 0 {
        Ok(m.items()[0])
    } else if m.sender_open {
        Err(TryRecvError::Empty)
    } else {
        Err(TryRecvError::Disconnected)
    }
}

/// Whether a receive need not wait.
pub open spec fn ready<T>(m: Memory<T>) -> bool {
    m.items().len() > 0 || !m.sender_open
}

/// The queues that the receiver goes over hold no message.
pub proof fn lemma_reached<T>(segments: Seq<Segment<T>>)
    ensures
        reached(segments).len() <= segments.len(),
        messages(reached(segments)) == messages(segments),
        segments.len() > 0 ==> {
            &&& reached(segments).len() > 0
            &&& reached(segments)[0].items.len() == 0 ==> reached(segments).len() == 1
        },
    decreases segments.len(),
{
    if segments.len() > 1 && segments[0].items.len() == 0 {
        lemma_reached(segments.drop_first());
        lemma_messages_advance(segments);
    }
}

/// A receive that does not wait takes the oldest message and leaves the others. A second one
/// finds the queues where the first one has left them.
pub proof fn lemma_polled<T>(m: Memory<T>)
    requires
        m.segments.len() > 0,
    ensures
        poll_result(m) is Ok ==> polled(m).items() == m.items().drop_first(),
        poll_result(m) is Err ==> {
            &&& polled(m) == gone_over(m)
            &&& polled(m).items() == m.items()
            &&& gone_over(gone_over(m)) == gone_over(m)
        },
{
    lemma_reached(m.segments);
    lemma_messages_len(reached(m.segments), 0);
    if reached(m.segments)[0].items.len() > 0 {
        lemma_messages_pop(reached(m.segments));
    } else {
        lemma_messages_single(reached(m.segments));
    }
}

/// What a receive that waits gets where it need not wait.
pub open spec fn receive_result<T>(m: Memory<T>) -> Result<T, RecvError> {
    match poll_result(m) {
        Ok(t) => Ok(t),
        Err(_) => Err(RecvError),
    }
}

/// The memory after a wait until `deadline` in vain: the receiver has made `token` and has
/// told the counter of its steals, but for one that stands for the wait.
pub open spec fn timed_out<T>(m: Memory<T>, deadline: u64, token: usize) -> Memory<T> {
    Memory { counter: 1, to_wake: 0, token, woken: false, steals: 1, ..gone_over(m) }.sleep(
        deadline,
    )
}

/// What a receive that waits until a deadline gets.
pub open spec fn await_result<T>(m: Memory<T>) -> Result<T, RecvTimeoutError> {
    Awaiting::outcome(poll_result(m))
}

/// The memory after the receiver has left. It has dropped the messages that were pending and
/// gone over to the last queue, unless the sender had left before it.
pub open spec fn departed<T>(m: Memory<T>) -> Memory<T> {
    let drained = if m.sender_open && m.items().len() > 0 {
        Memory {
            segments: seq![Segment::new(m.back().capacity)],
            held: false,
            steals: (m.steals + m.items().len()) as isize,
            ..m
        }
    } else {
        m
    };
    Memory { counter: DISCONNECTED, connected: false, receiver_open: false, ..drained }
}

/// The memory after the receiver has announced `token` for a selection, or has found that
/// there is no need to.
pub open spec fn announced<T>(m: Memory<T>, token: usize) -> Memory<T> {
    if !ready(m) {
        Memory { counter: -1isize, to_wake: token, token, woken: false, steals: 0, ..m }
    } else {
        Memory {
            counter: if m.sender_open {
                m.items().len() as isize
            } else {
                DISCONNECTED
            },
            token,
            woken: false,
            steals: 0,
            ..m
        }
    }
}

/// The memory after the receiver has taken its announcement back.
pub open spec fn withdrawn<T>(m: Memory<T>) -> Memory<T> {
    if m.sender_open {
        Memory { counter: (m.items().len() + 1) as isize, to_wake: 0, steals: 1, ..m }
    } else {
        m
    }
}

impl<T> Sender<T> {
    /// Which channel this is an end of.
    pub closed spec fn identity(&self) -> int {
        self.identity@
    }

    /// The end belongs to the channel whose memory this is.
    pub open spec fn of(&self, link: Link<T>) -> bool {
        self.identity() == link.identity()
    }
}

impl<T> Receiver<T> {
    /// Which channel this is an end of.
    pub closed spec fn identity(&self) -> int {
        self.identity@
    }

    /// The end belongs to the channel whose memory this is.
    pub open spec fn of(&self, link: Link<T>) -> bool {
        self.identity() == link.identity()
    }

    /// The receiving end of the channel with the given identity.
    pub(crate) fn new(identity: Ghost<int>) -> (r: Self)
        ensures
            r.identity() == identity@,
    {
        Receiver { marker: PhantomData, identity }
    }

    /// The text shown for a receiver.
    pub fn debug(&self) -> (text: &'static str)
        ensures
            text@ == "Receiver { .. }"@,
    {
        texts::receiver()
    }
}

/// A channel for messages of type `T`: its two ends and its memory. Messages without a size
/// are not supported.
pub fn channel<T: 'static>() -> (r: (Sender<T>, Receiver<T>, Link<T>))
    requires
        vstd::layout::size_of::<T>() != 0,
    ensures
        r.0.of(r.2),
        r.1.of(r.2),
        r.2.wf(),
        !r.2.armed(),
        r.2@ == Memory::<T>::fresh(),
        r.2@.items() == Seq::<T>::empty(),
        r.2@.sender_open && r.2@.receiver_open && r.2@.connected,
        r.2@.segments.len() == 1,
        r.2@.segments[0].capacity == 128,
        r.2@.to_wake == 0 && !r.2@.woken,
{
    let link = Link::new();
    proof {
        lemma_fresh::<T>();
        lemma_messages_single(link@.segments);
    }
    let identity: Ghost<int> = Ghost(link.identity());
    (Sender { marker: PhantomData, identity }, Receiver::new(identity), link)
}

} // verus!
