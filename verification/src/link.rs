//! The memory that the two ends of a channel share.
//!
//! [`Memory`] is its mathematical value, and the spec functions on it say what each
//! indivisible access reads and writes. [`Link`] is such a memory owned by one thread.
use crate::blocking::signal;
use crate::limits::{DISCONNECTED, INITIAL_CAPACITY};
use crate::ring::{Ring, Segment};
use vstd::prelude::*;

verus! {

/// Outcome of asking for the next queue.
#[derive(Clone, Copy, Debug, PartialEq, Eq, Structural)]
pub enum Fetched {
    /// A queue was there; the receiver keeps it until the current one is drained.
    Queue,
    /// No queue is waiting, and one may still come.
    Empty,
    /// No queue is waiting, and none will come.
    Closed,
}

/// The value of a channel's memory.
#[verifier::ext_equal]
pub struct Memory<T> {
    /// The queues in the order in which the sender made them. The receiver takes from the
    /// first and the sender adds to the last.
    pub segments: Seq<Segment<T>>,
    /// The receiver has already been handed the second queue.
    pub held: bool,
    /// Messages sent and not yet accounted for by the receiver.
    pub counter: isize,
    /// Neither side has begun to hang up.
    pub connected: bool,
    /// The token of a receiver that waits to be woken, or zero.
    pub to_wake: usize,
    /// The token that the receiver made last.
    pub token: usize,
    /// Whether `token` has been signalled.
    pub woken: bool,
    /// The sender's end of the hand-over line for queues is open.
    pub sender_open: bool,
    /// The receiver's end of the hand-over line for queues is open.
    pub receiver_open: bool,
    /// Messages that the receiver took without telling the counter.
    pub steals: isize,
    /// The time.
    pub clock: u64,
}

/// All messages in a row of queues, oldest first.
pub open spec fn messages<T>(segments: Seq<Segment<T>>) -> Seq<T>
    decreases segments.len(),
{
    if segments.len() == 0 {
        Seq::empty()
    } else {
        segments[0].items + messages(segments.drop_first())
    }
}

impl<T> Memory<T> {
    /// The memory of a fresh channel.
    pub open spec fn fresh() -> Self {
        Memory {
            segments: seq![Segment::new(INITIAL_CAPACITY as nat)],
            held: false,
            counter: 0,
            connected: true,
            to_wake: 0,
            token: 0,
            woken: false,
            sender_open: true,
            receiver_open: true,
            steals: 0,
            clock: 0,
        }
    }

    /// The pending messages, oldest first.
    pub open spec fn items(self) -> Seq<T> {
        messages(self.segments)
    }

    /// The queue the receiver takes from.
    pub open spec fn front(self) -> Segment<T> {
        self.segments[0]
    }

    /// The queue the sender adds to.
    pub open spec fn back(self) -> Segment<T> {
        self.segments.last()
    }

    /// The sender adds a message to its queue.
    pub open spec fn try_push(self, t: T) -> (Self, Option<T>) {
        if self.back().full() {
            (self, Some(t))
        } else {
            (
                Memory {
                    segments: self.segments.update(
                        self.segments.len() - 1,
                        self.back().pushed(t),
                    ),
                    ..self
                },
                None,
            )
        }
    }

    /// The sender takes a message back out of its own queue.
    pub open spec fn take_back(self) -> (Self, Option<T>) {
        if self.back().items.len() == 0 {
            (self, None)
        } else {
            (
                Memory {
                    segments: self.segments.update(
                        self.segments.len() - 1,
                        self.back().popped(),
                    ),
                    ..self
                },
                Some(self.back().items[0]),
            )
        }
    }

    /// The sender makes a queue and hands its other end to the receiver.
    pub open spec fn extend(self, capacity: nat) -> (Self, bool) {
        if self.receiver_open {
            (Memory { segments: self.segments.push(Segment::new(capacity)), ..self }, true)
        } else {
            (self, false)
        }
    }

    /// The receiver takes a message from its queue.
    pub open spec fn try_pop(self) -> (Self, Option<T>) {
        if self.front().items.len() == 0 {
            (self, None)
        } else {
            (
                Memory { segments: self.segments.update(0, self.front().popped()), ..self },
                Some(self.front().items[0]),
            )
        }
    }

    /// The receiver asks for the next queue.
    pub open spec fn fetch(self) -> (Self, Fetched) {
        if !self.held && self.segments.len() >= 2 {
            (Memory { held: true, ..self }, Fetched::Queue)
        } else if self.sender_open {
            (self, Fetched::Empty)
        } else {
            (self, Fetched::Closed)
        }
    }

    /// The receiver drops its queue for the next one.
    pub open spec fn advance(self) -> Self {
        if self.held && self.segments.len() >= 2 {
            Memory { segments: self.segments.drop_first(), held: false, ..self }
        } else {
            self
        }
    }

    /// Adds to the counter, around its end if need be.
    pub open spec fn add_count(self, amount: isize) -> Self {
        Memory { counter: self.counter.wrapping_add(amount), ..self }
    }

    /// Subtracts from the counter, around its end if need be.
    pub open spec fn sub_count(self, amount: isize) -> Self {
        Memory { counter: self.counter.wrapping_sub(amount), ..self }
    }

    /// Sets the counter.
    pub open spec fn set_count(self, count: isize) -> Self {
        Memory { counter: count, ..self }
    }

    /// Marks the counter as disconnected if it holds `expected`.
    pub open spec fn mark_if(self, expected: isize) -> Self {
        if self.counter == expected {
            self.set_count(DISCONNECTED)
        } else {
            self
        }
    }

    /// Marks the channel as no longer connected.
    pub open spec fn disconnect(self) -> Self {
        Memory { connected: false, ..self }
    }

    /// Sets the token to wake.
    pub open spec fn set_wake(self, token: usize) -> Self {
        Memory { to_wake: token, ..self }
    }

    /// Makes `token` the receiver's token.
    pub open spec fn renew(self, token: usize) -> Self {
        Memory { token, woken: false, ..self }
    }

    /// Signals a token; a token that is no longer the receiver's reaches nobody.
    pub open spec fn signal(self, token: usize) -> Self {
        if token == self.token {
            Memory { woken: true, ..self }
        } else {
            self
        }
    }

    /// Sets the number of steals.
    pub open spec fn with_steals(self, steals: isize) -> Self {
        Memory { steals, ..self }
    }

    /// The sender's end of the hand-over line closes.
    pub open spec fn close_sender(self) -> Self {
        Memory { sender_open: false, ..self }
    }

    /// The receiver's end of the hand-over line closes.
    pub open spec fn close_receiver(self) -> Self {
        Memory { receiver_open: false, ..self }
    }

    /// Time passes until `deadline`, unless it has come already.
    pub open spec fn sleep(self, deadline: u64) -> Self {
        if self.clock < deadline {
            Memory { clock: deadline, ..self }
        } else {
            self
        }
    }
}

/// The memory of a channel, owned by one thread.
pub struct Link<T> {
    segments: Vec<Ring<T>>,
    held: bool,
    counter: isize,
    connected: bool,
    to_wake: usize,
    token: usize,
    woken: bool,
    sender_open: bool,
    receiver_open: bool,
    steals: isize,
    clock: u64,
    armed: Ghost<bool>,
    identity: Ghost<int>,
}

impl<T> View for Link<T> {
    type V = Memory<T>;

    closed spec fn view(&self) -> Memory<T> {
        Memory {
            segments: Seq::new(self.segments@.len(), |i: int| self.segments@[i]@),
            held: self.held,
            counter: self.counter,
            connected: self.connected,
            to_wake: self.to_wake,
            token: self.token,
            woken: self.woken,
            sender_open: self.sender_open,
            receiver_open: self.receiver_open,
            steals: self.steals,
            clock: self.clock,
        }
    }
}

impl<T> Link<T> {
    /// The receiver has announced that it waits and has not withdrawn.
    pub closed spec fn armed(&self) -> bool {
        self.armed@
    }

    /// Which channel this is the memory of; the ends of the channel carry it, so that they
    /// are used with no other memory.
    pub closed spec fn identity(&self) -> int {
        self.identity@
    }

    /// The memory of a fresh channel.
    pub fn new() -> (r: Self)
        ensures
            r@ == Memory::<T>::fresh(),
            !r.armed(),
    {
        let mut segments: Vec<Ring<T>> = Vec::new();
        segments.push(Ring::new(INITIAL_CAPACITY));
        let r = Link {
            segments,
            held: false,
            counter: 0,
            connected: true,
            to_wake: 0,
            token: 0,
            woken: false,
            sender_open: true,
            receiver_open: true,
            steals: 0,
            clock: 0,
            armed: Ghost(false),
            identity: Ghost(arbitrary()),
        };
        assert(r@.segments =~= Memory::<T>::fresh().segments);
        r
    }

    /// Records whether the receiver has announced that it waits.
    pub(crate) fn set_armed(&mut self, armed: Ghost<bool>)
        ensures
            final(self)@ == old(self)@,
            final(self).armed() == armed@,
            final(self).identity() == old(self).identity(),
    {
        self.armed = armed;
    }

    /// The sender adds a message to its queue, or gets it back when the queue is full.
    pub(crate) fn try_push(&mut self, t: T) -> (left: Option<T>)
        requires
            old(self)@.segments.len() > 0,
        ensures
            (final(self)@, left) == old(self)@.try_push(t),
            final(self).armed() == old(self).armed(),
            final(self).identity() == old(self).identity(),
    {
        let n: usize = self.segments.len() - 1;
        let left = self.segments[n].try_push(t);
        assert(self@.segments =~= old(self)@.try_push(t).0.segments);
        left
    }

    /// The sender takes a message back out of its own queue.
    pub(crate) fn take_back(&mut self) -> (got: Option<T>)
        requires
            old(self)@.segments.len() > 0,
        ensures
            (final(self)@, got) == old(self)@.take_back(),
            final(self).armed() == old(self).armed(),
            final(self).identity() == old(self).identity(),
    {
        let n: usize = self.segments.len() - 1;
        let got = self.segments[n].try_pop();
        assert(self@.segments =~= old(self)@.take_back().0.segments);
        got
    }

    /// The capacity of the sender's queue.
    pub(crate) fn back_capacity(&self) -> (r: usize)
        requires
            self@.segments.len() > 0,
        ensures
            r == self@.back().capacity,
    {
        self.segments[self.segments.len() - 1].capacity()
    }

    /// The sender makes a queue and hands its other end to the receiver; `false` if the
    /// receiver's end of the line is closed.
    pub(crate) fn extend(&mut self, capacity: usize) -> (accepted: bool)
        ensures
            (final(self)@, accepted) == old(self)@.extend(capacity as nat),
            final(self).armed() == old(self).armed(),
            final(self).identity() == old(self).identity(),
    {
        if self.receiver_open {
            self.segments.push(Ring::new(capacity));
            assert(self@.segments =~= old(self)@.extend(capacity as nat).0.segments);
            true
        } else {
            false
        }
    }

    /// The receiver takes a message from its queue.
    pub(crate) fn try_pop(&mut self) -> (got: Option<T>)
        requires
            old(self)@.segments.len() > 0,
        ensures
            (final(self)@, got) == old(self)@.try_pop(),
            final(self).armed() == old(self).armed(),
            final(self).identity() == old(self).identity(),
    {
        let got = self.segments[0].try_pop();
        assert(self@.segments =~= old(self)@.try_pop().0.segments);
        got
    }

    /// The capacity of the receiver's queue.
    pub(crate) fn front_capacity(&self) -> (r: usize)
        requires
            self@.segments.len() > 0,
        ensures
            r == self@.front().capacity,
    {
        self.segments[0].capacity()
    }

    /// How many messages the receiver's queue holds.
    pub(crate) fn front_size(&self) -> (r: usize)
        requires
            self@.segments.len() > 0,
        ensures
            r == self@.front().items.len(),
    {
        self.segments[0].size()
    }

    /// Whether the receiver has already been handed the next queue.
    pub(crate) fn holds_next(&self) -> (r: bool)
        ensures
            r == self@.held,
    {
        self.held
    }

    /// The receiver asks for the next queue.
    pub(crate) fn fetch(&mut self) -> (r: Fetched)
        ensures
            (final(self)@, r) == old(self)@.fetch(),
            final(self).armed() == old(self).armed(),
            final(self).identity() == old(self).identity(),
    {
        if !self.held && self.segments.len() >= 2 {
            self.held = true;
            Fetched::Queue
        } else if self.sender_open {
            Fetched::Empty
        } else {
            Fetched::Closed
        }
    }

    /// The receiver drops its queue for the next one.
    pub(crate) fn advance(&mut self)
        ensures
            final(self)@ == old(self)@.advance(),
            final(self).armed() == old(self).armed(),
            final(self).identity() == old(self).identity(),
    {
        if self.held && self.segments.len() >= 2 {
            let _drained = self.segments.remove(0);
            self.held = false;
            assert(self@.segments =~= old(self)@.advance().segments);
        }
    }

    /// Reads the counter.
    pub(crate) fn load_count(&self) -> (count: isize)
        ensures
            count == self@.counter,
    {
        self.counter
    }

    /// Adds to the counter and returns what it held before.
    pub(crate) fn add_count(&mut self, amount: isize) -> (before: isize)
        ensures
            before == old(self)@.counter,
            final(self)@ == old(self)@.add_count(amount),
            final(self).armed() == old(self).armed(),
            final(self).identity() == old(self).identity(),
    {
        let before: isize = self.counter;
        self.counter = before.wrapping_add(amount);
        before
    }

    /// Subtracts from the counter and returns what it held before.
    pub(crate) fn sub_count(&mut self, amount: isize) -> (before: isize)
        ensures
            before == old(self)@.counter,
            final(self)@ == old(self)@.sub_count(amount),
            final(self).armed() == old(self).armed(),
            final(self).identity() == old(self).identity(),
    {
        let before: isize = self.counter;
        self.counter = before.wrapping_sub(amount);
        before
    }

    /// Sets the counter and returns what it held before.
    pub(crate) fn swap_count(&mut self, count: isize) -> (before: isize)
        ensures
            before == old(self)@.counter,
            final(self)@ == old(self)@.set_count(count),
            final(self).armed() == old(self).armed(),
            final(self).identity() == old(self).identity(),
    {
        let before: isize = self.counter;
        self.counter = count;
        before
    }

    /// Marks the counter as disconnected if it holds `expected`; returns what it held before.
    pub(crate) fn mark_if(&mut self, expected: isize) -> (before: isize)
        ensures
            before == old(self)@.counter,
            final(self)@ == old(self)@.mark_if(expected),
            final(self).armed() == old(self).armed(),
            final(self).identity() == old(self).identity(),
    {
        let before: isize = self.counter;
        if before == expected {
            self.counter = DISCONNECTED;
        }
        before
    }

    /// Whether neither side has begun to hang up.
    pub(crate) fn is_connected(&self) -> (r: bool)
        ensures
            r == self@.connected,
    {
        self.connected
    }

    /// Marks the channel as no longer connected.
    pub(crate) fn disconnect(&mut self)
        ensures
            final(self)@ == old(self)@.disconnect(),
            final(self).armed() == old(self).armed(),
            final(self).identity() == old(self).identity(),
    {
        self.connected = false;
    }

    /// Reads the token to wake.
    pub(crate) fn load_wake(&self) -> (token: usize)
        ensures
            token == self@.to_wake,
    {
        self.to_wake
    }

    /// Sets the token to wake and returns the one that was there.
    pub(crate) fn swap_wake(&mut self, token: usize) -> (before: usize)
        ensures
            before == old(self)@.to_wake,
            final(self)@ == old(self)@.set_wake(token),
            final(self).armed() == old(self).armed(),
            final(self).identity() == old(self).identity(),
    {
        let before: usize = self.to_wake;
        self.to_wake = token;
        before
    }

    /// Makes a token for the receiver, unlike the one that it had.
    pub(crate) fn new_token(&mut self) -> (token: usize)
        ensures
            token != 0,
            token != old(self)@.token,
            final(self)@ == old(self)@.renew(token),
            final(self).armed() == old(self).armed(),
            final(self).identity() == old(self).identity(),
    {
        let token: usize = if self.token == 1 {
            2
        } else {
            1
        };
        self.token = token;
        self.woken = false;
        token
    }

    /// Makes `token` the receiver's token.
    pub(crate) fn adopt_token(&mut self, token: usize)
        ensures
            final(self)@ == old(self)@.renew(token),
            final(self).armed() == old(self).armed(),
            final(self).identity() == old(self).identity(),
    {
        self.token = token;
        self.woken = false;
    }

    /// Whether the receiver's token has been signalled.
    pub(crate) fn is_woken(&self) -> (r: bool)
        ensures
            r == self@.woken,
    {
        self.woken
    }

    /// Signals a token; returns whether this wakes the receiver.
    pub(crate) fn signal(&mut self, token: usize) -> (wake: bool)
        ensures
            wake == (token == old(self)@.token && !old(self)@.woken),
            final(self)@ == old(self)@.signal(token),
            final(self).armed() == old(self).armed(),
            final(self).identity() == old(self).identity(),
    {
        if token == self.token {
            let wake = signal(self.woken);
            self.woken = true;
            wake
        } else {
            false
        }
    }

    /// Reads the number of steals.
    pub(crate) fn steals(&self) -> (r: isize)
        ensures
            r == self@.steals,
    {
        self.steals
    }

    /// Sets the number of steals.
    pub(crate) fn set_steals(&mut self, steals: isize)
        ensures
            final(self)@ == old(self)@.with_steals(steals),
            final(self).armed() == old(self).armed(),
            final(self).identity() == old(self).identity(),
    {
        self.steals = steals;
    }

    /// Closes the sender's end of the hand-over line.
    pub(crate) fn close_sender(&mut self)
        ensures
            final(self)@ == old(self)@.close_sender(),
            final(self).armed() == old(self).armed(),
            final(self).identity() == old(self).identity(),
    {
        self.sender_open = false;
    }

    /// Closes the receiver's end of the hand-over line.
    pub(crate) fn close_receiver(&mut self)
        ensures
            final(self)@ == old(self)@.close_receiver(),
            final(self).armed() == old(self).armed(),
            final(self).identity() == old(self).identity(),
    {
        self.receiver_open = false;
    }

    /// The time.
    pub(crate) fn now(&self) -> (r: u64)
        ensures
            r == self@.clock,
    {
        self.clock
    }

    /// Lets the time pass until `deadline`.
    pub(crate) fn sleep(&mut self, deadline: u64)
        ensures
            final(self)@ == old(self)@.sleep(deadline),
            final(self).armed() == old(self).armed(),
            final(self).identity() == old(self).identity(),
    {
        if self.clock < deadline {
            self.clock = deadline;
        }
    }
}

} // verus!
