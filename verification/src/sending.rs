//! What the sending end of a channel does, one access to the shared memory at a time.
//!
//! A value of [`Sending`] or [`Hangup`] says which access comes next. The functions on it
//! take what the access returned and say how to go on; whoever runs them performs the
//! accesses.
use crate::errors::SendError;
use crate::limits::DISCONNECTED;
use crate::link::{Link, Memory};
use vstd::prelude::*;

verus! {

/// A message on its way into the channel.
pub enum Sending<T> {
    /// Read whether the channel is connected.
    Check(T),
    /// Add the message to the sender's queue.
    Push(T),
    /// The queue was full: make one of [`Sending::wider`] capacity and hand it over.
    Grow(T),
    /// Add the message to the new queue.
    Repush(T),
    /// Add [`Sending::weight`] to the counter.
    Count,
    /// The receiver waits: take its token out of the memory.
    Take,
    /// Signal the token.
    Wake(usize),
    /// The receiver is gone: set the counter to disconnected again.
    Mark,
    /// Take the orphaned message out of the sender's queue.
    Reclaim,
    /// Look for a second message in the sender's queue; holds what was taken first.
    Verify(Option<T>),
    /// Finished.
    Done(Result<(), SendError<T>>),
}

impl<T> Sending<T> {
    /// Begins to send `t`.
    #[verifier::allow_in_spec]
    pub fn start(t: T) -> (next: Self)
        returns
            Sending::Check(t),
    {
        Sending::Check(t)
    }

    /// Goes on after [`Sending::Check`] with whether the channel is connected.
    #[verifier::allow_in_spec]
    pub fn checked(t: T, connected: bool) -> (next: Self)
        returns
            (if connected {
                Sending::Push(t)
            } else {
                Sending::Done(Err(SendError(t)))
            }),
    {
        if connected {
            Sending::Push(t)
        } else {
            Sending::Done(Err(SendError(t)))
        }
    }

    /// Goes on after [`Sending::Push`] with the message if it did not fit.
    #[verifier::allow_in_spec]
    pub fn pushed(left: Option<T>) -> (next: Self)
        returns
            (match left {
                None => Sending::Count,
                Some(t) => Sending::Grow(t),
            }),
    {
        match left {
            None => Sending::Count,
            Some(t) => Sending::Grow(t),
        }
    }

    /// The capacity of the queue that follows a full one.
    #[verifier::allow_in_spec]
    pub fn wider(capacity: usize) -> (r: usize)
        requires
            2 * capacity <= usize::MAX,
        returns
            (2 * capacity) as usize,
    {
        2 * capacity
    }

    /// Goes on after [`Sending::Grow`] with whether the receiver's end of the hand-over line
    /// took the new queue. If it did not, the receiver is gone.
    #[verifier::allow_in_spec]
    pub fn grown(t: T, accepted: bool) -> (next: Self)
        returns
            (if accepted {
                Sending::Repush(t)
            } else {
                Sending::Done(Err(SendError(t)))
            }),
    {
        if accepted {
            Sending::Repush(t)
        } else {
            Sending::Done(Err(SendError(t)))
        }
    }

    /// Goes on after [`Sending::Repush`]: a new queue takes a message.
    #[verifier::allow_in_spec]
    pub fn repushed(left: Option<T>) -> (next: Self)
        requires
            left is None,
        returns
            Sending::<T>::Count,
    {
        Sending::Count
    }

    /// What is added to the counter for a message.
    #[verifier::allow_in_spec]
    pub fn weight() -> (r: isize)
        returns
            1isize,
    {
        1
    }

    /// Goes on after [`Sending::Count`] with what the counter held before.
    #[verifier::allow_in_spec]
    pub fn counted(before: isize) -> (next: Self)
        requires
            before == DISCONNECTED || before >= -2,
        returns
            (if before == DISCONNECTED {
                Sending::Mark
            } else if before == -1 {
                Sending::Take
            } else {
                Sending::<T>::Done(Ok(()))
            }),
    {
        if before == DISCONNECTED {
            Sending::Mark
        } else if before == -1 {
            Sending::Take
        } else {
            Sending::Done(Ok(()))
        }
    }

    /// Goes on after [`Sending::Take`] with the token that was there.
    #[verifier::allow_in_spec]
    pub fn taken(token: usize) -> (next: Self)
        requires
            token != 0,
        returns
            Sending::<T>::Wake(token),
    {
        Sending::Wake(token)
    }

    /// Goes on after [`Sending::Wake`].
    #[verifier::allow_in_spec]
    pub fn signalled() -> (next: Self)
        returns
            Sending::<T>::Done(Ok(())),
    {
        Sending::Done(Ok(()))
    }

    /// Goes on after [`Sending::Mark`].
    #[verifier::allow_in_spec]
    pub fn marked() -> (next: Self)
        returns
            Sending::<T>::Reclaim,
    {
        Sending::Reclaim
    }

    /// Goes on after [`Sending::Reclaim`] with what was taken.
    #[verifier::allow_in_spec]
    pub fn reclaimed(first: Option<T>) -> (next: Self)
        returns
            Sending::Verify(first),
    {
        Sending::Verify(first)
    }

    /// Goes on after [`Sending::Verify`]: no second message is there. A message that nobody
    /// received goes back to the caller.
    #[verifier::allow_in_spec]
    pub fn verified(first: Option<T>, second: Option<T>) -> (next: Self)
        requires
            second is None,
        returns
            Sending::Done(
                match first {
                    Some(t) => Err(SendError(t)),
                    None => Ok(()),
                },
            ),
    {
        Sending::Done(
            match first {
                Some(t) => Err(SendError(t)),
                None => Ok(()),
            },
        )
    }

    /// Whether the next access can only return something that the function that goes on
    /// accepts.
    pub open spec fn admissible(self, m: Memory<T>) -> bool {
        match self {
            Sending::Grow(_) => 2 * m.back().capacity <= usize::MAX,
            Sending::Repush(_) => !m.back().full(),
            Sending::Count => m.counter == DISCONNECTED || m.counter >= -2,
            Sending::Take => m.to_wake != 0,
            Sending::Verify(_) => m.back().items.len() == 0,
            _ => true,
        }
    }
}

/// The sender's next access to the memory, and where it goes on from there.
pub open spec fn send_step<T>(m: Memory<T>, at: Sending<T>) -> (Memory<T>, Sending<T>) {
    match at {
        Sending::Check(t) => (m, Sending::checked(t, m.connected)),
        Sending::Push(t) => (m.try_push(t).0, Sending::pushed(m.try_push(t).1)),
        Sending::Grow(t) => {
            let capacity = 2 * m.back().capacity;
            (m.extend(capacity).0, Sending::grown(t, m.extend(capacity).1))
        },
        Sending::Repush(t) => (m.try_push(t).0, Sending::repushed(m.try_push(t).1)),
        Sending::Count => (m.add_count(Sending::<T>::weight()), Sending::counted(m.counter)),
        Sending::Take => (m.set_wake(0), Sending::taken(m.to_wake)),
        Sending::Wake(token) => (m.signal(token), Sending::signalled()),
        Sending::Mark => (m.set_count(DISCONNECTED), Sending::marked()),
        Sending::Reclaim => (m.take_back().0, Sending::reclaimed(m.take_back().1)),
        Sending::Verify(first) => (m.take_back().0, Sending::verified(first, m.take_back().1)),
        Sending::Done(_) => (m, at),
    }
}

/// The sending end on its way out.
#[derive(Clone, Copy, Debug, PartialEq, Eq, Structural)]
pub enum Hangup {
    /// Mark the channel as not connected.
    Disconnect,
    /// Set the counter to disconnected.
    Swap,
    /// The receiver waits: take its token out of the memory.
    Take,
    /// Signal the token.
    Wake(usize),
    /// Give up the sender's end of the hand-over line.
    Release,
    /// Finished.
    Done,
}

impl Hangup {
    /// Begins to hang up.
    #[verifier::allow_in_spec]
    pub fn start() -> (next: Self)
        returns
            Hangup::Disconnect,
    {
        Hangup::Disconnect
    }

    /// Goes on after [`Hangup::Disconnect`].
    #[verifier::allow_in_spec]
    pub fn disconnected() -> (next: Self)
        returns
            Hangup::Swap,
    {
        Hangup::Swap
    }

    /// Goes on after [`Hangup::Swap`] with what the counter held before.
    #[verifier::allow_in_spec]
    pub fn swapped(before: isize) -> (next: Self)
        requires
            before == DISCONNECTED || before >= -1,
        returns
            (if before == -1 {
                Hangup::Take
            } else {
                Hangup::Release
            }),
    {
        if before == -1 {
            Hangup::Take
        } else {
            Hangup::Release
        }
    }

    /// Goes on after [`Hangup::Take`] with the token that was there.
    #[verifier::allow_in_spec]
    pub fn taken(token: usize) -> (next: Self)
        requires
            token != 0,
        returns
            Hangup::Wake(token),
    {
        Hangup::Wake(token)
    }

    /// Goes on after [`Hangup::Wake`].
    #[verifier::allow_in_spec]
    pub fn signalled() -> (next: Self)
        returns
            Hangup::Release,
    {
        Hangup::Release
    }

    /// Goes on after [`Hangup::Release`].
    #[verifier::allow_in_spec]
    pub fn released() -> (next: Self)
        returns
            Hangup::Done,
    {
        Hangup::Done
    }

    /// Whether the next access can only return something that the function that goes on
    /// accepts.
    pub open spec fn admissible<T>(self, m: Memory<T>) -> bool {
        match self {
            Hangup::Swap => m.counter == DISCONNECTED || m.counter >= -1,
            Hangup::Take => m.to_wake != 0,
            _ => true,
        }
    }
}

/// The leaving sender's next access to the memory, and where it goes on from there.
pub open spec fn hangup_step<T>(m: Memory<T>, at: Hangup) -> (Memory<T>, Hangup) {
    match at {
        Hangup::Disconnect => (m.disconnect(), Hangup::disconnected()),
        Hangup::Swap => (m.set_count(DISCONNECTED), Hangup::swapped(m.counter)),
        Hangup::Take => (m.set_wake(0), Hangup::taken(m.to_wake)),
        Hangup::Wake(token) => (m.signal(token), Hangup::signalled()),
        Hangup::Release => (m.close_sender(), Hangup::released()),
        Hangup::Done => (m, at),
    }
}

impl<T> Link<T> {
    /// Performs the sender's next access.
    pub fn send_step(&mut self, at: Sending<T>) -> (next: Sending<T>)
        requires
            old(self)@.segments.len() > 0,
            at.admissible(old(self)@),
        ensures
            (final(self)@, next) == send_step(old(self)@, at),
            final(self).armed() == old(self).armed(),
            final(self).identity() == old(self).identity(),
    {
        match at {
            Sending::Check(t) => {
                let connected = self.is_connected();
                Sending::checked(t, connected)
            },
            Sending::Push(t) => {
                let left = self.try_push(t);
                Sending::pushed(left)
            },
            Sending::Grow(t) => {
                let capacity: usize = Sending::<T>::wider(self.back_capacity());
                let accepted = self.extend(capacity);
                Sending::grown(t, accepted)
            },
            Sending::Repush(t) => {
                let left = self.try_push(t);
                Sending::repushed(left)
            },
            Sending::Count => {
                let before: isize = self.add_count(Sending::<T>::weight());
                Sending::counted(before)
            },
            Sending::Take => {
                let token: usize = self.swap_wake(0);
                Sending::taken(token)
            },
            Sending::Wake(token) => {
                let _wake = self.signal(token);
                Sending::signalled()
            },
            Sending::Mark => {
                let _before: isize = self.swap_count(DISCONNECTED);
                Sending::marked()
            },
            Sending::Reclaim => {
                let first = self.take_back();
                Sending::reclaimed(first)
            },
            Sending::Verify(first) => {
                let second = self.take_back();
                Sending::verified(first, second)
            },
            Sending::Done(result) => Sending::Done(result),
        }
    }

    /// Performs the leaving sender's next access.
    pub fn hangup_step(&mut self, at: Hangup) -> (next: Hangup)
        requires
            at.admissible(old(self)@),
        ensures
            (final(self)@, next) == hangup_step(old(self)@, at),
            final(self).armed() == old(self).armed(),
            final(self).identity() == old(self).identity(),
    {
        match at {
            Hangup::Disconnect => {
                self.disconnect();
                Hangup::disconnected()
            },
            Hangup::Swap => {
                let before: isize = self.swap_count(DISCONNECTED);
                Hangup::swapped(before)
            },
            Hangup::Take => {
                let token: usize = self.swap_wake(0);
                Hangup::taken(token)
            },
            Hangup::Wake(token) => {
                let _wake = self.signal(token);
                Hangup::signalled()
            },
            Hangup::Release => {
                self.close_sender();
                Hangup::released()
            },
            Hangup::Done => Hangup::Done,
        }
    }
}

} // verus!
