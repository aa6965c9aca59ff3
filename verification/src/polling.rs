//! How the receiving end looks for a message, one access to the shared memory at a time.
//!
//! A value of [`Polling`] says which access comes next. The functions on it take what the
//! access returned, and the steals where they matter, and say how to go on.
use crate::errors::TryRecvError;
use crate::limits::{DISCONNECTED, MAX_STEALS};
use crate::link::{Fetched, Link, Memory};
use vstd::prelude::*;

verus! {

/// The steals after one more; the last values of the type are never reached.
#[verifier::allow_in_spec]
pub fn stolen(steals: isize) -> (r: isize)
    returns
        (if steals < isize::MAX - 1 {
            (steals + 1) as isize
        } else {
            steals
        }),
{
    if steals < isize::MAX - 1 {
        steals + 1
    } else {
        steals
    }
}

/// A search for a message that does not wait.
pub enum Polling<T> {
    /// Take a message from the receiver's queue.
    Pop,
    /// Too many steals: set the counter to zero. Holds the message that was found.
    Settle(T),
    /// The sender is gone: set the counter to disconnected again.
    Restore(T),
    /// Put back the part of the count that no steal matches.
    Rebump(T, isize),
    /// The queue was empty: ask for the next one.
    Fetch,
    /// The next queue is there, so nothing more comes into the current one: take what came
    /// into it since it was found empty.
    Recheck,
    /// The current queue is drained: go over to the next one.
    Advance,
    /// Read the counter.
    Load,
    /// The sender is gone: ask once more for a queue.
    Refetch,
    /// The sender is gone and no queue follows: take a message that it left.
    Last,
    /// Finished.
    Done(Result<T, TryRecvError>),
}

impl<T> Polling<T> {
    /// Begins to look for a message.
    #[verifier::allow_in_spec]
    pub fn start() -> (next: Self)
        returns
            Polling::<T>::Pop,
    {
        Polling::Pop
    }

    /// Goes on with a message that was found.
    #[verifier::allow_in_spec]
    pub fn found(steals: isize, t: T) -> (r: (isize, Self))
        returns
            (if steals > MAX_STEALS {
                (steals, Polling::Settle(t))
            } else {
                (stolen(steals), Polling::Done(Ok(t)))
            }),
    {
        if steals > MAX_STEALS {
            (steals, Polling::Settle(t))
        } else {
            (stolen(steals), Polling::Done(Ok(t)))
        }
    }

    /// Goes on after [`Polling::Pop`] with what was taken and with whether the receiver has
    /// already been handed the next queue.
    #[verifier::allow_in_spec]
    pub fn popped(steals: isize, got: Option<T>, held: bool) -> (r: (isize, Self))
        returns
            (match got {
                Some(t) => Polling::found(steals, t),
                None => if held {
                    (steals, Polling::Advance)
                } else {
                    (steals, Polling::Fetch)
                },
            }),
    {
        match got {
            Some(t) => Polling::found(steals, t),
            None => if held {
                (steals, Polling::Advance)
            } else {
                (steals, Polling::Fetch)
            },
        }
    }

    /// Goes on after [`Polling::Settle`] with what the counter held before. As much of it
    /// as there are steals cancels out; the rest goes back.
    #[verifier::allow_in_spec]
    pub fn settled(steals: isize, t: T, before: isize) -> (r: (isize, Self))
        requires
            0 <= steals,
            before == DISCONNECTED || before >= 0,
        returns
            (if before == DISCONNECTED {
                (steals, Polling::Restore(t))
            } else if before < steals {
                ((steals - before) as isize, Polling::Rebump(t, 0))
            } else {
                (0, Polling::Rebump(t, (before - steals) as isize))
            }),
    {
        if before == DISCONNECTED {
            (steals, Polling::Restore(t))
        } else if before < steals {
            (steals - before, Polling::Rebump(t, 0))
        } else {
            (0, Polling::Rebump(t, before - steals))
        }
    }

    /// Goes on after [`Polling::Rebump`] with what the counter held before.
    #[verifier::allow_in_spec]
    pub fn rebumped(steals: isize, t: T, before: isize) -> (r: (isize, Self))
        returns
            (if before == DISCONNECTED {
                (steals, Polling::Restore(t))
            } else {
                (stolen(steals), Polling::Done(Ok(t)))
            }),
    {
        if before == DISCONNECTED {
            (steals, Polling::Restore(t))
        } else {
            (stolen(steals), Polling::Done(Ok(t)))
        }
    }

    /// Goes on after [`Polling::Restore`].
    #[verifier::allow_in_spec]
    pub fn restored(steals: isize, t: T) -> (r: (isize, Self))
        returns
            (stolen(steals), Polling::Done(Ok(t))),
    {
        (stolen(steals), Polling::Done(Ok(t)))
    }

    /// Goes on after [`Polling::Fetch`].
    #[verifier::allow_in_spec]
    pub fn fetched(got: Fetched) -> (next: Self)
        returns
            (match got {
                Fetched::Queue => Polling::<T>::Recheck,
                Fetched::Empty => Polling::<T>::Load,
                Fetched::Closed => Polling::<T>::Last,
            }),
    {
        match got {
            Fetched::Queue => Polling::Recheck,
            Fetched::Empty => Polling::Load,
            Fetched::Closed => Polling::Last,
        }
    }

    /// Goes on after [`Polling::Recheck`] with what was taken.
    #[verifier::allow_in_spec]
    pub fn rechecked(steals: isize, got: Option<T>) -> (r: (isize, Self))
        returns
            (match got {
                Some(t) => Polling::found(steals, t),
                None => (steals, Polling::Advance),
            }),
    {
        match got {
            Some(t) => Polling::found(steals, t),
            None => (steals, Polling::Advance),
        }
    }

    /// Goes on after [`Polling::Advance`].
    #[verifier::allow_in_spec]
    pub fn advanced() -> (next: Self)
        returns
            Polling::<T>::Pop,
    {
        Polling::Pop
    }

    /// Goes on after [`Polling::Load`] with the counter.
    #[verifier::allow_in_spec]
    pub fn loaded(count: isize) -> (next: Self)
        returns
            (if count == DISCONNECTED {
                Polling::<T>::Refetch
            } else {
                Polling::<T>::Done(Err(TryRecvError::Empty))
            }),
    {
        if count == DISCONNECTED {
            Polling::Refetch
        } else {
            Polling::Done(Err(TryRecvError::Empty))
        }
    }

    /// Goes on after [`Polling::Refetch`].
    #[verifier::allow_in_spec]
    pub fn refetched(got: Fetched) -> (next: Self)
        returns
            (match got {
                Fetched::Queue => Polling::<T>::Recheck,
                _ => Polling::<T>::Last,
            }),
    {
        match got {
            Fetched::Queue => Polling::Recheck,
            _ => Polling::Last,
        }
    }

    /// Goes on after [`Polling::Last`] with what was taken. The counter is no longer in use,
    /// so the message is not counted.
    #[verifier::allow_in_spec]
    pub fn left_over(got: Option<T>) -> (next: Self)
        returns
            (match got {
                Some(t) => Polling::Done(Ok(t)),
                None => Polling::Done(Err(TryRecvError::Disconnected)),
            }),
    {
        match got {
            Some(t) => Polling::Done(Ok(t)),
            None => Polling::Done(Err(TryRecvError::Disconnected)),
        }
    }

    /// Whether the next access can only return something that the function that goes on
    /// accepts.
    pub open spec fn admissible(self, m: Memory<T>) -> bool {
        match self {
            Polling::Settle(_) => 0 <= m.steals && (m.counter == DISCONNECTED || m.counter >= 0),
            _ => true,
        }
    }
}

/// The receiver's next access to the memory, and where it goes on from there.
#[verifier::opaque]
pub open spec fn poll_step<T>(m: Memory<T>, at: Polling<T>) -> (Memory<T>, Polling<T>) {
    match at {
        Polling::Pop => {
            let r = Polling::popped(m.steals, m.try_pop().1, m.held);
            (m.try_pop().0.with_steals(r.0), r.1)
        },
        Polling::Settle(t) => {
            let r = Polling::settled(m.steals, t, m.counter);
            (m.set_count(0).with_steals(r.0), r.1)
        },
        Polling::Restore(t) => {
            let r = Polling::restored(m.steals, t);
            (m.set_count(DISCONNECTED).with_steals(r.0), r.1)
        },
        Polling::Rebump(t, amount) => {
            let r = Polling::rebumped(m.steals, t, m.counter);
            (m.add_count(amount).with_steals(r.0), r.1)
        },
        Polling::Fetch => (m.fetch().0, Polling::fetched(m.fetch().1)),
        Polling::Recheck => {
            let r = Polling::rechecked(m.steals, m.try_pop().1);
            (m.try_pop().0.with_steals(r.0), r.1)
        },
        Polling::Advance => (m.advance(), Polling::advanced()),
        Polling::Load => (m, Polling::loaded(m.counter)),
        Polling::Refetch => (m.fetch().0, Polling::refetched(m.fetch().1)),
        Polling::Last => (m.try_pop().0, Polling::left_over(m.try_pop().1)),
        Polling::Done(_) => (m, at),
    }
}

/// What a search leaves alone.
pub proof fn lemma_poll_frame<T>(m: Memory<T>, at: Polling<T>)
    ensures
        ({
            let m2 = poll_step(m, at).0;
            &&& m2.connected == m.connected
            &&& m2.to_wake == m.to_wake && m2.token == m.token && m2.woken == m.woken
            &&& m2.sender_open == m.sender_open && m2.receiver_open == m.receiver_open
            &&& m2.clock == m.clock
        }),
{
    reveal(poll_step);
}

impl<T> Link<T> {
    /// Performs the receiver's next access.
    pub fn poll_step(&mut self, at: Polling<T>) -> (next: Polling<T>)
        requires
            old(self)@.segments.len() > 0,
            at.admissible(old(self)@),
        ensures
            (final(self)@, next) == poll_step(old(self)@, at),
            final(self).armed() == old(self).armed(),
            final(self).identity() == old(self).identity(),
    {
        proof {
            reveal(poll_step);
        }
        let steals: isize = self.steals();
        match at {
            Polling::Pop => {
                let held = self.holds_next();
                let got = self.try_pop();
                let (steals, next) = Polling::popped(steals, got, held);
                self.set_steals(steals);
                next
            },
            Polling::Settle(t) => {
                let before: isize = self.swap_count(0);
                let (steals, next) = Polling::settled(steals, t, before);
                self.set_steals(steals);
                next
            },
            Polling::Restore(t) => {
                let _before: isize = self.swap_count(DISCONNECTED);
                let (steals, next) = Polling::restored(steals, t);
                self.set_steals(steals);
                next
            },
            Polling::Rebump(t, amount) => {
                let before: isize = self.add_count(amount);
                let (steals, next) = Polling::rebumped(steals, t, before);
                self.set_steals(steals);
                next
            },
            Polling::Fetch => {
                let got = self.fetch();
                Polling::fetched(got)
            },
            Polling::Recheck => {
                let got = self.try_pop();
                let (steals, next) = Polling::rechecked(steals, got);
                self.set_steals(steals);
                next
            },
            Polling::Advance => {
                self.advance();
                Polling::advanced()
            },
            Polling::Load => {
                let count: isize = self.load_count();
                Polling::loaded(count)
            },
            Polling::Refetch => {
                let got = self.fetch();
                Polling::refetched(got)
            },
            Polling::Last => {
                let got = self.try_pop();
                Polling::left_over(got)
            },
            Polling::Done(result) => Polling::Done(result),
        }
    }
}

} // verus!
