//! How the receiving end receives a message when it may have to wait, and how it leaves.
use crate::arming::{arm_step, withdraw_step, Arming, Withdrawing};
use crate::blocking::Waiting;
use crate::errors::{RecvError, RecvTimeoutError, TryRecvError};
use crate::limits::DISCONNECTED;
use crate::link::{Fetched, Link, Memory};
use crate::polling::{poll_step, stolen, Polling};
use vstd::prelude::*;

verus! {

/// A receive that waits as long as it takes.
pub enum Receiving<T> {
    /// Look for a message.
    First(Polling<T>),
    /// There was none: make a token.
    Token,
    /// Announce the token.
    Arm(Arming),
    /// Sleep until the token has been signalled.
    Wait(usize),
    /// Look for the message that ended the wait.
    Second(Polling<T>),
    /// Finished.
    Done(Result<T, RecvError>),
}

impl<T> Receiving<T> {
    /// Begins to receive.
    #[verifier::allow_in_spec]
    pub fn start() -> (next: Self)
        returns
            Receiving::<T>::First(Polling::start()),
    {
        Receiving::First(Polling::start())
    }

    /// Goes on after a step of [`Receiving::First`].
    #[verifier::allow_in_spec]
    pub fn polled(at: Polling<T>) -> (next: Self)
        returns
            (match at {
                Polling::Done(Ok(t)) => Receiving::Done(Ok(t)),
                Polling::Done(Err(TryRecvError::Empty)) => Receiving::Token,
                Polling::Done(Err(TryRecvError::Disconnected)) => Receiving::Done(Err(RecvError)),
                _ => Receiving::First(at),
            }),
    {
        match at {
            Polling::Done(Ok(t)) => Receiving::Done(Ok(t)),
            Polling::Done(Err(TryRecvError::Empty)) => Receiving::Token,
            Polling::Done(Err(TryRecvError::Disconnected)) => Receiving::Done(Err(RecvError)),
            _ => Receiving::First(at),
        }
    }

    /// Goes on after [`Receiving::Token`] with the new token.
    #[verifier::allow_in_spec]
    pub fn tokened(token: usize) -> (next: Self)
        returns
            Receiving::<T>::Arm(Arming::start(token)),
    {
        Receiving::Arm(Arming::start(token))
    }

    /// Goes on after a step of [`Receiving::Arm`].
    #[verifier::allow_in_spec]
    pub fn armed(at: Arming) -> (next: Self)
        returns
            (match at {
                Arming::Armed(token) => Receiving::<T>::Wait(token),
                Arming::Refused(_) => Receiving::<T>::Second(Polling::start()),
                _ => Receiving::<T>::Arm(at),
            }),
    {
        match at {
            Arming::Armed(token) => Receiving::Wait(token),
            Arming::Refused(_) => Receiving::Second(Polling::start()),
            _ => Receiving::Arm(at),
        }
    }

    /// Goes on after [`Receiving::Wait`] with whether the token has been signalled.
    #[verifier::allow_in_spec]
    pub fn waited(token: usize, woken: bool) -> (next: Self)
        returns
            (if woken {
                Receiving::<T>::Second(Polling::start())
            } else {
                Receiving::<T>::Wait(token)
            }),
    {
        if woken {
            Receiving::Second(Polling::start())
        } else {
            Receiving::Wait(token)
        }
    }

    /// Goes on after a step of [`Receiving::Second`]. The message that was waited for has
    /// been paid for in advance and is no steal. A woken receiver finds a message or learns
    /// that the sender is gone.
    #[verifier::allow_in_spec]
    pub fn repolled(steals: isize, at: Polling<T>) -> (r: (isize, Self))
        requires
            at is Done && at->Done_0 is Ok ==> steals > isize::MIN,
            at != Polling::<T>::Done(Err(TryRecvError::Empty)),
        returns
            (match at {
                Polling::Done(Ok(t)) => ((steals - 1) as isize, Receiving::Done(Ok(t))),
                Polling::Done(Err(_)) => (steals, Receiving::Done(Err(RecvError))),
                _ => (steals, Receiving::Second(at)),
            }),
    {
        match at {
            Polling::Done(Ok(t)) => (steals - 1, Receiving::Done(Ok(t))),
            Polling::Done(Err(_)) => (steals, Receiving::Done(Err(RecvError))),
            _ => (steals, Receiving::Second(at)),
        }
    }

    /// Whether the next access can only return something that the functions that go on
    /// accept.
    pub open spec fn admissible(self, m: Memory<T>) -> bool {
        match self {
            Receiving::First(at) => at.admissible(m),
            Receiving::Arm(at) => at.admissible(m),
            Receiving::Second(at) => {
                let next = poll_step(m, at);
                &&& at.admissible(m)
                &&& next.1 is Done && next.1->Done_0 is Ok ==> next.0.steals > isize::MIN
                &&& next.1 != Polling::<T>::Done(Err(TryRecvError::Empty))
            },
            _ => true,
        }
    }
}

/// The receiver's next access to the memory, and where it goes on from there; `token` is
/// the token that comes out if the access makes one.
pub open spec fn receive_step<T>(m: Memory<T>, at: Receiving<T>, token: usize) -> (
    Memory<T>,
    Receiving<T>,
) {
    match at {
        Receiving::First(at) => (poll_step(m, at).0, Receiving::polled(poll_step(m, at).1)),
        Receiving::Token => (m.renew(token), Receiving::tokened(token)),
        Receiving::Arm(at) => (arm_step(m, at).0, Receiving::armed(arm_step(m, at).1)),
        Receiving::Wait(token) => (m, Receiving::waited(token, m.woken)),
        Receiving::Second(at) => {
            let next = poll_step(m, at);
            let r = Receiving::repolled(next.0.steals, next.1);
            (next.0.with_steals(r.0), r.1)
        },
        Receiving::Done(_) => (m, at),
    }
}

/// A receive that waits until a deadline.
pub enum Awaiting<T> {
    /// Look for a message.
    First(Polling<T>),
    /// There was none: make a token.
    Token,
    /// Announce the token.
    Arm(Arming),
    /// Wait until the token has been signalled or the deadline has come.
    Wait(usize, Waiting),
    /// The deadline has come: take the announcement back.
    Cancel(Withdrawing),
    /// Look for the message that ended the wait.
    Second(Polling<T>),
    /// Look for a message that came after all.
    Late(Polling<T>),
    /// Finished.
    Done(Result<T, RecvTimeoutError>),
}

impl<T> Awaiting<T> {
    /// Begins to receive.
    #[verifier::allow_in_spec]
    pub fn start() -> (next: Self)
        returns
            Awaiting::<T>::First(Polling::start()),
    {
        Awaiting::First(Polling::start())
    }

    /// Goes on after a step of [`Awaiting::First`].
    #[verifier::allow_in_spec]
    pub fn polled(at: Polling<T>) -> (next: Self)
        returns
            (match at {
                Polling::Done(Ok(t)) => Awaiting::Done(Ok(t)),
                Polling::Done(Err(TryRecvError::Empty)) => Awaiting::Token,
                Polling::Done(Err(TryRecvError::Disconnected)) => Awaiting::Done(
                    Err(RecvTimeoutError::Disconnected),
                ),
                _ => Awaiting::First(at),
            }),
    {
        match at {
            Polling::Done(Ok(t)) => Awaiting::Done(Ok(t)),
            Polling::Done(Err(TryRecvError::Empty)) => Awaiting::Token,
            Polling::Done(Err(TryRecvError::Disconnected)) => Awaiting::Done(
                Err(RecvTimeoutError::Disconnected),
            ),
            _ => Awaiting::First(at),
        }
    }

    /// Goes on after [`Awaiting::Token`] with the new token.
    #[verifier::allow_in_spec]
    pub fn tokened(token: usize) -> (next: Self)
        returns
            Awaiting::<T>::Arm(Arming::start(token)),
    {
        Awaiting::Arm(Arming::start(token))
    }

    /// Goes on after a step of [`Awaiting::Arm`]. Where there is no need to wait, nobody
    /// will signal the token: the message is looked for at once.
    #[verifier::allow_in_spec]
    pub fn armed(at: Arming) -> (next: Self)
        returns
            (match at {
                Arming::Armed(token) => Awaiting::<T>::Wait(token, Waiting::start()),
                Arming::Refused(_) => Awaiting::<T>::Second(Polling::start()),
                _ => Awaiting::<T>::Arm(at),
            }),
    {
        match at {
            Arming::Armed(token) => Awaiting::Wait(token, Waiting::start()),
            Arming::Refused(_) => Awaiting::Second(Polling::start()),
            _ => Awaiting::Arm(at),
        }
    }

    /// Goes on after a step of [`Awaiting::Wait`].
    #[verifier::allow_in_spec]
    pub fn waited(token: usize, at: Waiting) -> (next: Self)
        returns
            (match at {
                Waiting::Woken => Awaiting::<T>::Second(Polling::start()),
                Waiting::Expired => Awaiting::<T>::Cancel(Withdrawing::start()),
                _ => Awaiting::<T>::Wait(token, at),
            }),
    {
        match at {
            Waiting::Woken => Awaiting::Second(Polling::start()),
            Waiting::Expired => Awaiting::Cancel(Withdrawing::start()),
            _ => Awaiting::Wait(token, at),
        }
    }

    /// Goes on after a step of [`Awaiting::Cancel`].
    #[verifier::allow_in_spec]
    pub fn cancelled(at: Withdrawing) -> (next: Self)
        returns
            (match at {
                Withdrawing::Done(_) => Awaiting::<T>::Late(Polling::start()),
                _ => Awaiting::<T>::Cancel(at),
            }),
    {
        match at {
            Withdrawing::Done(_) => Awaiting::Late(Polling::start()),
            _ => Awaiting::Cancel(at),
        }
    }

    /// How a search after a wait ends the receive.
    #[verifier::allow_in_spec]
    pub fn outcome(result: Result<T, TryRecvError>) -> (r: Result<T, RecvTimeoutError>)
        returns
            (match result {
                Ok(t) => Ok(t),
                Err(TryRecvError::Empty) => Err(RecvTimeoutError::Timeout),
                Err(TryRecvError::Disconnected) => Err(RecvTimeoutError::Disconnected),
            }),
    {
        match result {
            Ok(t) => Ok(t),
            Err(TryRecvError::Empty) => Err(RecvTimeoutError::Timeout),
            Err(TryRecvError::Disconnected) => Err(RecvTimeoutError::Disconnected),
        }
    }

    /// Goes on after a step of [`Awaiting::Second`]. The message that was waited for has
    /// been paid for in advance and is no steal.
    #[verifier::allow_in_spec]
    pub fn repolled(steals: isize, at: Polling<T>) -> (r: (isize, Self))
        requires
            at is Done && at->Done_0 is Ok ==> steals > isize::MIN,
        returns
            (match at {
                Polling::Done(Ok(t)) => ((steals - 1) as isize, Awaiting::Done(Ok(t))),
                Polling::Done(result) => (steals, Awaiting::Done(Awaiting::outcome(result))),
                _ => (steals, Awaiting::Second(at)),
            }),
    {
        match at {
            Polling::Done(Ok(t)) => (steals - 1, Awaiting::Done(Ok(t))),
            Polling::Done(result) => (steals, Awaiting::Done(Awaiting::outcome(result))),
            _ => (steals, Awaiting::Second(at)),
        }
    }

    /// Goes on after a step of [`Awaiting::Late`]. The announcement has been taken back, so
    /// a message that comes now is a steal like any other.
    #[verifier::allow_in_spec]
    pub fn looked_late(at: Polling<T>) -> (next: Self)
        returns
            (match at {
                Polling::Done(result) => Awaiting::Done(Awaiting::outcome(result)),
                _ => Awaiting::Late(at),
            }),
    {
        match at {
            Polling::Done(result) => Awaiting::Done(Awaiting::outcome(result)),
            _ => Awaiting::Late(at),
        }
    }

    /// Whether the next access can only return something that the functions that go on
    /// accept.
    pub open spec fn admissible(self, m: Memory<T>) -> bool {
        match self {
            Awaiting::First(at) => at.admissible(m),
            Awaiting::Arm(at) => at.admissible(m),
            Awaiting::Cancel(at) => at.admissible(m),
            Awaiting::Second(at) => {
                let next = poll_step(m, at);
                &&& at.admissible(m)
                &&& next.1 is Done && next.1->Done_0 is Ok ==> next.0.steals > isize::MIN
            },
            Awaiting::Late(at) => at.admissible(m),
            _ => true,
        }
    }
}

/// The waiting receiver's next look at the memory or the clock, or its next sleep, and where
/// the wait goes on from there.
pub open spec fn wait_step<T>(m: Memory<T>, at: Waiting, deadline: u64) -> (Memory<T>, Waiting) {
    match at {
        Waiting::Look => (m, Waiting::looked(m.woken)),
        Waiting::Clock => (m, Waiting::timed(deadline, m.clock)),
        Waiting::Sleep => (m.sleep(deadline), Waiting::slept()),
        Waiting::Woken => (m, at),
        Waiting::Expired => (m, at),
    }
}

/// The receiver's next access to the memory, and where it goes on from there; `token` is
/// the token that comes out if the access makes one.
pub open spec fn await_step<T>(m: Memory<T>, at: Awaiting<T>, deadline: u64, token: usize) -> (
    Memory<T>,
    Awaiting<T>,
) {
    match at {
        Awaiting::First(at) => (poll_step(m, at).0, Awaiting::polled(poll_step(m, at).1)),
        Awaiting::Token => (m.renew(token), Awaiting::tokened(token)),
        Awaiting::Arm(at) => (arm_step(m, at).0, Awaiting::armed(arm_step(m, at).1)),
        Awaiting::Wait(token, at) => (
            wait_step(m, at, deadline).0,
            Awaiting::waited(token, wait_step(m, at, deadline).1),
        ),
        Awaiting::Cancel(at) => (
            withdraw_step(m, at).0,
            Awaiting::cancelled(withdraw_step(m, at).1),
        ),
        Awaiting::Second(at) => {
            let next = poll_step(m, at);
            let r = Awaiting::repolled(next.0.steals, next.1);
            (next.0.with_steals(r.0), r.1)
        },
        Awaiting::Late(at) => (poll_step(m, at).0, Awaiting::looked_late(poll_step(m, at).1)),
        Awaiting::Done(_) => (m, at),
    }
}

/// What becomes of a receive with a time limit after its first look.
pub enum Timed<T> {
    /// It is over.
    Return(Result<T, RecvTimeoutError>),
    /// No message was pending: it waits, with a deadline that is the time limit from now.
    Wait,
}

impl<T> Timed<T> {
    /// Decides with what the first look found.
    #[verifier::allow_in_spec]
    pub fn decided(result: Result<T, TryRecvError>) -> (r: Self)
        returns
            (match result {
                Ok(t) => Timed::Return(Ok(t)),
                Err(TryRecvError::Disconnected) => Timed::Return(
                    Err(RecvTimeoutError::Disconnected),
                ),
                Err(TryRecvError::Empty) => Timed::Wait,
            }),
    {
        match result {
            Ok(t) => Timed::Return(Ok(t)),
            Err(TryRecvError::Disconnected) => Timed::Return(Err(RecvTimeoutError::Disconnected)),
            Err(TryRecvError::Empty) => Timed::Wait,
        }
    }
}

/// What becomes of a receive that has waited until a deadline.
pub enum Renewal<T> {
    /// It is over.
    Return(Result<T, RecvTimeoutError>),
    /// It came back before the deadline: it is made again.
    Again,
}

impl<T> Renewal<T> {
    /// Decides with the result, the deadline and the time.
    #[verifier::allow_in_spec]
    pub fn decided(result: Result<T, RecvTimeoutError>, deadline: u64, now: u64) -> (r: Self)
        returns
            (match result {
                Err(RecvTimeoutError::Timeout) => if deadline <= now {
                    Renewal::Return(Err(RecvTimeoutError::Timeout))
                } else {
                    Renewal::Again
                },
                result => Renewal::Return(result),
            }),
    {
        match result {
            Err(RecvTimeoutError::Timeout) => if deadline <= now {
                Renewal::Return(Err(RecvTimeoutError::Timeout))
            } else {
                Renewal::Again
            },
            result => Renewal::Return(result),
        }
    }
}

/// The receiving end on its way out.
#[derive(Clone, Copy, Debug, PartialEq, Eq, Structural)]
pub enum Leaving {
    /// Mark the channel as not connected.
    Disconnect,
    /// Set the counter to disconnected if it equals the steals.
    Mark,
    /// Messages are pending: take one and drop it.
    Drain,
    /// The queue is empty: ask for the next one.
    Fetch,
    /// The next queue is there: take and drop what came into the current one since it was
    /// found empty.
    Recheck,
    /// The current queue is drained: go over to the next one.
    Advance,
    /// Give up the receiver's end of the hand-over line.
    Release,
    /// Finished.
    Done,
}

impl Leaving {
    /// Begins to leave.
    #[verifier::allow_in_spec]
    pub fn start() -> (next: Self)
        returns
            Leaving::Disconnect,
    {
        Leaving::Disconnect
    }

    /// Goes on after [`Leaving::Disconnect`].
    #[verifier::allow_in_spec]
    pub fn disconnected() -> (next: Self)
        returns
            Leaving::Mark,
    {
        Leaving::Mark
    }

    /// Goes on after [`Leaving::Mark`] with what the counter held before.
    #[verifier::allow_in_spec]
    pub fn marked(steals: isize, before: isize) -> (next: Self)
        returns
            (if before == DISCONNECTED || before == steals {
                Leaving::Release
            } else {
                Leaving::Drain
            }),
    {
        if before == DISCONNECTED || before == steals {
            Leaving::Release
        } else {
            Leaving::Drain
        }
    }

    /// Goes on after [`Leaving::Drain`] with whether a message was taken and whether the
    /// receiver has already been handed the next queue.
    #[verifier::allow_in_spec]
    pub fn drained(steals: isize, got: bool, held: bool) -> (r: (isize, Self))
        returns
            (if got {
                (stolen(steals), Leaving::Drain)
            } else if held {
                (steals, Leaving::Advance)
            } else {
                (steals, Leaving::Fetch)
            }),
    {
        if got {
            (stolen(steals), Leaving::Drain)
        } else if held {
            (steals, Leaving::Advance)
        } else {
            (steals, Leaving::Fetch)
        }
    }

    /// Goes on after [`Leaving::Fetch`].
    #[verifier::allow_in_spec]
    pub fn fetched(got: Fetched) -> (next: Self)
        returns
            (match got {
                Fetched::Queue => Leaving::Recheck,
                _ => Leaving::Mark,
            }),
    {
        match got {
            Fetched::Queue => Leaving::Recheck,
            _ => Leaving::Mark,
        }
    }

    /// Goes on after [`Leaving::Recheck`] with whether a message was taken.
    #[verifier::allow_in_spec]
    pub fn rechecked(steals: isize, got: bool) -> (r: (isize, Self))
        returns
            (if got {
                (stolen(steals), Leaving::Drain)
            } else {
                (steals, Leaving::Advance)
            }),
    {
        if got {
            (stolen(steals), Leaving::Drain)
        } else {
            (steals, Leaving::Advance)
        }
    }

    /// Goes on after [`Leaving::Advance`].
    #[verifier::allow_in_spec]
    pub fn advanced() -> (next: Self)
        returns
            Leaving::Drain,
    {
        Leaving::Drain
    }

    /// Goes on after [`Leaving::Release`].
    #[verifier::allow_in_spec]
    pub fn released() -> (next: Self)
        returns
            Leaving::Done,
    {
        Leaving::Done
    }
}

/// The leaving receiver's next access to the memory, and where it goes on from there.
pub open spec fn leave_step<T>(m: Memory<T>, at: Leaving) -> (Memory<T>, Leaving) {
    match at {
        Leaving::Disconnect => (m.disconnect(), Leaving::disconnected()),
        Leaving::Mark => (m.mark_if(m.steals), Leaving::marked(m.steals, m.counter)),
        Leaving::Drain => {
            let r = Leaving::drained(m.steals, m.try_pop().1 is Some, m.held);
            (m.try_pop().0.with_steals(r.0), r.1)
        },
        Leaving::Fetch => (m.fetch().0, Leaving::fetched(m.fetch().1)),
        Leaving::Recheck => {
            let r = Leaving::rechecked(m.steals, m.try_pop().1 is Some);
            (m.try_pop().0.with_steals(r.0), r.1)
        },
        Leaving::Advance => (m.advance(), Leaving::advanced()),
        Leaving::Release => (m.close_receiver(), Leaving::released()),
        Leaving::Done => (m, at),
    }
}

impl<T> Link<T> {
    /// Performs the receiver's next access.
    pub fn receive_step(&mut self, at: Receiving<T>) -> (next: Receiving<T>)
        requires
            old(self)@.segments.len() > 0,
            at.admissible(old(self)@),
        ensures
            (final(self)@, next) == receive_step(old(self)@, at, final(self)@.token),
            at is Token ==> final(self)@.token != 0 && final(self)@.token != old(self)@.token,
            final(self).armed() == old(self).armed(),
            final(self).identity() == old(self).identity(),
    {
        match at {
            Receiving::First(at) => {
                let next = self.poll_step(at);
                Receiving::polled(next)
            },
            Receiving::Token => {
                let token: usize = self.new_token();
                Receiving::tokened(token)
            },
            Receiving::Arm(at) => {
                let next = self.arm_step(at);
                Receiving::armed(next)
            },
            Receiving::Wait(token) => {
                let woken = self.is_woken();
                Receiving::waited(token, woken)
            },
            Receiving::Second(at) => {
                let next = self.poll_step(at);
                let (steals, next) = Receiving::repolled(self.steals(), next);
                self.set_steals(steals);
                next
            },
            Receiving::Done(result) => Receiving::Done(result),
        }
    }

    /// Performs the waiting receiver's next access.
    pub fn wait_step(&mut self, at: Waiting, deadline: u64) -> (next: Waiting)
        ensures
            (final(self)@, next) == wait_step(old(self)@, at, deadline),
            final(self).armed() == old(self).armed(),
            final(self).identity() == old(self).identity(),
    {
        match at {
            Waiting::Look => {
                let woken = self.is_woken();
                Waiting::looked(woken)
            },
            Waiting::Clock => {
                let now: u64 = self.now();
                Waiting::timed(deadline, now)
            },
            Waiting::Sleep => {
                self.sleep(deadline);
                Waiting::slept()
            },
            Waiting::Woken => Waiting::Woken,
            Waiting::Expired => Waiting::Expired,
        }
    }

    /// Performs the receiver's next access.
    pub fn await_step(&mut self, at: Awaiting<T>, deadline: u64) -> (next: Awaiting<T>)
        requires
            old(self)@.segments.len() > 0,
            at.admissible(old(self)@),
        ensures
            (final(self)@, next) == await_step(old(self)@, at, deadline, final(self)@.token),
            at is Token ==> final(self)@.token != 0 && final(self)@.token != old(self)@.token,
            final(self).armed() == old(self).armed(),
            final(self).identity() == old(self).identity(),
    {
        match at {
            Awaiting::First(at) => {
                let next = self.poll_step(at);
                Awaiting::polled(next)
            },
            Awaiting::Token => {
                let token: usize = self.new_token();
                Awaiting::tokened(token)
            },
            Awaiting::Arm(at) => {
                let next = self.arm_step(at);
                Awaiting::armed(next)
            },
            Awaiting::Wait(token, at) => {
                let next = self.wait_step(at, deadline);
                Awaiting::waited(token, next)
            },
            Awaiting::Cancel(at) => {
                let next = self.withdraw_step(at);
                Awaiting::cancelled(next)
            },
            Awaiting::Second(at) => {
                let next = self.poll_step(at);
                let (steals, next) = Awaiting::repolled(self.steals(), next);
                self.set_steals(steals);
                next
            },
            Awaiting::Late(at) => {
                let next = self.poll_step(at);
                Awaiting::looked_late(next)
            },
            Awaiting::Done(result) => Awaiting::Done(result),
        }
    }

    /// Performs the leaving receiver's next access.
    pub fn leave_step(&mut self, at: Leaving) -> (next: Leaving)
        requires
            old(self)@.segments.len() > 0,
        ensures
            (final(self)@, next) == leave_step(old(self)@, at),
            final(self).armed() == old(self).armed(),
            final(self).identity() == old(self).identity(),
    {
        let steals: isize = self.steals();
        match at {
            Leaving::Disconnect => {
                self.disconnect();
                Leaving::disconnected()
            },
            Leaving::Mark => {
                let before: isize = self.mark_if(steals);
                Leaving::marked(steals, before)
            },
            Leaving::Drain => {
                let held = self.holds_next();
                let got = self.try_pop();
                let (steals, next) = Leaving::drained(steals, got.is_some(), held);
                self.set_steals(steals);
                next
            },
            Leaving::Fetch => {
                let got = self.fetch();
                Leaving::fetched(got)
            },
            Leaving::Recheck => {
                let got = self.try_pop();
                let (steals, next) = Leaving::rechecked(steals, got.is_some());
                self.set_steals(steals);
                next
            },
            Leaving::Advance => {
                self.advance();
                Leaving::advanced()
            },
            Leaving::Release => {
                self.close_receiver();
                Leaving::released()
            },
            Leaving::Done => Leaving::Done,
        }
    }
}

} // verus!
