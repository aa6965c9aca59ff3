//! How the receiving end announces that it is about to wait and takes that back.
use crate::limits::DISCONNECTED;
use crate::link::{Link, Memory};
use vstd::prelude::*;

verus! {

/// The announcement that the receiver waits for a message under a token.
#[derive(Clone, Copy, Debug, PartialEq, Eq, Structural)]
pub enum Arming {
    /// Make sure that no token is in the memory.
    Inspect(usize),
    /// Put the token into the memory.
    Post(usize),
    /// Subtract [`Arming::toll`] from the counter.
    Subtract(usize),
    /// The sender is gone: set the counter to disconnected again.
    Restore(usize),
    /// There is no need to wait: take the token out of the memory.
    Withdraw(usize),
    /// Finished: the sender will signal the token.
    Armed(usize),
    /// Finished: a message is pending or the sender is gone.
    Refused(usize),
}

impl Arming {
    /// Begins to announce `token`.
    #[verifier::allow_in_spec]
    pub fn start(token: usize) -> (next: Self)
        returns
            Arming::Inspect(token),
    {
        Arming::Inspect(token)
    }

    /// Goes on after [`Arming::Inspect`]: no token is there.
    #[verifier::allow_in_spec]
    pub fn inspected(token: usize, current: usize) -> (next: Self)
        requires
            current == 0,
        returns
            Arming::Post(token),
    {
        Arming::Post(token)
    }

    /// Goes on after [`Arming::Post`].
    #[verifier::allow_in_spec]
    pub fn posted(token: usize) -> (next: Self)
        returns
            Arming::Subtract(token),
    {
        Arming::Subtract(token)
    }

    /// What is subtracted from the counter: the steals and one message to wait for.
    #[verifier::allow_in_spec]
    pub fn toll(steals: isize) -> (r: isize)
        requires
            steals < isize::MAX,
        returns
            (1 + steals) as isize,
    {
        1 + steals
    }

    /// Goes on after [`Arming::Subtract`] with what the counter held before.
    #[verifier::allow_in_spec]
    pub fn subtracted(token: usize, steals: isize, before: isize) -> (next: Self)
        requires
            before == DISCONNECTED || (before >= 0 && 0 <= steals),
        returns
            (if before == DISCONNECTED {
                Arming::Restore(token)
            } else if before - steals <= 0 {
                Arming::Armed(token)
            } else {
                Arming::Withdraw(token)
            }),
    {
        if before == DISCONNECTED {
            Arming::Restore(token)
        } else if before - steals <= 0 {
            Arming::Armed(token)
        } else {
            Arming::Withdraw(token)
        }
    }

    /// Goes on after [`Arming::Restore`].
    #[verifier::allow_in_spec]
    pub fn restored(token: usize) -> (next: Self)
        returns
            Arming::Withdraw(token),
    {
        Arming::Withdraw(token)
    }

    /// Goes on after [`Arming::Withdraw`].
    #[verifier::allow_in_spec]
    pub fn withdrawn(token: usize) -> (next: Self)
        returns
            Arming::Refused(token),
    {
        Arming::Refused(token)
    }

    /// Whether the next access can only return something that the function that goes on
    /// accepts.
    pub open spec fn admissible<T>(self, m: Memory<T>) -> bool {
        match self {
            Arming::Inspect(_) => m.to_wake == 0,
            Arming::Subtract(_) => {
                &&& m.steals < isize::MAX
                &&& m.counter == DISCONNECTED || (m.counter >= 0 && 0 <= m.steals)
            },
            _ => true,
        }
    }
}

/// The receiver's next access to the memory, and where it goes on from there.
pub open spec fn arm_step<T>(m: Memory<T>, at: Arming) -> (Memory<T>, Arming) {
    match at {
        Arming::Inspect(token) => (m, Arming::inspected(token, m.to_wake)),
        Arming::Post(token) => (m.set_wake(token), Arming::posted(token)),
        Arming::Subtract(token) => (
            m.sub_count(Arming::toll(m.steals)).with_steals(0),
            Arming::subtracted(token, m.steals, m.counter),
        ),
        Arming::Restore(token) => (m.set_count(DISCONNECTED), Arming::restored(token)),
        Arming::Withdraw(token) => (m.set_wake(0), Arming::withdrawn(token)),
        Arming::Armed(_) => (m, at),
        Arming::Refused(_) => (m, at),
    }
}

/// The receiver's way back from an announcement.
#[derive(Clone, Copy, Debug, PartialEq, Eq, Structural)]
pub enum Withdrawing {
    /// Add [`Withdrawing::refund`] to the counter.
    Bump,
    /// The sender is gone: set the counter to disconnected again.
    Restore,
    /// No message came: take the token back.
    Take,
    /// A message came: read the token until the sender has taken it.
    Drain,
    /// The sender is gone: read the token until the sender has taken it.
    DrainGone,
    /// Finished, with whether a message is pending or the sender is gone.
    Done(bool),
}

impl Withdrawing {
    /// Begins to take the announcement back.
    #[verifier::allow_in_spec]
    pub fn start() -> (next: Self)
        returns
            Withdrawing::Bump,
    {
        Withdrawing::Bump
    }

    /// What is added to the counter: the message that was not received, and one steal.
    #[verifier::allow_in_spec]
    pub fn refund() -> (r: isize)
        returns
            2isize,
    {
        2
    }

    /// Goes on after [`Withdrawing::Bump`] with what the counter held before.
    #[verifier::allow_in_spec]
    pub fn bumped(before: isize) -> (next: Self)
        requires
            before == DISCONNECTED || -2 <= before,
        returns
            (if before == DISCONNECTED {
                Withdrawing::Restore
            } else if before < 0 {
                Withdrawing::Take
            } else {
                Withdrawing::Drain
            }),
    {
        if before == DISCONNECTED {
            Withdrawing::Restore
        } else if before < 0 {
            Withdrawing::Take
        } else {
            Withdrawing::Drain
        }
    }

    /// Goes on after [`Withdrawing::Restore`].
    #[verifier::allow_in_spec]
    pub fn restored() -> (next: Self)
        returns
            Withdrawing::DrainGone,
    {
        Withdrawing::DrainGone
    }

    /// Goes on after [`Withdrawing::Take`] with the token that was there.
    #[verifier::allow_in_spec]
    pub fn taken(steals: isize, token: usize) -> (r: (isize, Self))
        requires
            steals == 0,
            token != 0,
        returns
            (1isize, Withdrawing::Done(false)),
    {
        (1, Withdrawing::Done(false))
    }

    /// Goes on after [`Withdrawing::Drain`] with the token in the memory.
    #[verifier::allow_in_spec]
    pub fn drained(steals: isize, token: usize) -> (r: (isize, Self))
        requires
            steals == 0,
        returns
            (if token == 0 {
                (1isize, Withdrawing::Done(true))
            } else {
                (steals, Withdrawing::Drain)
            }),
    {
        if token == 0 {
            (1, Withdrawing::Done(true))
        } else {
            (steals, Withdrawing::Drain)
        }
    }

    /// Goes on after [`Withdrawing::DrainGone`] with the token in the memory.
    #[verifier::allow_in_spec]
    pub fn drained_gone(token: usize) -> (next: Self)
        returns
            (if token == 0 {
                Withdrawing::Done(true)
            } else {
                Withdrawing::DrainGone
            }),
    {
        if token == 0 {
            Withdrawing::Done(true)
        } else {
            Withdrawing::DrainGone
        }
    }

    /// Whether the next access can only return something that the function that goes on
    /// accepts.
    pub open spec fn admissible<T>(self, m: Memory<T>) -> bool {
        match self {
            Withdrawing::Bump => m.counter == DISCONNECTED || -2 <= m.counter,
            Withdrawing::Take => m.steals == 0 && m.to_wake != 0,
            Withdrawing::Drain => m.steals == 0,
            _ => true,
        }
    }
}

/// The receiver's next access to the memory, and where it goes on from there.
pub open spec fn withdraw_step<T>(m: Memory<T>, at: Withdrawing) -> (Memory<T>, Withdrawing) {
    match at {
        Withdrawing::Bump => (m.add_count(Withdrawing::refund()), Withdrawing::bumped(m.counter)),
        Withdrawing::Restore => (m.set_count(DISCONNECTED), Withdrawing::restored()),
        Withdrawing::Take => {
            let r = Withdrawing::taken(m.steals, m.to_wake);
            (m.set_wake(0).with_steals(r.0), r.1)
        },
        Withdrawing::Drain => {
            let r = Withdrawing::drained(m.steals, m.to_wake);
            (m.with_steals(r.0), r.1)
        },
        Withdrawing::DrainGone => (m, Withdrawing::drained_gone(m.to_wake)),
        Withdrawing::Done(_) => (m, at),
    }
}

/// How an announcement on behalf of a selection ended.
#[derive(Clone, Copy, Debug, PartialEq, Eq, Structural)]
pub enum SelectionResult {
    /// The token will be signalled.
    SelSuccess,
    /// A message is pending or the sender is gone.
    SelCanceled,
}

/// The announcement on behalf of a selection.
#[derive(Clone, Copy, Debug, PartialEq, Eq, Structural)]
pub enum Selecting {
    /// Announce the token.
    Arm(Arming),
    /// There is no need to wait: add [`Selecting::refund`] to the counter.
    Undo,
    /// The sender is gone: set the counter to disconnected again.
    Restore,
    /// Finished.
    Done(SelectionResult),
}

impl Selecting {
    /// Begins to announce `token`.
    #[verifier::allow_in_spec]
    pub fn start(token: usize) -> (next: Self)
        returns
            Selecting::Arm(Arming::start(token)),
    {
        Selecting::Arm(Arming::start(token))
    }

    /// Goes on after a step of [`Selecting::Arm`].
    #[verifier::allow_in_spec]
    pub fn armed(at: Arming) -> (next: Self)
        returns
            (match at {
                Arming::Armed(_) => Selecting::Done(SelectionResult::SelSuccess),
                Arming::Refused(_) => Selecting::Undo,
                _ => Selecting::Arm(at),
            }),
    {
        match at {
            Arming::Armed(_) => Selecting::Done(SelectionResult::SelSuccess),
            Arming::Refused(_) => Selecting::Undo,
            _ => Selecting::Arm(at),
        }
    }

    /// What is added to the counter: the message that will not be waited for.
    #[verifier::allow_in_spec]
    pub fn refund() -> (r: isize)
        returns
            1isize,
    {
        1
    }

    /// Goes on after [`Selecting::Undo`] with what the counter held before.
    #[verifier::allow_in_spec]
    pub fn undone(before: isize) -> (next: Self)
        requires
            before == DISCONNECTED || before >= 0,
        returns
            (if before == DISCONNECTED {
                Selecting::Restore
            } else {
                Selecting::Done(SelectionResult::SelCanceled)
            }),
    {
        if before == DISCONNECTED {
            Selecting::Restore
        } else {
            Selecting::Done(SelectionResult::SelCanceled)
        }
    }

    /// Goes on after [`Selecting::Restore`].
    #[verifier::allow_in_spec]
    pub fn restored() -> (next: Self)
        returns
            Selecting::Done(SelectionResult::SelCanceled),
    {
        Selecting::Done(SelectionResult::SelCanceled)
    }

    /// Whether the next access can only return something that the function that goes on
    /// accepts.
    pub open spec fn admissible<T>(self, m: Memory<T>) -> bool {
        match self {
            Selecting::Arm(at) => at.admissible(m),
            Selecting::Undo => m.counter == DISCONNECTED || m.counter >= 0,
            _ => true,
        }
    }
}

/// The receiver's next access to the memory, and where it goes on from there.
pub open spec fn select_step<T>(m: Memory<T>, at: Selecting) -> (Memory<T>, Selecting) {
    match at {
        Selecting::Arm(at) => (arm_step(m, at).0, Selecting::armed(arm_step(m, at).1)),
        Selecting::Undo => (m.add_count(Selecting::refund()), Selecting::undone(m.counter)),
        Selecting::Restore => (m.set_count(DISCONNECTED), Selecting::restored()),
        Selecting::Done(_) => (m, at),
    }
}

impl<T> Link<T> {
    /// Performs the receiver's next access.
    pub fn arm_step(&mut self, at: Arming) -> (next: Arming)
        requires
            at.admissible(old(self)@),
        ensures
            (final(self)@, next) == arm_step(old(self)@, at),
            final(self).armed() == old(self).armed(),
            final(self).identity() == old(self).identity(),
    {
        match at {
            Arming::Inspect(token) => {
                let current: usize = self.load_wake();
                Arming::inspected(token, current)
            },
            Arming::Post(token) => {
                let _before: usize = self.swap_wake(token);
                Arming::posted(token)
            },
            Arming::Subtract(token) => {
                let steals: isize = self.steals();
                self.set_steals(0);
                let before: isize = self.sub_count(Arming::toll(steals));
                Arming::subtracted(token, steals, before)
            },
            Arming::Restore(token) => {
                let _before: isize = self.swap_count(DISCONNECTED);
                Arming::restored(token)
            },
            Arming::Withdraw(token) => {
                let _before: usize = self.swap_wake(0);
                Arming::withdrawn(token)
            },
            Arming::Armed(token) => Arming::Armed(token),
            Arming::Refused(token) => Arming::Refused(token),
        }
    }

    /// Performs the receiver's next access.
    pub fn withdraw_step(&mut self, at: Withdrawing) -> (next: Withdrawing)
        requires
            at.admissible(old(self)@),
        ensures
            (final(self)@, next) == withdraw_step(old(self)@, at),
            final(self).armed() == old(self).armed(),
            final(self).identity() == old(self).identity(),
    {
        let steals: isize = self.steals();
        match at {
            Withdrawing::Bump => {
                let before: isize = self.add_count(Withdrawing::refund());
                Withdrawing::bumped(before)
            },
            Withdrawing::Restore => {
                let _before: isize = self.swap_count(DISCONNECTED);
                Withdrawing::restored()
            },
            Withdrawing::Take => {
                let token: usize = self.swap_wake(0);
                let (steals, next) = Withdrawing::taken(steals, token);
                self.set_steals(steals);
                next
            },
            Withdrawing::Drain => {
                let token: usize = self.load_wake();
                let (steals, next) = Withdrawing::drained(steals, token);
                self.set_steals(steals);
                next
            },
            Withdrawing::DrainGone => {
                let token: usize = self.load_wake();
                Withdrawing::drained_gone(token)
            },
            Withdrawing::Done(has_data) => Withdrawing::Done(has_data),
        }
    }

    /// Performs the receiver's next access.
    pub fn select_step(&mut self, at: Selecting) -> (next: Selecting)
        requires
            at.admissible(old(self)@),
        ensures
            (final(self)@, next) == select_step(old(self)@, at),
            final(self).armed() == old(self).armed(),
            final(self).identity() == old(self).identity(),
    {
        match at {
            Selecting::Arm(at) => {
                let next = self.arm_step(at);
                Selecting::armed(next)
            },
            Selecting::Undo => {
                let before: isize = self.add_count(Selecting::refund());
                Selecting::undone(before)
            },
            Selecting::Restore => {
                let _before: isize = self.swap_count(DISCONNECTED);
                Selecting::restored()
            },
            Selecting::Done(result) => Selecting::Done(result),
        }
    }
}

} // verus!
