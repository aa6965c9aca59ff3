//! How a thread waits for its token to be signalled.
use vstd::prelude::*;

verus! {

/// A wait that ends at a deadline.
#[derive(Clone, Copy, Debug, PartialEq, Eq, Structural)]
pub enum Waiting {
    /// Read whether the token has been signalled.
    Look,
    /// It has not: read the clock.
    Clock,
    /// There is time left: sleep until something happens or the deadline comes.
    Sleep,
    /// Finished: the token has been signalled.
    Woken,
    /// Finished: the deadline has come.
    Expired,
}

impl Waiting {
    /// Begins to wait.
    #[verifier::allow_in_spec]
    pub fn start() -> (next: Self)
        returns
            Waiting::Look,
    {
        Waiting::Look
    }

    /// Goes on after [`Waiting::Look`].
    #[verifier::allow_in_spec]
    pub fn looked(woken: bool) -> (next: Self)
        returns
            (if woken {
                Waiting::Woken
            } else {
                Waiting::Clock
            }),
    {
        if woken {
            Waiting::Woken
        } else {
            Waiting::Clock
        }
    }

    /// Goes on after [`Waiting::Clock`] with the time.
    #[verifier::allow_in_spec]
    pub fn timed(deadline: u64, now: u64) -> (next: Self)
        returns
            (if deadline <= now {
                Waiting::Expired
            } else {
                Waiting::Sleep
            }),
    {
        if deadline <= now {
            Waiting::Expired
        } else {
            Waiting::Sleep
        }
    }

    /// Goes on after [`Waiting::Sleep`].
    #[verifier::allow_in_spec]
    pub fn slept() -> (next: Self)
        returns
            Waiting::Look,
    {
        Waiting::Look
    }
}

/// Whether signalling a token has to wake its thread: only the first signal does. `before`
/// is whether the token had been signalled already.
#[verifier::allow_in_spec]
pub fn signal(before: bool) -> (wake: bool)
    returns
        !before,
{
    !before
}

/// A token after a row of signals, each of which leaves it signalled, and whether each of them
/// woke its thread. `before` is whether the token had been signalled already.
pub open spec fn signals(before: bool, count: nat) -> (bool, Seq<bool>)
    decreases count,
{
    if count == 0 {
        (before, Seq::empty())
    } else {
        let (woken, wakes) = signals(before, (count - 1) as nat);
        (true, wakes.push(signal(woken)))
    }
}

/// Of any row of signals on one token exactly the first one wakes its thread, and the token
/// stays signalled from then on. On a token that had been signalled already none does.
pub proof fn law_first_signal_wakes(before: bool, count: nat)
    ensures
        signals(before, count).0 == (before || count > 0),
        signals(before, count).1.len() == count,
        forall|k: int|
            0 <= k < count ==> #[trigger] signals(before, count).1[k] == (!before && k == 0),
    decreases count,
{
    if count > 0 {
        law_first_signal_wakes(before, (count - 1) as nat);
    }
}

} // verus!
