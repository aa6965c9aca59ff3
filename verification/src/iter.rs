//! The messages of a channel one after the other.
use crate::channel::{poll_result, polled, ready, Receiver};
use crate::link::Link;
use crate::texts;
use vstd::prelude::*;

verus! {

/// The messages of a receiver, waiting for each.
pub struct Iter<'a, T> {
    pub rx: &'a Receiver<T>,
}

/// The messages of a receiver, without waiting.
pub struct TryIter<'a, T> {
    pub rx: &'a Receiver<T>,
}

/// The messages of a receiver that belongs to the iteration, waiting for each.
pub struct IntoIter<T> {
    pub rx: Receiver<T>,
}

impl<T> Receiver<T> {
    /// The messages one after the other, waiting for each.
    pub fn iter(&self) -> (r: Iter<'_, T>)
        ensures
            r.rx == self,
    {
        Iter { rx: self }
    }

    /// The messages one after the other, without waiting.
    pub fn try_iter(&self) -> (r: TryIter<'_, T>)
        ensures
            r.rx == self,
    {
        TryIter { rx: self }
    }

    /// The messages one after the other, waiting for each; takes the receiver.
    pub fn into_iter(self) -> (r: IntoIter<T>)
        ensures
            r.rx == self,
    {
        IntoIter { rx: self }
    }
}

impl<'a, T> Iter<'a, T> {
    /// The text shown for the iteration.
    pub fn debug(&self) -> (text: &'static str)
        ensures
            text@ == "Iter { rx: Receiver { .. } }"@,
    {
        texts::iter()
    }

    /// The next message; none once the sender is gone and has left none.
    pub fn next(&mut self, link: &mut Link<T>) -> (r: Option<T>)
        requires
            old(self).rx.of(*old(link)),
            old(link).wf(),
            old(link)@.receiver_open,
            !old(link).armed(),
            ready(old(link)@),
        ensures
            final(link).identity() == old(link).identity(),
            final(link).wf(),
            !final(link).armed(),
            r == poll_result(old(link)@).ok(),
            old(link)@.items().len() > 0 ==> {
                &&& r == Some(old(link)@.items()[0])
                &&& final(link)@.items() == old(link)@.items().drop_first()
            },
            old(link)@.items().len() == 0 ==> {
                &&& r is None
                &&& final(link)@.items() == old(link)@.items()
            },
            final(link)@.sender_open == old(link)@.sender_open,
            final(link)@.receiver_open == old(link)@.receiver_open,
            final(link)@.connected == old(link)@.connected,
            final(link)@.clock == old(link)@.clock,
            final(link)@ == polled(old(link)@),
            final(self).rx == old(self).rx,
    {
        self.rx.recv(link).ok()
    }
}

impl<'a, T> TryIter<'a, T> {
    /// The text shown for the iteration.
    pub fn debug(&self) -> (text: &'static str)
        ensures
            text@ == "TryIter { rx: Receiver { .. } }"@,
    {
        texts::try_iter()
    }

    /// The next message; none if none is pending.
    pub fn next(&mut self, link: &mut Link<T>) -> (r: Option<T>)
        requires
            old(self).rx.of(*old(link)),
            old(link).wf(),
            old(link)@.receiver_open,
            !old(link).armed(),
        ensures
            final(link).identity() == old(link).identity(),
            final(link).wf(),
            !final(link).armed(),
            r == poll_result(old(link)@).ok(),
            old(link)@.items().len() > 0 ==> {
                &&& r == Some(old(link)@.items()[0])
                &&& final(link)@.items() == old(link)@.items().drop_first()
            },
            old(link)@.items().len() == 0 ==> {
                &&& r is None
                &&& final(link)@.items() == old(link)@.items()
            },
            final(link)@.sender_open == old(link)@.sender_open,
            final(link)@.receiver_open == old(link)@.receiver_open,
            final(link)@.connected == old(link)@.connected,
            final(link)@.clock == old(link)@.clock,
            final(link)@ == polled(old(link)@),
            final(self).rx == old(self).rx,
    {
        self.rx.try_recv(link).ok()
    }
}

impl<T> IntoIter<T> {
    /// The text shown for the iteration.
    pub fn debug(&self) -> (text: &'static str)
        ensures
            text@ == "IntoIter { rx: Receiver { .. } }"@,
    {
        texts::into_iter()
    }

    /// The next message; none once the sender is gone and has left none.
    pub fn next(&mut self, link: &mut Link<T>) -> (r: Option<T>)
        requires
            old(self).rx.of(*old(link)),
            old(link).wf(),
            old(link)@.receiver_open,
            !old(link).armed(),
            ready(old(link)@),
        ensures
            final(link).identity() == old(link).identity(),
            final(link).wf(),
            !final(link).armed(),
            r == poll_result(old(link)@).ok(),
            old(link)@.items().len() > 0 ==> {
                &&& r == Some(old(link)@.items()[0])
                &&& final(link)@.items() == old(link)@.items().drop_first()
            },
            old(link)@.items().len() == 0 ==> {
                &&& r is None
                &&& final(link)@.items() == old(link)@.items()
            },
            final(link)@.sender_open == old(link)@.sender_open,
            final(link)@.receiver_open == old(link)@.receiver_open,
            final(link)@.connected == old(link)@.connected,
            final(link)@.clock == old(link)@.clock,
            final(link)@ == polled(old(link)@),
            final(self).rx == old(self).rx,
    {
        self.rx.recv(link).ok()
    }
}

} // verus!
