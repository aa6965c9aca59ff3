//! A bounded first-in, first-out queue.
use std::collections::VecDeque;
use vstd::prelude::*;

verus! {

/// What a bounded queue holds and how much it can hold.
#[verifier::ext_equal]
pub struct Segment<T> {
    /// The messages, oldest first.
    pub items: Seq<T>,
    /// The most messages it can hold.
    pub capacity: nat,
}

impl<T> Segment<T> {
    /// An empty queue for `capacity` messages.
    pub open spec fn new(capacity: nat) -> Self {
        Segment { items: Seq::empty(), capacity }
    }

    /// No message fits any more.
    pub open spec fn full(self) -> bool {
        self.items.len() >= self.capacity
    }

    /// The queue with one more message at its end.
    pub open spec fn pushed(self, t: T) -> Self {
        Segment { items: self.items.push(t), ..self }
    }

    /// The queue without its oldest message.
    pub open spec fn popped(self) -> Self {
        Segment { items: self.items.drop_first(), ..self }
    }
}

/// A queue that holds a bounded number of messages.
pub struct Ring<T> {
    items: VecDeque<T>,
    capacity: usize,
}

impl<T> View for Ring<T> {
    type V = Segment<T>;

    closed spec fn view(&self) -> Segment<T> {
        Segment { items: self.items@, capacity: self.capacity as nat }
    }
}

impl<T> Ring<T> {
    /// Makes an empty queue.
    pub fn new(capacity: usize) -> (r: Self)
        ensures
            r@ == Segment::<T>::new(capacity as nat),
            r@.items.len() == 0 && r@.capacity == capacity,
    {
        Ring { items: VecDeque::new(), capacity }
    }

    /// Adds `t` at the end, or hands it back when the queue is full.
    pub fn try_push(&mut self, t: T) -> (left: Option<T>)
        ensures
            old(self)@.items.len() < old(self)@.capacity ==> {
                &&& left is None
                &&& final(self)@.items == old(self)@.items.push(t)
            },
            old(self)@.items.len() >= old(self)@.capacity ==> {
                &&& left == Some(t)
                &&& final(self)@.items == old(self)@.items
            },
            final(self)@.capacity == old(self)@.capacity,
            old(self)@.full() ==> left == Some(t) && final(self)@ == old(self)@,
            !old(self)@.full() ==> left is None && final(self)@ == old(self)@.pushed(t),
    {
        if self.items.len() < self.capacity {
            self.items.push_back(t);
            None
        } else {
            Some(t)
        }
    }

    /// Takes the oldest message, if there is one.
    pub fn try_pop(&mut self) -> (got: Option<T>)
        ensures
            old(self)@.items.len() > 0 ==> {
                &&& got == Some(old(self)@.items[0])
                &&& final(self)@.items == old(self)@.items.drop_first()
            },
            final(self)@.capacity == old(self)@.capacity,
            old(self)@.items.len() == 0 ==> got is None && final(self)@ == old(self)@,
            old(self)@.items.len() > 0 ==> got == Some(old(self)@.items[0]) && final(self)@ == old(
                self,
            )@.popped(),
    {
        let got = self.items.pop_front();
        assert(old(self)@.items.len() > 0 ==> self.items@ =~= old(self).items@.drop_first());
        got
    }

    /// The most messages the queue can hold.
    pub fn capacity(&self) -> (r: usize)
        ensures
            r == self@.capacity,
    {
        self.capacity
    }

    /// How many messages the queue holds.
    pub fn size(&self) -> (r: usize)
        ensures
            r == self@.items.len(),
    {
        self.items.len()
    }
}

} // verus!
