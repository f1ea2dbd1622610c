//! Unbounded queues between the parts of the node.

use std::collections::VecDeque;
use vstd::prelude::*;

verus! {

/// A first-in first-out queue with a receiver that can go away. Once it has,
/// nothing more can be sent; what was sent before can still be taken out.
pub struct Channel<T> {
    receiver_alive: bool,
    items: VecDeque<T>,
}

impl<T> Channel<T> {
    /// What was sent and not taken out yet, oldest first.
    pub closed spec fn queued(&self) -> Seq<T> {
        self.items@
    }

    /// Whether the receiver is still there.
    pub closed spec fn alive(&self) -> bool {
        self.receiver_alive
    }

    /// An empty queue.
    pub fn new() -> (channel: Channel<T>)
        ensures
            channel.queued() == Seq::<T>::empty(),
            channel.alive(),
    {
        Channel { receiver_alive: true, items: VecDeque::new() }
    }

    /// Lets the receiver go.
    pub fn close(&mut self)
        ensures
            !final(self).alive(),
            final(self).queued() == old(self).queued(),
    {
        self.receiver_alive = false;
    }

    /// Appends an item if the receiver is still there, and says whether it was.
    pub fn send(&mut self, item: T) -> (sent: bool)
        ensures
            sent == old(self).alive(),
            final(self).alive() == old(self).alive(),
            final(self).queued() == (if sent {
                old(self).queued().push(item)
            } else {
                old(self).queued()
            }),
    {
        if self.receiver_alive {
            self.items.push_back(item);
            true
        } else {
            false
        }
    }

    /// Takes the oldest item out.
    pub fn receive(&mut self) -> (item: Option<T>)
        ensures
            final(self).alive() == old(self).alive(),
            item == (if old(self).queued().len() > 0 {
                Some(old(self).queued()[0])
            } else {
                None
            }),
            final(self).queued() == (if old(self).queued().len() > 0 {
                old(self).queued().skip(1)
            } else {
                old(self).queued()
            }),
    {
        let item = self.items.pop_front();
        proof {
            if old(self).queued().len() > 0 {
                assert(final(self).queued() =~= old(self).queued().skip(1));
            }
        }
        item
    }

    /// How many items wait.
    pub fn len(&self) -> (n: usize)
        ensures
            n == self.queued().len(),
    {
        self.items.len()
    }

    /// Whether no item waits.
    pub fn is_empty(&self) -> (b: bool)
        ensures
            b == (self.queued().len() == 0),
    {
        self.items.len() == 0
    }

    /// Whether the receiver is gone.
    pub fn is_closed(&self) -> (b: bool)
        ensures
            b == !self.alive(),
    {
        !self.receiver_alive
    }
}

} // verus!
