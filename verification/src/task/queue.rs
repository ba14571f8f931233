//! A first-in first-out queue that holds a fixed number of items at most.

use std::collections::VecDeque;
use vstd::prelude::*;

verus! {

/// What a bounded queue holds after an attempt to add `value`: the value comes
/// last if there is room, and is left out if the queue is full.
pub open spec fn bounded_push<T>(items: Seq<T>, capacity: nat, value: T) -> Seq<T> {
    if items.len() < capacity {
        items.push(value)
    } else {
        items
    }
}

/// A queue that takes items at the back and gives them at the front, and never
/// holds more than its capacity.
pub struct BoundedQueue<T> {
    items: VecDeque<T>,
    capacity: usize,
}

impl<T> View for BoundedQueue<T> {
    type V = Seq<T>;

    /// The items in the queue, the front first.
    closed spec fn view(&self) -> Seq<T> {
        self.items@
    }
}

impl<T> BoundedQueue<T> {
    /// The largest number of items that the queue holds.
    pub closed spec fn spec_capacity(&self) -> usize {
        self.capacity
    }

    /// The invariant of the queue: it holds no more than its capacity.
    pub open spec fn wf(&self) -> bool {
        self@.len() <= self.spec_capacity()
    }

    /// An empty queue of the given capacity. The room for all its items is
    /// taken here, so that adding an item later never allocates.
    pub fn new(capacity: usize) -> (queue: BoundedQueue<T>)
        ensures
            queue.wf(),
            queue@ == Seq::<T>::empty(),
            queue.spec_capacity() == capacity,
    {
        BoundedQueue { items: VecDeque::with_capacity(capacity), capacity }
    }

    /// The largest number of items that the queue holds.
    #[verifier::when_used_as_spec(spec_capacity)]
    pub fn capacity(&self) -> (capacity: usize)
        ensures
            capacity == self.spec_capacity(),
    {
        self.capacity
    }

    /// The number of items in the queue.
    pub fn len(&self) -> (len: usize)
        ensures
            len == self@.len(),
    {
        self.items.len()
    }

    /// Whether the queue holds nothing.
    pub fn is_empty(&self) -> (empty: bool)
        ensures
            empty == (self@.len() == 0),
    {
        self.items.len() == 0
    }

    /// Whether the queue holds as many items as it can.
    pub fn is_full(&self) -> (full: bool)
        ensures
            full == (self@.len() >= self.spec_capacity()),
    {
        self.items.len() >= self.capacity
    }

    /// The item at the given place, counting from the front.
    pub fn get(&self, index: usize) -> (item: &T)
        requires
            index < self@.len(),
        ensures
            *item == self@[index as int],
    {
        &self.items[index]
    }

    /// Adds the value at the back. A full queue stays as it is and hands the
    /// value back.
    pub fn push(&mut self, value: T) -> (outcome: Result<(), T>)
        requires
            old(self).wf(),
        ensures
            final(self).wf(),
            final(self).spec_capacity() == old(self).spec_capacity(),
            final(self)@ == bounded_push(old(self)@, old(self).spec_capacity() as nat, value),
            outcome == if old(self)@.len() < old(self).spec_capacity() {
                Ok::<(), T>(())
            } else {
                Err::<(), T>(value)
            },
    {
        if self.items.len() < self.capacity {
            self.items.push_back(value);
            Ok(())
        } else {
            Err(value)
        }
    }

    /// Takes the item at the front, if there is one.
    pub fn pop(&mut self) -> (item: Option<T>)
        requires
            old(self).wf(),
        ensures
            final(self).wf(),
            final(self).spec_capacity() == old(self).spec_capacity(),
            old(self)@.len() == 0 ==> item is None && final(self)@ == old(self)@,
            old(self)@.len() > 0 ==> item == Some(old(self)@[0]) && final(self)@ == old(self)@.skip(1),
    {
        let item = self.items.pop_front();
        item
    }
}

} // verus!
