use vstd::prelude::*;

verus! {

use crate::data_structure::linked_list::LinkedList;
use crate::data_structure::linked_list::LinkedListIterator;

/// A first-in, first-out adapter: values enter at the back of a linked list
/// and leave at its front, both in constant time.
pub struct Queue<T> {
    items: LinkedList<T>,
}

impl<T> View for Queue<T> {
    type V = Seq<T>;

    /// The queued values, front of the queue first.
    closed spec fn view(&self) -> Seq<T> {
        self.items@
    }
}

impl<T> Queue<T> {
    /// Structural invariant: the backing list is well formed.
    pub closed spec fn wf(&self) -> bool {
        self.items.wf()
    }

    /// An empty queue.
    pub fn new() -> (r: Self)
        ensures
            r.wf(),
            r@ == Seq::<T>::empty(),
    {
        Queue { items: LinkedList::new() }
    }

    /// Number of queued values.
    pub fn len(&self) -> (r: usize)
        ensures
            r == self@.len(),
    {
        self.items.len()
    }

    /// Add a value at the back of the queue.
    pub fn enqueue(&mut self, item: T)
        requires
            old(self).wf(),
            old(self)@.len() < usize::MAX,
        ensures
            final(self).wf(),
            final(self)@ == old(self)@.push(item),
    {
        self.items.push_back(item);
    }

    /// Remove and return the value at the front of the queue, or `None` when
    /// the queue is empty.
    pub fn dequeue(&mut self) -> (r: Option<T>)
        requires
            old(self).wf(),
        ensures
            final(self).wf(),
            old(self)@.len() == 0 ==> r is None && final(self)@ == old(self)@,
            old(self)@.len() > 0 ==> r == Some(old(self)@.first()) && final(self)@ == old(
                self,
            )@.drop_first(),
    {
        self.items.pop_front()
    }

    /// Hand the queue to a consuming iterator that yields the values in queue
    /// order.
    pub fn into_iter(self) -> (it: QueueIterator<T>)
        requires
            self.wf(),
        ensures
            it.wf(),
            it@ == self@,
    {
        QueueIterator { iterator: self.items.into_iter() }
    }
}

/// A consuming iterator over a `Queue`, yielding values in queue order.
pub struct QueueIterator<T> {
    iterator: LinkedListIterator<T>,
}

impl<T> View for QueueIterator<T> {
    type V = Seq<T>;

    /// The values still to be yielded, in order.
    closed spec fn view(&self) -> Seq<T> {
        self.iterator@
    }
}

impl<T> QueueIterator<T> {
    /// Structural invariant: the remaining values form a well formed list.
    pub closed spec fn wf(&self) -> bool {
        self.iterator.wf()
    }

    /// Yield the next value, or `None` when the iteration is finished.
    pub fn next(&mut self) -> (r: Option<T>)
        requires
            old(self).wf(),
        ensures
            final(self).wf(),
            old(self)@.len() == 0 ==> r is None && final(self)@ == old(self)@,
            old(self)@.len() > 0 ==> r == Some(old(self)@.first()) && final(self)@ == old(
                self,
            )@.drop_first(),
    {
        self.iterator.next()
    }
}

} // verus!
