use vstd::prelude::*;

verus! {

use crate::data_structure::linked_list::LinkedList;
use crate::data_structure::linked_list::LinkedListIterator;

/// A last-in, first-out adapter: values enter and leave at the front of a
/// linked list, both in constant time. The view lists the values from the top
/// of the stack down.
pub struct Stack<T> {
    items: LinkedList<T>,
}

impl<T> View for Stack<T> {
    type V = Seq<T>;

    /// The stacked values, top of the stack first.
    closed spec fn view(&self) -> Seq<T> {
        self.items@
    }
}

impl<T> Stack<T> {
    /// Structural invariant: the backing list is well formed.
    pub closed spec fn wf(&self) -> bool {
        self.items.wf()
    }

    /// An empty stack.
    pub fn new() -> (r: Self)
        ensures
            r.wf(),
            r@ == Seq::<T>::empty(),
    {
        Stack { items: LinkedList::new() }
    }

    /// Number of stacked values.
    pub fn len(&self) -> (r: usize)
        ensures
            r == self@.len(),
    {
        self.items.len()
    }

    /// Put a value on top of the stack.
    pub fn push(&mut self, item: T)
        requires
            old(self).wf(),
            old(self)@.len() < usize::MAX,
        ensures
            final(self).wf(),
            final(self)@ == old(self)@.insert(0, item),
    {
        self.items.push_front(item);
    }

    /// Remove and return the value on top of the stack, or `None` when the
    /// stack is empty.
    pub fn pop(&mut self) -> (r: Option<T>)
        requires
            old(self).wf(),
        ensures
            final(self).wf(),
            old(self)@.len() == 0 ==> r is None && final(self)@ == old(self)@,
            old(self)@.len() > 0 ==> r == Some(old(self)@.first()) && final(self)@ == old(
                self,
            )@.drop_first(),
    {
        self.items.pop_front()
    }

    /// Hand the stack to a consuming iterator that yields the values from the
    /// top of the stack down.
    pub fn into_iter(self) -> (it: StackIterator<T>)
        requires
            self.wf(),
        ensures
            it.wf(),
            it@ == self@,
    {
        StackIterator { iterator: self.items.into_iter() }
    }
}

/// A consuming iterator over a `Stack`, yielding values from the top down.
pub struct StackIterator<T> {
    iterator: LinkedListIterator<T>,
}

impl<T> View for StackIterator<T> {
    type V = Seq<T>;

    /// The values still to be yielded, in order.
    closed spec fn view(&self) -> Seq<T> {
        self.iterator@
    }
}

impl<T> StackIterator<T> {
    /// Structural invariant: the remaining values form a well formed list.
    pub closed spec fn wf(&self) -> bool {
        self.iterator.wf()
    }

    /// Yield the next value, or `None` when the iteration is finished.
    pub fn next(&mut self) -> (r: Option<T>)
        requires
            old(self).wf(),
        ensures
            final(self).wf(),
            old(self)@.len() == 0 ==> r is None && final(self)@ == old(self)@,
            old(self)@.len() > 0 ==> r == Some(old(self)@.first()) && final(self)@ == old(
                self,
            )@.drop_first(),
    {
        self.iterator.next()
    }
}

} // verus!
