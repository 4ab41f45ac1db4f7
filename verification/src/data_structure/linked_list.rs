use vstd::prelude::*;

verus! {

use vstd::math::min;
use crate::data_structure::dynamic_array::push_sequence;
use crate::data_structure::dynamic_array::lemma_push_sequence;

/// A doubly linked node list. The nodes live in an arena of slots; each live
/// node holds its value and the slot numbers of its two neighbours, so the
/// links form a chain from `head` to `tail` that can be walked in either
/// direction. A slot whose node was removed is vacant and never read again;
/// the arena releases everything on destruction.
///
/// The ghost `order` lists the slots of the live nodes from front to back:
/// it is the bridge between the link structure and the list's sequence view.
pub struct LinkedList<T> {
    values: Vec<Option<T>>,
    prevs: Vec<Option<usize>>,
    nexts: Vec<Option<usize>>,
    head: Option<usize>,
    tail: Option<usize>,
    length: usize,
    order: Ghost<Seq<usize>>,
}

impl<T> View for LinkedList<T> {
    type V = Seq<T>;

    /// The values of the live nodes, from front to back.
    closed spec fn view(&self) -> Seq<T> {
        Seq::new(self.length as nat, |k: int| self.values@[self.order@[k] as int].unwrap())
    }
}

impl<T> LinkedList<T> {
    /// Structural invariant: `order` names distinct, live arena slots; every
    /// node's backward and forward links point to its neighbours in `order`;
    /// `head` and `tail` are the ends of the chain.
    pub closed spec fn wf(&self) -> bool {
        &&& self.order@.len() == self.length
        &&& self.length <= self.values@.len()
        &&& self.prevs@.len() == self.values@.len()
        &&& self.nexts@.len() == self.values@.len()
        &&& forall|k: int|
            0 <= k < self.order@.len() ==> (#[trigger] self.order@[k]) < self.values@.len()
        &&& forall|k1: int, k2: int|
            0 <= k1 < k2 < self.order@.len() ==> self.order@[k1] != self.order@[k2]
        &&& forall|k: int|
            0 <= k < self.order@.len() ==> (#[trigger] self.values@[self.order@[k] as int]) is Some
        &&& forall|k: int|
            0 <= k < self.order@.len() ==> (#[trigger] self.prevs@[self.order@[k] as int]) == (if k
                == 0 {
                None::<usize>
            } else {
                Some(self.order@[k - 1])
            })
        &&& forall|k: int|
            0 <= k < self.order@.len() ==> (#[trigger] self.nexts@[self.order@[k] as int]) == (if k
                == self.order@.len() - 1 {
                None::<usize>
            } else {
                Some(self.order@[k + 1])
            })
        &&& self.head == (if self.length == 0 {
            None::<usize>
        } else {
            Some(self.order@[0])
        })
        &&& self.tail == (if self.length == 0 {
            None::<usize>
        } else {
            Some(self.order@[self.length - 1])
        })
    }

    /// An empty list.
    pub fn new() -> (r: Self)
        ensures
            r.wf(),
            r@ == Seq::<T>::empty(),
    {
        let r = LinkedList {
            values: Vec::new(),
            prevs: Vec::new(),
            nexts: Vec::new(),
            head: None,
            tail: None,
            length: 0,
            order: Ghost(Seq::empty()),
        };
        proof {
            assert(r@ =~= Seq::<T>::empty());
        }
        r
    }

    /// Number of live nodes.
    pub fn len(&self) -> (r: usize)
        ensures
            r == self@.len(),
    {
        self.length
    }

    /// Find the arena slot of the node at `index`, walking from whichever end
    /// of the chain is nearer, and count the nodes visited on the way. The
    /// nearer-end rule bounds the count by `min(index, length - 1 - index) + 1`,
    /// and the walk meets that bound exactly.
    fn node_at(&self, index: usize) -> (r: (usize, usize))
        requires
            self.wf(),
            index < self@.len(),
        ensures
            r.0 == self.order@[index as int],
            r.1 == min(index as int, self@.len() - 1 - index) + 1,
    {
        let search_from_tail = index >= self.length / 2;

        if search_from_tail {
            let mut current_index: usize = self.length - 1;
            let mut current: usize = self.tail.unwrap();
            let mut visits: usize = 1;
            while current_index > index
                invariant
                    self.wf(),
                    index <= current_index < self@.len(),
                    current == self.order@[current_index as int],
                    visits == self@.len() - current_index,
                decreases current_index,
            {
                current = self.prevs[current].unwrap();
                current_index = current_index - 1;
                visits = visits + 1;
            }
            (current, visits)
        } else {
            let mut current_index: usize = 0;
            let mut current: usize = self.head.unwrap();
            let mut visits: usize = 1;
            while current_index < index
                invariant
                    self.wf(),
                    index < self@.len(),
                    current_index <= index,
                    current == self.order@[current_index as int],
                    visits == current_index + 1,
                decreases index - current_index,
            {
                current = self.nexts[current].unwrap();
                current_index = current_index + 1;
                visits = visits + 1;
            }
            (current, visits)
        }
    }

    /// Read the value at `index` without removing it.
    pub fn at(&self, index: usize) -> (r: T) where T: Copy
        requires
            self.wf(),
            index < self@.len(),
        ensures
            r == self@[index as int],
    {
        let found = self.node_at(index);
        self.values[found.0].unwrap()
    }

    /// Traversal-counting hook: the number of nodes an indexed lookup visits.
    /// The nearer-end rule makes it exactly `min(index, length - 1 - index) + 1`.
    pub fn lookup_visits(&self, index: usize) -> (n: usize)
        requires
            self.wf(),
            index < self@.len(),
        ensures
            n == min(index as int, self@.len() - 1 - index) + 1,
    {
        let found = self.node_at(index);
        found.1
    }

    /// Insert a value at `index`: allocate one fresh node and splice it
    /// between its two neighbours, touching no other node.
    #[verifier::rlimit(100)]
    pub fn insert(&mut self, item: T, index: usize)
        requires
            old(self).wf(),
            index <= old(self)@.len(),
            old(self)@.len() < usize::MAX,
        ensures
            final(self).wf(),
            final(self)@ == old(self)@.insert(index as int, item),
    {
        let new_slot: usize = self.values.len();

        let before: Option<usize>;
        let after: Option<usize>;
        if index == self.length {
            before = self.tail;
            after = None;
        } else {
            let found = self.node_at(index);
            before = self.prevs[found.0];
            after = Some(found.0);
        }

        self.values.push(Some(item));
        self.prevs.push(before);
        self.nexts.push(after);

        match before {
            Some(b) => {
                self.nexts[b] = Some(new_slot);
            },
            None => {
                self.head = Some(new_slot);
            },
        }

        match after {
            Some(a) => {
                self.prevs[a] = Some(new_slot);
            },
            None => {
                self.tail = Some(new_slot);
            },
        }

        self.length = self.length + 1;
        proof {
            self.order@ = self.order@.insert(index as int, new_slot);
        }

        proof {
            let o = old(self).order@;
            let o2 = self.order@;

            // Where each position of the new order comes from.
            assert(o2.len() == o.len() + 1);
            assert forall|k: int| 0 <= k < index implies o2[k] == o[k] by {}
            assert(o2[index as int] == new_slot);
            assert forall|k: int| index < k < o2.len() implies o2[k] == o[k - 1] by {}

            assert(before == (if index == 0 {
                None::<usize>
            } else {
                Some(o[index - 1])
            }));
            assert(after == (if index == old(self).length {
                None::<usize>
            } else {
                Some(o[index as int])
            }));

            assert forall|k: int| 0 <= k < o2.len() implies (#[trigger] o2[k]) < self.values@.len()
                && self.values@[o2[k] as int] is Some by {
                if k < index {
                    assert(o2[k] == o[k]);
                } else if k > index {
                    assert(o2[k] == o[k - 1]);
                }
            }

            assert forall|k1: int, k2: int| 0 <= k1 < k2 < o2.len() implies o2[k1] != o2[k2] by {
                if k1 < index {
                    assert(o2[k1] == o[k1]);
                }
                if k2 > index {
                    assert(o2[k2] == o[k2 - 1]);
                }
            }

            assert forall|k: int| 0 <= k < o2.len() implies self.prevs@[#[trigger] o2[k] as int]
                == (if k == 0 {
                None::<usize>
            } else {
                Some(o2[k - 1])
            }) by {
                if k < index {
                    assert(o2[k] == o[k]);
                    assert(self.prevs@[o2[k] as int] == old(self).prevs@[o[k] as int]);
                } else if k == index {
                    assert(o2[k] == new_slot);
                } else if k == index + 1 && index < old(self).length {
                    assert(o2[k] == o[index as int]);
                    assert(self.prevs@[o2[k] as int] == Some(new_slot));
                } else {
                    assert(o2[k] == o[k - 1]);
                    assert(self.prevs@[o2[k] as int] == old(self).prevs@[o[k - 1] as int]);
                }
            }

            assert forall|k: int| 0 <= k < o2.len() implies self.nexts@[#[trigger] o2[k] as int]
                == (if k == o2.len() - 1 {
                None::<usize>
            } else {
                Some(o2[k + 1])
            }) by {
                if k == index {
                    assert(o2[k] == new_slot);
                } else if index > 0 && k == index - 1 {
                    assert(o2[k] == o[k]);
                    assert(self.nexts@[o2[k] as int] == Some(new_slot));
                } else if k < index {
                    assert(o2[k] == o[k]);
                    assert(self.nexts@[o2[k] as int] == old(self).nexts@[o[k] as int]);
                } else {
                    assert(o2[k] == o[k - 1]);
                    assert(self.nexts@[o2[k] as int] == old(self).nexts@[o[k - 1] as int]);
                }
            }

            assert(self.wf());
            assert(self@ =~= old(self)@.insert(index as int, item));
        }
    }

    /// Remove and return the value at `index`: relink the two neighbours to
    /// bypass the node and vacate its slot.
    #[verifier::rlimit(100)]
    pub fn remove(&mut self, index: usize) -> (r: T)
        requires
            old(self).wf(),
            index < old(self)@.len(),
        ensures
            final(self).wf(),
            final(self)@ == old(self)@.remove(index as int),
            r == old(self)@[index as int],
    {
        let found = self.node_at(index);
        let slot = found.0;

        let mut taken: Option<T> = None;
        core::mem::swap(&mut taken, &mut self.values[slot]);

        let before = self.prevs[slot];
        let after = self.nexts[slot];

        match before {
            Some(b) => {
                self.nexts[b] = after;
            },
            None => {
                self.head = after;
            },
        }

        match after {
            Some(a) => {
                self.prevs[a] = before;
            },
            None => {
                self.tail = before;
            },
        }

        self.length = self.length - 1;
        proof {
            self.order@ = self.order@.remove(index as int);
        }

        proof {
            let o = old(self).order@;
            let o2 = self.order@;

            // Where each position of the new order comes from.
            assert(o2.len() == o.len() - 1);
            assert forall|k: int| 0 <= k < index implies o2[k] == o[k] by {}
            assert forall|k: int| index <= k < o2.len() implies o2[k] == o[k + 1] by {}

            assert(slot == o[index as int]);
            assert(before == (if index == 0 {
                None::<usize>
            } else {
                Some(o[index - 1])
            }));
            assert(after == (if index == o.len() - 1 {
                None::<usize>
            } else {
                Some(o[index + 1])
            }));

            assert forall|k: int| 0 <= k < o2.len() implies (#[trigger] o2[k])
                < self.values@.len() && self.values@[o2[k] as int] is Some && o2[k] != slot by {
                if k < index {
                    assert(o2[k] == o[k]);
                } else {
                    assert(o2[k] == o[k + 1]);
                }
            }

            assert forall|k1: int, k2: int| 0 <= k1 < k2 < o2.len() implies o2[k1] != o2[k2] by {
                if k1 < index {
                    assert(o2[k1] == o[k1]);
                }
                if k2 >= index {
                    assert(o2[k2] == o[k2 + 1]);
                }
            }

            assert forall|k: int| 0 <= k < o2.len() implies self.prevs@[#[trigger] o2[k] as int]
                == (if k == 0 {
                None::<usize>
            } else {
                Some(o2[k - 1])
            }) by {
                if k < index {
                    assert(o2[k] == o[k]);
                    assert(self.prevs@[o2[k] as int] == old(self).prevs@[o[k] as int]);
                } else if k == index {
                    assert(o2[k] == o[index + 1]);
                    assert(self.prevs@[o2[k] as int] == before);
                } else {
                    assert(o2[k] == o[k + 1]);
                    assert(self.prevs@[o2[k] as int] == old(self).prevs@[o[k + 1] as int]);
                }
            }

            assert forall|k: int| 0 <= k < o2.len() implies self.nexts@[#[trigger] o2[k] as int]
                == (if k == o2.len() - 1 {
                None::<usize>
            } else {
                Some(o2[k + 1])
            }) by {
                if k < index - 1 {
                    assert(o2[k] == o[k]);
                    assert(self.nexts@[o2[k] as int] == old(self).nexts@[o[k] as int]);
                } else if k == index - 1 {
                    assert(o2[k] == o[k]);
                    assert(self.nexts@[o2[k] as int] == after);
                } else {
                    assert(o2[k] == o[k + 1]);
                    assert(self.nexts@[o2[k] as int] == old(self).nexts@[o[k + 1] as int]);
                }
            }

            assert(self.wf());
            assert(self@ =~= old(self)@.remove(index as int));
        }
        taken.unwrap()
    }

    /// Insert a value at the front.
    pub fn push_front(&mut self, item: T)
        requires
            old(self).wf(),
            old(self)@.len() < usize::MAX,
        ensures
            final(self).wf(),
            final(self)@ == old(self)@.insert(0, item),
    {
        self.insert(item, 0);
    }

    /// Insert a value at the back.
    pub fn push_back(&mut self, item: T)
        requires
            old(self).wf(),
            old(self)@.len() < usize::MAX,
        ensures
            final(self).wf(),
            final(self)@ == old(self)@.push(item),
    {
        let index = self.length;
        self.insert(item, index);
        proof {
            assert(old(self)@.insert(old(self)@.len() as int, item) =~= old(self)@.push(item));
        }
    }

    /// Remove and return the first value, or `None` when the list is empty.
    pub fn pop_front(&mut self) -> (r: Option<T>)
        requires
            old(self).wf(),
        ensures
            final(self).wf(),
            old(self)@.len() == 0 ==> r is None && final(self)@ == old(self)@,
            old(self)@.len() > 0 ==> r == Some(old(self)@.first()) && final(self)@ == old(
                self,
            )@.drop_first(),
    {
        if self.length == 0 {
            return None;
        }

        let value = self.remove(0);
        proof {
            assert(old(self)@.remove(0) =~= old(self)@.drop_first());
        }
        Some(value)
    }

    /// Remove and return the last value, or `None` when the list is empty.
    pub fn pop_back(&mut self) -> (r: Option<T>)
        requires
            old(self).wf(),
        ensures
            final(self).wf(),
            old(self)@.len() == 0 ==> r is None && final(self)@ == old(self)@,
            old(self)@.len() > 0 ==> r == Some(old(self)@.last()) && final(self)@ == old(
                self,
            )@.drop_last(),
    {
        if self.length == 0 {
            return None;
        }

        let index = self.length - 1;
        let value = self.remove(index);
        proof {
            assert(old(self)@.remove(old(self)@.len() - 1) =~= old(self)@.drop_last());
        }
        Some(value)
    }

    /// Hand the list to a consuming iterator that yields the values from head
    /// to tail.
    pub fn into_iter(self) -> (it: LinkedListIterator<T>)
        requires
            self.wf(),
        ensures
            it.wf(),
            it@ == self@,
    {
        LinkedListIterator { list: self }
    }
}

/// A consuming iterator over a `LinkedList`. It owns the remaining list and
/// yields values from head to tail, unlinking each node as it goes; whatever
/// it does not yield is released with the list it still owns.
pub struct LinkedListIterator<T> {
    list: LinkedList<T>,
}

impl<T> View for LinkedListIterator<T> {
    type V = Seq<T>;

    /// The values still to be yielded, in order.
    closed spec fn view(&self) -> Seq<T> {
        self.list@
    }
}

impl<T> LinkedListIterator<T> {
    /// Structural invariant: the remaining list is well formed.
    pub closed spec fn wf(&self) -> bool {
        self.list.wf()
    }

    /// Yield the next value, or `None` when the iteration is finished.
    pub fn next(&mut self) -> (r: Option<T>)
        requires
            old(self).wf(),
        ensures
            final(self).wf(),
            old(self)@.len() == 0 ==> r is None && final(self)@ == old(self)@,
            old(self)@.len() > 0 ==> r == Some(old(self)@.first()) && final(self)@ == old(
                self,
            )@.drop_first(),
    {
        self.list.pop_front()
    }
}

/// After a sequence of `push_back` calls on an empty list, `at(i)` returns
/// the `i`-th pushed value, for every `i` in range: pushing appends in order,
/// and `at` reads the sequence the pushes built.
pub proof fn lemma_at_after_push_backs<T>(xs: Seq<T>, i: int)
    requires
        0 <= i < xs.len(),
    ensures
        push_sequence(Seq::<T>::empty(), xs)[i] == xs[i],
{
    lemma_push_sequence(Seq::<T>::empty(), xs);
    assert(Seq::<T>::empty() + xs =~= xs);
}

} // verus!
