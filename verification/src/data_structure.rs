pub mod dynamic_array;
pub mod linked_list;
pub mod queue;
pub mod stack;

use vstd::prelude::*;

verus! {

/// The slot that stands `i` places past `front` on a ring of `n` slots.
/// The offsets that matter never reach a full lap, so one conditional wrap
/// stands in for the modulus.
pub open spec fn ring_index(front: int, i: int, n: int) -> int {
    if front + i < n {
        front + i
    } else {
        front + i - n
    }
}

/// A fixed-capacity circular array of `N` slots with inline storage: a window
/// of `size` live values starts at slot `front` and wraps around the end of
/// the slot region. Both ends of the window move in constant time; a full
/// array rejects pushes rather than growing.
pub struct CircularArray<T, const N: usize> {
    slots: Vec<Option<T>>,
    front: usize,
    size: usize,
}

impl<T, const N: usize> View for CircularArray<T, N> {
    type V = Seq<T>;

    /// The live values, front to back.
    closed spec fn view(&self) -> Seq<T> {
        Seq::new(
            self.size as nat,
            |i: int| self.slots@[ring_index(self.front as int, i, N as int)].unwrap(),
        )
    }
}

impl<T, const N: usize> CircularArray<T, N> {
    /// Structural invariant: the window holds values, the rest of the ring is
    /// vacant.
    pub closed spec fn wf(&self) -> bool {
        &&& self.slots@.len() == N
        &&& self.size <= N
        &&& if N == 0 {
            self.front == 0
        } else {
            self.front < N
        }
        &&& forall|i: int|
            0 <= i < self.size ==> (#[trigger] self.slots@[ring_index(
                self.front as int,
                i,
                N as int,
            )]) is Some
        &&& forall|i: int|
            self.size <= i < N ==> (#[trigger] self.slots@[ring_index(
                self.front as int,
                i,
                N as int,
            )]) is None
    }

    /// An empty array with all `N` slots vacant.
    pub fn new() -> (r: Self)
        ensures
            r.wf(),
            r@ == Seq::<T>::empty(),
    {
        let mut slots: Vec<Option<T>> = Vec::new();
        while slots.len() < N
            invariant
                slots@.len() <= N,
                forall|i: int| 0 <= i < slots@.len() ==> slots@[i] is None,
            decreases N - slots@.len(),
        {
            slots.push(None);
        }
        let r = CircularArray { slots, front: 0, size: 0 };
        proof {
            assert(r@ =~= Seq::<T>::empty());
        }
        r
    }

    /// Number of live values.
    pub fn len(&self) -> (r: usize)
        ensures
            r == self@.len(),
    {
        self.size
    }

    /// The slot just past the window's last value, without overflowing on the
    /// way to the answer.
    fn back(&self) -> (r: usize)
        requires
            self.wf(),
            N >= 1,
        ensures
            r == ring_index(self.front as int, self.size as int, N as int),
            r < N,
    {
        if self.front >= N - self.size {
            self.front - (N - self.size)
        } else {
            self.front + self.size
        }
    }

    /// The slot after `index` on the ring.
    fn get_next_index(index: usize) -> (r: usize)
        requires
            N >= 1,
            index < N,
        ensures
            r == ring_index(index as int, 1, N as int),
            r < N,
    {
        match index == N - 1 {
            true => 0,
            false => index + 1,
        }
    }

    /// The slot before `index` on the ring.
    fn get_prev_index(index: usize) -> (r: usize)
        requires
            N >= 1,
            index < N,
        ensures
            r == (if index == 0 {
                N - 1
            } else {
                index - 1
            }),
            r < N,
    {
        match index == 0 {
            true => N - 1,
            false => index - 1,
        }
    }

    /// Move the window's front one slot forward.
    fn increment_front(&mut self)
        requires
            N >= 1,
            old(self).front < N,
        ensures
            final(self).front == ring_index(old(self).front as int, 1, N as int),
            final(self).front < N,
            final(self).slots@ == old(self).slots@,
            final(self).size == old(self).size,
    {
        self.front = Self::get_next_index(self.front);
    }

    /// Move the window's front one slot backward.
    fn decrement_front(&mut self)
        requires
            N >= 1,
            old(self).front < N,
        ensures
            old(self).front == ring_index(final(self).front as int, 1, N as int),
            final(self).front < N,
            final(self).slots@ == old(self).slots@,
            final(self).size == old(self).size,
    {
        self.front = Self::get_prev_index(self.front);
    }

    /// Prepend a value in constant time, or report `Err` when the array is
    /// full.
    pub fn push_front(&mut self, value: T) -> (r: Result<(), ()>)
        requires
            old(self).wf(),
        ensures
            final(self).wf(),
            old(self)@.len() == N ==> r is Err && final(self)@ == old(self)@,
            old(self)@.len() < N ==> r is Ok && final(self)@ == old(self)@.insert(0, value),
    {
        if self.size == N {
            return Err(());
        }

        self.decrement_front();
        self.size = self.size + 1;
        self.slots[self.front] = Some(value);

        proof {
            let f = old(self).front as int;
            let f2 = self.front as int;
            let n = N as int;
            assert forall|i: int|
                0 <= i < self.size implies (#[trigger] self.slots@[ring_index(f2, i, n)])
                is Some by {
                if i > 0 {
                    assert(ring_index(f2, i, n) == ring_index(f, i - 1, n));
                    assert(ring_index(f, i - 1, n) != f2);
                    assert(old(self).slots@[ring_index(f, i - 1, n)] is Some);
                }
            }
            assert forall|i: int|
                self.size <= i < n implies (#[trigger] self.slots@[ring_index(f2, i, n)])
                is None by {
                assert(ring_index(f2, i, n) == ring_index(f, i - 1, n));
                assert(ring_index(f, i - 1, n) != f2);
                assert(old(self).slots@[ring_index(f, i - 1, n)] is None);
            }
            assert(self@ =~= old(self)@.insert(0, value));
        }
        Ok(())
    }

    /// Append a value in constant time, or report `Err` when the array is
    /// full.
    pub fn push_back(&mut self, value: T) -> (r: Result<(), ()>)
        requires
            old(self).wf(),
        ensures
            final(self).wf(),
            old(self)@.len() == N ==> r is Err && final(self)@ == old(self)@,
            old(self)@.len() < N ==> r is Ok && final(self)@ == old(self)@.push(value),
    {
        if self.size == N {
            return Err(());
        }

        let back_index = self.back();
        self.slots[back_index] = Some(value);
        self.size = self.size + 1;

        proof {
            assert(self@ =~= old(self)@.push(value));
        }
        Ok(())
    }

    /// Remove and return the first value in constant time, or `None` when the
    /// array is empty.
    pub fn pop_front(&mut self) -> (r: Option<T>)
        requires
            old(self).wf(),
        ensures
            final(self).wf(),
            old(self)@.len() == 0 ==> r is None && final(self)@ == old(self)@,
            old(self)@.len() > 0 ==> r == Some(old(self)@.first()) && final(self)@ == old(
                self,
            )@.drop_first(),
    {
        if self.size == 0 {
            return None;
        }

        let mut taken: Option<T> = None;
        core::mem::swap(&mut taken, &mut self.slots[self.front]);
        self.increment_front();
        self.size = self.size - 1;

        proof {
            let f = old(self).front as int;
            let f2 = self.front as int;
            let n = N as int;
            assert forall|i: int|
                0 <= i < self.size implies (#[trigger] self.slots@[ring_index(f2, i, n)])
                is Some by {
                assert(ring_index(f2, i, n) == ring_index(f, i + 1, n));
                assert(ring_index(f, i + 1, n) != f);
                assert(old(self).slots@[ring_index(f, i + 1, n)] is Some);
            }
            assert forall|i: int|
                self.size <= i < n implies (#[trigger] self.slots@[ring_index(f2, i, n)])
                is None by {
                if i == n - 1 {
                    assert(ring_index(f2, i, n) == f);
                } else {
                    assert(ring_index(f2, i, n) == ring_index(f, i + 1, n));
                    assert(ring_index(f, i + 1, n) != f);
                    assert(old(self).slots@[ring_index(f, i + 1, n)] is None);
                }
            }
            assert(self@ =~= old(self)@.drop_first());
        }
        taken
    }

    /// Remove and return the last value in constant time, or `None` when the
    /// array is empty.
    pub fn pop_back(&mut self) -> (r: Option<T>)
        requires
            old(self).wf(),
        ensures
            final(self).wf(),
            old(self)@.len() == 0 ==> r is None && final(self)@ == old(self)@,
            old(self)@.len() > 0 ==> r == Some(old(self)@.last()) && final(self)@ == old(
                self,
            )@.drop_last(),
    {
        if self.size == 0 {
            return None;
        }

        let back_index = self.back();
        let last_index = Self::get_prev_index(back_index);
        let mut taken: Option<T> = None;
        core::mem::swap(&mut taken, &mut self.slots[last_index]);
        self.size = self.size - 1;

        proof {
            assert(last_index == ring_index(self.front as int, self.size as int, N as int));
            assert(self@ =~= old(self)@.drop_last());
        }
        taken
    }

    /// Hand the array to a consuming iterator that yields the live values
    /// from front to back.
    pub fn into_iter(self) -> (it: CircularArrayIterator<T, N>)
        requires
            self.wf(),
        ensures
            it.wf(),
            it@ == self@,
    {
        CircularArrayIterator { array: self }
    }
}

/// A consuming iterator over a `CircularArray`. It owns the array and yields
/// the live values from front to back, vacating each slot as it goes.
pub struct CircularArrayIterator<T, const N: usize> {
    array: CircularArray<T, N>,
}

impl<T, const N: usize> View for CircularArrayIterator<T, N> {
    type V = Seq<T>;

    /// The values still to be yielded, in order.
    closed spec fn view(&self) -> Seq<T> {
        self.array@
    }
}

impl<T, const N: usize> CircularArrayIterator<T, N> {
    /// Structural invariant: the remaining array is well formed.
    pub closed spec fn wf(&self) -> bool {
        self.array.wf()
    }

    /// Yield the next value, or `None` when the iteration is finished.
    pub fn next(&mut self) -> (r: Option<T>)
        requires
            old(self).wf(),
        ensures
            final(self).wf(),
            old(self)@.len() == 0 ==> r is None && final(self)@ == old(self)@,
            old(self)@.len() > 0 ==> r == Some(old(self)@.first()) && final(self)@ == old(
                self,
            )@.drop_first(),
    {
        self.array.pop_front()
    }
}

/// Inserting a value at a valid index and then removing at the same index
/// restores the original sequence, and the removed value is the inserted one.
/// Both containers state `insert` and `remove` over this sequence model, so
/// the round trip is a no-op on either of them.
pub proof fn lemma_insert_remove_round_trip<T>(s: Seq<T>, i: int, v: T)
    requires
        0 <= i <= s.len(),
    ensures
        s.insert(i, v).remove(i) == s,
        s.insert(i, v)[i] == v,
{
    assert(s.insert(i, v).remove(i) =~= s);
}

} // verus!
