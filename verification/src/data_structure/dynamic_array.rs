use vstd::prelude::*;

verus! {

/// `n` is a power of two.
pub open spec fn is_pow2(n: nat) -> bool
    decreases n,
{
    if n == 0 {
        false
    } else if n == 1 {
        true
    } else {
        n % 2 == 0 && is_pow2(n / 2)
    }
}

/// The capacity a buffer grows to from `cap`: one slot from nothing,
/// otherwise double.
pub open spec fn grown_capacity(cap: nat) -> nat {
    if cap == 0 {
        1
    } else {
        2 * cap
    }
}

/// A growable contiguous buffer. It owns a region of `capacity` slots, of
/// which the first `length` hold live values; the slots past `length` are
/// vacant and never read. The region grows by doubling (from a base of one
/// slot) and never shrinks.
pub struct DynamicArray<T> {
    slots: Vec<Option<T>>,
    length: usize,
}

impl<T> View for DynamicArray<T> {
    type V = Seq<T>;

    /// The live values, in order.
    closed spec fn view(&self) -> Seq<T> {
        Seq::new(self.length as nat, |i: int| self.slots@[i].unwrap())
    }
}

impl<T> DynamicArray<T> {
    /// Number of slots currently allocated.
    pub closed spec fn spec_capacity(&self) -> nat {
        self.slots@.len()
    }

    /// Structural invariant: the live prefix is filled, the rest is vacant,
    /// and the capacity follows the doubling policy.
    pub closed spec fn wf(&self) -> bool {
        &&& self.length <= self.slots@.len()
        &&& self.slots@.len() == 0 || is_pow2(self.slots@.len() as nat)
        &&& forall|i: int| 0 <= i < self.length ==> self.slots@[i] is Some
        &&& forall|i: int| self.length <= i < self.slots@.len() ==> self.slots@[i] is None
    }

    /// An empty buffer with no slots allocated.
    pub fn new() -> (r: Self)
        ensures
            r.wf(),
            r@ == Seq::<T>::empty(),
            r.spec_capacity() == 0,
    {
        let r = DynamicArray { slots: Vec::new(), length: 0 };
        proof {
            assert(r@ =~= Seq::<T>::empty());
        }
        r
    }

    /// Number of slots currently allocated.
    pub fn capacity(&self) -> (r: usize)
        ensures
            r == self.spec_capacity(),
    {
        self.slots.len()
    }

    /// Number of live values.
    pub fn len(&self) -> (r: usize)
        ensures
            r == self@.len(),
    {
        self.length
    }

    /// Extend the region to the next capacity of the doubling policy. The
    /// live values are untouched; the new slots are vacant.
    fn grow(&mut self)
        requires
            old(self).wf(),
            2 * old(self).spec_capacity() <= usize::MAX as int,
        ensures
            final(self).wf(),
            final(self)@ == old(self)@,
            final(self).length == old(self).length,
            final(self).spec_capacity() == grown_capacity(old(self).spec_capacity()),
    {
        let old_capacity = self.slots.len();
        let new_capacity = if old_capacity == 0 {
            1
        } else {
            old_capacity * 2
        };

        while self.slots.len() < new_capacity
            invariant
                self.length == old(self).length,
                old(self).slots@.len() <= self.slots@.len() <= new_capacity,
                self.slots@.subrange(0, old(self).slots@.len() as int) == old(self).slots@,
                forall|i: int|
                    old(self).slots@.len() <= i < self.slots@.len() ==> self.slots@[i] is None,
            decreases new_capacity - self.slots@.len(),
        {
            self.slots.push(None);
        }

        proof {
            assert forall|i: int| 0 <= i < old(self).slots@.len() implies self.slots@[i] == old(
                self,
            ).slots@[i] by {
                assert(self.slots@.subrange(0, old(self).slots@.len() as int)[i] == self.slots@[i]);
            }
            assert(self@ =~= old(self)@);
            if old_capacity > 0 {
                assert(is_pow2(new_capacity as nat));
            }
        }
    }

    /// Append a value at the end, growing first when the buffer is full.
    pub fn push(&mut self, item: T)
        requires
            old(self).wf(),
            old(self)@.len() == old(self).spec_capacity() ==> 2 * old(self).spec_capacity()
                <= usize::MAX as int,
        ensures
            final(self).wf(),
            final(self)@ == old(self)@.push(item),
            final(self).spec_capacity() == if old(self)@.len() < old(self).spec_capacity() {
                old(self).spec_capacity()
            } else {
                grown_capacity(old(self).spec_capacity())
            },
    {
        if self.length == self.slots.len() {
            self.grow();
        }

        self.slots[self.length] = Some(item);
        self.length = self.length + 1;

        proof {
            assert(self@ =~= old(self)@.push(item));
        }
    }

    /// Remove and return the last value, or `None` when the buffer is empty.
    /// The capacity never shrinks.
    pub fn pop(&mut self) -> (r: Option<T>)
        requires
            old(self).wf(),
        ensures
            final(self).wf(),
            final(self).spec_capacity() == old(self).spec_capacity(),
            old(self)@.len() == 0 ==> r is None && final(self)@ == old(self)@,
            old(self)@.len() > 0 ==> r == Some(old(self)@.last()) && final(self)@ == old(
                self,
            )@.drop_last(),
    {
        if self.length == 0 {
            return None;
        }

        let mut taken: Option<T> = None;
        core::mem::swap(&mut taken, &mut self.slots[self.length - 1]);
        self.length = self.length - 1;

        proof {
            assert(self@ =~= old(self)@.drop_last());
        }
        taken
    }

    /// Insert a value at `index`, shifting everything at or after it one slot
    /// towards the end. Grows first when the buffer is full.
    #[verifier::loop_isolation(false)]
    pub fn insert(&mut self, item: T, index: usize)
        requires
            old(self).wf(),
            index <= old(self)@.len(),
            old(self)@.len() == old(self).spec_capacity() ==> 2 * old(self).spec_capacity()
                <= usize::MAX as int,
        ensures
            final(self).wf(),
            final(self)@ == old(self)@.insert(index as int, item),
            final(self).spec_capacity() == if old(self)@.len() < old(self).spec_capacity() {
                old(self).spec_capacity()
            } else {
                grown_capacity(old(self).spec_capacity())
            },
    {
        if self.length == self.slots.len() {
            self.grow();
        }

        let ghost grown = self.slots@;

        let mut k: usize = self.length;
        while k > index
            invariant
                index <= k <= self.length,
                self.length == old(self).length,
                self.length < self.slots@.len(),
                self.slots@.len() == grown.len(),
                forall|i: int| 0 <= i < self.length ==> grown[i] is Some,
                forall|i: int| 0 <= i < k ==> self.slots@[i] == grown[i],
                forall|i: int| k < i <= self.length ==> self.slots@[i] == grown[i - 1],
                self.slots@[k as int] is None,
                forall|i: int|
                    self.length + 1 <= i < self.slots@.len() ==> self.slots@[i] is None,
            decreases k,
        {
            let mut moved: Option<T> = None;
            core::mem::swap(&mut moved, &mut self.slots[k - 1]);
            core::mem::swap(&mut moved, &mut self.slots[k]);
            k = k - 1;
        }

        self.slots[index] = Some(item);
        self.length = self.length + 1;

        proof {
            assert(self.slots@.len() == grown.len());
            assert(grown.len() > 0 && is_pow2(grown.len() as nat));
            assert(self.length <= self.slots@.len());
            assert forall|i: int| 0 <= i < self.length implies self.slots@[i] is Some by {
                if i < index {
                    assert(self.slots@[i] == grown[i]);
                } else if i > index {
                    assert(self.slots@[i] == grown[i - 1]);
                }
            }
            assert forall|i: int|
                self.length <= i < self.slots@.len() implies self.slots@[i] is None by {}
            assert(self@ =~= old(self)@.insert(index as int, item));
        }
    }

    /// Remove and return the value at `index`, shifting everything after it
    /// one slot towards the front. The capacity never shrinks.
    #[verifier::loop_isolation(false)]
    pub fn remove(&mut self, index: usize) -> (r: T)
        requires
            old(self).wf(),
            index < old(self)@.len(),
        ensures
            final(self).wf(),
            final(self).spec_capacity() == old(self).spec_capacity(),
            final(self)@ == old(self)@.remove(index as int),
            r == old(self)@[index as int],
    {
        let mut taken: Option<T> = None;
        core::mem::swap(&mut taken, &mut self.slots[index]);

        let mut k: usize = index;
        while k + 1 < self.length
            invariant
                index <= k < self.length <= self.slots@.len(),
                self.length == old(self).length,
                self.slots@.len() == old(self).slots@.len(),
                taken == old(self).slots@[index as int],
                forall|i: int| 0 <= i < index ==> self.slots@[i] == old(self).slots@[i],
                forall|i: int| index <= i < k ==> self.slots@[i] == old(self).slots@[i + 1],
                forall|i: int| k < i < self.length ==> self.slots@[i] == old(self).slots@[i],
                forall|i: int| 0 <= i < self.length ==> old(self).slots@[i] is Some,
                self.slots@[k as int] is None,
                forall|i: int| self.length <= i < self.slots@.len() ==> self.slots@[i] is None,
            decreases self.length - k,
        {
            let mut moved: Option<T> = None;
            core::mem::swap(&mut moved, &mut self.slots[k + 1]);
            core::mem::swap(&mut moved, &mut self.slots[k]);
            k = k + 1;
        }

        self.length = self.length - 1;

        proof {
            assert(self@ =~= old(self)@.remove(index as int));
        }
        taken.unwrap()
    }

    /// Hand the buffer to a consuming iterator that yields the live values
    /// from front to back.
    pub fn into_iter(self) -> (it: DynamicArrayIterator<T>)
        requires
            self.wf(),
        ensures
            it.wf(),
            it@ == self@,
    {
        let it = DynamicArrayIterator { slots: self.slots, length: self.length, index: 0 };
        proof {
            assert(it@ =~= self@);
        }
        it
    }
}

/// A consuming iterator over a `DynamicArray`. It owns the buffer's region
/// and yields the live values from front to back, vacating each slot as it
/// goes; whatever it does not yield is released with the region.
pub struct DynamicArrayIterator<T> {
    slots: Vec<Option<T>>,
    length: usize,
    index: usize,
}

impl<T> View for DynamicArrayIterator<T> {
    type V = Seq<T>;

    /// The values still to be yielded, in order.
    closed spec fn view(&self) -> Seq<T> {
        Seq::new((self.length - self.index) as nat, |i: int| self.slots@[self.index + i].unwrap())
    }
}

impl<T> DynamicArrayIterator<T> {
    /// Structural invariant: the slots still to be yielded are filled.
    pub closed spec fn wf(&self) -> bool {
        &&& self.index <= self.length <= self.slots@.len()
        &&& forall|i: int| self.index <= i < self.length ==> self.slots@[i] is Some
    }

    /// Yield the next value, or `None` when the iteration is finished.
    pub fn next(&mut self) -> (r: Option<T>)
        requires
            old(self).wf(),
        ensures
            final(self).wf(),
            old(self)@.len() == 0 ==> r is None && final(self)@ == old(self)@,
            old(self)@.len() > 0 ==> r == Some(old(self)@.first()) && final(self)@ == old(
                self,
            )@.drop_first(),
    {
        if self.index == self.length {
            return None;
        }

        let mut taken: Option<T> = None;
        core::mem::swap(&mut taken, &mut self.slots[self.index]);
        self.index = self.index + 1;

        proof {
            assert(self@ =~= old(self)@.drop_first());
        }
        taken
    }
}

/// The contents of a buffer holding `s` after pushing the values of `xs` in
/// order, per the `push` contract.
pub open spec fn push_sequence<T>(s: Seq<T>, xs: Seq<T>) -> Seq<T>
    decreases xs.len(),
{
    if xs.len() == 0 {
        s
    } else {
        push_sequence(s.push(xs.first()), xs.drop_first())
    }
}

/// The values returned by `n` successive pops from a buffer holding `s`, per
/// the `pop` contract.
pub open spec fn pop_sequence<T>(s: Seq<T>, n: nat) -> Seq<T>
    decreases n,
{
    if n == 0 || s.len() == 0 {
        Seq::empty()
    } else {
        seq![s.last()] + pop_sequence(s.drop_last(), (n - 1) as nat)
    }
}

/// Pushing values appends them in order.
pub proof fn lemma_push_sequence<T>(s: Seq<T>, xs: Seq<T>)
    ensures
        push_sequence(s, xs) == s + xs,
    decreases xs.len(),
{
    if xs.len() == 0 {
        assert(s + xs =~= s);
    } else {
        lemma_push_sequence(s.push(xs.first()), xs.drop_first());
        assert(s.push(xs.first()) + xs.drop_first() =~= s + xs);
    }
}

/// Pushing a sequence of values and then popping as many returns exactly
/// those values in reverse: the buffer is a strict last-in, first-out store.
pub proof fn lemma_push_pop_lifo<T>(s: Seq<T>, xs: Seq<T>)
    ensures
        pop_sequence(push_sequence(s, xs), xs.len()) == xs.reverse(),
    decreases xs.len(),
{
    lemma_push_sequence(s, xs);
    let t = s + xs;
    if xs.len() == 0 {
        assert(pop_sequence(t, 0) =~= xs.reverse());
    } else {
        assert(t.last() == xs.last());
        assert(t.drop_last() =~= s + xs.drop_last());
        lemma_push_pop_lifo(s, xs.drop_last());
        lemma_push_sequence(s, xs.drop_last());
        assert(pop_sequence(t, xs.len()) == seq![xs.last()] + pop_sequence(
            t.drop_last(),
            (xs.len() - 1) as nat,
        ));
        assert(xs.reverse() =~= seq![xs.last()] + xs.drop_last().reverse());
    }
}

/// The capacity reached after `n` pushes starting from an empty buffer, per
/// the `push` contract: stay when there is room, grow when full.
pub open spec fn capacity_after_pushes(n: nat) -> nat
    decreases n,
{
    if n == 0 {
        0
    } else {
        let cap = capacity_after_pushes((n - 1) as nat);
        if n - 1 < cap {
            cap
        } else {
            grown_capacity(cap)
        }
    }
}

/// After `n` sequential pushes from empty, the capacity is the smallest power
/// of two at or above `n` (and zero only when nothing was pushed): it is a
/// power of two in `[n, 2n)`, and that interval holds exactly one power of
/// two.
pub proof fn lemma_capacity_after_pushes(n: nat)
    ensures
        n == 0 ==> capacity_after_pushes(n) == 0,
        n >= 1 ==> is_pow2(capacity_after_pushes(n)) && n <= capacity_after_pushes(n) < 2 * n,
    decreases n,
{
    if n >= 1 {
        lemma_capacity_after_pushes((n - 1) as nat);
    }
}

/// Of two powers of two, the smaller is at most half the larger.
proof fn lemma_pow2_ordering(a: nat, b: nat)
    requires
        is_pow2(a),
        is_pow2(b),
        a < b,
    ensures
        2 * a <= b,
    decreases b,
{
    if a > 1 {
        lemma_pow2_ordering(a / 2, b / 2);
    }
}

/// No smaller power of two reaches `n`: the capacity after `n` pushes is the
/// least power of two at or above `n`.
pub proof fn lemma_capacity_after_pushes_is_least(n: nat, p: nat)
    requires
        n >= 1,
        is_pow2(p),
        p >= n,
    ensures
        p >= capacity_after_pushes(n),
{
    lemma_capacity_after_pushes(n);
    let cap = capacity_after_pushes(n);
    if p < cap {
        lemma_pow2_ordering(p, cap);
    }
}

} // verus!
