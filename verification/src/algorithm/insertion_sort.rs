use vstd::prelude::*;

verus! {

use crate::algorithm::sorted;
use crate::algorithm::swap;

/// Sort a vector in non-decreasing order by sifting each value down into the
/// already-sorted prefix before it. The result is a sorted rearrangement of
/// the input: same multiset of values, now in order.
pub fn insertion_sort(list: &mut Vec<i64>)
    ensures
        sorted(final(list)@),
        final(list)@.to_multiset() == old(list)@.to_multiset(),
{
    if list.len() == 0 {
        return;
    }

    let mut i: usize = 1;
    while i < list.len()
        invariant
            list@.len() == old(list)@.len(),
            1 <= i <= list@.len(),
            list@.to_multiset() == old(list)@.to_multiset(),
            forall|a: int, b: int| 0 <= a <= b < i ==> list@[a] <= list@[b],
        decreases list@.len() - i,
    {
        let mut j: usize = i;
        while j >= 1 && list[j - 1] > list[j]
            invariant
                list@.len() == old(list)@.len(),
                j <= i < list@.len(),
                list@.to_multiset() == old(list)@.to_multiset(),
                forall|a: int, b: int|
                    0 <= a <= b <= i && a != j && b != j ==> list@[a] <= list@[b],
                forall|b: int| j < b <= i ==> list@[j as int] <= list@[b],
            decreases j,
        {
            swap(list, j - 1, j);
            j = j - 1;
        }
        i = i + 1;
    }
}

} // verus!
