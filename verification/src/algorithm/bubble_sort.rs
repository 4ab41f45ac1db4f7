use vstd::prelude::*;

verus! {

use crate::algorithm::sorted;
use crate::algorithm::swap;

/// Sort a vector in non-decreasing order by repeatedly bubbling the largest
/// remaining value to the end. The result is a sorted rearrangement of the
/// input: same multiset of values, now in order.
pub fn bubble_sort(list: &mut Vec<i64>)
    ensures
        sorted(final(list)@),
        final(list)@.to_multiset() == old(list)@.to_multiset(),
{
    if list.len() == 0 {
        return;
    }

    let mut i: usize = 0;
    while i < list.len()
        invariant
            list@.len() == old(list)@.len(),
            i <= list@.len(),
            list@.to_multiset() == old(list)@.to_multiset(),
            forall|a: int, b: int|
                0 <= a <= b < list@.len() && list@.len() - i <= b ==> list@[a] <= list@[b],
        decreases list@.len() - i,
    {
        let mut j: usize = 0;
        while j < list.len() - i - 1
            invariant
                list@.len() == old(list)@.len(),
                i < list@.len(),
                j <= list@.len() - i - 1,
                list@.to_multiset() == old(list)@.to_multiset(),
                forall|a: int, b: int|
                    0 <= a <= b < list@.len() && list@.len() - i <= b ==> list@[a] <= list@[b],
                forall|a: int| 0 <= a <= j ==> list@[a] <= list@[j as int],
            decreases list@.len() - i - 1 - j,
        {
            if list[j] > list[j + 1] {
                swap(list, j, j + 1);
            }
            j = j + 1;
        }
        i = i + 1;
    }
}

} // verus!
