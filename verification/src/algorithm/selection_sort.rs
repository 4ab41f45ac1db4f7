use vstd::prelude::*;

verus! {

use crate::algorithm::sorted;
use crate::algorithm::swap;

/// Sort a vector in non-decreasing order by repeatedly selecting the smallest
/// remaining value and moving it to the front. The result is a sorted
/// rearrangement of the input: same multiset of values, now in order.
pub fn selection_sort(list: &mut Vec<i64>)
    ensures
        sorted(final(list)@),
        final(list)@.to_multiset() == old(list)@.to_multiset(),
{
    if list.len() == 0 {
        return;
    }

    let mut i: usize = 0;
    while i < list.len()
        invariant
            list@.len() == old(list)@.len(),
            i <= list@.len(),
            list@.to_multiset() == old(list)@.to_multiset(),
            forall|a: int, b: int| 0 <= a <= b < i ==> list@[a] <= list@[b],
            forall|a: int, b: int| 0 <= a < i <= b < list@.len() ==> list@[a] <= list@[b],
        decreases list@.len() - i,
    {
        let mut min_value_index: usize = i;

        let mut j: usize = i + 1;
        while j < list.len()
            invariant
                list@.len() == old(list)@.len(),
                i < j <= list@.len(),
                i <= min_value_index < j,
                forall|b: int| i <= b < j ==> list@[min_value_index as int] <= list@[b],
            decreases list@.len() - j,
        {
            if list[j] < list[min_value_index] {
                min_value_index = j;
            }
            j = j + 1;
        }

        if min_value_index != i {
            swap(list, min_value_index, i);
        }
        i = i + 1;
    }
}

} // verus!
