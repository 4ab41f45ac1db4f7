use vstd::prelude::*;

verus! {

use crate::algorithm::sorted;
use crate::algorithm::lemma_subrange_split_multiset;

/// Sort a vector in non-decreasing order by sorting each half recursively and
/// merging the two sorted halves. The result is a sorted rearrangement of the
/// input: same multiset of values, now in order.
pub fn merge_sort(list: &mut Vec<i64>)
    ensures
        sorted(final(list)@),
        final(list)@.len() == old(list)@.len(),
        final(list)@.to_multiset() == old(list)@.to_multiset(),
    decreases old(list)@.len(),
{
    if list.len() <= 1 {
        return;
    }

    let length = list.len();
    let partition_index = length / 2;

    let mut left: Vec<i64> = Vec::new();
    let mut i: usize = 0;
    while i < partition_index
        invariant
            i <= partition_index < length,
            length == list@.len(),
            left@ == list@.subrange(0, i as int),
        decreases partition_index - i,
    {
        let value = list[i];
        left.push(value);
        proof {
            assert(left@ =~= list@.subrange(0, i + 1));
        }
        i = i + 1;
    }

    let mut right: Vec<i64> = Vec::new();
    let mut j: usize = partition_index;
    while j < length
        invariant
            partition_index <= j <= length,
            length == list@.len(),
            right@ == list@.subrange(partition_index as int, j as int),
        decreases length - j,
    {
        let value = list[j];
        right.push(value);
        proof {
            assert(right@ =~= list@.subrange(partition_index as int, j + 1));
        }
        j = j + 1;
    }

    let ghost left0 = left@;
    let ghost right0 = right@;

    merge_sort(&mut left);
    merge_sort(&mut right);

    let mut merge_index: usize = 0;
    let mut left_index: usize = 0;
    let mut right_index: usize = 0;

    proof {
        broadcast use vstd::seq_lib::group_to_multiset_ensures;
        broadcast use vstd::multiset::group_multiset_axioms;

        assert(list@.subrange(0, 0).to_multiset() =~= left@.subrange(0, 0).to_multiset().add(
            right@.subrange(0, 0).to_multiset(),
        ));
    }

    while left_index < left.len() && right_index < right.len()
        invariant
            length == list@.len(),
            left@.len() + right@.len() == length,
            left_index <= left@.len(),
            right_index <= right@.len(),
            merge_index == left_index + right_index,
            sorted(left@),
            sorted(right@),
            forall|a: int, b: int| 0 <= a <= b < merge_index ==> list@[a] <= list@[b],
            list@.subrange(0, merge_index as int).to_multiset() == left@.subrange(
                0,
                left_index as int,
            ).to_multiset().add(right@.subrange(0, right_index as int).to_multiset()),
            forall|a: int|
                left_index <= a < left@.len() && merge_index > 0 ==> list@[merge_index - 1]
                    <= left@[a],
            forall|a: int|
                right_index <= a < right@.len() && merge_index > 0 ==> list@[merge_index - 1]
                    <= right@[a],
        decreases left@.len() - left_index + right@.len() - right_index,
    {
        let ghost before = list@;
        let left_value = left[left_index];
        let right_value = right[right_index];

        if left_value < right_value {
            list[merge_index] = left_value;
            left_index = left_index + 1;
            proof {
                assert(left@.subrange(0, left_index as int) =~= left@.subrange(
                    0,
                    left_index - 1,
                ).push(left_value));
            }
        } else {
            list[merge_index] = right_value;
            right_index = right_index + 1;
            proof {
                assert(right@.subrange(0, right_index as int) =~= right@.subrange(
                    0,
                    right_index - 1,
                ).push(right_value));
            }
        }
        merge_index = merge_index + 1;
        proof {
            broadcast use vstd::seq_lib::group_to_multiset_ensures;
            broadcast use vstd::multiset::group_multiset_axioms;

            assert(list@.subrange(0, merge_index as int) =~= before.subrange(
                0,
                merge_index - 1,
            ).push(list@[merge_index - 1]));
        }
    }

    while left_index < left.len()
        invariant
            length == list@.len(),
            left@.len() + right@.len() == length,
            left_index <= left@.len(),
            right_index <= right@.len(),
            left_index < left@.len() ==> right_index == right@.len(),
            merge_index == left_index + right_index,
            sorted(left@),
            forall|a: int, b: int| 0 <= a <= b < merge_index ==> list@[a] <= list@[b],
            list@.subrange(0, merge_index as int).to_multiset() == left@.subrange(
                0,
                left_index as int,
            ).to_multiset().add(right@.subrange(0, right_index as int).to_multiset()),
            forall|a: int|
                left_index <= a < left@.len() && merge_index > 0 ==> list@[merge_index - 1]
                    <= left@[a],
            forall|a: int|
                right_index <= a < right@.len() && merge_index > 0 ==> list@[merge_index - 1]
                    <= right@[a],
        decreases left@.len() - left_index,
    {
        let ghost before = list@;
        let left_value = left[left_index];
        list[merge_index] = left_value;
        left_index = left_index + 1;
        merge_index = merge_index + 1;
        proof {
            broadcast use vstd::seq_lib::group_to_multiset_ensures;
            broadcast use vstd::multiset::group_multiset_axioms;

            assert(left@.subrange(0, left_index as int) =~= left@.subrange(0, left_index - 1).push(
                left_value,
            ));
            assert(list@.subrange(0, merge_index as int) =~= before.subrange(
                0,
                merge_index - 1,
            ).push(list@[merge_index - 1]));
        }
    }

    while right_index < right.len()
        invariant
            length == list@.len(),
            left@.len() + right@.len() == length,
            left_index == left@.len(),
            right_index <= right@.len(),
            merge_index == left_index + right_index,
            sorted(right@),
            forall|a: int, b: int| 0 <= a <= b < merge_index ==> list@[a] <= list@[b],
            list@.subrange(0, merge_index as int).to_multiset() == left@.subrange(
                0,
                left_index as int,
            ).to_multiset().add(right@.subrange(0, right_index as int).to_multiset()),
            forall|a: int|
                right_index <= a < right@.len() && merge_index > 0 ==> list@[merge_index - 1]
                    <= right@[a],
        decreases right@.len() - right_index,
    {
        let ghost before = list@;
        let right_value = right[right_index];
        list[merge_index] = right_value;
        right_index = right_index + 1;
        merge_index = merge_index + 1;
        proof {
            broadcast use vstd::seq_lib::group_to_multiset_ensures;
            broadcast use vstd::multiset::group_multiset_axioms;

            assert(right@.subrange(0, right_index as int) =~= right@.subrange(
                0,
                right_index - 1,
            ).push(right_value));
            assert(list@.subrange(0, merge_index as int) =~= before.subrange(
                0,
                merge_index - 1,
            ).push(list@[merge_index - 1]));
        }
    }

    proof {
        broadcast use vstd::multiset::group_multiset_axioms;

        assert(list@.subrange(0, merge_index as int) =~= list@);
        assert(left@.subrange(0, left_index as int) =~= left@);
        assert(right@.subrange(0, right_index as int) =~= right@);
        lemma_subrange_split_multiset(old(list)@, 0, partition_index as int, length as int);
        assert(old(list)@.subrange(0, length as int) =~= old(list)@);
    }
}

} // verus!
