use vstd::prelude::*;

verus! {

use crate::algorithm::sorted;

/// Search a sorted vector for a target value.
///
/// Returns `Some(index)` of the target value, or `None` if it is absent.
/// The search keeps a closing bracket `[left, right]` that must contain
/// every occurrence of the target, and finishes by probing both ends of
/// the bracket once it has shrunk to at most two slots.
pub fn binary_search(list: &Vec<i64>, target: i64) -> (r: Option<usize>)
    requires
        sorted(list@),
        list@.len() <= usize::MAX as int / 2,
    ensures
        match r {
            Some(i) => i < list@.len() && list@[i as int] == target,
            None => forall|k: int| 0 <= k < list@.len() ==> list@[k] != target,
        },
{
    if list.len() == 0 {
        return None;
    }

    let mut left: usize = 0;
    let mut right: usize = list.len() - 1;

    while right - left > 1
        invariant
            sorted(list@),
            list@.len() <= usize::MAX as int / 2,
            left <= right < list@.len(),
            forall|k: int| 0 <= k < list@.len() && list@[k] == target ==> left <= k <= right,
        decreases right - left,
    {
        let tested_position: usize = (left + right) / 2;

        if target == list[tested_position] {
            return Some(tested_position);
        } else if target < list[tested_position] {
            right = tested_position - 1;
        } else {
            left = tested_position + 1;
        }
    }

    if list[left] == target {
        return Some(left);
    }
    if list[right] == target {
        return Some(right);
    }
    None
}

} // verus!
