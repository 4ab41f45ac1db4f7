pub mod binary_search;
pub mod bubble_sort;
pub mod insertion_sort;
pub mod merge_sort;
pub mod quick_sort;
pub mod selection_sort;

use vstd::prelude::*;

verus! {

/// A sequence is sorted in non-decreasing order.
pub open spec fn sorted(s: Seq<i64>) -> bool {
    forall|i: int, j: int| 0 <= i <= j < s.len() ==> s[i] <= s[j]
}

/// Exchanging two positions of a sequence leaves its multiset of values
/// unchanged.
pub proof fn lemma_swap_preserves_multiset<A>(s: Seq<A>, i: int, j: int)
    requires
        0 <= i < s.len(),
        0 <= j < s.len(),
    ensures
        s.update(i, s[j]).update(j, s[i]).to_multiset() == s.to_multiset(),
{
    broadcast use vstd::seq_lib::group_to_multiset_ensures;
    broadcast use vstd::multiset::group_multiset_axioms;

    if i == j {
        assert(s.update(i, s[j]).update(j, s[i]) =~= s);
    } else {
        let s1 = s.update(i, s[j]);
        let s2 = s1.update(j, s[i]);
        assert(s1.to_multiset() == s.to_multiset().insert(s[j]).remove(s[i]));
        assert(s2.to_multiset() == s1.to_multiset().insert(s[i]).remove(s1[j]));
        assert(s.to_multiset().contains(s[i]));
        assert(s2.to_multiset() =~= s.to_multiset());
    }
}

/// A window of a sequence splits at any interior point into two windows whose
/// multisets add up to the whole window's multiset.
pub proof fn lemma_subrange_split_multiset<A>(s: Seq<A>, lo: int, mid: int, hi: int)
    requires
        0 <= lo <= mid <= hi <= s.len(),
    ensures
        s.subrange(lo, hi).to_multiset() == s.subrange(lo, mid).to_multiset().add(
            s.subrange(mid, hi).to_multiset(),
        ),
{
    assert(s.subrange(lo, hi) =~= s.subrange(lo, mid) + s.subrange(mid, hi));
    vstd::seq_lib::lemma_multiset_commutative(s.subrange(lo, mid), s.subrange(mid, hi));
}

/// Exchange the values at positions `i` and `j`.
pub fn swap(list: &mut Vec<i64>, i: usize, j: usize)
    requires
        i < old(list)@.len(),
        j < old(list)@.len(),
    ensures
        final(list)@ == old(list)@.update(i as int, old(list)@[j as int]).update(
            j as int,
            old(list)@[i as int],
        ),
        final(list)@.to_multiset() == old(list)@.to_multiset(),
{
    let a = list[i];
    let b = list[j];
    list[i] = b;
    list[j] = a;
    proof {
        lemma_swap_preserves_multiset(old(list)@, i as int, j as int);
    }
}

/// Search a sorted vector for a target value.
///
/// Returns `Ok(index)` of the target value, or `Err(())` if it is absent.
pub fn binary_search(list: Vec<i64>, target: i64) -> (r: Result<usize, ()>)
    requires
        sorted(list@),
        list@.len() <= usize::MAX as int / 2,
    ensures
        match r {
            Ok(i) => i < list@.len() && list@[i as int] == target,
            Err(_) => forall|k: int| 0 <= k < list@.len() ==> list@[k] != target,
        },
{
    match self::binary_search::binary_search(&list, target) {
        Some(index) => Ok(index),
        None => Err(()),
    }
}

} // verus!
