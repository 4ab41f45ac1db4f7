use vstd::prelude::*;

verus! {

use crate::algorithm::sorted;
use crate::algorithm::swap;
use crate::algorithm::lemma_subrange_split_multiset;
use crate::algorithm::lemma_swap_preserves_multiset;

/// Exchanging two positions inside a window leaves the window's multiset of
/// values unchanged.
proof fn lemma_swap_subrange_multiset(s: Seq<i64>, lo: int, hi: int, i: int, j: int)
    requires
        0 <= lo <= i < hi <= s.len(),
        lo <= j < hi,
    ensures
        s.update(i, s[j]).update(j, s[i]).subrange(lo, hi).to_multiset() == s.subrange(
            lo,
            hi,
        ).to_multiset(),
{
    let w = s.subrange(lo, hi);
    assert(s.update(i, s[j]).update(j, s[i]).subrange(lo, hi) =~= w.update(i - lo, w[j - lo]).update(
        j - lo,
        w[i - lo],
    ));
    lemma_swap_preserves_multiset(w, i - lo, j - lo);
}

/// A rearrangement keeps every value bound: if two sequences carry the same
/// multiset and every value of the first satisfies `p`, so does every value
/// of the second.
proof fn lemma_multiset_keeps_bound(s1: Seq<i64>, s2: Seq<i64>, p: spec_fn(i64) -> bool)
    requires
        s1.to_multiset() == s2.to_multiset(),
        forall|i: int| 0 <= i < s1.len() ==> p(s1[i]),
    ensures
        forall|i: int| 0 <= i < s2.len() ==> p(s2[i]),
{
    broadcast use vstd::seq_lib::group_to_multiset_ensures;

    assert forall|i: int| 0 <= i < s2.len() implies p(s2[i]) by {
        assert(s2.contains(s2[i]));
        assert(s2.to_multiset().count(s2[i]) > 0);
        assert(s1.to_multiset().count(s2[i]) > 0);
        assert(s1.contains(s2[i]));
        let k = choose|k: int| 0 <= k < s1.len() && s1[k] == s2[i];
        assert(p(s1[k]));
    }
}

/// Sort a vector in non-decreasing order by recursive partitioning around a
/// pivot. The result is a sorted rearrangement of the input: same multiset of
/// values, now in order.
pub fn quick_sort(list: &mut Vec<i64>)
    ensures
        sorted(final(list)@),
        final(list)@.to_multiset() == old(list)@.to_multiset(),
{
    if list.len() <= 1 {
        return;
    }

    recursion(list, 0, list.len() - 1);
    proof {
        assert(old(list)@.subrange(0, old(list)@.len() as int) =~= old(list)@);
        assert(list@.subrange(0, list@.len() as int) =~= list@);
    }
}

/// Sort the window `[low, high]` of the vector, leaving everything outside
/// the window untouched.
fn recursion(list: &mut Vec<i64>, low: usize, high: usize)
    requires
        high < old(list)@.len(),
    ensures
        final(list)@.len() == old(list)@.len(),
        forall|k: int|
            0 <= k < old(list)@.len() && !(low <= k <= high) ==> final(list)@[k] == old(list)@[k],
        final(list)@.subrange(low as int, high + 1).to_multiset() == old(list)@.subrange(
            low as int,
            high + 1,
        ).to_multiset(),
        forall|a: int, b: int| low <= a <= b <= high ==> final(list)@[a] <= final(list)@[b],
    decreases high + 1 - low,
{
    if low >= high {
        return;
    }

    let partition_index = create_partitions(list, low, high);
    let length = list.len();
    assert(partition_index <= high && high < length);
    let ghost s1 = list@;
    let ghost pivot = s1[partition_index as int];

    if partition_index > 0 {
        recursion(list, low, partition_index - 1);
    }
    let ghost s2 = list@;

    recursion(list, partition_index + 1, high);
    let ghost s3 = list@;

    proof {
        let p = partition_index as int;
        let lo = low as int;
        let hi = high as int;

        // The left window still holds values below the pivot after sorting.
        if p > 0 && p > lo {
            lemma_multiset_keeps_bound(
                s1.subrange(lo, p),
                s2.subrange(lo, p),
                |v: i64| v < pivot,
            );
        }
        assert(s2.subrange(lo, p) =~= s3.subrange(lo, p));
        // The right window still holds values at or above the pivot.
        lemma_multiset_keeps_bound(
            s2.subrange(p + 1, hi + 1),
            s3.subrange(p + 1, hi + 1),
            |v: i64| v >= pivot,
        );
        assert(s1.subrange(p + 1, hi + 1) =~= s2.subrange(p + 1, hi + 1));

        assert forall|a: int, b: int| lo <= a <= b <= hi implies s3[a] <= s3[b] by {
            if a < p {
                assert(s3.subrange(lo, p)[a - lo] == s3[a]);
            }
            if b < p {
                assert(s3.subrange(lo, p)[b - lo] == s3[b]);
            }
            if a > p {
                assert(s3.subrange(p + 1, hi + 1)[a - p - 1] == s3[a]);
            }
            if b > p {
                assert(s3.subrange(p + 1, hi + 1)[b - p - 1] == s3[b]);
            }
        }

        // The whole window keeps its multiset through both recursive calls.
        broadcast use vstd::multiset::group_multiset_axioms;

        lemma_subrange_split_multiset(s1, lo, p, hi + 1);
        lemma_subrange_split_multiset(s2, lo, p, hi + 1);
        lemma_subrange_split_multiset(s3, lo, p, hi + 1);
        lemma_subrange_split_multiset(s1, p, p + 1, hi + 1);
        lemma_subrange_split_multiset(s2, p, p + 1, hi + 1);
        lemma_subrange_split_multiset(s3, p, p + 1, hi + 1);
        assert(s1.subrange(p, p + 1) =~= s2.subrange(p, p + 1));
        assert(s2.subrange(p, p + 1) =~= s3.subrange(p, p + 1));
        if p == 0 {
            assert(s2.subrange(lo, p).to_multiset() == s1.subrange(lo, p).to_multiset());
        }
        assert(s3.subrange(lo, hi + 1).to_multiset() == s1.subrange(lo, hi + 1).to_multiset());
    }
}

/// Partition the window `[low, high]` around its first value: afterwards the
/// pivot stands at the returned index, everything before it in the window is
/// strictly below it, and everything after it is at or above it.
fn create_partitions(list: &mut Vec<i64>, low: usize, high: usize) -> (p: usize)
    requires
        low < high,
        high < old(list)@.len(),
    ensures
        low <= p <= high,
        final(list)@.len() == old(list)@.len(),
        forall|k: int|
            0 <= k < old(list)@.len() && !(low <= k <= high) ==> final(list)@[k] == old(list)@[k],
        final(list)@.subrange(low as int, high + 1).to_multiset() == old(list)@.subrange(
            low as int,
            high + 1,
        ).to_multiset(),
        forall|a: int| low <= a < p ==> final(list)@[a] < final(list)@[p as int],
        forall|b: int| p < b <= high ==> final(list)@[b] >= final(list)@[p as int],
{
    let length = list.len();
    let mut swap_index: usize = low + 1;

    let mut j: usize = low + 1;
    while j <= high
        invariant
            low < j <= high + 1,
            high < length,
            length == list@.len(),
            list@.len() == old(list)@.len(),
            low + 1 <= swap_index <= j,
            list@[low as int] == old(list)@[low as int],
            forall|k: int|
                0 <= k < old(list)@.len() && !(low <= k <= high) ==> list@[k] == old(list)@[k],
            list@.subrange(low as int, high + 1).to_multiset() == old(list)@.subrange(
                low as int,
                high + 1,
            ).to_multiset(),
            forall|a: int| low < a < swap_index ==> list@[a] < list@[low as int],
            forall|b: int| swap_index <= b < j ==> list@[b] >= list@[low as int],
        decreases high + 1 - j,
    {
        if list[j] < list[low] {
            if swap_index != j {
                let ghost before = list@;
                swap(list, swap_index, j);
                proof {
                    lemma_swap_subrange_multiset(
                        before,
                        low as int,
                        high + 1,
                        swap_index as int,
                        j as int,
                    );
                }
            }
            swap_index = swap_index + 1;
        }
        j = j + 1;
    }

    let partition_index = swap_index - 1;
    if low != partition_index {
        let ghost before = list@;
        swap(list, low, partition_index);
        proof {
            lemma_swap_subrange_multiset(
                before,
                low as int,
                high + 1,
                low as int,
                partition_index as int,
            );
        }
    }

    partition_index
}

} // verus!
