//! Quicksort: partition the range around its last element, then sort
//! the two sides of the partition point recursively.

use vstd::prelude::*;

use crate::order::{
    cmp_le, lemma_le_total, lemma_not_lt, lemma_same_multiset_ge_bound,
    lemma_same_multiset_le_bound, lemma_subrange_multiset_split, lemma_swap_in_range_multiset,
    sorted, swap_elems, total_order,
};

verus! {

/// Rearrange `[low, high]` around the pivot (the range's last element)
/// and return the pivot's final index: everything at or left of it is
/// at most the pivot, everything right of it at least the pivot.  The
/// range keeps its contents and nothing outside it moves.
fn partition<T: Ord + Copy>(array: &mut Vec<T>, low: usize, high: usize) -> (p: usize)
    requires
        total_order::<T>(),
        low <= high < old(array)@.len(),
    ensures
        low <= p <= high,
        final(array)@.len() == old(array)@.len(),
        forall|u: int|
            0 <= u < old(array)@.len() && !(low <= u <= high) ==> final(array)@[u] == old(
                array,
            )@[u],
        final(array)@.subrange(low as int, high + 1).to_multiset() == old(array)@.subrange(
            low as int,
            high + 1,
        ).to_multiset(),
        forall|t: int| low <= t < p ==> #[trigger] cmp_le(final(array)@[t], final(array)@[p as int]),
        forall|t: int| p < t <= high ==> #[trigger] cmp_le(final(array)@[p as int], final(array)@[t]),
{
    let ghost orig = array@;
    let pivot = array[high];
    let mut idx = low;
    let mut t = low;
    while t < high
        invariant
            total_order::<T>(),
            low <= idx <= t <= high < orig.len(),
            array@.len() == orig.len(),
            array@[high as int] == pivot,
            forall|u: int| 0 <= u < orig.len() && !(low <= u <= high) ==> array@[u] == orig[u],
            array@.subrange(low as int, high + 1).to_multiset() == orig.subrange(
                low as int,
                high + 1,
            ).to_multiset(),
            forall|u: int| low <= u < idx ==> #[trigger] cmp_le(array@[u], pivot),
            forall|u: int| idx <= u < t ==> #[trigger] cmp_le(pivot, array@[u]),
        decreases high - t,
    {
        if array[t] < pivot {
            let ghost pre = array@;
            swap_elems(array, idx, t);
            proof {
                lemma_swap_in_range_multiset(pre, low as int, high + 1, idx as int, t as int);
                assert forall|u: int|
                    0 <= u < orig.len() && !(low <= u <= high) implies array@[u] == orig[u] by {
                    assert(array@[u] == pre[u]);
                }
                assert forall|u: int| low <= u < idx + 1 implies #[trigger] cmp_le(
                    array@[u],
                    pivot,
                ) by {
                    if u < idx {
                        assert(array@[u] == pre[u]);
                        assert(cmp_le(pre[u], pivot));
                    } else {
                        assert(array@[idx as int] == pre[t as int]);
                    }
                }
                assert forall|u: int| idx + 1 <= u < t + 1 implies #[trigger] cmp_le(
                    pivot,
                    array@[u],
                ) by {
                    if u == t {
                        assert(idx < t);
                        assert(array@[t as int] == pre[idx as int]);
                        assert(cmp_le(pivot, pre[idx as int]));
                    } else {
                        assert(array@[u] == pre[u]);
                        assert(cmp_le(pivot, pre[u]));
                    }
                }
            }
            idx += 1;
        } else {
            proof {
                lemma_not_lt(array@[t as int], pivot);
            }
        }
        t += 1;
    }
    let ghost pre = array@;
    swap_elems(array, idx, high);
    proof {
        lemma_swap_in_range_multiset(pre, low as int, high + 1, idx as int, high as int);
        assert forall|u: int|
            0 <= u < orig.len() && !(low <= u <= high) implies array@[u] == orig[u] by {
            assert(array@[u] == pre[u]);
        }
        assert(array@[idx as int] == pivot);
        assert forall|u: int| low <= u < idx implies #[trigger] cmp_le(
            array@[u],
            array@[idx as int],
        ) by {
            assert(array@[u] == pre[u]);
            assert(cmp_le(pre[u], pivot));
        }
        assert forall|u: int| idx < u <= high implies #[trigger] cmp_le(
            array@[idx as int],
            array@[u],
        ) by {
            if u == high {
                assert(array@[high as int] == pre[idx as int]);
                assert(cmp_le(pivot, pre[idx as int]));
            } else {
                assert(array@[u] == pre[u]);
                assert(cmp_le(pivot, pre[u]));
            }
        }
    }
    idx
}

/// Sort the range `[low, high]` in place; the range keeps its contents
/// and nothing outside it moves.
fn _quick_sort<T: Ord + Copy>(array: &mut Vec<T>, low: usize, high: usize)
    requires
        total_order::<T>(),
        low <= high < old(array)@.len(),
    ensures
        final(array)@.len() == old(array)@.len(),
        forall|u: int|
            0 <= u < old(array)@.len() && !(low <= u <= high) ==> final(array)@[u] == old(
                array,
            )@[u],
        final(array)@.subrange(low as int, high + 1).to_multiset() == old(array)@.subrange(
            low as int,
            high + 1,
        ).to_multiset(),
        sorted(final(array)@.subrange(low as int, high + 1)),
    decreases high - low,
{
    if low >= high {
        proof {
            let w = array@.subrange(low as int, high + 1);
            assert forall|i: int, j: int| 0 <= i <= j < w.len() implies #[trigger] cmp_le(
                w[i],
                w[j],
            ) by {
                lemma_le_total(w[i], w[j]);
            }
        }
        return;
    }
    let ghost s0 = array@;
    let p = partition(array, low, high);
    let ghost s1 = array@;
    let ghost pivot = s1[p as int];
    if p > low {
        _quick_sort(array, low, p - 1);
    }
    let ghost s2 = array@;
    if p < high {
        _quick_sort(array, p + 1, high);
    }
    let ghost s3 = array@;
    proof {
        // positions at or right of the pivot survive the left recursion,
        // positions at or left of it survive the right one
        assert forall|u: int| p <= u <= high implies s2[u] == s1[u] by {}
        assert forall|u: int| low <= u <= p implies s3[u] == s2[u] by {}
        assert forall|u: int|
            0 <= u < s0.len() && !(low <= u <= high) implies s3[u] == s0[u] by {}
        assert(s3[p as int] == pivot);

        // each side keeps its contents through the recursions
        assert(s2.subrange(low as int, p as int).to_multiset() == s1.subrange(
            low as int,
            p as int,
        ).to_multiset()) by {
            if p > low {
                assert(s1.subrange(low as int, p - 1 + 1) =~= s1.subrange(low as int, p as int));
                assert(s2.subrange(low as int, p - 1 + 1) =~= s2.subrange(low as int, p as int));
            } else {
                assert(s2.subrange(low as int, p as int) =~= s1.subrange(low as int, p as int));
            }
        }
        assert(s3.subrange(low as int, p as int) =~= s2.subrange(low as int, p as int));
        assert(s3.subrange(p + 1, high + 1).to_multiset() == s2.subrange(
            p + 1,
            high + 1,
        ).to_multiset()) by {
            if p >= high {
                assert(s3.subrange(p + 1, high + 1) =~= s2.subrange(p + 1, high + 1));
            }
        }
        assert(s2.subrange(p + 1, high + 1) =~= s1.subrange(p + 1, high + 1));

        // the pivot still bounds both sides
        assert forall|u: int| low <= u < p implies #[trigger] cmp_le(s3[u], pivot) by {
            lemma_same_multiset_le_bound(
                s1.subrange(low as int, p as int),
                s3.subrange(low as int, p as int),
                pivot,
            );
            assert(s3.subrange(low as int, p as int)[u - low] == s3[u]);
        }
        assert forall|u: int| p < u <= high implies #[trigger] cmp_le(pivot, s3[u]) by {
            lemma_same_multiset_ge_bound(
                s1.subrange(p + 1, high + 1),
                s3.subrange(p + 1, high + 1),
                pivot,
            );
            assert(s3.subrange(p + 1, high + 1)[u - (p + 1)] == s3[u]);
        }

        // both sides are sorted in the final array
        assert forall|i: int, j: int| low <= i <= j < p implies #[trigger] cmp_le(
            s3[i],
            s3[j],
        ) by {
            assert(p > low);
            let wl = s2.subrange(low as int, p - 1 + 1);
            assert(sorted(wl));
            assert(wl[i - low] == s3[i] && wl[j - low] == s3[j]);
            assert(cmp_le(wl[i - low], wl[j - low]));
        }
        assert forall|i: int, j: int| p < i <= j <= high implies #[trigger] cmp_le(
            s3[i],
            s3[j],
        ) by {
            assert(p < high);
            let wr = s3.subrange(p + 1, high + 1);
            assert(sorted(wr));
            assert(wr[i - (p + 1)] == s3[i] && wr[j - (p + 1)] == s3[j]);
            assert(cmp_le(wr[i - (p + 1)], wr[j - (p + 1)]));
        }

        // stitch: the whole range is sorted
        let w = s3.subrange(low as int, high + 1);
        assert forall|i: int, j: int| 0 <= i <= j < w.len() implies #[trigger] cmp_le(
            w[i],
            w[j],
        ) by {
            let a = i + low;
            let b = j + low;
            assert(w[i] == s3[a] && w[j] == s3[b]);
            if a == b {
                lemma_le_total(s3[a], s3[b]);
            } else if b < p {
                assert(cmp_le(s3[a], s3[b]));
            } else if b == p {
                assert(cmp_le(s3[a], pivot));
            } else if a < p {
                assert(cmp_le(s3[a], pivot));
                assert(cmp_le(pivot, s3[b]));
            } else if a == p {
                assert(cmp_le(pivot, s3[b]));
            } else {
                assert(cmp_le(s3[a], s3[b]));
            }
        }

        // stitch: the whole range keeps its contents
        lemma_subrange_multiset_split(s3, low as int, p as int, high + 1);
        lemma_subrange_multiset_split(s3, p as int, p + 1, high + 1);
        lemma_subrange_multiset_split(s1, low as int, p as int, high + 1);
        lemma_subrange_multiset_split(s1, p as int, p + 1, high + 1);
        assert(s3.subrange(p as int, p + 1) =~= s1.subrange(p as int, p + 1));
        assert(s3.subrange(low as int, high + 1).to_multiset() == s1.subrange(
            low as int,
            high + 1,
        ).to_multiset());
    }
}

/// Sort the vector ascending, in place, by recursive partitioning.
pub fn quick_sort<T: Ord + Copy>(array: &mut Vec<T>)
    requires
        total_order::<T>(),
    ensures
        sorted(final(array)@),
        final(array)@.to_multiset() == old(array)@.to_multiset(),
        final(array)@.len() == old(array)@.len(),
{
    let len = array.len();
    if len == 0 {
        return;
    }
    let ghost s0 = array@;
    _quick_sort(array, 0, len - 1);
    proof {
        assert(array@.subrange(0, len as int) =~= array@);
        assert(s0.subrange(0, len as int) =~= s0);
    }
}

} // verus!
