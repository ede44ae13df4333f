//! Bubble sort: repeatedly walk the unsorted prefix and swap adjacent
//! elements that are out of order; each walk floats the prefix's
//! largest element to the prefix's end.

use vstd::prelude::*;

use crate::order::{cmp_le, lemma_le_total, lemma_not_lt, sorted, total_order};

verus! {

/// Sort the vector ascending, in place, by adjacent swaps.
pub fn bubble_sort<T: PartialOrd + Copy>(array: &mut Vec<T>)
    requires
        total_order::<T>(),
    ensures
        sorted(final(array)@),
        final(array)@.to_multiset() == old(array)@.to_multiset(),
        final(array)@.len() == old(array)@.len(),
{
    let n = array.len();
    if n <= 1 {
        proof {
            if n == 1 {
                lemma_le_total(array@[0], array@[0]);
            }
        }
        return;
    }
    let mut end = n;
    while end > 1
        invariant
            total_order::<T>(),
            1 <= end <= n,
            n == array@.len(),
            array@.to_multiset() == old(array)@.to_multiset(),
            forall|i: int, k: int| 0 <= i < end <= k < n ==> #[trigger] cmp_le(array@[i], array@[k]),
            forall|i: int, k: int| end <= i <= k < n ==> #[trigger] cmp_le(array@[i], array@[k]),
        decreases end,
    {
        let mut j: usize = 0;
        while j < end - 1
            invariant
                total_order::<T>(),
                1 < end <= n,
                j < end,
                n == array@.len(),
                array@.to_multiset() == old(array)@.to_multiset(),
                forall|i: int, k: int|
                    0 <= i < end <= k < n ==> #[trigger] cmp_le(array@[i], array@[k]),
                forall|i: int, k: int| end <= i <= k < n ==> #[trigger] cmp_le(array@[i], array@[k]),
                forall|i: int| 0 <= i < j ==> #[trigger] cmp_le(array@[i], array@[j as int]),
            decreases end - j,
        {
            let ghost pre = array@;
            let a = array[j];
            let b = array[j + 1];
            if b < a {
                crate::order::swap_elems(array, j, j + 1);
                proof {
                    assert forall|i: int| 0 <= i < j + 1 implies #[trigger] cmp_le(
                        array@[i],
                        array@[j + 1],
                    ) by {
                        assert(array@[j + 1] == pre[j as int]);
                        if i < j {
                            assert(array@[i] == pre[i]);
                            assert(cmp_le(pre[i], pre[j as int]));
                        } else {
                            assert(array@[i] == pre[j + 1]);
                        }
                    }
                    assert forall|i: int, k: int| 0 <= i < end <= k < n implies #[trigger] cmp_le(
                        array@[i],
                        array@[k],
                    ) by {
                        assert(array@[k] == pre[k]);
                        assert(array@[i] == pre[i] || array@[i] == pre[j as int] || array@[i]
                            == pre[j + 1]);
                    }
                    assert forall|i: int, k: int| end <= i <= k < n implies #[trigger] cmp_le(
                        array@[i],
                        array@[k],
                    ) by {
                        assert(array@[i] == pre[i] && array@[k] == pre[k]);
                    }
                }
            } else {
                proof {
                    lemma_not_lt(b, a);
                    assert forall|i: int| 0 <= i < j + 1 implies #[trigger] cmp_le(
                        array@[i],
                        array@[j + 1],
                    ) by {
                        if i < j {
                            assert(cmp_le(array@[i], array@[j as int]));
                            assert(cmp_le(array@[j as int], array@[j + 1]));
                        }
                    }
                }
            }
            j += 1;
        }
        proof {
            // the walk put the prefix's largest element at `end - 1`
            assert forall|i: int, k: int| 0 <= i < end - 1 <= k < n implies #[trigger] cmp_le(
                array@[i],
                array@[k],
            ) by {
                if k == end - 1 {
                    assert(cmp_le(array@[i], array@[end - 1]));
                } else {
                    if i < end - 1 {
                        assert(cmp_le(array@[i], array@[k]));
                    }
                }
            }
            assert forall|i: int, k: int| end - 1 <= i <= k < n implies #[trigger] cmp_le(
                array@[i],
                array@[k],
            ) by {
                if i == k {
                    lemma_le_total(array@[i], array@[k]);
                } else if i == end - 1 {
                    assert(cmp_le(array@[i], array@[k]));
                } else {
                    assert(cmp_le(array@[i], array@[k]));
                }
            }
        }
        end -= 1;
    }
    proof {
        assert forall|i: int, k: int| 0 <= i <= k < array@.len() implies #[trigger] cmp_le(
            array@[i],
            array@[k],
        ) by {
            if k >= 1 {
                assert(cmp_le(array@[i], array@[k]));
            } else {
                lemma_le_total(array@[i], array@[k]);
            }
        }
    }
}

} // verus!
