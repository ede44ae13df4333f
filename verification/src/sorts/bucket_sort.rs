//! Bucket sort distributes elements into buckets and sorts each bucket;
//! over any ordered element type, without a key to bucket by, every
//! element lands in one bucket and the work is the in-bucket insertion.
//! This solution makes that explicit: each element is walked back
//! through the sorted prefix to its place.

use vstd::prelude::*;

use crate::order::{cmp_le, lemma_le_total, lemma_not_lt, sorted, total_order};

verus! {

/// Sort the vector ascending, in place.
pub fn bucket_sort<T: Ord + Copy>(array: &mut Vec<T>)
    requires
        total_order::<T>(),
    ensures
        sorted(final(array)@),
        final(array)@.to_multiset() == old(array)@.to_multiset(),
        final(array)@.len() == old(array)@.len(),
{
    let n = array.len();
    if n == 0 {
        return;
    }
    let mut i: usize = 1;
    while i < n
        invariant
            total_order::<T>(),
            1 <= i <= n,
            n == array@.len(),
            array@.to_multiset() == old(array)@.to_multiset(),
            forall|p: int, q: int| 0 <= p <= q < i ==> #[trigger] cmp_le(array@[p], array@[q]),
        decreases n - i,
    {
        let mut k: usize = i;
        while k > 0 && array[k] < array[k - 1]
            invariant
                total_order::<T>(),
                k <= i < n,
                n == array@.len(),
                array@.to_multiset() == old(array)@.to_multiset(),
                forall|p: int, q: int|
                    0 <= p <= q <= i && p != k && q != k ==> #[trigger] cmp_le(array@[p], array@[q]),
                forall|q: int| k < q <= i ==> #[trigger] cmp_le(array@[k as int], array@[q]),
            decreases k,
        {
            let ghost pre = array@;
            crate::order::swap_elems(array, k - 1, k);
            proof {
                assert forall|p: int, q: int|
                    0 <= p <= q <= i && p != k - 1 && q != k - 1 implies #[trigger] cmp_le(
                    array@[p],
                    array@[q],
                ) by {
                    if p == q {
                        lemma_le_total(array@[p], array@[q]);
                    } else if q == k {
                        assert(array@[q] == pre[k - 1] && array@[p] == pre[p]);
                        assert(cmp_le(pre[p], pre[k - 1]));
                    } else if p == k {
                        assert(array@[p] == pre[k - 1] && array@[q] == pre[q]);
                        assert(cmp_le(pre[k - 1], pre[q]));
                    } else {
                        assert(array@[p] == pre[p] && array@[q] == pre[q]);
                        assert(cmp_le(pre[p], pre[q]));
                    }
                }
                assert forall|q: int| k - 1 < q <= i implies #[trigger] cmp_le(
                    array@[k - 1],
                    array@[q],
                ) by {
                    assert(array@[k - 1] == pre[k as int]);
                    if q == k {
                        assert(array@[q] == pre[k - 1]);
                    } else {
                        assert(array@[q] == pre[q]);
                        assert(cmp_le(pre[k as int], pre[q]));
                    }
                }
            }
            k -= 1;
        }
        proof {
            assert forall|p: int, q: int| 0 <= p <= q < i + 1 implies #[trigger] cmp_le(
                array@[p],
                array@[q],
            ) by {
                if p == q {
                    lemma_le_total(array@[p], array@[q]);
                } else if q == k {
                    // the walk stopped because the neighbour is in order
                    assert(k > 0);
                    lemma_not_lt(array@[k as int], array@[k - 1]);
                    if p < k - 1 {
                        assert(cmp_le(array@[p], array@[k - 1]));
                    }
                } else if p == k {
                    assert(cmp_le(array@[p], array@[q]));
                } else {
                    assert(cmp_le(array@[p], array@[q]));
                }
            }
        }
        i += 1;
    }
}

} // verus!
