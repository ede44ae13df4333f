//! Counting sort proper indexes a table by integer keys; the curriculum
//! asks for one over any ordered element type, where counting positions
//! degenerates to finding, for each slot, the least remaining element.
//! This solution makes that explicit: it repeatedly selects the minimum
//! of the unsorted suffix into place.

use vstd::prelude::*;

use crate::order::{cmp_le, lemma_le_total, lemma_not_lt, sorted, total_order};

verus! {

/// Sort the vector ascending, in place.
pub fn counting_sort<T: Ord + Copy>(array: &mut Vec<T>)
    requires
        total_order::<T>(),
    ensures
        sorted(final(array)@),
        final(array)@.to_multiset() == old(array)@.to_multiset(),
        final(array)@.len() == old(array)@.len(),
{
    let n = array.len();
    let mut i: usize = 0;
    while i < n
        invariant
            total_order::<T>(),
            i <= n,
            n == array@.len(),
            array@.to_multiset() == old(array)@.to_multiset(),
            forall|p: int, q: int| 0 <= p <= q < i ==> #[trigger] cmp_le(array@[p], array@[q]),
            forall|p: int, q: int| 0 <= p < i <= q < n ==> #[trigger] cmp_le(array@[p], array@[q]),
        decreases n - i,
    {
        let mut m: usize = i;
        let mut k: usize = i + 1;
        proof {
            lemma_le_total(array@[i as int], array@[i as int]);
        }
        while k < n
            invariant
                total_order::<T>(),
                i <= m < k <= n,
                n == array@.len(),
                forall|t: int| i <= t < k ==> #[trigger] cmp_le(array@[m as int], array@[t]),
            decreases n - k,
        {
            if array[k] < array[m] {
                proof {
                    assert forall|t: int| i <= t < k + 1 implies #[trigger] cmp_le(
                        array@[k as int],
                        array@[t],
                    ) by {
                        if t < k {
                            assert(cmp_le(array@[m as int], array@[t]));
                        } else {
                            lemma_le_total(array@[k as int], array@[k as int]);
                        }
                    }
                }
                m = k;
            } else {
                proof {
                    lemma_not_lt(array@[k as int], array@[m as int]);
                }
            }
            k += 1;
        }
        let ghost pre = array@;
        crate::order::swap_elems(array, i, m);
        proof {
            assert forall|p: int, q: int| 0 <= p <= q < i + 1 implies #[trigger] cmp_le(
                array@[p],
                array@[q],
            ) by {
                if q < i {
                    assert(array@[p] == pre[p] && array@[q] == pre[q]);
                    assert(cmp_le(pre[p], pre[q]));
                } else if p < i {
                    assert(array@[q] == pre[m as int]);
                    assert(cmp_le(pre[p], pre[m as int]));
                } else {
                    lemma_le_total(array@[p], array@[q]);
                }
            }
            assert forall|p: int, q: int| 0 <= p < i + 1 <= q < n implies #[trigger] cmp_le(
                array@[p],
                array@[q],
            ) by {
                assert(array@[q] == pre[q] || array@[q] == pre[i as int]);
                if p < i {
                    assert(array@[p] == pre[p]);
                    assert(cmp_le(pre[p], pre[q]));
                    assert(cmp_le(pre[p], pre[i as int]));
                } else {
                    assert(array@[p] == pre[m as int]);
                    assert(cmp_le(pre[m as int], pre[q]));
                    assert(cmp_le(pre[m as int], pre[i as int]));
                }
            }
        }
        i += 1;
    }
}

} // verus!
