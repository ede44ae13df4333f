//! Merge sort: split the vector in half, sort each half, and merge the
//! two ascending halves back into one.

use vstd::prelude::*;
use vstd::multiset::Multiset;

use crate::order::{cmp_le, copy_range, lemma_le_total, lemma_not_lt, sorted, total_order};

verus! {

/// Merge two ascending vectors into one ascending vector that holds
/// exactly the elements of both.
pub fn merge<T: PartialOrd + Copy>(array1: &Vec<T>, array2: &Vec<T>) -> (vector: Vec<T>)
    requires
        total_order::<T>(),
        sorted(array1@),
        sorted(array2@),
    ensures
        sorted(vector@),
        vector@.to_multiset() == array1@.to_multiset().add(array2@.to_multiset()),
        vector@.len() == array1@.len() + array2@.len(),
{
    broadcast use vstd::seq_lib::group_to_multiset_ensures;
    broadcast use vstd::multiset::group_multiset_axioms;

    let n1 = array1.len();
    let n2 = array2.len();
    let mut vector: Vec<T> = Vec::new();
    let mut i: usize = 0;
    let mut j: usize = 0;
    proof {
        assert(array1@.take(0).to_multiset() =~= Multiset::<T>::empty());
        assert(array2@.take(0).to_multiset() =~= Multiset::<T>::empty());
        assert(vector@.to_multiset() =~= array1@.take(0).to_multiset().add(
            array2@.take(0).to_multiset(),
        ));
    }
    while i < n1 && j < n2
        invariant
            total_order::<T>(),
            sorted(array1@),
            sorted(array2@),
            n1 == array1@.len(),
            n2 == array2@.len(),
            i <= n1,
            j <= n2,
            vector@.len() == i + j,
            vector@.to_multiset() == array1@.take(i as int).to_multiset().add(
                array2@.take(j as int).to_multiset(),
            ),
            sorted(vector@),
            forall|p: int, q: int|
                0 <= p < vector@.len() && i <= q < n1 ==> #[trigger] cmp_le(
                    vector@[p],
                    array1@[q],
                ),
            forall|p: int, q: int|
                0 <= p < vector@.len() && j <= q < n2 ==> #[trigger] cmp_le(
                    vector@[p],
                    array2@[q],
                ),
        decreases n1 + n2 - i - j,
    {
        let ghost pre = vector@;
        if array1[i] < array2[j] {
            vector.push(array1[i]);
            proof {
                broadcast use vstd::seq_lib::group_to_multiset_ensures;
                broadcast use vstd::multiset::group_multiset_axioms;
                let e = array1@[i as int];
                assert(vector@ == pre.push(e));
                assert(pre.push(e).to_multiset() =~= pre.to_multiset().insert(e));
                assert(array1@.take(i + 1) =~= array1@.take(i as int).push(e));
                assert(array1@.take(i as int).push(e).to_multiset() =~= array1@.take(
                    i as int,
                ).to_multiset().insert(e));
                assert(vector@.to_multiset() =~= array1@.take(i + 1).to_multiset().add(
                    array2@.take(j as int).to_multiset(),
                ));
                assert forall|p: int, q: int| 0 <= p <= q < vector@.len() implies #[trigger] cmp_le(
                    vector@[p],
                    vector@[q],
                ) by {
                    if q == vector@.len() - 1 {
                        if p < q {
                            assert(cmp_le(pre[p], array1@[i as int]));
                        } else {
                            lemma_le_total(vector@[p], vector@[q]);
                        }
                    } else {
                        assert(cmp_le(pre[p], pre[q]));
                    }
                }
                assert forall|p: int, q: int|
                    0 <= p < vector@.len() && i + 1 <= q < n1 implies #[trigger] cmp_le(
                    vector@[p],
                    array1@[q],
                ) by {
                    if p < vector@.len() - 1 {
                        assert(cmp_le(pre[p], array1@[q]));
                    } else {
                        assert(cmp_le(array1@[i as int], array1@[q]));
                    }
                }
                assert forall|p: int, q: int|
                    0 <= p < vector@.len() && j <= q < n2 implies #[trigger] cmp_le(
                    vector@[p],
                    array2@[q],
                ) by {
                    if p < vector@.len() - 1 {
                        assert(cmp_le(pre[p], array2@[q]));
                    } else {
                        assert(cmp_le(array2@[j as int], array2@[q]));
                    }
                }
            }
            i += 1;
        } else {
            vector.push(array2[j]);
            proof {
                broadcast use vstd::seq_lib::group_to_multiset_ensures;
                broadcast use vstd::multiset::group_multiset_axioms;
                lemma_not_lt(array1@[i as int], array2@[j as int]);
                let e = array2@[j as int];
                assert(vector@ == pre.push(e));
                assert(pre.push(e).to_multiset() =~= pre.to_multiset().insert(e));
                assert(array2@.take(j + 1) =~= array2@.take(j as int).push(e));
                assert(array2@.take(j as int).push(e).to_multiset() =~= array2@.take(
                    j as int,
                ).to_multiset().insert(e));
                assert(vector@.to_multiset() =~= array1@.take(i as int).to_multiset().add(
                    array2@.take(j + 1).to_multiset(),
                ));
                assert forall|p: int, q: int| 0 <= p <= q < vector@.len() implies #[trigger] cmp_le(
                    vector@[p],
                    vector@[q],
                ) by {
                    if q == vector@.len() - 1 {
                        if p < q {
                            assert(cmp_le(pre[p], array2@[j as int]));
                        } else {
                            lemma_le_total(vector@[p], vector@[q]);
                        }
                    } else {
                        assert(cmp_le(pre[p], pre[q]));
                    }
                }
                assert forall|p: int, q: int|
                    0 <= p < vector@.len() && i <= q < n1 implies #[trigger] cmp_le(
                    vector@[p],
                    array1@[q],
                ) by {
                    if p < vector@.len() - 1 {
                        assert(cmp_le(pre[p], array1@[q]));
                    } else {
                        assert(cmp_le(e, array1@[i as int]));
                        assert(cmp_le(array1@[i as int], array1@[q]));
                    }
                }
                assert forall|p: int, q: int|
                    0 <= p < vector@.len() && j + 1 <= q < n2 implies #[trigger] cmp_le(
                    vector@[p],
                    array2@[q],
                ) by {
                    if p < vector@.len() - 1 {
                        assert(cmp_le(pre[p], array2@[q]));
                    } else {
                        assert(cmp_le(array2@[j as int], array2@[q]));
                    }
                }
            }
            j += 1;
        }
    }
    while i < n1
        invariant
            total_order::<T>(),
            sorted(array1@),
            n1 == array1@.len(),
            n2 == array2@.len(),
            i <= n1,
            i == n1 || j == n2,
            j <= n2,
            vector@.len() == i + j,
            vector@.to_multiset() == array1@.take(i as int).to_multiset().add(
                array2@.take(j as int).to_multiset(),
            ),
            sorted(vector@),
            forall|p: int, q: int|
                0 <= p < vector@.len() && i <= q < n1 ==> #[trigger] cmp_le(
                    vector@[p],
                    array1@[q],
                ),
            forall|p: int, q: int|
                0 <= p < vector@.len() && j <= q < n2 ==> #[trigger] cmp_le(
                    vector@[p],
                    array2@[q],
                ),
        decreases n1 - i,
    {
        let ghost pre = vector@;
        vector.push(array1[i]);
        proof {
            broadcast use vstd::seq_lib::group_to_multiset_ensures;
            broadcast use vstd::multiset::group_multiset_axioms;
            let e = array1@[i as int];
            assert(vector@ == pre.push(e));
            assert(pre.push(e).to_multiset() =~= pre.to_multiset().insert(e));
            assert(array1@.take(i + 1) =~= array1@.take(i as int).push(e));
            assert(array1@.take(i as int).push(e).to_multiset() =~= array1@.take(
                i as int,
            ).to_multiset().insert(e));
            assert(vector@.to_multiset() =~= array1@.take(i + 1).to_multiset().add(
                array2@.take(j as int).to_multiset(),
            ));
            assert forall|p: int, q: int| 0 <= p <= q < vector@.len() implies #[trigger] cmp_le(
                vector@[p],
                vector@[q],
            ) by {
                if q == vector@.len() - 1 {
                    if p < q {
                        assert(cmp_le(pre[p], array1@[i as int]));
                    } else {
                        lemma_le_total(vector@[p], vector@[q]);
                    }
                } else {
                    assert(cmp_le(pre[p], pre[q]));
                }
            }
            assert forall|p: int, q: int|
                0 <= p < vector@.len() && i + 1 <= q < n1 implies #[trigger] cmp_le(
                vector@[p],
                array1@[q],
            ) by {
                if p < vector@.len() - 1 {
                    assert(cmp_le(pre[p], array1@[q]));
                } else {
                    assert(cmp_le(array1@[i as int], array1@[q]));
                }
            }
        }
        i += 1;
    }
    while j < n2
        invariant
            total_order::<T>(),
            sorted(array2@),
            n1 == array1@.len(),
            n2 == array2@.len(),
            i == n1,
            j <= n2,
            vector@.len() == i + j,
            vector@.to_multiset() == array1@.take(i as int).to_multiset().add(
                array2@.take(j as int).to_multiset(),
            ),
            sorted(vector@),
            forall|p: int, q: int|
                0 <= p < vector@.len() && j <= q < n2 ==> #[trigger] cmp_le(
                    vector@[p],
                    array2@[q],
                ),
        decreases n2 - j,
    {
        let ghost pre = vector@;
        vector.push(array2[j]);
        proof {
            broadcast use vstd::seq_lib::group_to_multiset_ensures;
            broadcast use vstd::multiset::group_multiset_axioms;
            let e = array2@[j as int];
            assert(vector@ == pre.push(e));
            assert(pre.push(e).to_multiset() =~= pre.to_multiset().insert(e));
            assert(array2@.take(j + 1) =~= array2@.take(j as int).push(e));
            assert(array2@.take(j as int).push(e).to_multiset() =~= array2@.take(
                j as int,
            ).to_multiset().insert(e));
            assert(vector@.to_multiset() =~= array1@.take(i as int).to_multiset().add(
                array2@.take(j + 1).to_multiset(),
            ));
            assert forall|p: int, q: int| 0 <= p <= q < vector@.len() implies #[trigger] cmp_le(
                vector@[p],
                vector@[q],
            ) by {
                if q == vector@.len() - 1 {
                    if p < q {
                        assert(cmp_le(pre[p], array2@[j as int]));
                    } else {
                        lemma_le_total(vector@[p], vector@[q]);
                    }
                } else {
                    assert(cmp_le(pre[p], pre[q]));
                }
            }
            assert forall|p: int, q: int|
                0 <= p < vector@.len() && j + 1 <= q < n2 implies #[trigger] cmp_le(
                vector@[p],
                array2@[q],
            ) by {
                if p < vector@.len() - 1 {
                    assert(cmp_le(pre[p], array2@[q]));
                } else {
                    assert(cmp_le(array2@[j as int], array2@[q]));
                }
            }
        }
        j += 1;
    }
    proof {
        assert(array1@.take(n1 as int) =~= array1@);
        assert(array2@.take(n2 as int) =~= array2@);
    }
    vector
}

/// Sort the vector ascending by splitting, sorting each half, and
/// merging.
pub fn merge_sort<T: PartialOrd + Copy>(array: &mut Vec<T>)
    requires
        total_order::<T>(),
    ensures
        sorted(final(array)@),
        final(array)@.to_multiset() == old(array)@.to_multiset(),
        final(array)@.len() == old(array)@.len(),
    decreases old(array)@.len(),
{
    let n = array.len();
    if n <= 1 {
        proof {
            if n == 1 {
                lemma_le_total(array@[0], array@[0]);
            }
        }
        return;
    }
    let m = n / 2;
    let mut left = copy_range(array, 0, m);
    let mut right = copy_range(array, m, n);
    let ghost left0 = left@;
    let ghost right0 = right@;
    merge_sort(&mut left);
    merge_sort(&mut right);
    let vector = merge(&left, &right);
    proof {
        vstd::seq_lib::lemma_multiset_commutative(left0, right0);
        assert(left0 + right0 =~= array@);
    }
    *array = vector;
}

} // verus!
