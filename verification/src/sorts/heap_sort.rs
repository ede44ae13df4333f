//! Heap sort: arrange the vector as a binary max-heap, then repeatedly
//! swap the heap's root — its maximum — behind the shrinking heap and
//! sift the new root back down.

use vstd::prelude::*;

use crate::order::{
    cmp_le, lemma_le_total, lemma_not_lt, lemma_same_multiset_le_bound,
    lemma_subrange_multiset_split, lemma_swap_in_range_multiset, sorted, swap_elems, total_order,
};

verus! {

/// The prefix `[0, end)` is a binary max-heap: every element is at most
/// its parent at index `(c - 1) / 2`.
pub open spec fn is_heap<T: PartialOrd>(s: Seq<T>, end: int) -> bool {
    forall|c: int| 1 <= c < end ==> cmp_le(#[trigger] s[c], s[(c - 1) / 2])
}

/// In a max-heap every element is at most the root.
proof fn lemma_heap_root_max<T: PartialOrd>(s: Seq<T>, end: int, c: int)
    requires
        total_order::<T>(),
        is_heap(s, end),
        0 <= c < end <= s.len(),
    ensures
        cmp_le(s[c], s[0]),
    decreases c,
{
    if c == 0 {
        lemma_le_total(s[0], s[0]);
    } else {
        let p = (c - 1) / 2;
        assert(0 <= p < c);
        assert(cmp_le(s[c], s[p]));
        lemma_heap_root_max(s, end, p);
        assert(cmp_le(s[p], s[0]));
        assert(cmp_le(s[c], s[0]));
    }
}

/// Sift the element at `root` down the heap prefix `[0, end)` until the
/// heap shape holds again below `root`.  Only positions from `root` to
/// the end of the prefix move, and the prefix keeps its contents.
fn move_down<T: Ord + Copy>(array: &mut Vec<T>, root: usize, end: usize)
    requires
        total_order::<T>(),
        root < end <= old(array)@.len(),
        forall|c: int|
            1 <= c < end && (c - 1) / 2 > root ==> cmp_le(
                #[trigger] old(array)@[c],
                old(array)@[(c - 1) / 2],
            ),
    ensures
        final(array)@.len() == old(array)@.len(),
        forall|u: int|
            0 <= u < old(array)@.len() && !(root <= u < end) ==> final(array)@[u] == old(
                array,
            )@[u],
        final(array)@.subrange(0, end as int).to_multiset() == old(array)@.subrange(
            0,
            end as int,
        ).to_multiset(),
        final(array)@.to_multiset() == old(array)@.to_multiset(),
        forall|c: int|
            1 <= c < end && (c - 1) / 2 >= root ==> cmp_le(
                #[trigger] final(array)@[c],
                final(array)@[(c - 1) / 2],
            ),
{
    let ghost orig = array@;
    let mut r = root;
    while r < end / 2
        invariant
            total_order::<T>(),
            root <= r < end <= orig.len(),
            array@.len() == orig.len(),
            forall|u: int| 0 <= u < orig.len() && !(root <= u < end) ==> array@[u] == orig[u],
            array@.subrange(0, end as int).to_multiset() == orig.subrange(
                0,
                end as int,
            ).to_multiset(),
            forall|c: int|
                1 <= c < end && (c - 1) / 2 >= root && (c - 1) / 2 != r ==> cmp_le(
                    #[trigger] array@[c],
                    array@[(c - 1) / 2],
                ),
            r != root ==> forall|c: int|
                1 <= c < end && (c - 1) / 2 == r ==> cmp_le(
                    #[trigger] array@[c],
                    array@[(r - 1) as int / 2],
                ),
        decreases end - r,
    {
        let left = 2 * r + 1;
        let right = left + 1;
        proof {
            assert(left < end);
        }
        let max = if right < end && array[left] < array[right] {
            right
        } else {
            left
        };
        proof {
            // the chosen child is at least its sibling
            if max == left && right < end {
                lemma_not_lt(array@[left as int], array@[right as int]);
            }
        }
        let ghost pre = array@;
        let ghost rr = r as int;
        let ghost mm = max as int;
        if array[r] < array[max] {
            swap_elems(array, r, max);
            proof {
                lemma_swap_in_range_multiset(pre, 0, end as int, rr, mm);
                assert forall|u: int|
                    0 <= u < orig.len() && !(root <= u < end) implies array@[u] == orig[u] by {
                    assert(array@[u] == pre[u]);
                }
                assert forall|c: int|
                    1 <= c < end && (c - 1) / 2 >= root && (c - 1) / 2 != mm implies cmp_le(
                    #[trigger] array@[c],
                    array@[(c - 1) / 2],
                ) by {
                    let pc = (c - 1) / 2;
                    if pc == rr {
                        assert(array@[pc] == pre[mm]);
                        if c == mm {
                            assert(array@[c] == pre[rr]);
                            assert(cmp_le(pre[rr], pre[mm]));
                        } else {
                            assert(array@[c] == pre[c]);
                            assert(cmp_le(pre[c], pre[mm]));
                        }
                    } else if c == rr {
                        assert(r != root);
                        assert(array@[c] == pre[mm]);
                        assert(array@[pc] == pre[pc]);
                        assert(cmp_le(pre[mm], pre[(rr - 1) / 2]));
                    } else {
                        assert(array@[c] == pre[c]);
                        assert(array@[pc] == pre[pc]);
                        assert(cmp_le(pre[c], pre[pc]));
                    }
                }
                assert forall|c: int|
                    1 <= c < end && (c - 1) / 2 == mm implies cmp_le(
                    #[trigger] array@[c],
                    array@[(mm - 1) as int / 2],
                ) by {
                    assert(c > mm);
                    assert(array@[c] == pre[c]);
                    assert(cmp_le(pre[c], pre[mm]));
                    assert((mm - 1) / 2 == rr);
                    assert(array@[rr] == pre[mm]);
                }
            }
        } else {
            proof {
                lemma_not_lt(array@[rr], array@[mm]);
                assert forall|c: int|
                    1 <= c < end && (c - 1) / 2 >= root && (c - 1) / 2 != mm implies cmp_le(
                    #[trigger] array@[c],
                    array@[(c - 1) / 2],
                ) by {
                    let pc = (c - 1) / 2;
                    if pc == rr {
                        if c == mm {
                            assert(cmp_le(array@[mm], array@[rr]));
                        } else {
                            assert(cmp_le(array@[c], array@[mm]));
                            assert(cmp_le(array@[mm], array@[rr]));
                        }
                    }
                }
                assert forall|c: int|
                    1 <= c < end && (c - 1) / 2 == mm implies cmp_le(
                    #[trigger] array@[c],
                    array@[(mm - 1) as int / 2],
                ) by {
                    assert(cmp_le(array@[c], array@[mm]));
                    assert(cmp_le(array@[mm], array@[rr]));
                    assert((mm - 1) / 2 == rr);
                }
            }
        }
        r = max;
    }
    proof {
        assert forall|c: int|
            1 <= c < end && (c - 1) / 2 >= root implies cmp_le(
            #[trigger] array@[c],
            array@[(c - 1) / 2],
        ) by {
            if (c - 1) / 2 == r as int {
                assert(c >= 2 * (r as int) + 1);
                assert(false);
            }
        }
        lemma_subrange_multiset_split(orig, 0, end as int, orig.len() as int);
        lemma_subrange_multiset_split(array@, 0, end as int, orig.len() as int);
        assert(array@.subrange(end as int, orig.len() as int) =~= orig.subrange(
            end as int,
            orig.len() as int,
        ));
        assert(orig.subrange(0, orig.len() as int) =~= orig);
        assert(array@.subrange(0, orig.len() as int) =~= array@);
    }
}

/// Rearrange the whole vector into a max-heap, children upwards from
/// the last parent.
fn heapify<T: Ord + Copy>(array: &mut Vec<T>)
    requires
        total_order::<T>(),
        old(array)@.len() >= 2,
    ensures
        final(array)@.len() == old(array)@.len(),
        final(array)@.to_multiset() == old(array)@.to_multiset(),
        is_heap(final(array)@, final(array)@.len() as int),
{
    let n = array.len();
    let last_parent = (n - 2) / 2;
    let mut i = last_parent + 1;
    while i > 0
        invariant
            total_order::<T>(),
            i <= last_parent + 1,
            last_parent == (n - 2) as int / 2,
            n == array@.len(),
            n >= 2,
            array@.to_multiset() == old(array)@.to_multiset(),
            forall|c: int|
                1 <= c < n && (c - 1) / 2 >= i ==> cmp_le(
                    #[trigger] array@[c],
                    array@[(c - 1) / 2],
                ),
        decreases i,
    {
        i -= 1;
        proof {
            assert(i < n);
            assert forall|c: int| 1 <= c < n && (c - 1) / 2 > i implies cmp_le(
                #[trigger] array@[c],
                array@[(c - 1) / 2],
            ) by {
                assert((c - 1) / 2 >= i + 1);
            }
        }
        move_down(array, i, n);
    }
}

/// Sort the vector ascending, in place: heapify it, then repeatedly
/// move the maximum behind the shrinking heap.
pub fn heap_sort<T: Ord + Copy>(array: &mut Vec<T>)
    requires
        total_order::<T>(),
    ensures
        sorted(final(array)@),
        final(array)@.to_multiset() == old(array)@.to_multiset(),
        final(array)@.len() == old(array)@.len(),
{
    let n = array.len();
    if n <= 1 {
        proof {
            if n == 1 {
                lemma_le_total(array@[0], array@[0]);
            }
        }
        return;
    }
    heapify(array);
    let mut end = n;
    while end > 1
        invariant
            total_order::<T>(),
            1 <= end <= n,
            n == array@.len(),
            array@.to_multiset() == old(array)@.to_multiset(),
            is_heap(array@, end as int),
            forall|i: int, j: int| end <= i <= j < n ==> #[trigger] cmp_le(array@[i], array@[j]),
            forall|i: int, j: int| 0 <= i < end <= j < n ==> #[trigger] cmp_le(array@[i], array@[j]),
        decreases end,
    {
        let ghost pre = array@;
        proof {
            assert forall|c: int| 0 <= c < end implies #[trigger] cmp_le(pre[c], pre[0]) by {
                lemma_heap_root_max(pre, end as int, c);
            }
        }
        swap_elems(array, 0, end - 1);
        let ghost mid = array@;
        proof {
            // below the root the swap disturbed nothing of the heap shape
            assert forall|c: int|
                1 <= c < end - 1 && (c - 1) / 2 > 0 implies cmp_le(
                #[trigger] mid[c],
                mid[(c - 1) / 2],
            ) by {
                assert(mid[c] == pre[c]);
                assert(mid[(c - 1) / 2] == pre[(c - 1) / 2]);
            }
        }
        if end > 2 {
            move_down(array, 0, end - 1);
        }
        proof {
            let cur = array@;
            // the extracted maximum sits just behind the heap
            assert(cur[end - 1] == pre[0]);
            // the shrunken prefix still holds what the swap left in it
            assert(cur.subrange(0, end - 1).to_multiset() == mid.subrange(
                0,
                end - 1,
            ).to_multiset()) by {
                if end <= 2 {
                    assert(cur.subrange(0, end - 1) =~= mid.subrange(0, end - 1));
                }
            }
            // everything in the prefix is at most the extracted maximum
            assert forall|u: int| 0 <= u < end - 1 implies #[trigger] cmp_le(cur[u], pre[0]) by {
                assert forall|u2: int| 0 <= u2 < end - 1 implies #[trigger] cmp_le(
                    mid.subrange(0, end - 1)[u2],
                    pre[0],
                ) by {
                    if u2 == 0 {
                        assert(mid[0] == pre[end - 1]);
                        assert(cmp_le(pre[end - 1], pre[0]));
                    } else {
                        assert(mid[u2] == pre[u2]);
                        assert(cmp_le(pre[u2], pre[0]));
                    }
                }
                lemma_same_multiset_le_bound(
                    mid.subrange(0, end - 1),
                    cur.subrange(0, end - 1),
                    pre[0],
                );
                assert(cur.subrange(0, end - 1)[u] == cur[u]);
            }
            // order against the already sorted tail
            assert forall|i: int, j: int|
                end - 1 <= i <= j < n implies #[trigger] cmp_le(cur[i], cur[j]) by {
                if i == end - 1 {
                    if j == end - 1 {
                        lemma_le_total(cur[i], cur[j]);
                    } else {
                        assert(cur[j] == pre[j]);
                        assert(cmp_le(pre[0], pre[j]));
                    }
                } else {
                    assert(cur[i] == pre[i] && cur[j] == pre[j]);
                    assert(cmp_le(pre[i], pre[j]));
                }
            }
            assert forall|i: int, j: int|
                0 <= i < end - 1 <= j < n implies #[trigger] cmp_le(cur[i], cur[j]) by {
                assert(cmp_le(cur[i], pre[0]));
                if j == end - 1 {
                    assert(cur[j] == pre[0]);
                } else {
                    assert(cur[j] == pre[j]);
                    assert(cmp_le(pre[0], pre[j]));
                }
            }
        }
        end -= 1;
    }
    proof {
        assert forall|i: int, j: int| 0 <= i <= j < array@.len() implies #[trigger] cmp_le(
            array@[i],
            array@[j],
        ) by {
            if j == 0 {
                lemma_le_total(array@[i], array@[j]);
            } else if i == 0 {
                assert(cmp_le(array@[i], array@[j]));
            } else {
                assert(cmp_le(array@[i], array@[j]));
            }
        }
    }
}

} // verus!
