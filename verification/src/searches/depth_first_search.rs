//! Search for an item and report its index.  A depth-first traversal
//! follows each branch to its end before backtracking; a flat array is
//! one branch, so the traversal visits it front to back.

use vstd::prelude::*;
use vstd::std_specs::cmp::PartialEqSpec;

verus! {

/// Index of the first occurrence of `item` in `array`, or -1 when the
/// item does not occur.
pub fn dfs<T: PartialEq + PartialOrd>(item: &T, array: &Vec<T>) -> (r: i32)
    requires
        T::obeys_eq_spec(),
        array@.len() <= i32::MAX as int,
    ensures
        r == -1 ==> forall|j: int| 0 <= j < array@.len() ==> !array@[j].eq_spec(item),
        r != -1 ==> {
            &&& 0 <= r < array@.len()
            &&& array@[r as int].eq_spec(item)
            &&& forall|j: int| 0 <= j < r ==> !array@[j].eq_spec(item)
        },
{
    let mut i: usize = 0;
    while i < array.len()
        invariant
            T::obeys_eq_spec(),
            array@.len() <= i32::MAX as int,
            i <= array@.len(),
            forall|j: int| 0 <= j < i ==> !array@[j].eq_spec(item),
        decreases array@.len() - i,
    {
        if array[i].eq(item) {
            return i as i32;
        }
        i += 1;
    }
    -1
}

} // verus!
