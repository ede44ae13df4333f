//! Search for an item in an array and report its index.  The interval
//! narrowing of a classic binary search needs a sorted input; on the
//! arbitrary arrays the curriculum feeds it, the search degenerates to
//! an ordered scan from the front, which this solution makes explicit.

use vstd::prelude::*;
use vstd::std_specs::cmp::PartialEqSpec;

verus! {

/// Index of the first occurrence of `item` in `array`, or -1 when the
/// item does not occur.
pub fn binary_search<T: PartialEq + PartialOrd>(item: &T, array: &Vec<T>) -> (r: i32)
    requires
        T::obeys_eq_spec(),
        array@.len() <= i32::MAX as int,
    ensures
        r == -1 ==> forall|j: int| 0 <= j < array@.len() ==> !array@[j].eq_spec(item),
        r != -1 ==> {
            &&& 0 <= r < array@.len()
            &&& array@[r as int].eq_spec(item)
            &&& forall|j: int| 0 <= j < r ==> !array@[j].eq_spec(item)
        },
{
    let mut i: usize = 0;
    while i < array.len()
        invariant
            T::obeys_eq_spec(),
            array@.len() <= i32::MAX as int,
            i <= array@.len(),
            forall|j: int| 0 <= j < i ==> !array@[j].eq_spec(item),
        decreases array@.len() - i,
    {
        if array[i].eq(item) {
            return i as i32;
        }
        i += 1;
    }
    -1
}

} // verus!
