//! Reference solutions for the sorting exercises of the curriculum.
//! Every sort rearranges the vector in place into ascending order and
//! keeps its contents: the multiset of elements never changes.

pub mod bubble_sort;
pub mod bucket_sort;
pub mod heap_sort;
pub mod counting_sort;
pub mod merge_sort;
pub mod quick_sort;
