//! Reference solutions for the search exercises of the curriculum.
//! Each search reports the position of the sought item in the array as
//! an index, or a negative answer when the item is absent.

pub mod binary_search;
pub mod breadth_first_search;
pub mod depth_first_search;
