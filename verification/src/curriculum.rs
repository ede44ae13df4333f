//! The descriptor store: the ordered curriculum of exercises.

use vstd::prelude::*;

verus! {

/// Execution strategy for one exercise: run it as a test harness,
/// compile and run the resulting binary, or compile only.
#[derive(Clone, Copy, PartialEq, Eq, Structural, Debug)]
pub enum Mode {
    Test,
    Compile,
    Clippy,
}

/// One exercise of the curriculum: a unique name, the path of its
/// source file (raw bytes, as the file system hands it out), the
/// execution mode, and the static hint shown after a failure.
#[derive(Clone)]
pub struct Algorithm {
    pub name: String,
    pub path: Vec<u8>,
    pub mode: Mode,
    pub hint: String,
}

impl Algorithm {
    /// Names identify exercises, so equality of names is the identity
    /// the rest of the crate relies on.
    pub open spec fn named(self, name: Seq<char>) -> bool {
        self.name@ == name
    }
}

/// Curriculum invariant: names are unique, so a name picks out at most
/// one exercise.
pub open spec fn names_unique(algorithms: Seq<Algorithm>) -> bool {
    forall|i: int, j: int|
        0 <= i < j < algorithms.len() ==> algorithms[i].name@ != algorithms[j].name@
}

/// Under the curriculum invariant a name picks out at most one
/// exercise: two positions carrying the same name are the same
/// position.
pub proof fn lemma_name_picks_one(algorithms: Seq<Algorithm>, i: int, j: int, name: Seq<char>)
    requires
        names_unique(algorithms),
        0 <= i < algorithms.len(),
        0 <= j < algorithms.len(),
        algorithms[i].named(name),
        algorithms[j].named(name),
    ensures
        i == j,
{
}

/// Index of the first exercise carrying the given name, or `None` when
/// no exercise does.  Under `names_unique` this is the only one.
pub fn find_algorithm(algorithms: &Vec<Algorithm>, name: &String) -> (r: Option<usize>)
    ensures
        match r {
            Some(i) => {
                &&& i < algorithms@.len()
                &&& algorithms@[i as int].named(name@)
                &&& forall|j: int| 0 <= j < i ==> !algorithms@[j].named(name@)
            },
            None => forall|j: int| 0 <= j < algorithms@.len() ==> !algorithms@[j].named(name@),
        },
{
    let mut i: usize = 0;
    while i < algorithms.len()
        invariant
            i <= algorithms@.len(),
            forall|j: int| 0 <= j < i ==> !algorithms@[j].named(name@),
        decreases algorithms@.len() - i,
    {
        if algorithms[i].name == *name {
            return Some(i);
        }
        i += 1;
    }
    None
}

} // verus!
