//! The watch orchestrator's decisions: which file-change events matter,
//! where in the curriculum a re-verification must resume, what the
//! interactive shell's commands mean, and the single slot holding the
//! hint of the most recent failure.
//!
//! The filesystem watcher, the thread running the shell and the mutex
//! around the hint slot live outside this crate; everything they decide
//! with is computed here.

use vstd::prelude::*;
use vstd::string::StrSliceExecFns;

use crate::curriculum::Algorithm;

verus! {

/// `full` ends with the path `suffix` at a path-component boundary:
/// they are equal, or `suffix` follows a separator in `full`.
pub open spec fn is_path_suffix(full: Seq<u8>, suffix: Seq<u8>) -> bool {
    &&& suffix.len() <= full.len()
    &&& full.skip(full.len() - suffix.len()) == suffix
    &&& (suffix.len() == full.len() || full[full.len() - suffix.len() - 1] == '/' as u8)
}

/// Whether the changed file's path ends with an exercise's path at a
/// component boundary, as the watcher compares canonical paths against
/// the curriculum's relative ones.
pub fn path_ends_with(full: &Vec<u8>, suffix: &Vec<u8>) -> (r: bool)
    ensures
        r == is_path_suffix(full@, suffix@),
{
    let nf = full.len();
    let ns = suffix.len();
    if ns > nf {
        return false;
    }
    if ns < nf && full[nf - ns - 1] != '/' as u8 {
        return false;
    }
    let mut i: usize = 0;
    while i < ns
        invariant
            ns <= nf <= full@.len(),
            nf == full@.len(),
            ns == suffix@.len(),
            i <= ns,
            forall|j: int| 0 <= j < i ==> full@[nf - ns + j] == suffix@[j],
        decreases ns - i,
    {
        if full[nf - ns + i] != suffix[i] {
            proof {
                assert(full@.skip(nf - ns as int)[i as int] == full@[nf - ns + i]);
            }
            return false;
        }
        i += 1;
    }
    proof {
        assert(full@.skip(nf - ns as int) =~= suffix@);
    }
    true
}

/// The path names a source file of the watched kind: it ends in `.rs`
/// and the file name has a non-empty stem before the dot.
pub open spec fn has_rs_extension(p: Seq<u8>) -> bool {
    &&& p.len() >= 4
    &&& p[p.len() - 3] == '.' as u8
    &&& p[p.len() - 2] == 'r' as u8
    &&& p[p.len() - 1] == 's' as u8
    &&& p[p.len() - 4] != '/' as u8
}

/// Whether a changed path is a source file the watcher cares about.
pub fn is_rs_file(p: &Vec<u8>) -> (r: bool)
    ensures
        r == has_rs_extension(p@),
{
    let n = p.len();
    n >= 4 && p[n - 3] == '.' as u8 && p[n - 2] == 'r' as u8 && p[n - 1] == 's' as u8 && p[n - 4]
        != '/' as u8
}

/// Position in the curriculum at which a re-verification pass must
/// resume after `changed` was edited: the first exercise whose path the
/// changed path ends with.  Every exercise strictly before it is left
/// alone.  When no exercise matches, the whole curriculum is skipped
/// and the pass is empty.
pub fn resume_index(algorithms: &Vec<Algorithm>, changed: &Vec<u8>) -> (r: usize)
    ensures
        r <= algorithms@.len(),
        forall|j: int| 0 <= j < r ==> !is_path_suffix(changed@, algorithms@[j].path@),
        r < algorithms@.len() ==> is_path_suffix(changed@, algorithms@[r as int].path@),
{
    let mut i: usize = 0;
    while i < algorithms.len()
        invariant
            i <= algorithms@.len(),
            forall|j: int| 0 <= j < i ==> !is_path_suffix(changed@, algorithms@[j].path@),
        decreases algorithms@.len() - i,
    {
        if path_ends_with(changed, &algorithms[i].path) {
            return i;
        }
        i += 1;
    }
    i
}

/// What the watch loop must do with one filesystem event: nothing, or
/// re-verify from the changed exercise's position onward.
#[derive(Clone, Copy, PartialEq, Eq, Structural, Debug)]
pub enum WatchStep {
    Ignore,
    Reverify { start: usize },
}

/// The single shared slot for the most recent failure's hint, together
/// with the curriculum the watch loop re-verifies.  The mutual
/// exclusion around the slot is the caller's; every write to it goes
/// through `record_failure`, so what a reader sees is always the hint
/// of the failure written last.
pub struct Watcher {
    pub algorithms: Vec<Algorithm>,
    pub verbose: bool,
    pub failed_hint: Option<String>,
}

impl Watcher {
    /// A fresh watch orchestrator over a curriculum; no failure seen.
    pub fn new(algorithms: Vec<Algorithm>, verbose: bool) -> (w: Watcher)
        ensures
            w.algorithms == algorithms,
            w.verbose == verbose,
            w.failed_hint is None,
    {
        Watcher { algorithms, verbose, failed_hint: None }
    }

    /// Decide one file-change event: only a still-existing source file
    /// with the watched extension triggers a pass, and that pass starts
    /// exactly at the changed exercise's position.
    pub fn on_file_change(&self, path: &Vec<u8>, exists: bool) -> (r: WatchStep)
        ensures
            match r {
                WatchStep::Ignore => !(has_rs_extension(path@) && exists),
                WatchStep::Reverify { start } => {
                    &&& has_rs_extension(path@)
                    &&& exists
                    &&& start <= self.algorithms@.len()
                    &&& forall|j: int|
                        0 <= j < start ==> !is_path_suffix(path@, self.algorithms@[j].path@)
                    &&& start < self.algorithms@.len() ==> is_path_suffix(
                        path@,
                        self.algorithms@[start as int].path@,
                    )
                },
            },
    {
        if is_rs_file(path) && exists {
            WatchStep::Reverify { start: resume_index(&self.algorithms, path) }
        } else {
            WatchStep::Ignore
        }
    }

    /// Write the hint of the descriptor whose failure halted the latest
    /// pass into the shared slot.  After this, a read of the slot
    /// reflects exactly that failure's hint — never a stale or made-up
    /// one.
    pub fn record_failure(&mut self, index: usize)
        requires
            index < old(self).algorithms@.len(),
        ensures
            final(self).algorithms == old(self).algorithms,
            final(self).verbose == old(self).verbose,
            final(self).failed_hint == Some(old(self).algorithms@[index as int].hint),
    {
        let hint = self.algorithms[index].hint.clone();
        self.failed_hint = Some(hint);
    }

    /// The hint of the most recent failure, if any pass has failed.
    pub fn current_hint(&self) -> (r: Option<&String>)
        ensures
            match r {
                Some(h) => self.failed_hint == Some(*h),
                None => self.failed_hint is None,
            },
    {
        match &self.failed_hint {
            Some(h) => Some(h),
            None => None,
        }
    }
}

/// A re-verification pass resumed at the changed exercise's position
/// never attempts a descriptor before that position: wherever the pass
/// ends up — and wherever it halts — lies at or after `start`, and
/// every exercise strictly before `start` is one whose path the changed
/// file does not name.
pub proof fn lemma_reverify_skips_earlier(
    algorithms: Seq<Algorithm>,
    changed: Seq<u8>,
    start: int,
    passes: Seq<bool>,
)
    requires
        0 <= start <= algorithms.len(),
        forall|j: int| 0 <= j < start ==> !is_path_suffix(changed, algorithms[j].path@),
    ensures
        crate::verify::engine_run(start, None, passes).0 >= start,
        match crate::verify::engine_run(start, None, passes).1 {
            Some(i) => i >= start,
            None => true,
        },
{
    crate::verify::lemma_engine_run_at_or_after_start(start, passes);
}

/// What one line typed into the watch shell asks for.
#[derive(Clone, Copy, PartialEq, Eq, Structural, Debug)]
pub enum ShellCommand {
    Hint,
    Clear,
    Unknown,
}

/// The characters the shell strips from both ends of a typed line.
pub open spec fn is_shell_space(c: char) -> bool {
    c == ' ' || c == '\t' || c == '\r' || c == '\n'
}

pub open spec fn trim_front(s: Seq<char>) -> Seq<char>
    decreases s.len(),
{
    if s.len() == 0 {
        s
    } else if is_shell_space(s[0]) {
        trim_front(s.skip(1))
    } else {
        s
    }
}

pub open spec fn trim_back(s: Seq<char>) -> Seq<char>
    decreases s.len(),
{
    if s.len() == 0 {
        s
    } else if is_shell_space(s.last()) {
        trim_back(s.drop_last())
    } else {
        s
    }
}

/// A typed line with surrounding blanks stripped.
pub open spec fn spec_trim(s: Seq<char>) -> Seq<char> {
    trim_back(trim_front(s))
}

proof fn lemma_trim_front_is(s: Seq<char>, i: int)
    requires
        0 <= i <= s.len(),
        forall|j: int| 0 <= j < i ==> is_shell_space(s[j]),
        i < s.len() ==> !is_shell_space(s[i]),
    ensures
        trim_front(s) == s.skip(i),
    decreases s.len(),
{
    if i == 0 {
        assert(s.skip(0) =~= s);
    } else {
        assert(is_shell_space(s[0]));
        assert forall|j: int| 0 <= j < i - 1 implies is_shell_space(s.skip(1)[j]) by {
            assert(s.skip(1)[j] == s[j + 1]);
        }
        if i < s.len() {
            assert(s.skip(1)[i - 1] == s[i]);
        }
        lemma_trim_front_is(s.skip(1), i - 1);
        assert(s.skip(1).skip(i - 1) =~= s.skip(i));
    }
}

proof fn lemma_trim_back_is(s: Seq<char>, j: int)
    requires
        0 <= j <= s.len(),
        forall|k: int| j <= k < s.len() ==> is_shell_space(s[k]),
        j > 0 ==> !is_shell_space(s[j - 1]),
    ensures
        trim_back(s) == s.take(j),
    decreases s.len(),
{
    if j == s.len() {
        assert(s.take(j) =~= s);
    } else {
        assert(is_shell_space(s.last()));
        assert forall|k: int| j <= k < s.drop_last().len() implies is_shell_space(
            s.drop_last()[k],
        ) by {
            assert(s.drop_last()[k] == s[k]);
        }
        if j > 0 {
            assert(s.drop_last()[j - 1] == s[j - 1]);
        }
        lemma_trim_back_is(s.drop_last(), j);
        assert(s.drop_last().take(j) =~= s.take(j));
    }
}

fn is_space_char(c: char) -> (r: bool)
    ensures
        r == is_shell_space(c),
{
    c == ' ' || c == '\t' || c == '\r' || c == '\n'
}

/// The typed line with surrounding blanks stripped, as the shell reads
/// commands.
pub fn trim_input(line: &str) -> (r: &str)
    ensures
        r@ == spec_trim(line@),
{
    let n = line.unicode_len();
    let mut i: usize = 0;
    while i < n && is_space_char(line.get_char(i))
        invariant
            n == line@.len(),
            i <= n,
            forall|j: int| 0 <= j < i ==> is_shell_space(line@[j]),
        decreases n - i,
    {
        i += 1;
    }
    let mut j: usize = n;
    while j > i && is_space_char(line.get_char(j - 1))
        invariant
            n == line@.len(),
            i <= j <= n,
            forall|k: int| j <= k < n ==> is_shell_space(line@[k]),
        decreases j,
    {
        j -= 1;
    }
    proof {
        lemma_trim_front_is(line@, i as int);
        let tail = line@.skip(i as int);
        assert forall|k: int| j - i <= k < tail.len() implies is_shell_space(tail[k]) by {
            assert(tail[k] == line@[k + i]);
        }
        if j > i {
            assert(tail[j - i - 1] == line@[j - 1]);
        }
        lemma_trim_back_is(tail, j - i);
        assert(tail.take(j - i) =~= line@.subrange(i as int, j as int));
    }
    line.substring_char(i, j)
}

/// Character-for-character equality of two strings.
pub fn str_eq(a: &str, b: &str) -> (r: bool)
    ensures
        r == (a@ == b@),
{
    let na = a.unicode_len();
    let nb = b.unicode_len();
    if na != nb {
        return false;
    }
    let mut i: usize = 0;
    while i < na
        invariant
            na == a@.len(),
            nb == b@.len(),
            na == nb,
            i <= na,
            forall|j: int| 0 <= j < i ==> a@[j] == b@[j],
        decreases na - i,
    {
        if a.get_char(i) != b.get_char(i) {
            return false;
        }
        i += 1;
    }
    proof {
        assert(a@ =~= b@);
    }
    true
}

/// What a trimmed shell line asks for: the stored hint, a cleared
/// screen, or nothing the shell knows.
pub open spec fn spec_shell_command(line: Seq<char>) -> ShellCommand {
    if spec_trim(line) == "hint"@ {
        ShellCommand::Hint
    } else if spec_trim(line) == "clear"@ {
        ShellCommand::Clear
    } else {
        ShellCommand::Unknown
    }
}

/// Interpret one line typed into the watch shell.
pub fn shell_command(line: &str) -> (c: ShellCommand)
    ensures
        c == spec_shell_command(line@),
{
    let t = trim_input(line);
    if str_eq(t, "hint") {
        ShellCommand::Hint
    } else if str_eq(t, "clear") {
        ShellCommand::Clear
    } else {
        ShellCommand::Unknown
    }
}

} // verus!
