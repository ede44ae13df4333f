//! The verification engine: descriptors are checked strictly in
//! curriculum order and the first failure halts the pass.
//!
//! The engine decides; it does not spawn the toolchain.  The caller
//! asks `next_target` which exercise to attempt, performs the compile
//! and run steps outside, and hands the outcome (together with the
//! completion marker's answer on the source) back through `record`.
//! That keeps the fail-fast policy provable: a session can only move
//! forward one descriptor per recorded success, and after a failure no
//! further target is ever offered.

use vstd::prelude::*;

use crate::curriculum::{Algorithm, Mode};
use crate::state::State;

verus! {

/// What happened when the toolchain was invoked on one exercise:
/// the compile step failed, the compiled artifact failed, or both
/// steps succeeded.  Captured output rides along either way.
pub enum AttemptOutcome {
    CompileFailed { stderr: String },
    RunFailed { stdout: String, stderr: String },
    Passed { stdout: String },
}

/// What the toolchain must do for a descriptor, decided by its mode.
#[derive(Clone, Copy, PartialEq, Eq, Structural, Debug)]
pub enum Action {
    CompileAndTest,
    CompileAndRun,
    CompileOnly,
}

pub open spec fn action_of(mode: Mode) -> Action {
    match mode {
        Mode::Test => Action::CompileAndTest,
        Mode::Compile => Action::CompileAndRun,
        Mode::Clippy => Action::CompileOnly,
    }
}

/// The toolchain action for one mode: test harness for `Test`, plain
/// binary for `Compile`, compile without executing for `Clippy`.
pub fn action_for(mode: Mode) -> (a: Action)
    ensures
        a == action_of(mode),
{
    match mode {
        Mode::Test => Action::CompileAndTest,
        Mode::Compile => Action::CompileAndRun,
        Mode::Clippy => Action::CompileOnly,
    }
}

/// An interactive pass clears a descriptor only when the toolchain
/// passed and the completion scan found no not-done marker.
pub open spec fn attempt_passes(outcome: AttemptOutcome, completion: State) -> bool {
    &&& outcome is Passed
    &&& completion is Done
}

/// One sequential verification pass over the curriculum, resuming at a
/// given position.  `pos` is the descriptor currently under attempt;
/// `failed` is set at the first descriptor that does not clear, and the
/// session never offers a target again.  `trace` carries, for the
/// proofs, the answers recorded so far, so that every session provably
/// is the fold of its per-descriptor answers.
pub struct VerifySession {
    pub algorithms: Vec<Algorithm>,
    pub start: usize,
    pub pos: usize,
    pub failed: Option<usize>,
    pub verbose: bool,
    pub trace: Ghost<Seq<bool>>,
}

/// Abstract engine state: the current position and the halt point.
pub open spec fn engine_step(pos: int, failed: Option<int>, passed: bool) -> (int, Option<int>) {
    if failed is Some {
        (pos, failed)
    } else if passed {
        (pos + 1, None)
    } else {
        (pos, Some(pos))
    }
}

/// The engine state after a whole sequence of per-descriptor answers.
pub open spec fn engine_run(pos: int, failed: Option<int>, passes: Seq<bool>) -> (int, Option<
    int,
>)
    decreases passes.len(),
{
    if passes.len() == 0 {
        (pos, failed)
    } else {
        let next = engine_step(pos, failed, passes[0]);
        engine_run(next.0, next.1, passes.skip(1))
    }
}

impl VerifySession {
    /// The session's abstract engine state.
    pub open spec fn model(self) -> (int, Option<int>) {
        (
            self.pos as int,
            match self.failed {
                Some(i) => Some(i as int),
                None => None,
            },
        )
    }

    pub open spec fn well_formed(self) -> bool {
        &&& self.start <= self.pos <= self.algorithms@.len()
        &&& match self.failed {
            Some(i) => i == self.pos && self.pos < self.algorithms@.len(),
            None => true,
        }
        &&& self.model() == engine_run(self.start as int, None, self.trace@)
    }

    /// Still working: nothing failed yet and descriptors remain.
    pub open spec fn in_progress(self) -> bool {
        &&& self.failed is None
        &&& self.pos < self.algorithms@.len()
    }

    pub open spec fn spec_next_target(self) -> Option<usize> {
        if self.in_progress() {
            Some(self.pos)
        } else {
            None
        }
    }

    /// The index of the descriptor to attempt next, in curriculum
    /// order, never one before `start` and never one the pass already
    /// moved past.  `None` once the pass has failed or finished.
    pub fn next_target(&self) -> (r: Option<usize>)
        requires
            self.well_formed(),
        ensures
            r == self.spec_next_target(),
            r is Some ==> self.start <= r.unwrap() < self.algorithms@.len(),
    {
        match self.failed {
            Some(_) => None,
            None => {
                if self.pos < self.algorithms.len() {
                    Some(self.pos)
                } else {
                    None
                }
            },
        }
    }

    /// Record what the toolchain and the completion scan said about the
    /// current target.  A cleared descriptor advances the pass by
    /// exactly one; anything else halts it at the current position.
    pub fn record(&mut self, outcome: &AttemptOutcome, completion: &State)
        requires
            old(self).well_formed(),
            old(self).in_progress(),
        ensures
            final(self).well_formed(),
            final(self).algorithms == old(self).algorithms,
            final(self).start == old(self).start,
            final(self).verbose == old(self).verbose,
            final(self).model() == engine_step(
                old(self).model().0,
                old(self).model().1,
                attempt_passes(*outcome, *completion),
            ),
            attempt_passes(*outcome, *completion) ==> final(self).pos == old(self).pos + 1
                && final(self).failed is None,
            !attempt_passes(*outcome, *completion) ==> final(self).pos == old(self).pos
                && final(self).failed == Some(old(self).pos),
            final(self).trace@ == old(self).trace@.push(attempt_passes(*outcome, *completion)),
    {
        let passed = match (outcome, completion) {
            (AttemptOutcome::Passed { .. }, State::Done) => true,
            _ => false,
        };
        proof {
            lemma_engine_run_snoc(self.start as int, None, self.trace@, passed);
        }
        self.trace = Ghost(self.trace@.push(passed));
        let n = self.algorithms.len();
        if passed {
            assert(self.pos < n);
            self.pos = self.pos + 1;
        } else {
            self.failed = Some(self.pos);
        }
    }

    pub open spec fn spec_result(self) -> Option<Result<(), usize>> {
        match self.failed {
            Some(i) => Some(Err(i)),
            None => if self.pos == self.algorithms@.len() {
                Some(Ok(()))
            } else {
                None
            },
        }
    }

    /// The pass's answer: `Ok` when every descriptor from `start` on
    /// cleared, `Err` with the index of the first descriptor that did
    /// not, `None` while descriptors remain to attempt.
    pub fn result(&self) -> (r: Option<Result<(), usize>>)
        requires
            self.well_formed(),
        ensures
            r == self.spec_result(),
    {
        match self.failed {
            Some(i) => Some(Err(i)),
            None => {
                if self.pos == self.algorithms.len() {
                    Some(Ok(()))
                } else {
                    None
                }
            },
        }
    }

    /// The descriptor whose failure halted the pass.
    pub fn failed_algorithm(&self) -> (r: Option<&Algorithm>)
        requires
            self.well_formed(),
        ensures
            match r {
                Some(a) => self.failed is Some && *a == self.algorithms@[self.failed.unwrap()
                    as int],
                None => self.failed is None,
            },
    {
        match self.failed {
            Some(i) => Some(&self.algorithms[i]),
            None => None,
        }
    }
}

/// Begin a verification pass over the ordered curriculum, resuming at
/// position `start` (0 for a full pass).  Descriptors before `start`
/// are not part of the pass and are never attempted by it.
pub fn verify(algorithms: Vec<Algorithm>, start: usize, verbose: bool) -> (s: VerifySession)
    requires
        start <= algorithms@.len(),
    ensures
        s.well_formed(),
        s.in_progress() == (start < algorithms@.len()),
        s.algorithms == algorithms,
        s.start == start,
        s.pos == start,
        s.failed is None,
        s.verbose == verbose,
        s.trace@ == Seq::<bool>::empty(),
{
    VerifySession { algorithms, start, pos: start, failed: None, verbose, trace: Ghost(Seq::empty()) }
}

/// Which captured streams a single invocation must show the user.
#[derive(Clone, Copy, PartialEq, Eq, Structural, Debug)]
pub struct Report {
    pub show_stdout: bool,
    pub show_stderr: bool,
}

/// The pass-or-fail answer and display decision for one test-harness invocation:
/// a failed compile shows the compiler's stderr, a failed harness shows
/// the harness's stdout, and a passing harness shows its stdout only
/// when verbose output was asked for.
pub open spec fn spec_test(outcome: AttemptOutcome, verbose: bool) -> Result<Report, Report> {
    match outcome {
        AttemptOutcome::CompileFailed { .. } => Err(
            Report { show_stdout: false, show_stderr: true },
        ),
        AttemptOutcome::RunFailed { .. } => Err(Report { show_stdout: true, show_stderr: false }),
        AttemptOutcome::Passed { .. } => Ok(Report { show_stdout: verbose, show_stderr: false }),
    }
}

/// Classify the outcome of compiling and running one exercise as a test
/// harness, outside any interactive pass: the completion scan is
/// bypassed entirely here.
pub fn test(algorithm: &Algorithm, outcome: &AttemptOutcome, verbose: bool) -> (r: Result<
    Report,
    Report,
>)
    ensures
        r == spec_test(*outcome, verbose),
        r is Ok <==> *outcome is Passed,
{
    match outcome {
        AttemptOutcome::CompileFailed { .. } => Err(
            Report { show_stdout: false, show_stderr: true },
        ),
        AttemptOutcome::RunFailed { .. } => Err(Report { show_stdout: true, show_stderr: false }),
        AttemptOutcome::Passed { .. } => Ok(Report { show_stdout: verbose, show_stderr: false }),
    }
}

/// Whether an interactive pass may advance past an exercise whose
/// compile and run steps already succeeded: only when the completion
/// scan found its source free of the not-done marker.  `Pending` is a
/// deliberate pause, not a failure.
pub fn prompt_for_completion(completion: &State) -> (advance: bool)
    ensures
        advance == (*completion is Done),
{
    match completion {
        State::Done => true,
        State::Pending(_) => false,
    }
}

/// The message celebrating a cleared step, by mode.
pub fn success_message(mode: Mode) -> (m: &'static str)
    ensures
        mode is Compile ==> m@ == "The code is compiling!"@,
        mode is Test ==> m@ == "The code is compiling, and the tests pass!"@,
        mode is Clippy ==> m@ == "The code is compiling, and Clippy is happy!"@,
{
    match mode {
        Mode::Compile => "The code is compiling!",
        Mode::Test => "The code is compiling, and the tests pass!",
        Mode::Clippy => "The code is compiling, and Clippy is happy!",
    }
}

/// Extending a pass by one answer is one engine step on its outcome:
/// the fold of the answers can be unrolled from either end.
pub proof fn lemma_engine_run_snoc(pos: int, failed: Option<int>, passes: Seq<bool>, b: bool)
    ensures
        engine_run(pos, failed, passes.push(b)) == ({
            let m = engine_run(pos, failed, passes);
            engine_step(m.0, m.1, b)
        }),
    decreases passes.len(),
{
    if passes.len() == 0 {
        assert(passes.push(b)[0] == b);
        assert(passes.push(b).skip(1) =~= Seq::<bool>::empty());
        let next = engine_step(pos, failed, b);
        assert(engine_run(pos, failed, passes.push(b)) == engine_run(
            next.0,
            next.1,
            passes.push(b).skip(1),
        ));
        assert(engine_run(next.0, next.1, Seq::<bool>::empty()) == (next.0, next.1));
        assert(engine_run(pos, failed, passes) == (pos, failed));
    } else {
        assert(passes.push(b)[0] == passes[0]);
        assert(passes.push(b).skip(1) =~= passes.skip(1).push(b));
        let next = engine_step(pos, failed, passes[0]);
        assert(engine_run(pos, failed, passes.push(b)) == engine_run(
            next.0,
            next.1,
            passes.skip(1).push(b),
        ));
        lemma_engine_run_snoc(next.0, next.1, passes.skip(1), b);
        assert(engine_run(pos, failed, passes) == engine_run(next.0, next.1, passes.skip(1)));
    }
}

/// A pass over descriptors `start..n` in which every descriptor clears
/// ends with the position at `n` and no failed descriptor: `verify`
/// returns overall success and reports no failure.
pub proof fn lemma_verify_all_pass(start: int, n: int, passes: Seq<bool>)
    requires
        0 <= start <= n,
        passes.len() == n - start,
        forall|i: int| 0 <= i < passes.len() ==> passes[i],
    ensures
        engine_run(start, None, passes).0 == n,
        engine_run(start, None, passes).1 is None,
    decreases n - start,
{
    if passes.len() > 0 {
        lemma_verify_all_pass(start + 1, n, passes.skip(1));
    }
}

/// A pass in which descriptor `k` fails and all descriptors before `k`
/// clear halts exactly at `k`: the position never moves past `k`, so
/// descriptors after `k` are never attempted, whatever their answers
/// would have been.
pub proof fn lemma_verify_halts_at_failure(start: int, k: int, passes: Seq<bool>)
    requires
        0 <= start <= k,
        passes.len() > k - start,
        forall|i: int| 0 <= i < k - start ==> passes[i],
        !passes[k - start],
    ensures
        engine_run(start, None, passes).0 == k,
        engine_run(start, None, passes).1 == Some(k),
    decreases k - start,
{
    if k == start {
        lemma_engine_run_halted(start, passes.skip(1));
    } else {
        assert forall|i: int| 0 <= i < k - (start + 1) implies passes.skip(1)[i] by {
            assert(passes.skip(1)[i] == passes[i + 1]);
        }
        assert(passes.skip(1)[k - (start + 1)] == passes[k - start]);
        lemma_verify_halts_at_failure(start + 1, k, passes.skip(1));
    }
}

/// The first law at the session level: a session that has recorded a
/// positive answer for every descriptor from `start` to the end of the
/// curriculum reports overall success and no failed descriptor.
pub proof fn lemma_session_all_passed(s: VerifySession)
    requires
        s.well_formed(),
        s.trace@.len() == s.algorithms@.len() - s.start,
        forall|i: int| 0 <= i < s.trace@.len() ==> s.trace@[i],
    ensures
        s.spec_result() == Some(Ok::<(), usize>(())),
{
    lemma_verify_all_pass(s.start as int, s.algorithms@.len() as int, s.trace@);
}

/// The second law at the session level: a session whose answers were
/// positive up to descriptor `k` and negative at `k` stands halted at
/// `k` — its position never passed `k`, so no descriptor after `k` was
/// ever attempted.
pub proof fn lemma_session_halts_at_failure(s: VerifySession, k: int)
    requires
        s.well_formed(),
        s.start <= k,
        s.trace@.len() > k - s.start,
        forall|i: int| 0 <= i < k - s.start ==> s.trace@[i],
        !s.trace@[k - s.start],
    ensures
        s.pos == k,
        s.failed == Some(k as usize),
        s.spec_result() == Some(Err::<(), usize>(k as usize)),
        s.spec_next_target() is None,
{
    lemma_verify_halts_at_failure(s.start as int, k, s.trace@);
}

/// Once halted, a pass stays halted where it is: no later answer is
/// ever consumed.
pub proof fn lemma_engine_run_halted(pos: int, passes: Seq<bool>)
    ensures
        engine_run(pos, Some(pos), passes) == (pos, Some(pos)),
    decreases passes.len(),
{
    if passes.len() > 0 {
        lemma_engine_run_halted(pos, passes.skip(1));
    }
}

/// A pass never looks backwards: wherever it ends up, its position —
/// and with it every descriptor it ever attempted — is at or after the
/// position it was started from.
pub proof fn lemma_engine_run_at_or_after_start(start: int, passes: Seq<bool>)
    ensures
        engine_run(start, None, passes).0 >= start,
        match engine_run(start, None, passes).1 {
            Some(i) => i >= start,
            None => true,
        },
    decreases passes.len(),
{
    if passes.len() > 0 {
        if passes[0] {
            lemma_engine_run_at_or_after_start(start + 1, passes.skip(1));
        } else {
            lemma_engine_run_halted(start, passes.skip(1));
        }
    }
}

} // verus!
