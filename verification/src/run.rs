//! Running a single named exercise, outside any verification pass.

use vstd::prelude::*;

use crate::curriculum::{Algorithm, Mode};
use crate::verify::{spec_test, Action, AttemptOutcome, Report};

verus! {

/// What the toolchain must do for one named run, by mode.  Unlike in a
/// verification pass, a single run executes the artifact even for a
/// compile-only exercise.
pub open spec fn single_run_action_of(mode: Mode) -> Action {
    match mode {
        Mode::Test => Action::CompileAndTest,
        Mode::Compile => Action::CompileAndRun,
        Mode::Clippy => Action::CompileAndRun,
    }
}

/// The toolchain action for one named run of one exercise.
pub fn single_run_action(mode: Mode) -> (a: Action)
    ensures
        a == single_run_action_of(mode),
{
    match mode {
        Mode::Test => Action::CompileAndTest,
        Mode::Compile => Action::CompileAndRun,
        Mode::Clippy => Action::CompileAndRun,
    }
}

/// The pass-or-fail answer and display decision for one plain compile-and-run
/// invocation: a failed compile shows the compiler's stderr, a failed
/// artifact shows both of its captured streams, and a passing artifact
/// shows its stdout.
pub open spec fn spec_compile_and_run(outcome: AttemptOutcome) -> Result<Report, Report> {
    match outcome {
        AttemptOutcome::CompileFailed { .. } => Err(
            Report { show_stdout: false, show_stderr: true },
        ),
        AttemptOutcome::RunFailed { .. } => Err(Report { show_stdout: true, show_stderr: true }),
        AttemptOutcome::Passed { .. } => Ok(Report { show_stdout: true, show_stderr: false }),
    }
}

fn compile_and_run(outcome: &AttemptOutcome) -> (r: Result<Report, Report>)
    ensures
        r == spec_compile_and_run(*outcome),
{
    match outcome {
        AttemptOutcome::CompileFailed { .. } => Err(
            Report { show_stdout: false, show_stderr: true },
        ),
        AttemptOutcome::RunFailed { .. } => Err(Report { show_stdout: true, show_stderr: true }),
        AttemptOutcome::Passed { .. } => Ok(Report { show_stdout: true, show_stderr: false }),
    }
}

/// What a single `run` of one exercise decides, by mode: test-mode
/// exercises are judged as a harness (stdout only on verbose success),
/// everything else as a plain binary whose output is always shown.
pub open spec fn spec_run(mode: Mode, outcome: AttemptOutcome, verbose: bool) -> Result<
    Report,
    Report,
> {
    match mode {
        Mode::Test => spec_test(outcome, verbose),
        Mode::Compile => spec_compile_and_run(outcome),
        Mode::Clippy => spec_compile_and_run(outcome),
    }
}

/// Classify the toolchain's outcome for exactly one named exercise.
/// `Err` means the invocation failed and the process must exit with a
/// failure code; the reports say which captured streams to print.  The
/// completion scan plays no part in a single run.
pub fn run(algorithm: &Algorithm, outcome: &AttemptOutcome, verbose: bool) -> (r: Result<
    Report,
    Report,
>)
    ensures
        r == spec_run(algorithm.mode, *outcome, verbose),
        r is Ok <==> *outcome is Passed,
{
    match algorithm.mode {
        Mode::Test => crate::verify::test(algorithm, outcome, verbose),
        Mode::Compile => compile_and_run(outcome),
        Mode::Clippy => compile_and_run(outcome),
    }
}

} // verus!
