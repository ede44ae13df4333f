use algo::curriculum::{find_algorithm, Algorithm, Mode};
use algo::run::{run, single_run_action};
use algo::state::State;
use algo::verify::{action_for, prompt_for_completion, success_message, verify, Action, AttemptOutcome};

fn alg(name: &str, path: &str, mode: Mode, hint: &str) -> Algorithm {
    Algorithm {
        name: name.to_string(),
        path: path.as_bytes().to_vec(),
        mode,
        hint: hint.to_string(),
    }
}

fn passed() -> AttemptOutcome {
    AttemptOutcome::Passed { stdout: String::new() }
}

fn run_failed() -> AttemptOutcome {
    AttemptOutcome::RunFailed { stdout: "out".to_string(), stderr: "err".to_string() }
}

fn compile_failed() -> AttemptOutcome {
    AttemptOutcome::CompileFailed { stderr: "boom".to_string() }
}

fn curriculum() -> Vec<Algorithm> {
    vec![
        alg("A", "fundamentals/a.rs", Mode::Test, "hint a"),
        alg("B", "fundamentals/b.rs", Mode::Test, "hint b"),
        alg("C", "fundamentals/c.rs", Mode::Test, "hint c"),
    ]
}

#[test]
fn verify_succeeds_when_every_descriptor_passes() {
    let mut session = verify(curriculum(), 0, false);
    while let Some(_) = session.next_target() {
        session.record(&passed(), &State::Done);
    }
    assert!(matches!(session.result(), Some(Ok(()))));
    assert!(session.failed_algorithm().is_none());
}

#[test]
fn verify_halts_at_first_failure_and_never_reaches_later_ones() {
    // curriculum = [A passes, B fails, C passes]: the pass must end at B
    // and never ask for C
    let mut session = verify(curriculum(), 0, false);
    assert_eq!(session.next_target(), Some(0));
    session.record(&passed(), &State::Done);
    assert_eq!(session.next_target(), Some(1));
    session.record(&run_failed(), &State::Done);
    assert_eq!(session.next_target(), None);
    match session.result() {
        Some(Err(i)) => assert_eq!(i, 1),
        other => panic!("expected a halt at B, got {:?}", other.is_some()),
    }
    assert_eq!(session.failed_algorithm().unwrap().name, "B");
}

#[test]
fn verify_resumes_at_given_position() {
    let mut session = verify(curriculum(), 1, false);
    assert_eq!(session.next_target(), Some(1));
    session.record(&passed(), &State::Done);
    assert_eq!(session.next_target(), Some(2));
    session.record(&passed(), &State::Done);
    assert!(matches!(session.result(), Some(Ok(()))));
}

#[test]
fn verify_treats_pending_state_as_a_halt() {
    let mut session = verify(curriculum(), 0, false);
    session.record(&passed(), &State::Pending(Vec::new()));
    match session.result() {
        Some(Err(i)) => assert_eq!(i, 0),
        _ => panic!("a pending exercise must pause the pass"),
    }
}

#[test]
fn verify_over_empty_range_is_immediate_success() {
    let session = verify(curriculum(), 3, false);
    assert!(matches!(session.result(), Some(Ok(()))));
    assert_eq!(session.next_target(), None);
}

#[test]
fn run_failing_compile_only_artifact_shows_both_streams() {
    // a single named run of a compile-mode exercise whose artifact exits
    // non-zero fails and prints both captured streams
    let a = alg("compFailure", "f.rs", Mode::Compile, "");
    match run(&a, &run_failed(), false) {
        Err(report) => {
            assert!(report.show_stdout);
            assert!(report.show_stderr);
        },
        Ok(_) => panic!("a failing artifact must fail the run"),
    }
}

#[test]
fn run_failing_compile_shows_compiler_errors_only() {
    let a = alg("compFailure", "f.rs", Mode::Compile, "");
    match run(&a, &compile_failed(), false) {
        Err(report) => {
            assert!(!report.show_stdout);
            assert!(report.show_stderr);
        },
        Ok(_) => panic!("a failing compile must fail the run"),
    }
}

#[test]
fn run_passing_test_prints_harness_output_only_when_verbose() {
    let a = alg("testSuccess", "t.rs", Mode::Test, "");
    match run(&a, &passed(), true) {
        Ok(report) => assert!(report.show_stdout),
        Err(_) => panic!("a passing harness must pass the run"),
    }
    match run(&a, &passed(), false) {
        Ok(report) => assert!(!report.show_stdout),
        Err(_) => panic!("a passing harness must pass the run"),
    }
}

#[test]
fn run_failing_test_shows_harness_stdout() {
    let a = alg("testFailure", "t.rs", Mode::Test, "");
    match run(&a, &run_failed(), false) {
        Err(report) => {
            assert!(report.show_stdout);
            assert!(!report.show_stderr);
        },
        Ok(_) => panic!("a failing harness must fail the run"),
    }
}

#[test]
fn actions_follow_modes() {
    assert_eq!(action_for(Mode::Test), Action::CompileAndTest);
    assert_eq!(action_for(Mode::Compile), Action::CompileAndRun);
    assert_eq!(action_for(Mode::Clippy), Action::CompileOnly);
}

#[test]
fn prompting_blocks_only_pending_sources() {
    assert!(prompt_for_completion(&State::Done));
    assert!(!prompt_for_completion(&State::Pending(Vec::new())));
}

#[test]
fn success_messages_name_each_mode() {
    assert_eq!(success_message(Mode::Compile), "The code is compiling!");
    assert_eq!(success_message(Mode::Test), "The code is compiling, and the tests pass!");
    assert_eq!(success_message(Mode::Clippy), "The code is compiling, and Clippy is happy!");
}

#[test]
fn get_hint_for_single_test() {
    // `hint <name>` prints exactly the stored hint text
    let algorithms = vec![
        alg("compFailure", "f.rs", Mode::Compile, "try harder"),
        alg("testFailure", "t.rs", Mode::Test, "Hello!"),
    ];
    let name = "testFailure".to_string();
    let found = find_algorithm(&algorithms, &name).unwrap();
    assert_eq!(algorithms[found].hint, "Hello!");
}

#[test]
fn unknown_names_are_not_found() {
    let algorithms = curriculum();
    assert_eq!(find_algorithm(&algorithms, &"missing".to_string()), None);
    assert_eq!(find_algorithm(&algorithms, &"B".to_string()), Some(1));
}

#[test]
fn a_single_run_executes_even_lint_mode_exercises() {
    assert_eq!(single_run_action(Mode::Test), Action::CompileAndTest);
    assert_eq!(single_run_action(Mode::Compile), Action::CompileAndRun);
    assert_eq!(single_run_action(Mode::Clippy), Action::CompileAndRun);
}
