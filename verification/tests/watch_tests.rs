use algo::curriculum::{Algorithm, Mode};
use algo::watch::{
    is_rs_file, path_ends_with, resume_index, shell_command, str_eq, trim_input, ShellCommand,
    WatchStep, Watcher,
};

fn alg(name: &str, path: &str, hint: &str) -> Algorithm {
    Algorithm {
        name: name.to_string(),
        path: path.as_bytes().to_vec(),
        mode: Mode::Test,
        hint: hint.to_string(),
    }
}

fn curriculum() -> Vec<Algorithm> {
    vec![
        alg("first", "algorithms/sorts/first.rs", "hint one"),
        alg("second", "algorithms/sorts/second.rs", "hint two"),
        alg("third", "algorithms/searches/third.rs", "hint three"),
    ]
}

#[test]
fn path_suffix_matches_whole_components_only() {
    let full = b"/home/user/algorithms/sorts/second.rs".to_vec();
    assert!(path_ends_with(&full, &b"algorithms/sorts/second.rs".to_vec()));
    assert!(path_ends_with(&full, &b"second.rs".to_vec()));
    assert!(!path_ends_with(&full, &b"cond.rs".to_vec()));
    assert!(!path_ends_with(&full, &b"first.rs".to_vec()));
    assert!(path_ends_with(&full, &full));
}

#[test]
fn only_existing_rs_files_trigger_reverification() {
    assert!(is_rs_file(&b"algorithms/sorts/first.rs".to_vec()));
    assert!(is_rs_file(&b"a.rs".to_vec()));
    assert!(!is_rs_file(&b"notes.txt".to_vec()));
    assert!(!is_rs_file(&b".rs".to_vec()));
    assert!(!is_rs_file(&b"algorithms/.rs".to_vec()));

    let w = Watcher::new(curriculum(), false);
    let changed = b"/repo/algorithms/sorts/second.rs".to_vec();
    assert!(matches!(w.on_file_change(&changed, false), WatchStep::Ignore));
    assert!(matches!(
        w.on_file_change(&b"/repo/notes.txt".to_vec(), true),
        WatchStep::Ignore
    ));
}

#[test]
fn reverification_resumes_at_the_changed_exercise() {
    // descriptors strictly before the edited one are skipped
    let algorithms = curriculum();
    let changed = b"/repo/algorithms/sorts/second.rs".to_vec();
    assert_eq!(resume_index(&algorithms, &changed), 1);

    let w = Watcher::new(algorithms, false);
    match w.on_file_change(&changed, true) {
        WatchStep::Reverify { start } => assert_eq!(start, 1),
        WatchStep::Ignore => panic!("an edited exercise must trigger a pass"),
    }
}

#[test]
fn an_unknown_source_file_skips_the_whole_curriculum() {
    let algorithms = curriculum();
    let changed = b"/repo/algorithms/other/stray.rs".to_vec();
    assert_eq!(resume_index(&algorithms, &changed), 3);
}

#[test]
fn the_shared_hint_always_reflects_the_latest_failure() {
    let mut w = Watcher::new(curriculum(), false);
    assert!(w.current_hint().is_none());
    w.record_failure(1);
    assert_eq!(w.current_hint().unwrap(), "hint two");
    w.record_failure(0);
    assert_eq!(w.current_hint().unwrap(), "hint one");
    w.record_failure(2);
    assert_eq!(w.current_hint().unwrap(), "hint three");
}

#[test]
fn shell_lines_are_trimmed_and_interpreted() {
    assert!(matches!(shell_command("hint"), ShellCommand::Hint));
    assert!(matches!(shell_command("  hint \n"), ShellCommand::Hint));
    assert!(matches!(shell_command("clear"), ShellCommand::Clear));
    assert!(matches!(shell_command("\tclear\r\n"), ShellCommand::Clear));
    assert!(matches!(shell_command("hintt"), ShellCommand::Unknown));
    assert!(matches!(shell_command(""), ShellCommand::Unknown));
    assert!(matches!(shell_command("help me"), ShellCommand::Unknown));
}

#[test]
fn trimming_strips_blanks_at_both_ends_only() {
    assert_eq!(trim_input("  a b \n"), "a b");
    assert_eq!(trim_input("word"), "word");
    assert_eq!(trim_input(" \t\r\n"), "");
    assert_eq!(trim_input(""), "");
}

#[test]
fn string_equality_is_character_exact() {
    assert!(str_eq("hint", "hint"));
    assert!(!str_eq("hint", "hin"));
    assert!(!str_eq("hint", "mint"));
    assert!(str_eq("", ""));
}
