use typos_policy::run::{select_checks, single_threaded, thread_count, working_dir, Checks, InputKind, Outcome, RunStatus};

fn v(parts: &[&str]) -> Vec<String> {
    parts.iter().map(|p| p.to_string()).collect()
}

#[test]
fn working_dir_by_input_kind() {
    let here = v(&["home", "me"]);
    assert_eq!(working_dir(InputKind::Stdin, &v(&["-"]), &here), here);
    assert_eq!(working_dir(InputKind::File, &v(&["src", "lib.rs"]), &here), v(&["src"]));
    assert_eq!(working_dir(InputKind::Dir, &v(&["src"]), &here), v(&["src"]));
}

#[test]
fn single_file_is_walked_serially() {
    assert!(single_threaded(InputKind::File, 8));
    assert!(single_threaded(InputKind::Dir, 1));
    assert!(!single_threaded(InputKind::Dir, 8));
    assert_eq!(thread_count(InputKind::File, 8), 1);
    assert_eq!(thread_count(InputKind::Stdin, 4), 4);
}

#[test]
fn mode_switches_select_strategy() {
    assert_eq!(select_checks(false, false, false, false, false), Checks::Typos);
    assert_eq!(select_checks(false, false, false, true, false), Checks::FixTypos);
    assert_eq!(select_checks(false, false, false, false, true), Checks::DiffTypos);
    assert_eq!(select_checks(true, true, false, false, false), Checks::FoundFiles);
    assert_eq!(select_checks(false, true, true, false, false), Checks::Identifiers);
    assert_eq!(select_checks(false, false, true, false, false), Checks::Words);
}

#[test]
fn exit_codes() {
    let mut s = RunStatus::new();
    assert_eq!(s.outcome(), Outcome::Success);
    assert_eq!(s.outcome().code(), 0);
    s.record(true, false);
    assert_eq!(s.outcome().code(), 2);
    s.record(false, false);
    assert_eq!(s.outcome(), Outcome::TyposFound);
    s.record(false, true);
    assert_eq!(s.outcome(), Outcome::Failure);
    assert_eq!(s.outcome().code(), 1);
}
