use appmanager::operations::{runtime_failure_outcome, runtime_repair_disabled};

#[test]
fn runtime_partial_failure_reports_success_count_and_failed_names() {
    let names = vec!["mono".to_owned(), "godot".to_owned(), "love".to_owned()];
    let installed: Vec<bool> = names.iter().map(|name| name != "godot").collect();
    let outcome = runtime_failure_outcome(&names, "download failed", &installed);
    assert!(outcome.failed);
    assert_eq!(outcome.handled, 2);
    assert_eq!(outcome.failures, ["godot: download failed"]);
}

#[test]
fn a_repair_where_every_runtime_is_installed_has_not_failed() {
    let names = vec!["mono".to_owned()];
    let outcome = runtime_failure_outcome(&names, "download failed", &vec![true]);
    assert!(!outcome.failed);
    assert_eq!(outcome.handled, 1);
    assert!(outcome.failures.is_empty());
}

#[test]
fn disabled_runtime_repair_fails_every_runtime() {
    let names = vec!["mono".to_owned(), "love".to_owned()];
    let outcome = runtime_repair_disabled(&names);
    assert!(outcome.failed);
    assert_eq!(outcome.handled, 0);
    assert_eq!(outcome.failures, ["mono: capability disabled", "love: capability disabled"]);
}
