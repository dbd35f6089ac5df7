use appmanager::recognition::scan_order;
use appmanager::shell_paths::{analyze, PathAnalysis};

fn run(source: &str) -> PathAnalysis {
    analyze(
        source,
        &vec![("directory".to_string(), "/roms".to_string())],
        "/roms/ports/game.sh",
    )
}

fn has(values: &[String], wanted: &str) -> bool {
    values.iter().any(|value| value == wanted)
}

#[test]
fn assigned_variable_names_the_working_directory() {
    let r = run("GAME=/roms/ports/foo\ncd \"$GAME\"\n");
    assert!(!r.uncertain(), "{:?}", r.diagnostics);
    assert!(has(&r.working_directories, "/roms/ports/foo"));
}

#[test]
fn exported_variable_names_the_working_directory() {
    let r = run("export GAME=/roms/ports/bar\ncd $GAME\n");
    assert!(!r.uncertain(), "{:?}", r.diagnostics);
    assert!(has(&r.working_directories, "/roms/ports/bar"));
}

#[test]
fn failed_string_test_skips_the_rest_of_an_and_list() {
    let r = run("[ a = b ] && cd /roms/ports/never\ncd /roms/ports/game\n");
    assert!(!has(&r.working_directories, "/roms/ports/never"));
    assert!(has(&r.working_directories, "/roms/ports/game"));
}

#[test]
fn literal_redirect_target_is_an_output_path() {
    let r = run("echo start > /roms/ports/game/log.txt\n");
    assert!(has(&r.output_paths, "/roms/ports/game/log.txt"));
    assert!(!has(&r.paths, "/roms/ports/game/log.txt"));
}

#[test]
fn oversized_script_is_uncertain_and_names_nothing() {
    let mut source = "cd /roms/ports/game\n".to_string();
    source.push_str(&"#".repeat(4_194_304));
    let r = run(&source);
    assert!(r.uncertain());
    assert!(r.paths.is_empty());
    assert!(r.working_directories.is_empty());
}

#[test]
fn scan_visits_each_archive_once_in_path_order() {
    let entries: Vec<String> = ["/r/b.ZIP", "/r/a.txt", "/r/a.7z", "/r/c.zip", "/r/a.7z", "/r/sub/a.zip"]
        .iter()
        .map(|s| s.to_string())
        .collect();
    assert_eq!(scan_order(&entries), vec!["/r/a.7z", "/r/b.ZIP", "/r/c.zip", "/r/sub/a.zip"]);
}

#[test]
fn unmodeled_command_substitution_is_unknown() {
    let r = run("cd \"$(printf /roms/ports/x)\"\n");
    assert!(r.uncertain());
    assert!(!has(&r.working_directories, "/roms/ports/x"));
}

#[test]
fn prefix_assignments_do_not_persist() {
    let r = run("GAME=/roms/ports/a\nGAME=/roms/ports/b ./run\ncd \"$GAME\"\n");
    assert!(has(&r.working_directories, "/roms/ports/a"));
    assert!(!has(&r.working_directories, "/roms/ports/b"));
}
