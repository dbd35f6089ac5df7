use appmanager::shell_sources::{
    check_source_file, file_test_answer, resolve_source, source_text, source_type_allowed,
    usable_source_root, MAX_FILE_BYTES,
};

#[test]
fn only_scripts_text_and_known_helpers_are_read() {
    for path in ["/roms/ports/game/control.txt", "/roms/ports/Game.sh", "/x/funcs.inc", "/x/tasksetter", "/x/fallback"] {
        assert!(source_type_allowed(path), "{path}");
    }
    for path in ["/etc/shadow", "/x/a.SH", "/x/.sh", "/x/secret.key", "/x/fallback.bin"] {
        assert!(!source_type_allowed(path), "{path}");
    }
}

#[test]
fn host_source_loader_rejects_traversal_and_paths_outside_its_roots() {
    let roots = vec![
        ("/roms/ports".to_owned(), "/mnt/sdcard/roms/ports".to_owned()),
        ("/opt/system".to_owned(), "/opt/system".to_owned()),
    ];
    let (root, rest) = resolve_source(&roots, "/roms/ports/game/control.txt").unwrap();
    assert_eq!(root, "/mnt/sdcard/roms/ports");
    assert_eq!(rest, vec!["game".chars().collect::<Vec<_>>(), "control.txt".chars().collect::<Vec<_>>()]);
    let (root, _) = resolve_source(&roots, "/mnt/sdcard/roms/ports/x.sh").unwrap();
    assert_eq!(root, "/mnt/sdcard/roms/ports");
    assert!(resolve_source(&roots, "/roms/ports/../../etc/passwd.txt").is_none());
    assert!(resolve_source(&roots, "/home/user/.profile").is_none());
    assert!(usable_source_root("/roms/ports"));
    assert!(!usable_source_root("/"));
    assert!(!usable_source_root("//"));
    assert!(!usable_source_root("roms"));
}

#[test]
fn file_tests_and_source_limits() {
    assert_eq!(file_test_answer("-d", true, false), Some(true));
    assert_eq!(file_test_answer("-f", true, false), Some(false));
    assert_eq!(file_test_answer("-e", false, false), Some(true));
    assert_eq!(file_test_answer("-x", true, true), None);
    assert!(check_source_file(true, MAX_FILE_BYTES as u64).is_ok());
    assert_eq!(check_source_file(false, 1).unwrap_err(), "source type/size limit");
    assert_eq!(check_source_file(true, MAX_FILE_BYTES as u64 + 1).unwrap_err(), "source type/size limit");
    assert_eq!(source_text(b"echo hi\n".to_vec()), Ok("echo hi\n".to_owned()));
    assert_eq!(source_text(vec![0xff]).unwrap_err(), "source is not UTF-8");
    assert_eq!(source_text(vec![b'a'; MAX_FILE_BYTES + 1]).unwrap_err(), "source grew beyond limit");
}
