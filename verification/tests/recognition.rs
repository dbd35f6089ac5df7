use appmanager::port_zip::{ZipCandidate, ZipKind};
use appmanager::recognition::{
    check_unchanged, inspect_zip_bundle, intended_targets, launcher_data_directories,
    next_port_launcher_target, recognize_catalog, ArchiveCatalog, ArchiveEntry, ArchiveFormat,
    ArchiveSource,
};

/// Builds what an archive reader hands the library for a ZIP with the given
/// entries: the catalog, the launcher texts and the package manifests.
fn read_archive(
    entries: &[(&str, bool, &[u8])],
) -> (ArchiveCatalog, Vec<(String, String)>, Vec<(String, Vec<String>)>) {
    let mut catalog = ArchiveCatalog {
        format: ArchiveFormat::Zip,
        encrypted: false,
        entries: Vec::new(),
    };
    let mut texts = Vec::new();
    let mut manifests = Vec::new();
    for (name, directory, content) in entries {
        catalog.entries.push(ArchiveEntry {
            name: name.to_string(),
            directory: *directory,
            size: content.len() as u64,
            anti_item: false,
        });
        if *directory {
            continue;
        }
        if name.rsplit('/').next() == Some("port.json") {
            if let Ok(value) = serde_json::from_slice::<serde_json::Value>(content) {
                if let Some(items) = value.get("items").and_then(|items| items.as_array()) {
                    let items: Option<Vec<String>> = items
                        .iter()
                        .map(|item| item.as_str().map(str::to_owned))
                        .collect();
                    if let Some(items) = items {
                        manifests.push((name.to_string(), items));
                    }
                }
            }
        } else if name.ends_with(".sh") {
            texts.push((name.to_string(), String::from_utf8_lossy(content).into_owned()));
        }
    }
    (catalog, texts, manifests)
}

fn inspect(name: &str, entries: &[(&str, bool, &[u8])]) -> ZipCandidate {
    let (catalog, texts, manifests) = read_archive(entries);
    let source = ArchiveSource {
        path: format!("/mnt/SDCARD/{name}"),
        size: 1024,
        identity: "dev:1 ino:2".to_owned(),
    };
    inspect_zip_bundle(&source, &catalog, &texts, &manifests, &|| false).unwrap()
}

fn names(values: &[&str]) -> Vec<String> {
    values.iter().map(|value| value.to_string()).collect()
}

#[test]
fn archive_association_uses_explicit_roots_not_magic_directory_names() {
    let real = names(&["Game", "data", "gamedata", "ports"]);
    for name in &real {
        for root in ["/ports", "/roms/ports", "$directory/ports"] {
            let text = format!("cd \"{root}/{name}/nested\"\n");
            assert_eq!(
                launcher_data_directories(&text, &real, "renamed", "wrapper"),
                vec![name.clone()]
            );
        }
    }
    assert!(
        launcher_data_directories("cd /unrelated/ports/Game\n", &real, "renamed", "wrapper")
            .is_empty()
    );
    assert_eq!(
        launcher_data_directories("cd \"$(dirname \"$0\")/Game\"\n", &real, "renamed", "wrapper"),
        names(&["Game"])
    );
}

#[test]
fn recognizes_standard_port_with_nested_folder() {
    let found = inspect(
        "game.zip",
        &[
            ("game.sh", false, b"#!/bin/sh\nGAMEDIR=\"/ports/game\"\n"),
            ("game/data/save.txt", false, b"save"),
            ("game/config.json", false, b"{}"),
        ],
    );
    assert_eq!(found.kind, "port");
    assert_eq!(found.entry_script, "game.sh");
    assert_eq!(found.entry_data, "game");
    assert_eq!(found.format, "zip");
    assert!(found.issue.is_none());
    assert_eq!(found.path, "/mnt/SDCARD/game.zip");
    assert_eq!(found.source_identity, "dev:1 ino:2");
}

#[test]
fn port_json_confirms_a_launcher_with_a_differently_named_data_folder() {
    let candidate = inspect(
        "appmanager.zip",
        &[
            ("port.json", false, br#"{"items":["APP Manager.sh","jenny92-appmanager"]}"#),
            ("APP Manager.sh", false, b"#!/bin/sh\nGAMEDIR=/$directory/ports/jenny92-appmanager\n"),
            ("jenny92-appmanager/runtime.bin", false, b"runtime"),
            ("unrelated/file.bin", false, b"not selected"),
        ],
    );
    assert_eq!(candidate.kind, "port");
    assert_eq!(candidate.entry_script, "APP Manager.sh");
    assert_eq!(candidate.entry_data, "jenny92-appmanager");
}

#[test]
fn port_json_cannot_invent_a_launcher_data_directory_association() {
    let candidate = inspect(
        "unbound.zip",
        &[
            ("port.json", false, r#"{"items":["任意名字.sh","fixed-data"]}"#.as_bytes()),
            ("任意名字.sh", false, b"#!/bin/sh\necho start\n"),
            ("fixed-data/game.bin", false, b"runtime"),
        ],
    );
    assert_eq!(candidate.kind, "unknown");
    assert!(candidate.entry_data.is_empty());
}

#[test]
fn port_json_inside_data_directory_can_declare_archive_root_items() {
    let candidate = inspect(
        "portable-game.zip",
        &[
            (
                "Z_植物大战僵尸[中].sh",
                false,
                b"#!/bin/sh\nGAMEDIR=/$directory/ports/pvz_portable_jenny\n",
            ),
            (
                "pvz_portable_jenny/port.json",
                false,
                r#"{"items":["Z_植物大战僵尸[中].sh","pvz_portable_jenny"]}"#.as_bytes(),
            ),
            ("pvz_portable_jenny/game.bin", false, b"binary"),
        ],
    );
    assert_eq!(candidate.kind, "port");
    assert_eq!(candidate.entry_script, "Z_植物大战僵尸[中].sh");
    assert_eq!(candidate.entry_data, "pvz_portable_jenny");
}

#[test]
fn runtime_mount_prefix_does_not_hide_a_literal_data_folder_name() {
    let candidate = inspect(
        "portable.zip",
        &[
            (
                "任意显示名字.sh",
                false,
                b"PORT_NAME=pvz_portable_jenny\nGAMEDIR=\"/$directory/ports/$PORT_NAME\"\n",
            ),
            ("pvz_portable_jenny/game.bin", false, b"game"),
        ],
    );
    assert_eq!(candidate.kind, "port");
    assert_eq!(candidate.entry_script, "任意显示名字.sh");
    assert_eq!(candidate.entry_data, "pvz_portable_jenny");
}

#[test]
fn recognizes_trimui_app_folder() {
    let found = inspect(
        "myapp.zip",
        &[
            ("myapp/launch.sh", false, b"#!/bin/sh\nexec app\n"),
            ("myapp/config.json", false, b"{}"),
            ("myapp/icon.png", false, b"png"),
            ("myapp/bin/app", false, b"elf"),
        ],
    );
    assert_eq!(found.kind, "trimui_app");
    assert_eq!(found.app_name, "myapp");
}

#[test]
fn app_install_rejects_an_ambiguous_configured_destination() {
    let (catalog, texts, manifests) = read_archive(&[
        ("myapp/launch.sh", false, b"#!/bin/sh\n"),
        ("myapp/config.json", false, b"{}"),
    ]);
    let recognized = recognize_catalog(&catalog, &texts, &manifests, &|| false).unwrap();
    assert_eq!(recognized.kind, ZipKind::TrimuiApp);
    let error = intended_targets(
        &recognized,
        None,
        "/games",
        &names(&["/apps-a", "/apps-b"]),
    )
    .unwrap_err();
    assert!(error.contains("exactly one APP install target"), "{error}");
    assert_eq!(
        intended_targets(&recognized, None, "/games", &names(&["/apps-a"])).unwrap(),
        names(&["/apps-a/myapp"])
    );
}

#[test]
fn rejects_non_game_zips() {
    let found = inspect(
        "docs.zip",
        &[("readme.txt", false, b"hello"), ("images/logo.png", false, b"png")],
    );
    assert_eq!(found.kind, "unknown");
    let issue = found.issue.expect("an unknown archive carries an issue");
    assert_eq!(issue.code, "unsupported_layout");
}

#[test]
fn never_selects_an_unrelated_directory_as_port_data() {
    let bundle = inspect(
        "mixed.zip",
        &[
            ("game.sh", false, b"#!/bin/sh\nGAMEDIR=/ports/game\n"),
            ("docs/readme.txt", false, b"documentation"),
            ("game/data.bin", false, b"game"),
        ],
    );
    assert_eq!(bundle.entry_data, "game");

    let bundle = inspect(
        "unrelated.zip",
        &[("other.sh", false, b"#!/bin/sh\n"), ("docs/readme.txt", false, b"documentation")],
    );
    assert_eq!(bundle.entry_data, "");
}

#[test]
fn recognizes_wrapped_port_and_keeps_only_the_data_leaf_name() {
    let (catalog, texts, manifests) = read_archive(&[
        ("package/game.sh", false, b"#!/bin/sh\nGAMEDIR=/ports/game\n"),
        ("package/game/data.bin", false, b"game"),
    ]);
    let recognized = recognize_catalog(&catalog, &texts, &manifests, &|| false).unwrap();
    assert_eq!(recognized.entry_script, "package/game.sh");
    assert_eq!(recognized.entry_data, "package/game");
    let launcher =
        next_port_launcher_target("/scripts", &recognized.entry_script, &Vec::new()).unwrap();
    assert_eq!(launcher, "/scripts/game.sh");
    assert_eq!(
        intended_targets(&recognized, Some(&launcher), "/games", &names(&["/apps"])).unwrap(),
        names(&["/scripts/game.sh", "/games/game"])
    );
}

#[test]
fn launch_sh_without_sibling_config_is_not_a_trimui_app() {
    let found = inspect(
        "not-an-app.zip",
        &[("tools/launch.sh", false, b"#!/bin/sh\n"), ("tools/readme.txt", false, b"docs")],
    );
    assert_eq!(found.kind, "unknown");
}

#[test]
fn deeper_than_three_levels_is_not_a_bundle() {
    let found = inspect(
        "deep.zip",
        &[("a/b/c/game.sh", false, b"#!/bin/sh\n"), ("a/b/c/data/", true, b"")],
    );
    assert_eq!(found.kind, "unknown");
}

#[test]
fn multiple_ports_are_rejected_as_ambiguous() {
    let candidate = inspect(
        "multi.zip",
        &[
            ("a.sh", false, b"#!/bin/sh\nGAMEDIR=/ports/a\n"),
            ("a/", true, b""),
            ("b.sh", false, b"#!/bin/sh\nGAMEDIR=/ports/b\n"),
            ("b/", true, b""),
        ],
    );
    assert_eq!(candidate.kind, "ambiguous");
    assert!(candidate.diagnostic.contains("2 installable payloads"));
}

#[test]
fn one_launcher_referencing_two_packaged_directories_is_ambiguous() {
    let candidate = inspect(
        "multi-data.zip",
        &[
            ("display.sh", false, b"GAMEDIR=/ports/primary\ncd /ports/secondary\n"),
            ("primary/data", false, b"a"),
            ("secondary/data", false, b"b"),
        ],
    );
    assert_eq!(candidate.kind, "ambiguous");
    assert!(candidate.diagnostic.contains("more than one"));
}

#[test]
fn mixed_app_and_port_are_rejected_as_ambiguous() {
    let candidate = inspect(
        "mixed.zip",
        &[
            ("app/launch.sh", false, b"#!/bin/sh\n"),
            ("app/config.json", false, b"{}"),
            ("game.sh", false, b"#!/bin/sh\nGAMEDIR=/ports/game\n"),
            ("game/", true, b""),
        ],
    );
    assert_eq!(candidate.kind, "ambiguous");
}

#[test]
fn mac_metadata_is_ignored_during_recognition() {
    let candidate = inspect(
        "mac.zip",
        &[
            ("__MACOSX/._game.sh", false, b"junk"),
            ("._other.sh", false, b"junk"),
            (".DS_Store", false, b"junk"),
            ("game.sh", false, b"#!/bin/sh\nGAMEDIR=/ports/game\n"),
            ("game/data.bin", false, b"data"),
        ],
    );
    assert_eq!(candidate.kind, "port");
    assert_eq!(candidate.entry_script, "game.sh");
}

#[test]
fn cancellation_stops_recognition() {
    let (catalog, texts, manifests) = read_archive(&[("game.sh", false, b"GAMEDIR=/ports/game\n")]);
    let error = recognize_catalog(&catalog, &texts, &manifests, &|| true).unwrap_err();
    assert_eq!(error, "archive inspection cancelled");
}

#[test]
fn too_many_entries_is_an_unknown_archive() {
    let mut entries: Vec<(String, bool, Vec<u8>)> = Vec::new();
    for index in 0..4097 {
        entries.push((format!("file{index}.bin"), false, Vec::new()));
    }
    let borrowed: Vec<(&str, bool, &[u8])> = entries
        .iter()
        .map(|(name, directory, content)| (name.as_str(), *directory, content.as_slice()))
        .collect();
    let candidate = inspect("many.zip", &borrowed);
    assert_eq!(candidate.kind, "unknown");
    assert_eq!(candidate.diagnostic, "archive contains too many entries");
}

#[test]
fn duplicate_port_launchers_receive_the_next_numeric_suffix() {
    let existing = names(&["game.sh", "game1.sh"]);
    assert_eq!(
        next_port_launcher_target("/roms/ports", "package/game.sh", &existing).unwrap(),
        "/roms/ports/game2.sh"
    );
    assert_eq!(
        next_port_launcher_target("/roms/ports", "fresh.sh", &existing).unwrap(),
        "/roms/ports/fresh.sh"
    );
    assert_eq!(
        next_port_launcher_target("/roms/ports", "game.txt", &existing).unwrap_err(),
        "Port launcher file name must end in .sh"
    );
}

#[test]
fn an_archive_replaced_after_the_scan_is_refused() {
    let (catalog, texts, manifests) = read_archive(&[
        ("game.sh", false, b"GAMEDIR=/ports/game\n"),
        ("game/data.bin", false, b"data"),
    ]);
    let bundle = inspect(
        "game.zip",
        &[("game.sh", false, b"GAMEDIR=/ports/game\n"), ("game/data.bin", false, b"data")],
    );
    let recognized = recognize_catalog(&catalog, &texts, &manifests, &|| false).unwrap();
    assert!(check_unchanged(&bundle, "dev:1 ino:2", ArchiveFormat::Zip, &recognized).is_ok());
    assert_eq!(
        check_unchanged(&bundle, "dev:1 ino:3", ArchiveFormat::Zip, &recognized).unwrap_err(),
        "archive changed after it was scanned; please scan it again"
    );
    assert_eq!(
        check_unchanged(&bundle, "dev:1 ino:2", ArchiveFormat::SevenZ, &recognized).unwrap_err(),
        "archive changed after it was scanned; please scan it again"
    );
    let (other, texts, manifests) = read_archive(&[
        ("other.sh", false, b"GAMEDIR=/ports/other\n"),
        ("other/data.bin", false, b"data"),
    ]);
    let changed = recognize_catalog(&other, &texts, &manifests, &|| false).unwrap();
    assert_eq!(
        check_unchanged(&bundle, "dev:1 ino:2", ArchiveFormat::Zip, &changed).unwrap_err(),
        "压缩包在扫描后发生了变化，请重新扫描"
    );
}

use appmanager::recognition::{invalid_candidate, is_archive_file_name, locked_candidate};

#[test]
fn scans_inspect_zip_and_7z_files_in_any_case() {
    for path in ["/mnt/SDCARD/game.zip", "/mnt/SDCARD/GAME.ZIP", "/x/a.b.7z", "/x/a.7Z"] {
        assert!(is_archive_file_name(path), "{path}");
    }
    for path in ["/x/.zip", "/x/zip", "/x/a.zip.part", "/x/a.", "/x/..", "/", "/x/a.tar"] {
        assert!(!is_archive_file_name(path), "{path}");
    }
}

#[test]
fn locked_and_invalid_archives_are_reported_as_candidates() {
    let locked = locked_candidate("/mnt/SDCARD/secret.7z", 42, "dev:1 ino:9", ArchiveFormat::SevenZ);
    assert_eq!(locked.kind, "locked");
    assert_eq!(locked.format, "7z");
    assert!(locked.password_required);
    assert_eq!(locked.diagnostic, "压缩包已加密，需要输入密码后识别");
    let invalid = invalid_candidate("/mnt/SDCARD/broken.zip", 7, "dev:1 ino:3", "archive_unsupported_method: zip:Deflate64 method 9");
    assert_eq!(invalid.kind, "invalid");
    assert!(!invalid.password_required);
    let issue = invalid.issue.clone().expect("an invalid archive carries an issue");
    assert_eq!(invalid.format, issue.format);
    assert_eq!(invalid.diagnostic, issue.message());
    assert!(!issue.report.contains("/mnt/SDCARD"));
}
