use appmanager::launcher::{
    fresh_config_refresh_status, inventory_available, normalized_target_override,
    portmaster_xdg_data_home, progress_of, publish_task_progress, read_update_cache,
    safe_asset_name, safe_version, task_needs_recovery, EmbeddedAction, ManagementMode, Password,
    ServiceAction,
};
use appmanager::task::ProgressChannel;

const CONFIG_REFRESH_SUCCESS_TTL_SECONDS: u64 = 24 * 60 * 60;
const CONFIG_REFRESH_ERROR_TTL_SECONDS: u64 = 6 * 60 * 60;

#[test]
fn damaged_app_managed_environment_still_exposes_game_inventory() {
    assert!(inventory_available(&ManagementMode::App, "healthy"));
    assert!(inventory_available(&ManagementMode::App, "damaged"));
    assert!(inventory_available(&ManagementMode::App, "missing"));
    assert!(inventory_available(&ManagementMode::System, "missing"));
}

#[test]
fn game_handoff_derives_frontend_environment_from_the_resolved_core() {
    assert_eq!(
        portmaster_xdg_data_home(Some("/mnt/sdcard/roms/ports/PortMaster"), Some("/mnt/sdcard/roms/ports")),
        Some("/mnt/sdcard/roms/ports".to_owned())
    );
    assert_eq!(
        portmaster_xdg_data_home(Some("/roms/ports/PortMaster"), Some("/roms/ports")),
        Some("/roms/ports".to_owned())
    );
    assert_eq!(
        portmaster_xdg_data_home(Some("/userdata/app/portmaster"), Some("/roms/ports")),
        Some("/roms/ports".to_owned())
    );
    assert_eq!(portmaster_xdg_data_home(None, None), None);
}

#[test]
fn transaction_recovery_is_limited_to_startup_and_mutating_tasks() {
    for kind in ["initial-snapshot", "apply", "install-zips"] {
        assert!(task_needs_recovery(kind), "{kind}");
    }
    for kind in ["inventory-refresh", "scan-zips", "update-check", "config-refresh-if-newer"] {
        assert!(!task_needs_recovery(kind), "{kind}");
    }
}

#[test]
fn config_refresh_cache_throttles_success_and_failure_without_trusting_future_time() {
    let now = 1_000_000_u64;
    let cache = format!("{}\tok\n", now - CONFIG_REFRESH_SUCCESS_TTL_SECONDS + 1);
    assert_eq!(fresh_config_refresh_status(&cache, now), Some("cached"));
    let cache = format!("{}\tok\n", now - CONFIG_REFRESH_SUCCESS_TTL_SECONDS);
    assert_eq!(fresh_config_refresh_status(&cache, now), None);
    let cache = format!("{}\terror\n", now - CONFIG_REFRESH_ERROR_TTL_SECONDS + 1);
    assert_eq!(fresh_config_refresh_status(&cache, now), Some("cached_error"));
    let cache = format!("{}\terror\n", now + 1);
    assert_eq!(fresh_config_refresh_status(&cache, now), None);
    assert_eq!(fresh_config_refresh_status("garbage", now), None);
    assert_eq!(fresh_config_refresh_status("5\tok\textra", now), None);
}

#[test]
fn embedded_actions_reject_unsafe_boundary_text() {
    let unsafe_action = EmbeddedAction {
        kind: "TRASH".into(),
        arg: "/ports/Game.sh\nDELETE_MANAGED\t/ports/Game".into(),
        source_identity: None,
        replace_existing: false,
        password: None,
    };
    assert!(ServiceAction::try_from(&unsafe_action).is_err());

    let valid_action = EmbeddedAction {
        kind: "TRASH".into(),
        arg: "/ports/Game.sh".into(),
        source_identity: None,
        replace_existing: false,
        password: None,
    };
    let parsed = ServiceAction::try_from(&valid_action).unwrap();
    assert_eq!(parsed.kind, "TRASH");
    assert_eq!(parsed.argument, "/ports/Game.sh");
}

#[test]
fn embedded_archive_password_is_redacted_from_debug_output() {
    let action = EmbeddedAction {
        kind: "INSTALL_ZIP".into(),
        arg: "/media/encrypted.7z".into(),
        source_identity: Some("identity".into()),
        replace_existing: false,
        password: Some(Password::new("never-print-this-password".into())),
    };
    let debug = action.debug_text();
    assert!(debug.contains("[REDACTED]"));
    assert!(!debug.contains("never-print-this-password"));
    assert_eq!(
        debug,
        "EmbeddedAction { kind: \"INSTALL_ZIP\", arg: \"/media/encrypted.7z\", source_identity: Some(\"identity\"), replace_existing: false, password: Some(\"[REDACTED]\") }"
    );
}

#[test]
fn lower_case_or_empty_action_kinds_are_refused() {
    for kind in ["trash", "", "TRASH ME"] {
        let action = EmbeddedAction {
            kind: kind.into(),
            arg: "/ports/Game.sh".into(),
            source_identity: None,
            replace_existing: false,
            password: None,
        };
        assert_eq!(
            ServiceAction::try_from(&action).unwrap_err(),
            "APP Manager action contains unsafe text"
        );
    }
}

#[test]
fn versions_and_release_assets_keep_only_safe_characters() {
    assert_eq!(safe_version("v1.2.3-rc_1 <b>"), "v1.2.3-rc_1b");
    assert_eq!(safe_version("版本"), "");
    assert!(safe_asset_name("PortMaster+arm64-1.0.zip"));
    assert!(!safe_asset_name(""));
    assert!(!safe_asset_name("."));
    assert!(!safe_asset_name(".."));
    assert!(!safe_asset_name("../evil.zip"));
    assert!(!safe_asset_name("with space.zip"));
}

#[test]
fn the_portmaster_override_is_read_relative_to_the_probe_root() {
    assert_eq!(normalized_target_override(None, Some("/probe")), None);
    assert_eq!(
        normalized_target_override(Some("/mnt/SDCARD/PortMaster"), None),
        Some("/mnt/SDCARD/PortMaster".to_owned())
    );
    assert_eq!(
        normalized_target_override(Some("/probe/mnt/SDCARD/PortMaster"), Some("/probe")),
        Some("/mnt/SDCARD/PortMaster".to_owned())
    );
    assert_eq!(
        normalized_target_override(Some("/elsewhere/PortMaster"), Some("/probe")),
        Some("/elsewhere/PortMaster".to_owned())
    );
}

#[test]
fn update_cache_is_read_leniently() {
    assert_eq!(read_update_cache(None), (0, "unknown".to_owned(), String::new()));
    assert_eq!(
        read_update_cache(Some("1700000000\tok\t2024.05.01\n")),
        (1700000000, "ok".to_owned(), "2024.05.01".to_owned())
    );
    assert_eq!(
        read_update_cache(Some("soon\terror\tv1 beta")),
        (0, "error".to_owned(), String::new())
    );
    assert_eq!(read_update_cache(Some("12\tmaybe")), (12, "unknown".to_owned(), String::new()));
}

#[test]
fn progress_frames_reach_the_channel_on_one_line() {
    let frame = progress_of("download", "godot", 5, 10, 2, "line one\nline two");
    assert_eq!(frame.count, 1);
    assert_eq!(frame.index, 0);
    assert!(!frame.detail.contains('\n'));
    let channel = ProgressChannel::default();
    publish_task_progress(Some(&channel), "install", 1, 3, 0, "ok").unwrap();
    let published = channel.take().unwrap();
    assert_eq!(published.phase, "install");
    assert_eq!(published.runtime, "PortMaster");
    assert_eq!(published.total, 3);
    assert!(publish_task_progress(None, "install", 1, 3, 0, "ok").is_ok());
}

use appmanager::launcher::{validate_network_actions, ValidatedNetworkActions};

fn action(kind: &str, argument: &str) -> ServiceAction {
    ServiceAction { kind: kind.into(), argument: argument.into() }
}

#[test]
fn network_actions_are_fully_validated_before_execution() {
    let actions = vec![action("INSTALL_RUNTIME", "python_3.11"), action("UNKNOWN", "-")];
    assert!(matches!(
        validate_network_actions("tested", None, &actions),
        Err("mixed-network-actions")
    ));
    let actions = vec![action("INSTALL_RUNTIME", "python_3.11"), action("INSTALL_RUNTIME", "mono_6.12")];
    let ValidatedNetworkActions::Runtimes(names) =
        validate_network_actions("tested", None, &actions).unwrap()
    else {
        panic!("Runtime actions were not classified as a Runtime batch");
    };
    assert_eq!(names, ["python_3.11", "mono_6.12"]);
}

#[test]
fn portmaster_installs_need_the_acknowledgements_of_the_device_class() {
    let install = vec![action("INSTALL_PORTMASTER", "stable")];
    assert!(matches!(
        validate_network_actions("tested", None, &install),
        Ok(ValidatedNetworkActions::PortMaster { risk_ack: false, support_ack: false, .. })
    ));
    assert_eq!(
        validate_network_actions("official-untested", None, &install).unwrap_err(),
        "invalid-device-ack-set"
    );
    let with_risk = vec![action("ACK_DEVICE_RISK", "official-untested"), action("INSTALL_PORTMASTER", "stable")];
    assert!(matches!(
        validate_network_actions("official-untested", None, &with_risk),
        Ok(ValidatedNetworkActions::PortMaster { risk_ack: true, support_ack: false, .. })
    ));
    let unsupported = vec![
        action("ACK_DEVICE_RISK", "unsupported-known"),
        action("ACK_DEVICE_SUPPORT", "/roms/ports/PortMaster/"),
        action("INSTALL_PORTMASTER", "stable"),
    ];
    assert!(matches!(
        validate_network_actions("unsupported-known", Some("/roms/ports/PortMaster"), &unsupported),
        Ok(ValidatedNetworkActions::PortMaster { risk_ack: true, support_ack: true, .. })
    ));
    assert_eq!(
        validate_network_actions("unsupported-known", Some("/other/PortMaster"), &unsupported).unwrap_err(),
        "invalid-support-ack"
    );
    assert_eq!(validate_network_actions("mystery", None, &install).unwrap_err(), "unsupported-device");
}

#[test]
fn misplaced_network_actions_are_named() {
    let late_ack = vec![action("INSTALL_PORTMASTER", "stable"), action("ACK_DEVICE_RISK", "official-untested")];
    assert_eq!(
        validate_network_actions("official-untested", None, &late_ack).unwrap_err(),
        "invalid-portmaster-action"
    );
    let wrong_risk = vec![action("ACK_DEVICE_RISK", "tested"), action("INSTALL_PORTMASTER", "stable")];
    assert_eq!(validate_network_actions("tested", None, &wrong_risk).unwrap_err(), "invalid-device-ack");
    let nightly = vec![action("INSTALL_PORTMASTER", "nightly")];
    assert_eq!(validate_network_actions("tested", None, &nightly).unwrap_err(), "invalid-portmaster-action");
    assert_eq!(validate_network_actions("tested", None, &Vec::new()).unwrap_err(), "missing-portmaster-action");
    let other = vec![action("TRASH", "/ports/Game.sh")];
    assert_eq!(validate_network_actions("tested", None, &other).unwrap_err(), "unknown-action");
}

use appmanager::launcher::{
    app_install_targets, check_zip_install_payload, embedded_task, inventory_source,
    require_bundle_capability, require_scan_capability, task_clears_health, AppLocation, EmbeddedTask,
    InventorySource, ZipInstallTally,
};

fn zip_action(kind: &str) -> EmbeddedAction {
    EmbeddedAction {
        kind: kind.into(),
        arg: "/mnt/SDCARD/game.zip".into(),
        source_identity: None,
        replace_existing: false,
        password: None,
    }
}

#[test]
fn embedded_tasks_are_named_and_unknown_ones_refused() {
    assert_eq!(embedded_task("install-zips").unwrap(), EmbeddedTask::InstallZips);
    assert_eq!(embedded_task("initial-snapshot").unwrap(), EmbeddedTask::InitialSnapshot);
    assert_eq!(
        embedded_task("config-refresh-if-newer").unwrap_err(),
        "unsupported APP Manager task \"config-refresh-if-newer\""
    );
    assert!(task_clears_health(EmbeddedTask::InventoryRefresh, false));
    assert!(task_clears_health(EmbeddedTask::Apply, true));
    assert!(!task_clears_health(EmbeddedTask::Apply, false));
    assert!(!task_clears_health(EmbeddedTask::ScanZips, true));
    assert_eq!(inventory_source(EmbeddedTask::Apply), InventorySource::Persisted);
    assert_eq!(inventory_source(EmbeddedTask::UpdateCheck), InventorySource::Cached);
    assert_eq!(inventory_source(EmbeddedTask::InstallZips), InventorySource::Scanned);
}

#[test]
fn install_tasks_take_at_most_thirty_two_zip_actions() {
    let many: Vec<EmbeddedAction> = (0..33).map(|_| zip_action("INSTALL_ZIP")).collect();
    assert_eq!(check_zip_install_payload(&many).unwrap_err(), "too many zip bundles selected");
    let mixed = vec![zip_action("INSTALL_ZIP"), zip_action("TRASH")];
    assert_eq!(check_zip_install_payload(&mixed).unwrap_err(), "invalid zip install task payload");
    let fine: Vec<EmbeddedAction> = (0..32).map(|_| zip_action("INSTALL_ZIP")).collect();
    assert!(check_zip_install_payload(&fine).is_ok());
}

#[test]
fn install_tallies_count_bundles_items_conflicts_and_failures() {
    let mut tally = ZipInstallTally::new(4);
    tally.record_outcome(2, 0);
    tally.record_outcome(0, 3);
    tally.record_outcome(1, 1);
    tally.record_failure();
    assert_eq!(
        tally,
        ZipInstallTally {
            selected_bundles: 4,
            installed_bundles: 2,
            installed_items: 3,
            conflicted_bundles: 1,
            conflicts: 4,
            failed_bundles: 1,
        }
    );
}

#[test]
fn bundle_kinds_need_their_capability() {
    let caps = vec![("install_ports".to_owned(), true), ("install_apps".to_owned(), false)];
    assert!(require_bundle_capability(&caps, "port").is_ok());
    assert_eq!(
        require_bundle_capability(&caps, "trimui_app").unwrap_err(),
        "trimui_app installation is disabled by device configuration"
    );
    assert_eq!(require_bundle_capability(&caps, "ambiguous").unwrap_err(), "unsupported zip bundle");
    assert!(require_scan_capability(&caps).is_ok());
    let none = vec![("install_ports".to_owned(), false)];
    assert_eq!(
        require_scan_capability(&none).unwrap_err(),
        "bundle installation is disabled by device configuration"
    );
}

#[test]
fn apps_install_into_the_highest_priority_app_locations() {
    let location = |path: &str, install: bool, trimui_apps: bool, priority: i64| AppLocation {
        path: path.to_owned(),
        install,
        trimui_apps,
        priority,
    };
    let locations = vec![
        location("/mnt/SDCARD/Apps", true, true, 10),
        location("/mnt/SDCARD/Other", true, false, 50),
        location("/mnt/SDCARD/Inventory", false, true, 90),
        location("/userdata/Apps", true, true, 5),
    ];
    assert_eq!(app_install_targets(&locations), vec!["/mnt/SDCARD/Apps".to_owned()]);
    let tied = vec![location("/a", true, true, 1), location("/b", true, true, 1)];
    assert_eq!(app_install_targets(&tied), vec!["/a".to_owned(), "/b".to_owned()]);
    assert!(app_install_targets(&Vec::new()).is_empty());
}
