use appmanager::launcher::ManagementMode;
use appmanager::platform_context::{
    platform_context, select_location, CapabilityState, FrontendInput, InstallMapEntry, LibraryGroup,
    LibraryGroupInput, Location, LocationNeed, ResolutionInput, TransformInput,
};
use appmanager::resolution::ResolutionConversionError;

fn strings(v: &[&str]) -> Vec<String> {
    v.iter().map(|s| (*s).to_owned()).collect()
}

fn location(kind: &str, path: &str, roles: &[&str], formats: &[&str], priority: i64) -> Location {
    Location { kind: kind.to_owned(), path: path.to_owned(), roles: strings(roles), formats: strings(formats), priority }
}

fn need(kind: &str, roles: &[&str], format: Option<&str>) -> LocationNeed {
    LocationNeed { kind: kind.to_owned(), roles: strings(roles), format: format.map(str::to_owned) }
}

fn frontend() -> FrontendInput {
    FrontendInput {
        kind: "plugin-frontend".to_owned(),
        management: "app".to_owned(),
        names: strings(&["launch.sh"]),
        primary: "launch.sh".to_owned(),
        install_map: vec![InstallMapEntry {
            source: "plugin/launch.txt".to_owned(),
            target: "launch.sh".to_owned(),
            executable: true,
        }],
        control_source: Some("plugin/control.txt".to_owned()),
        core_launcher_source: None,
        remove_core_launcher: false,
        empty_tasksetter: false,
        core_executable: Some("PortMaster.sh".to_owned()),
        frontend_executable: Some("launch.sh".to_owned()),
        transforms: Vec::new(),
    }
}

fn fixture() -> ResolutionInput {
    ResolutionInput {
        platform_id: "plugin-device-v2".to_owned(),
        device_class: "official-untested".to_owned(),
        preserved_dirs: strings(&["libs", "config", "themes"]),
        target_confirmed: true,
        portmaster: Some("/tmp/t/core".to_owned()),
        frontend_dir: Some("/tmp/t/frontend".to_owned()),
        locations: vec![
            location("PortScripts", "/tmp/t/scripts", &["inventory"], &["port"], 100),
            location("PortData", "/tmp/t/games", &["inventory"], &["port"], 100),
            location("PortImages", "/tmp/t/images", &["inventory"], &[], 100),
        ],
        scripts_need: need("PortScripts", &[], None),
        data_need: need("PortData", &[], None),
        images_need: need("PortImages", &[], None),
        frontend: Ok(frontend()),
        library_groups: None,
        capabilities: vec![("install_portmaster".to_owned(), true)],
    }
}

#[test]
fn arbitrary_portkit_profile_converts_without_a_platform_table() {
    let context = platform_context(&fixture()).unwrap();
    assert_eq!(context.profile, "plugin-device-v2");
    assert_eq!(context.device_class, "official-untested");
    assert!(context.target_confirmed);
    assert_eq!(context.frontend_kind, "plugin-frontend");
    assert_eq!(context.install.frontend_map[0].1, "launch.sh");
    assert!(context.install.preserve_core_entries.iter().any(|entry| entry == "themes"));
    assert_eq!(context.scripts, "/tmp/t/scripts");
    assert_eq!(context.game_dirs, "/tmp/t/games");
    assert_eq!(context.images.as_deref(), Some("/tmp/t/images"));
    assert_eq!(context.libs.as_deref(), Some("/tmp/t/core/libs"));
    assert_eq!(context.launcher, "/tmp/t/frontend/launch.sh");
    assert_eq!(context.management, ManagementMode::App);
    assert_eq!(context.capabilities.install_plan, CapabilityState::Current);
}

#[test]
fn unconfirmed_resolution_without_core_root_remains_read_only_usable() {
    let mut input = fixture();
    input.portmaster = None;
    input.device_class = "unknown-path".to_owned();
    assert!(matches!(
        platform_context(&input),
        Err(ResolutionConversionError::MissingPath(p)) if p == "portmaster_core"
    ));
    input.target_confirmed = false;
    let context = platform_context(&input).unwrap();
    assert_eq!(context.device_class, "unknown-path");
    assert!(!context.target_confirmed);
    assert!(context.portmaster.is_none());
    assert!(context.libs.is_none());
}

#[test]
fn resolution_capabilities_fail_closed_in_app_context() {
    let mut input = fixture();
    input.capabilities =
        vec![("install_portmaster".to_owned(), false), ("manage_ports".to_owned(), false)];
    let context = platform_context(&input).unwrap();
    assert_eq!(context.capabilities.install_plan, CapabilityState::Unknown);
    assert_eq!(context.capabilities.inventory, CapabilityState::Unknown);
    assert_eq!(context.capabilities.cache_invalidation, CapabilityState::Unknown);
}

#[test]
fn inventory_only_location_never_replaces_the_install_and_manage_root() {
    let mut input = fixture();
    for l in &mut input.locations {
        if l.kind == "PortScripts" || l.kind == "PortData" {
            l.roles = strings(&["inventory", "install", "manage"]);
        }
    }
    input.locations.push(location("PortScripts", "/tmp/t/inventory-only", &["inventory"], &["port"], 200));
    input.scripts_need = need("PortScripts", &["inventory", "install", "manage"], Some("port"));
    input.data_need = need("PortData", &["inventory", "install", "manage"], Some("port"));
    let context = platform_context(&input).unwrap();
    assert_eq!(context.scripts, "/tmp/t/scripts");
}

#[test]
fn eligible_port_location_priority_ties_are_rejected() {
    let mut input = fixture();
    input.locations.push(location("PortScripts", "/tmp/t/scripts-second", &["inventory"], &["port"], 100));
    input.scripts_need = need("PortScripts", &["inventory"], None);
    match platform_context(&input) {
        Err(error) => assert_eq!(error.message(), "invalid frontend contract: ambiguous PortScripts location at priority 100"),
        Ok(_) => panic!("a tie must be refused"),
    }
    let lower = vec![location("PortImages", "/a", &[], &[], -5), location("PortImages", "/b", &[], &[], -5)];
    assert!(matches!(
        select_location(&lower, &need("PortImages", &[], None)),
        Err(ResolutionConversionError::Frontend(m)) if m == "ambiguous PortImages location at priority -5"
    ));
    assert!(matches!(select_location(&lower, &need("PortData", &[], None)), Ok(None)));
}

#[test]
fn missing_roots_and_frontend_paths_are_reported() {
    let mut input = fixture();
    input.locations.retain(|l| l.kind != "PortData");
    assert!(matches!(
        platform_context(&input),
        Err(ResolutionConversionError::MissingPath(p)) if p == "game data location"
    ));
    let mut input = fixture();
    input.frontend_dir = None;
    assert!(matches!(
        platform_context(&input),
        Err(ResolutionConversionError::MissingPath(p)) if p == "frontend"
    ));
}

#[test]
fn incomplete_frontend_policy_is_rejected_instead_of_guessed() {
    let mut input = fixture();
    input.frontend = Err("missing field `remove_core_launcher`".to_owned());
    assert!(matches!(platform_context(&input), Err(ResolutionConversionError::Frontend(_))));
}

#[test]
fn inconsistent_frontend_contracts_are_rejected() {
    let mut input = fixture();
    let mut f = frontend();
    f.management = "vendor".to_owned();
    input.frontend = Ok(f);
    assert!(matches!(
        platform_context(&input),
        Err(ResolutionConversionError::Frontend(m)) if m == "unsupported management mode \"vendor\""
    ));

    let mut input = fixture();
    let mut f = frontend();
    f.frontend_executable = None;
    input.frontend = Ok(f);
    assert!(matches!(
        platform_context(&input),
        Err(ResolutionConversionError::Frontend(m)) if m == "executable install_map target lacks frontend_executable"
    ));

    let mut input = fixture();
    let mut f = frontend();
    f.frontend_executable = Some("other.sh".to_owned());
    input.frontend = Ok(f);
    assert!(matches!(
        platform_context(&input),
        Err(ResolutionConversionError::Frontend(m)) if m == "frontend_executable is not executable in install_map"
    ));
}

#[test]
fn transforms_resolve_their_library_groups() {
    let mut input = fixture();
    let mut f = frontend();
    f.transforms = vec![TransformInput {
        target: "launch.sh".to_owned(),
        variable: "LIBS".to_owned(),
        library_group: "sdl2".to_owned(),
    }];
    input.frontend = Ok(f);
    assert!(matches!(
        platform_context(&input),
        Err(ResolutionConversionError::Frontend(m)) if m == "frontend transform references missing library group \"sdl2\""
    ));
    input.library_groups = Some(vec![LibraryGroupInput {
        name: "sdl2".to_owned(),
        parsed: Ok(LibraryGroup { candidates: strings(&["/usr/lib"]), required_sonames: strings(&["libSDL2.so"]) }),
    }]);
    let context = platform_context(&input).unwrap();
    assert_eq!(context.transforms.len(), 1);
    assert_eq!(context.transforms[0].variable, "LIBS");
    assert_eq!(context.transforms[0].candidates, strings(&["/usr/lib"]));
    assert_eq!(context.transforms[0].required_sonames, strings(&["libSDL2.so"]));
}

#[test]
fn trimui_apps_root_may_contain_appmanager_private_state() {
    let mut input = fixture();
    input.capabilities.extend([
        ("inventory_apps".to_owned(), true),
        ("manage_apps".to_owned(), true),
        ("install_apps".to_owned(), true),
    ]);
    input.locations.push(location("Apps", "/tmp/t/Apps", &["inventory", "install", "manage"], &["trimui_app"], 100));
    let context = platform_context(&input).unwrap();
    assert_eq!(context.apps[0], "/tmp/t/Apps");
}
