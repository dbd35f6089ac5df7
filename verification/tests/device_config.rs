use appmanager::device_config::{
    configured_runtime_arch, health_verdict, library_group_readiness, referenced_library_groups, FrontendTransform,
    HealthReading, HealthStatus, RuntimeArchitecture,
};

fn arch(id: Option<&str>, names: &[&str]) -> RuntimeArchitecture {
    RuntimeArchitecture { id: id.map(str::to_owned), system_names: names.iter().map(|s| (*s).to_owned()).collect() }
}

#[test]
fn runtime_architecture_follows_the_configured_aliases() {
    let map = vec![arch(Some("aarch64"), &["aarch64", "arm64"]), arch(Some("armhf"), &["armv7l", "armhf"])];
    assert_eq!(configured_runtime_arch(Some(&map), "ARM64"), Ok("aarch64".to_owned()));
    assert_eq!(configured_runtime_arch(Some(&map), "armv7l"), Ok("armhf".to_owned()));
    assert_eq!(
        configured_runtime_arch(Some(&map), "RISCV64"),
        Err("device architecture \"riscv64\" has no configured Runtime mapping".to_owned())
    );
}

#[test]
fn runtime_architecture_needs_a_map_and_an_id() {
    assert_eq!(
        configured_runtime_arch(None, "aarch64"),
        Err("device configuration has no Runtime architecture map".to_owned())
    );
    let map = vec![arch(None, &["x86_64"]), arch(Some("x86_64"), &["x86_64"])];
    assert_eq!(
        configured_runtime_arch(Some(&map), "x86_64"),
        Err("device architecture \"x86_64\" has no configured Runtime mapping".to_owned())
    );
}

fn reading(status: HealthStatus, mode: &str, imports_ready: bool, runtime_image_ok: bool) -> HealthReading {
    HealthReading { status, python_mode: mode.to_owned(), imports_ready, runtime_image_ok }
}

#[test]
fn a_missing_root_is_missing_whatever_the_report_says() {
    let verdict = health_verdict(false, None);
    assert_eq!(verdict.status, "missing");
    assert!(!verdict.python_ok && !verdict.system_python_ok);
    let report = reading(HealthStatus::Healthy, "", true, true);
    assert_eq!(health_verdict(false, Some(&report)).status, "missing");
}

#[test]
fn health_status_and_python_modes() {
    let healthy = reading(HealthStatus::Healthy, "", false, false);
    let verdict = health_verdict(true, Some(&healthy));
    assert_eq!((verdict.status, verdict.python_ok, verdict.system_python_ok), ("healthy", true, true));
    let damaged = reading(HealthStatus::Damaged, "system", false, true);
    let verdict = health_verdict(true, Some(&damaged));
    assert_eq!((verdict.status, verdict.python_ok, verdict.system_python_ok), ("damaged", false, false));
    let mount = reading(HealthStatus::Unresolved, "runtime_mount", false, true);
    let verdict = health_verdict(true, Some(&mount));
    assert_eq!((verdict.status, verdict.python_ok, verdict.system_python_ok), ("missing", true, false));
    let odd = reading(HealthStatus::Healthy, "bundled", false, false);
    let verdict = health_verdict(true, Some(&odd));
    assert_eq!((verdict.python_ok, verdict.system_python_ok), (false, true));
}

#[test]
fn only_exported_library_groups_are_referenced() {
    let t = |kind: Option<&str>, group: Option<&str>| FrontendTransform {
        kind: kind.map(str::to_owned),
        library_group: group.map(str::to_owned),
    };
    let transforms = vec![
        t(Some("export_library_group"), Some("sdl2")),
        t(Some("copy_file"), Some("gl")),
        t(Some("export_library_group"), None),
        t(Some("export_library_group"), Some("gles")),
        t(None, Some("x")),
        t(Some("export_library_group"), Some("sdl2")),
    ];
    assert_eq!(referenced_library_groups(&transforms).to_strings(), vec!["gles".to_owned(), "sdl2".to_owned()]);
}

#[test]
fn library_group_selects_the_first_complete_candidate() {
    let candidates = vec!["/usr/lib32".to_owned(), "/usr/lib".to_owned(), "/opt/lib".to_owned()];
    let sonames = vec!["libSDL2.so".to_owned(), "libGLES.so".to_owned(), "libEGL.so".to_owned()];
    let present = vec![vec![true, false, false], vec![true, true, false], vec![true, true, true]];
    assert_eq!(
        library_group_readiness(&candidates, &sonames, &present),
        (Some("/opt/lib".to_owned()), Vec::new())
    );
    let partial = vec![vec![true, false, false], vec![true, true, false], vec![false, false, false]];
    assert_eq!(
        library_group_readiness(&candidates, &sonames, &partial),
        (None, vec!["libEGL.so".to_owned()])
    );
}

#[test]
fn runtime_architecture_mapping_is_read_from_config() {
    let system_arch = "x86_64";
    let map = vec![arch(Some("future_arch"), &[system_arch])];
    assert_eq!(configured_runtime_arch(Some(&map), system_arch).unwrap(), "future_arch");
}

use appmanager::device_config::{release_source, runtime_metadata_url, ReleaseRoute};

fn endpoints() -> Vec<(String, Option<String>)> {
    vec![
        ("stable".to_owned(), Some("https://github.com/PortsMaster/PortMaster-GUI/releases/latest/download/version.json".to_owned())),
        ("mirror".to_owned(), Some("https://example.org/version.json".to_owned())),
        ("ports".to_owned(), Some("https://github.com/PortsMaster/PortMaster-New/releases/latest/download/ports.json".to_owned())),
        ("number".to_owned(), None),
    ]
}

fn route(manifest: Option<&str>, archive: Option<&str>, allowed: Option<bool>) -> ReleaseRoute {
    ReleaseRoute {
        manifest: manifest.map(str::to_owned),
        archive_name: archive.map(str::to_owned),
        install_allowed: allowed,
    }
}

#[test]
fn release_source_comes_from_the_configured_route() {
    let ep = endpoints();
    let source = release_source("stable", Some(&ep), Some(&route(Some("stable"), Some("PortMaster.zip"), None))).unwrap();
    assert_eq!(source.manifest_url, "https://github.com/PortsMaster/PortMaster-GUI/releases/latest/download/version.json");
    assert_eq!(source.archive_name, "PortMaster.zip");
    assert!(source.install_allowed);
    let pinned = release_source("stable", Some(&ep), Some(&route(Some("stable"), Some("PortMaster.zip"), Some(false)))).unwrap();
    assert!(!pinned.install_allowed);
}

#[test]
fn release_source_refuses_incomplete_or_foreign_routes() {
    let ep = endpoints();
    assert_eq!(
        release_source("stable", None, Some(&route(Some("stable"), Some("PortMaster.zip"), None))),
        Err("device configuration has no source endpoints".to_owned())
    );
    assert_eq!(
        release_source("beta", Some(&ep), None),
        Err("device configuration has no source route \"beta\"".to_owned())
    );
    assert_eq!(
        release_source("mirror", Some(&ep), Some(&route(Some("mirror"), Some("PortMaster.zip"), None))),
        Err("source route \"mirror\" has no valid manifest endpoint".to_owned())
    );
    assert_eq!(
        release_source("stable", Some(&ep), Some(&route(Some("number"), Some("PortMaster.zip"), None))),
        Err("source route \"stable\" has no valid manifest endpoint".to_owned())
    );
    assert_eq!(
        release_source("stable", Some(&ep), Some(&route(Some("stable"), Some("../PortMaster.zip"), None))),
        Err("source route \"stable\" has no safe archive name".to_owned())
    );
}

#[test]
fn runtime_metadata_must_come_from_github() {
    let ep = endpoints();
    assert_eq!(
        runtime_metadata_url(Some("ports"), Some(&ep)),
        Ok("https://github.com/PortsMaster/PortMaster-New/releases/latest/download/ports.json".to_owned())
    );
    let refusal = Err("device configuration has no valid Runtime metadata source".to_owned());
    assert_eq!(runtime_metadata_url(Some("mirror"), Some(&ep)), refusal);
    assert_eq!(runtime_metadata_url(None, Some(&ep)), refusal);
    assert_eq!(runtime_metadata_url(Some("ports"), None), refusal);
}
