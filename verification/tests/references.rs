use appmanager::recognition::launcher_references_in;
use appmanager::shell_paths::{runtime_names_at, PathAnalysis};

fn analysis(paths: &[&str], working: &[&str]) -> PathAnalysis {
    let v = |xs: &[&str]| xs.iter().map(|x| x.to_string()).collect::<Vec<_>>();
    PathAnalysis {
        paths: v(paths),
        declared_paths: Vec::new(),
        working_directories: v(working),
        library_paths: Vec::new(),
        preload_libraries: Vec::new(),
        input_configs: Vec::new(),
        output_paths: Vec::new(),
        sources: Vec::new(),
        runtime_names: Vec::new(),
        diagnostics: Vec::new(),
        notes: Vec::new(),
    }
}

#[test]
fn references_are_first_components_below_the_package_roots() {
    let a = analysis(&["/roms/ports/Game/data.bin", "/unrelated/ports/Other/x"], &["/ports/Save"]);
    let r = launcher_references_in(&a, &[]);
    assert_eq!(r.to_strings(), vec!["Game".to_string(), "Save".to_string()]);
}

#[test]
fn references_below_the_launcher_folder_count() {
    let dir: Vec<char> = "wrapper".chars().collect();
    let a = analysis(&["/__archive__/wrapper/Game/run"], &[]);
    let r = launcher_references_in(&a, &dir);
    assert_eq!(r.to_strings(), vec!["Game".to_string()]);
}

#[test]
fn runtime_images_are_direct_squashfs_children_of_the_libs_directory() {
    let locations = vec![
        Some("/libs/mono-6.12.squashfs".to_string()),
        Some("/libs/deep/other.squashfs".to_string()),
        Some("/elsewhere/x.squashfs".to_string()),
        None,
        Some("/libs/mono-6.12.squashfs".to_string()),
    ];
    assert_eq!(runtime_names_at("/libs", &locations), vec!["mono-6.12".to_string()]);
}
