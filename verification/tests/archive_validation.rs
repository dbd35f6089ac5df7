use appmanager::archive_validation::validate_catalog;
use appmanager::port_zip::BundleLimits;
use appmanager::recognition::{ArchiveCatalog, ArchiveEntry, ArchiveFormat};

fn entry(name: &str, directory: bool, size: u64) -> ArchiveEntry {
    ArchiveEntry { name: name.to_owned(), directory, size, anti_item: false }
}

fn catalog(entries: Vec<ArchiveEntry>) -> ArchiveCatalog {
    ArchiveCatalog { format: ArchiveFormat::Zip, encrypted: false, entries }
}

fn check(entries: Vec<ArchiveEntry>) -> Result<u64, String> {
    validate_catalog(&catalog(entries), &BundleLimits::default(), false, &|| false)
}

#[test]
fn archive_validation_rejects_duplicate_normalized_paths() {
    let error = check(vec![
        entry("game.sh", false, 20),
        entry("game/data.bin", false, 5),
        entry("./game/data.bin", false, 6),
    ])
    .unwrap_err();
    assert!(error.contains("duplicate entry"), "{error}");
    assert_eq!(error, "duplicate entry: game/data.bin");
}

#[test]
fn a_valid_catalog_reports_its_total_size() {
    assert_eq!(
        check(vec![entry("game.sh", false, 20), entry("game/", true, 0), entry("game/data.bin", false, 5)]),
        Ok(25)
    );
}

#[test]
fn unsafe_and_reserved_paths_are_refused() {
    assert_eq!(check(vec![entry("../escape.sh", false, 1)]).unwrap_err(), "unsafe path: \"../escape.sh\"");
    assert_eq!(check(vec![entry("/abs.sh", false, 1)]).unwrap_err(), "unsafe path: \"/abs.sh\"");
    assert_eq!(
        check(vec![entry("game/.pam-install-x/file", false, 1)]).unwrap_err(),
        "reserved transaction path: \"game/.pam-install-x/file\""
    );
    assert_eq!(check(vec![entry("./././ok.sh", false, 1)]), Ok(1));
}

#[test]
fn limits_on_entries_and_sizes_are_enforced() {
    let limits = BundleLimits { entries: 2, entry_bytes: 10, total_bytes: 15 };
    let three = catalog(vec![entry("a", false, 1), entry("b", false, 1), entry("c", false, 1)]);
    assert_eq!(
        validate_catalog(&three, &limits, false, &|| false).unwrap_err(),
        "archive contains too many entries"
    );
    let large = catalog(vec![entry("a", false, 11)]);
    assert_eq!(validate_catalog(&large, &limits, false, &|| false).unwrap_err(), "entry exceeds limit: a");
    let directory = catalog(vec![entry("a/", true, 16)]);
    assert_eq!(
        validate_catalog(&directory, &limits, false, &|| false).unwrap_err(),
        "archive expansion exceeds total limit"
    );
    let total = catalog(vec![entry("a", false, 8), entry("b", false, 8)]);
    assert_eq!(
        validate_catalog(&total, &limits, false, &|| false).unwrap_err(),
        "archive expansion exceeds total limit"
    );
}

#[test]
fn encrypted_catalogs_need_a_password_and_anti_items_are_refused() {
    let mut locked = catalog(vec![entry("game.sh", false, 1)]);
    locked.encrypted = true;
    let limits = BundleLimits::default();
    assert_eq!(
        validate_catalog(&locked, &limits, false, &|| false).unwrap_err(),
        "archive_password_required"
    );
    assert_eq!(validate_catalog(&locked, &limits, true, &|| false), Ok(1));
    let mut anti = entry("gone.txt", false, 0);
    anti.anti_item = true;
    assert_eq!(check(vec![anti]).unwrap_err(), "7z anti-item is not supported: gone.txt");
}

#[test]
fn a_file_cannot_also_hold_entries() {
    assert_eq!(
        check(vec![entry("b", false, 1), entry("b/x", false, 1), entry("a", false, 1), entry("a/y", false, 1)])
            .unwrap_err(),
        "archive file entry conflicts with child entries: a"
    );
    assert_eq!(check(vec![entry("a", true, 0), entry("a/y", false, 1)]), Ok(1));
}

#[test]
fn cancellation_stops_validation() {
    let result = validate_catalog(
        &catalog(vec![entry("game.sh", false, 1)]),
        &BundleLimits::default(),
        false,
        &|| true,
    );
    assert_eq!(result.unwrap_err(), "zip installation cancelled");
}
