use appmanager::install_space::{
    check_free_space, fallback_filesystem_key, filesystem_demand, DestinationUse, INSTALL_SPACE_RESERVE,
};

fn usage(key: u64, parent: &str, bytes: u64) -> DestinationUse {
    DestinationUse { key, parent: parent.to_owned(), bytes }
}

#[test]
fn missing_space_is_reported_in_whole_mebibytes() {
    assert!(check_free_space(None, u64::MAX, "写入安装目标").is_ok());
    assert!(check_free_space(Some(100), 100, "写入安装目标").is_ok());
    assert_eq!(
        check_free_space(Some(0), 1, "写入安装目标").unwrap_err(),
        "存储空间不足，无法写入安装目标（至少还需要 1 MiB）"
    );
    assert_eq!(
        check_free_space(Some(0), 3 * 1024 * 1024 + 1, "复制").unwrap_err(),
        "存储空间不足，无法复制（至少还需要 4 MiB）"
    );
    assert_eq!(INSTALL_SPACE_RESERVE, 64 * 1024 * 1024);
}

#[test]
fn targets_are_grouped_by_filesystem_in_key_order() {
    let demand = filesystem_demand(&vec![
        usage(9, "/mnt/SDCARD/Roms/PORTS", 10),
        usage(3, "/userdata/ports", 5),
        usage(9, "/mnt/SDCARD/Data/ports", 7),
        usage(3, "/userdata/other", u64::MAX),
    ]);
    assert_eq!(
        demand,
        vec![usage(3, "/userdata/ports", u64::MAX), usage(9, "/mnt/SDCARD/Roms/PORTS", 17)]
    );
    assert!(filesystem_demand(&Vec::new()).is_empty());
}

#[test]
fn the_fallback_filesystem_key_folds_the_path_bytes() {
    assert_eq!(fallback_filesystem_key(""), 0);
    assert_eq!(fallback_filesystem_key("a"), 97);
    assert_eq!(fallback_filesystem_key("ab"), 97 * 131 + 98);
    let long = "/".repeat(64);
    let expected = long.bytes().fold(0_u64, |hash, byte| hash.wrapping_mul(131).wrapping_add(byte as u64));
    assert_eq!(fallback_filesystem_key(&long), expected);
}
