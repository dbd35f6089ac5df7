use appmanager::storage::{
    decode_mount_field, is_system_mount, known_firmware_internal_mount, parse_mount_line,
    removable_candidates, rooted_mount_point, storage_mount, unsupported_block_device,
    user_media_namespace,
};

fn owned(values: &[&str]) -> Vec<String> {
    values.iter().map(|value| value.to_string()).collect()
}

#[test]
fn mount_lines_name_a_block_device_and_its_mount_point() {
    assert_eq!(
        parse_mount_line("/dev/mmcblk1p1 /mnt/sdcard/mmcblk1p1 vfat rw 0 0"),
        Some(("/dev/mmcblk1p1".to_owned(), "/mnt/sdcard/mmcblk1p1".to_owned()))
    );
    assert_eq!(parse_mount_line("proc /proc proc rw 0 0"), None);
    assert_eq!(parse_mount_line("/dev/sda1"), None);
    assert_eq!(parse_mount_line(""), None);
}

#[test]
fn mount_table_octal_escapes_are_decoded() {
    assert_eq!(
        parse_mount_line("/dev/sda1 /media/My\\040Card vfat rw 0 0"),
        Some(("/dev/sda1".to_owned(), "/media/My Card".to_owned()))
    );
    assert_eq!(decode_mount_field("tab\\011end"), Some("tab\tend".to_owned()));
    assert_eq!(decode_mount_field("short\\04"), Some("short\\04".to_owned()));
    assert_eq!(decode_mount_field("not\\089octal"), Some("not\\089octal".to_owned()));
    assert_eq!(decode_mount_field("\\377"), None);
}

#[test]
fn trimui_style_mounts_find_the_card() {
    assert_eq!(storage_mount("/dev/root / ext4 rw 0 0"), None);
    assert_eq!(
        storage_mount("/dev/mmcblk1p1 /mnt/sdcard/mmcblk1p1 vfat rw 0 0"),
        Some(("/dev/mmcblk1p1".to_owned(), "/mnt/sdcard/mmcblk1p1".to_owned()))
    );
    assert!(user_media_namespace("/mnt/sdcard/mmcblk1p1"));
    assert!(!user_media_namespace("/mnt/UDISK"));
}

#[test]
fn miniloong_internal_partition_is_firmware_internal() {
    assert_eq!(storage_mount("/dev/mmcblk0p11 /secord ext4 rw 0 0"), None);
    assert!(known_firmware_internal_mount("/mnt/UDISK"));
    assert!(known_firmware_internal_mount("/secord"));
    assert!(!known_firmware_internal_mount("/mnt/sdcard"));
}

#[test]
fn internal_and_virtual_mounts_are_not_reported_as_cards() {
    assert_eq!(storage_mount("/dev/loop0 /opt/image squashfs ro 0 0"), None);
    assert_eq!(storage_mount("/dev/zram0 /data ext4 rw 0 0"), None);
    assert!(unsupported_block_device("/dev/mtdblock3"));
    assert!(unsupported_block_device("/dev/ram0"));
    assert!(!unsupported_block_device("/dev/sda1"));
    assert!(!user_media_namespace("/userdata"));
    assert!(!user_media_namespace("/home"));
    assert!(!user_media_namespace("/mnt/vendor"));
}

#[test]
fn system_roots_are_never_storage() {
    for path in ["/", "/boot", "/boot/efi", "/usr/share", "/var/lib", "/run", "/run/user/1000"] {
        assert!(is_system_mount(path), "{path}");
    }
    for path in ["/roms", "/run/media/player/SDCARD", "/mnt/sdcard", "/varnish"] {
        assert!(!is_system_mount(path), "{path}");
    }
}

#[test]
fn standard_run_media_and_primary_mmc_media_namespaces_are_discovered() {
    for path in [
        "/run/media/player/SDCARD",
        "/storage",
        "/mnt/mmc",
        "/roms2",
        "/roms",
        "/ROMS/games",
        "/media/usb-sd",
    ] {
        assert!(user_media_namespace(path), "{path}");
    }
    assert!(!user_media_namespace("/roms3"));
    assert!(!user_media_namespace("/mnt/mmcard"));
}

#[test]
fn removable_identity_is_looked_up_for_the_partition_and_its_disk() {
    assert_eq!(removable_candidates("/dev/mmcblk0p3"), owned(&["mmcblk0p3", "mmcblk0"]));
    assert_eq!(removable_candidates("/dev/sda1"), owned(&["sda1", "sda"]));
    assert_eq!(removable_candidates("/dev/nvme0n1p5"), owned(&["nvme0n1p5", "nvme0n1"]));
    assert_eq!(removable_candidates("/dev/mapper/cryptsd"), owned(&["cryptsd"]));
}

#[test]
fn probe_roots_contain_the_mount_point() {
    assert_eq!(rooted_mount_point(None, "/mnt/sdcard"), "/mnt/sdcard");
    assert_eq!(rooted_mount_point(Some("/tmp/probe"), "/mnt/sdcard"), "/tmp/probe/mnt/sdcard");
}

use appmanager::storage_roots::{removable_flag, storage_roots, MountCandidate};

/// Discovers the roots of a mount table as the service does, with the
/// removable disks and `/mnt` aliases given.
fn roots_of(mounts: &str, probe: &str, removable: &[&str], aliases: &[(&str, &str)]) -> Vec<String> {
    let mut candidates = Vec::new();
    for line in mounts.lines() {
        let Some((device, mount_point)) = storage_mount(line) else {
            continue;
        };
        let removable = removable_candidates(&device).iter().any(|name| removable.contains(&name.as_str()));
        let aliases = aliases
            .iter()
            .filter(|(_, target)| *target == mount_point)
            .map(|(alias, _)| format!("{probe}/mnt/{alias}"))
            .collect();
        candidates.push(MountCandidate { device, mount_point, removable, aliases });
    }
    storage_roots(&candidates, Some(probe))
}

#[test]
fn trimui_style_mounts_find_the_card_and_alias() {
    let roots = roots_of(
        "/dev/root / ext4 rw 0 0\n/dev/mmcblk0p6 /mnt/UDISK ext4 rw 0 0\n/dev/mmcblk1p1 /mnt/sdcard/mmcblk1p1 vfat rw 0 0\n",
        "/probe",
        &[],
        &[("SDCARD", "/mnt/sdcard/mmcblk1p1")],
    );
    assert_eq!(roots, owned(&["/probe/mnt/SDCARD", "/probe/mnt/sdcard/mmcblk1p1"]));
}

#[test]
fn second_card_is_found_too() {
    let roots = roots_of(
        "/dev/mmcblk1p1 /mnt/sdcard vfat rw 0 0\n/dev/mmcblk2p1 /mnt/sdcard2 vfat rw 0 0\n",
        "/probe",
        &[],
        &[],
    );
    assert_eq!(roots, owned(&["/probe/mnt/sdcard", "/probe/mnt/sdcard2"]));
}

#[test]
fn usb_nvme_and_mapper_backed_cards_are_not_name_whitelisted() {
    let roots = roots_of(
        "/dev/sda1 /media/usb-sd vfat rw 0 0\n/dev/nvme0n1p5 /media/nvme ext4 rw 0 0\n/dev/mapper/cryptsd /media/crypt ext4 rw 0 0\n",
        "/probe",
        &[],
        &[],
    );
    assert_eq!(roots, owned(&["/probe/media/crypt", "/probe/media/nvme", "/probe/media/usb-sd"]));
}

#[test]
fn sd_boot_card_on_mmcblk0_is_not_discarded() {
    let roots = roots_of(
        "/dev/mmcblk0p1 /boot vfat rw 0 0\n/dev/mmcblk0p2 / ext4 rw 0 0\n/dev/mmcblk0p3 /roms ext4 rw 0 0\n",
        "/probe",
        &["mmcblk0"],
        &[],
    );
    assert_eq!(roots, owned(&["/probe/roms"]));
}

#[test]
fn removable_disks_outside_media_namespaces_count_and_mount_points_count_once() {
    let roots = roots_of(
        "/dev/sdb1 /data/usb vfat rw 0 0\n/dev/sdb1 /data/usb vfat rw 0 0\n/dev/sdc1 /data/other vfat rw 0 0\n",
        "/probe",
        &["sdb"],
        &[],
    );
    assert_eq!(roots, owned(&["/probe/data/usb"]));
    assert!(removable_flag("1\n"));
    assert!(!removable_flag("0\n"));
    assert!(!removable_flag(""));
}

#[test]
fn roots_are_in_path_order_without_repeats() {
    let candidate = |mount_point: &str, aliases: &[&str]| MountCandidate {
        device: "/dev/sda1".to_owned(),
        mount_point: mount_point.to_owned(),
        removable: true,
        aliases: owned(aliases),
    };
    let roots = storage_roots(
        &vec![
            candidate("/mnt/b", &["/mnt/a", "/mnt/b/"]),
            candidate("/mnt/a-b", &[]),
            candidate("/mnt/a/b", &[]),
        ],
        None,
    );
    assert_eq!(roots, owned(&["/mnt/a", "/mnt/a/b", "/mnt/a-b", "/mnt/b"]));
}
