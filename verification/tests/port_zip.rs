use appmanager::port_zip::{
    archive_issue, is_invalid_password_error, is_password_required_error, ArchiveIssue,
    BundleLimits, ZipKind,
};

#[test]
fn archive_issue_keeps_method_details_but_removes_absolute_paths() {
    let issue = archive_issue(
        "/private/device/zip-upload/secret-game.7z",
        "",
        "archive_unsupported_method: 7z:LZMA2 method 21",
    );
    assert_eq!(issue.code, "unsupported_method");
    assert_eq!(issue.format, "7z");
    assert!(issue.report.contains("LZMA2 method 21"));
    assert!(issue.report.contains("secret-game.7z"));
    assert!(!issue.report.contains("/private/device"));
    assert!(!issue.report.contains("zip-upload"));
}

#[test]
fn generic_archive_errors_do_not_copy_raw_error_or_password_text() {
    let issue = archive_issue(
        "/mnt/card/game.zip",
        "zip",
        "cannot read /mnt/card/game.zip with password=hunter2",
    );
    assert_eq!(issue.code, "invalid_archive");
    assert!(!issue.report.contains("/mnt/card"));
    assert!(!issue.report.contains("hunter2"));
    assert!(!issue.report.contains("password="));
}

#[test]
fn unsupported_layout_has_a_stable_feedback_category() {
    let issue = archive_issue(
        "two-games.zip",
        "zip",
        "archive contains 2 installable payloads",
    );
    assert_eq!(issue.code, "unsupported_layout");
    assert!(issue.detail.contains("多个候选"));
}

#[test]
fn report_has_the_documented_layout() {
    let issue = archive_issue("C:\\Downloads\\Game.ZIP", "", "cancelled by user");
    assert_eq!(issue.code, "cancelled");
    assert_eq!(issue.format, "zip");
    assert_eq!(issue.summary, "操作已取消");
    assert_eq!(issue.detail, "现有文件保持不变");
    assert_eq!(
        issue.report,
        "APP Manager 压缩包诊断\n文件: Game.ZIP\n格式: zip\n代码: cancelled\n说明: 操作已取消\n详情: 现有文件保持不变\n支持范围: ZIP / 7z 常用单卷压缩算法"
    );
    assert_eq!(issue.message(), "操作已取消：现有文件保持不变");
}

#[test]
fn every_error_category_has_a_code() {
    let cases = [
        ("archive_password_required", "password_required"),
        ("archive_password_required: locked entry", "password_required"),
        ("archive_invalid_password", "invalid_password"),
        ("只支持 ZIP 或 7z 压缩包", "unsupported_format"),
        ("7z anti-item is not supported: x", "unsupported_feature"),
        ("archive_unsupported_feature: 7z:solid", "unsupported_feature"),
        ("archive_resource_limit: 7z:dictionary 4 GiB", "resource_limit"),
        ("APP installation is disabled by device configuration", "device_unsupported"),
        ("archive contains too many entries", "rejected_archive"),
        ("unsafe path: \"../x\"", "rejected_archive"),
        ("unsupported zip bundle", "unsupported_layout"),
        ("archive changed after it was scanned", "archive_changed"),
        ("upload canceled", "cancelled"),
        ("boom", "invalid_archive"),
    ];
    for (message, code) in cases {
        assert_eq!(archive_issue("a.zip", "zip", message).code, code, "{message}");
    }
}

#[test]
fn marker_details_name_the_method_and_the_format() {
    let issue = archive_issue("x.bin", "", "archive_resource_limit: 7z: dictionary too large ");
    assert_eq!(issue.format, "7z");
    assert_eq!(issue.detail, "dictionary too large");
    let issue = archive_issue("x.zip", "", "archive_unsupported_method: PPMd (method 98)");
    assert_eq!(issue.format, "zip");
    assert_eq!(issue.detail, "PPMd (method 98)");
}

#[test]
fn unsupported_format_is_reported_as_unknown_even_for_a_zip_name() {
    let issue = archive_issue("game.zip", "zip", "只支持 ZIP 或 7z 压缩包");
    assert_eq!(issue.format, "unknown");
    assert_eq!(issue.code, "unsupported_format");
}

#[test]
fn report_values_collapse_control_characters_and_are_bounded() {
    let long = format!("{}", "a".repeat(300));
    let issue = archive_issue("dir/na\tme\n.zip", "", &format!("archive_unsupported_method: zip:{long}"));
    assert!(issue.report.contains("文件: na me .zip"));
    assert_eq!(issue.detail.chars().count(), 240);
    let issue = archive_issue("   ", "", "boom");
    assert!(issue.report.contains("文件: unknown"));
}

#[test]
fn message_omits_a_redundant_detail() {
    let issue = ArchiveIssue {
        code: "x".into(),
        format: "zip".into(),
        summary: "same".into(),
        detail: "same".into(),
        report: String::new(),
    };
    assert_eq!(issue.message(), "same");
    let issue = ArchiveIssue { detail: String::new(), ..issue };
    assert_eq!(issue.message(), "same");
}

#[test]
fn password_errors_are_recognized_bare_or_with_detail() {
    assert!(is_password_required_error("archive_password_required"));
    assert!(is_password_required_error("archive_password_required: entry"));
    assert!(!is_password_required_error("archive_password_requiredX"));
    assert!(is_invalid_password_error("archive_invalid_password"));
    assert!(is_invalid_password_error("archive_invalid_password: wrong"));
    assert!(!is_invalid_password_error("invalid password"));
}

#[test]
fn kinds_have_stable_names_and_limits_have_defaults() {
    assert_eq!(ZipKind::Port.name(), "port");
    assert_eq!(ZipKind::TrimuiApp.name(), "trimui_app");
    assert_eq!(ZipKind::Ambiguous.name(), "ambiguous");
    assert_eq!(ZipKind::Unknown.name(), "unknown");
    let limits = BundleLimits::default();
    assert_eq!(limits.entries, 4096);
    assert_eq!(limits.entry_bytes, 4 * 1024 * 1024 * 1024);
    assert_eq!(limits.total_bytes, 8 * 1024 * 1024 * 1024);
}
