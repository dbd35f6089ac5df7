//! Archive bundles: the result of recognizing one ZIP or 7z archive, and the
//! stable, path- and password-free report that explains why an archive could
//! not be used.
use vstd::prelude::*;

use crate::text::{
    after_last, after_last_of, chars_of, contains_lit, contains_seq, eq_lit, index_first,
    index_of_first, is_control, is_prefix, is_whitespace, push_all, push_lit, replace_char,
    replace_chars, slice, spec_is_control, spec_is_whitespace, spec_lower, starts_with_lit,
    string_of, to_ascii_lowercase, trim, trimmed,
};

verus! {

/// A structured, sanitized account of an archive failure.
#[derive(Debug, Clone, PartialEq, Eq)]
pub struct ArchiveIssue {
    /// Stable machine-readable category. This is not a schema version.
    pub code: String,
    /// Detected or inferred archive format: "zip", "7z", or "unknown".
    pub format: String,
    pub summary: String,
    /// Sanitized detail suitable for display and bug reports.
    pub detail: String,
    /// Copyable report containing no password or device-absolute path.
    pub report: String,
}

/// The one-line message of an issue: the summary, followed by the detail when
/// it adds something.
pub open spec fn issue_message(summary: Seq<char>, detail: Seq<char>) -> Seq<char> {
    if detail.len() == 0 || detail == summary {
        summary
    } else {
        summary + "："@ + detail
    }
}

impl ArchiveIssue {
    pub fn message(&self) -> (r: String)
        ensures
            r@ == issue_message(self.summary@, self.detail@),
    {
        let summary = chars_of(self.summary.as_str());
        let detail = chars_of(self.detail.as_str());
        if detail.len() == 0 || crate::text::text_eq(detail.as_slice(), summary.as_slice()) {
            self.summary.clone()
        } else {
            let mut out = summary;
            push_lit(&mut out, "：");
            push_all(&mut out, detail.as_slice());
            string_of(out.as_slice())
        }
    }
}

/// A recognized bundle found on a storage card root.
#[derive(Debug, Clone, PartialEq, Eq)]
pub struct ZipCandidate {
    pub path: String,
    pub size: u64,
    /// Opaque filesystem identity captured during recognition. Installation
    /// must open the same object; a same-path replacement requires a rescan.
    pub source_identity: String,
    /// Physical archive format detected from the file signature: "zip" or "7z".
    pub format: String,
    /// True when extraction requires a password.
    pub password_required: bool,
    /// "port" (standard .sh + data folder), "trimui_app" (folder with
    /// launch.sh + config.json), "ambiguous" or "unknown".
    pub kind: String,
    /// The launcher script entry inside the archive.
    pub entry_script: String,
    /// The data folder entry inside the archive, if any (for ports).
    pub entry_data: String,
    /// Top-level folder holding the app for TrimUI apps.
    pub app_name: String,
    /// Empty for a recognized bundle; otherwise explains why it cannot be installed.
    pub diagnostic: String,
    /// Structured, sanitized information for displaying or copying a failure report.
    pub issue: Option<ArchiveIssue>,
}

/// What kind of payload an archive holds.
#[derive(Debug, Clone, Copy, PartialEq, Eq, Structural)]
pub enum ZipKind {
    Port,
    TrimuiApp,
    Ambiguous,
    Unknown,
}

pub open spec fn kind_name(kind: ZipKind) -> Seq<char> {
    match kind {
        ZipKind::Port => "port"@,
        ZipKind::TrimuiApp => "trimui_app"@,
        ZipKind::Ambiguous => "ambiguous"@,
        ZipKind::Unknown => "unknown"@,
    }
}

impl ZipKind {
    /// The stable name of the kind.
    pub fn name(self) -> (r: &'static str)
        ensures
            r@ == kind_name(self),
    {
        match self {
            ZipKind::Port => "port",
            ZipKind::TrimuiApp => "trimui_app",
            ZipKind::Ambiguous => "ambiguous",
            ZipKind::Unknown => "unknown",
        }
    }
}

/// Safety limits for bundle extraction (path-traversal and archive-bomb protection).
pub struct BundleLimits {
    pub entries: usize,
    pub entry_bytes: u64,
    pub total_bytes: u64,
}

impl Default for BundleLimits {
    fn default() -> (r: Self)
        ensures
            r.entries == 4096,
            r.entry_bytes == 4 * 1024 * 1024 * 1024,
            r.total_bytes == 8 * 1024 * 1024 * 1024,
    {
        BundleLimits {
            entries: 4096,
            // Remote installs commonly contain one large game data file. Keep
            // hard archive-bomb limits, but allow bundles of one or two GiB.
            entry_bytes: 4 * 1024 * 1024 * 1024,
            total_bytes: 8 * 1024 * 1024 * 1024,
        }
    }
}

/// Result of installing one recognized bundle.
#[derive(Debug, Clone, PartialEq, Eq)]
pub struct BundleInstallOutcome {
    pub installed: Vec<String>,
    pub conflicts: Vec<String>,
}

// ---------------------------------------------------------------------------
// Error classification.

/// `message` is the password-required error, bare or with a detail after `:`.
pub open spec fn password_required_error(message: Seq<char>) -> bool {
    message == "archive_password_required"@ || is_prefix("archive_password_required:"@, message)
}

/// `message` is the invalid-password error, bare or with a detail after `:`.
pub open spec fn invalid_password_error(message: Seq<char>) -> bool {
    message == "archive_invalid_password"@ || is_prefix("archive_invalid_password:"@, message)
}

pub fn is_password_required_error(message: &str) -> (r: bool)
    ensures
        r == password_required_error(message@),
{
    let m = chars_of(message);
    eq_lit(m.as_slice(), "archive_password_required") || starts_with_lit(
        m.as_slice(),
        "archive_password_required:",
    )
}

pub fn is_invalid_password_error(message: &str) -> (r: bool)
    ensures
        r == invalid_password_error(message@),
{
    let m = chars_of(message);
    eq_lit(m.as_slice(), "archive_invalid_password") || starts_with_lit(
        m.as_slice(),
        "archive_invalid_password:",
    )
}

/// The detail of a marked error: the text after the marker and an optional
/// `": "`, trimmed.
pub open spec fn marker_detail(message: Seq<char>, marker: Seq<char>) -> Option<Seq<char>> {
    if is_prefix(marker, message) {
        let rest = message.subrange(marker.len() as int, message.len() as int);
        if is_prefix(": "@, rest) {
            Some(trimmed(rest.subrange(": "@.len() as int, rest.len() as int)))
        } else {
            Some(trimmed(rest))
        }
    } else {
        None
    }
}

/// The value of a `format:detail` marker detail: what follows the first `:`,
/// trimmed, or the whole detail when it has no `:`.
pub open spec fn marked_value(value: Seq<char>) -> Seq<char> {
    if value.contains(':') {
        trimmed(value.subrange(index_first(value, ':') + 1, value.len() as int))
    } else {
        trimmed(value)
    }
}

/// The format named before the first `:` of a marker detail.
pub open spec fn marked_format(value: Seq<char>) -> Option<Seq<char>> {
    if value.contains(':') {
        Some(value.subrange(0, index_first(value, ':')))
    } else {
        None
    }
}

/// `"zip"` or `"7z"` when `value` names one of them (case-insensitively,
/// surrounding white space ignored), otherwise `"unknown"`.
pub open spec fn format_name(value: Seq<char>) -> Seq<char> {
    let lower = value.map_values(|c: char| spec_lower(c));
    if lower == "zip"@ {
        "zip"@
    } else if lower == "7z"@ {
        "7z"@
    } else {
        "unknown"@
    }
}

pub open spec fn normalized_report_format(value: Seq<char>) -> Seq<char> {
    format_name(trimmed(value))
}

/// The format suggested by a file name's extension.
pub open spec fn inferred_report_format(display: Seq<char>) -> Seq<char> {
    format_name(after_last(replace_char(display, '\\', '/'), '.'))
}

/// One step of report-value cleaning: the output so far and whether a space
/// is pending, after reading all of `value`.
pub open spec fn clean_state(value: Seq<char>, max: nat) -> (Seq<char>, bool)
    decreases value.len(),
{
    if value.len() == 0 {
        (Seq::empty(), false)
    } else {
        let (out, pending) = clean_state(value.drop_last(), max);
        let c = value.last();
        if out.len() >= max {
            (out, pending)
        } else if spec_is_control(c) || spec_is_whitespace(c) {
            (out, out.len() > 0)
        } else if pending {
            (out.push(' ').push(c), false)
        } else {
            (out.push(c), false)
        }
    }
}

/// `value` with runs of control and white-space characters collapsed to one
/// space, cut after `max` characters, trimmed.
pub open spec fn clean_report(value: Seq<char>, max: nat) -> Seq<char> {
    trimmed(clean_state(value, max).0)
}

/// The last component of a display name, cleaned; `"unknown"` when empty.
pub open spec fn report_file_name(display: Seq<char>) -> Seq<char> {
    let f = clean_report(trimmed(after_last(replace_char(display, '\\', '/'), '/')), 120);
    if f.len() == 0 {
        "unknown"@
    } else {
        f
    }
}

pub open spec fn rejected_archive_error(m: Seq<char>) -> bool {
    ||| contains_seq(m, "too many entries"@)
    ||| contains_seq(m, "exceeds limit"@)
    ||| contains_seq(m, "expansion exceeds"@)
    ||| contains_seq(m, "duplicate entry"@)
    ||| contains_seq(m, "entry conflicts"@)
    ||| contains_seq(m, "unsafe path"@)
    ||| contains_seq(m, "reserved transaction path"@)
}

pub open spec fn rejected_archive_detail_text(m: Seq<char>) -> Seq<char> {
    if contains_seq(m, "too many entries"@) {
        "压缩包条目数量超过安全上限"@
    } else if contains_seq(m, "exceeds limit"@) || contains_seq(m, "expansion exceeds"@) {
        "单个文件或解压后的总大小超过安全上限"@
    } else if contains_seq(m, "duplicate entry"@) || contains_seq(m, "entry conflicts"@) {
        "压缩包内存在重复或冲突路径"@
    } else {
        "压缩包内存在不安全路径"@
    }
}

pub open spec fn unsupported_layout_error(m: Seq<char>) -> bool {
    ||| m == "unsupported zip bundle"@
    ||| contains_seq(m, "installable payload"@)
    ||| contains_seq(m, "supported APP or Port payload"@)
    ||| contains_seq(m, "launcher or manifest candidates"@)
    ||| contains_seq(m, "launcher references more than one"@)
    ||| contains_seq(m, "launcher is missing from the archive"@)
    ||| contains_seq(m, "data folder is missing from the archive"@)
}

pub open spec fn layout_detail_text(m: Seq<char>) -> Seq<char> {
    if contains_seq(m, "more than one"@) || contains_seq(m, "installable payloads"@) {
        "压缩包中存在多个候选安装内容，无法安全决定安装哪一个"@
    } else {
        "需要一个可识别的 launch.sh APP，或一个 SH 启动脚本及其脚本中引用的数据目录"@
    }
}

pub open spec fn method_marker(m: Seq<char>) -> Option<Seq<char>> {
    marker_detail(m, "archive_unsupported_method"@)
}

pub open spec fn feature_marker(m: Seq<char>) -> Option<Seq<char>> {
    marker_detail(m, "archive_unsupported_feature"@)
}

pub open spec fn limit_marker(m: Seq<char>) -> Option<Seq<char>> {
    marker_detail(m, "archive_resource_limit"@)
}

/// The code, summary and raw detail that a message is reported with.
pub open spec fn issue_fields(m: Seq<char>) -> (Seq<char>, Seq<char>, Seq<char>) {
    if method_marker(m) is Some {
        ("unsupported_method"@, "压缩包使用了当前版本不支持的压缩算法"@, marked_value(method_marker(m)->0))
    } else if feature_marker(m) is Some {
        ("unsupported_feature"@, "压缩包使用了当前版本不支持的格式功能"@, marked_value(feature_marker(m)->0))
    } else if limit_marker(m) is Some {
        ("resource_limit"@, "解压这个压缩包需要超出当前限制的内存"@, marked_value(limit_marker(m)->0))
    } else if password_required_error(m) {
        ("password_required"@, "压缩包已加密"@, "需要输入密码后继续识别"@)
    } else if invalid_password_error(m) {
        ("invalid_password"@, "压缩包密码不正确"@, "请重新输入密码"@)
    } else if m == "只支持 ZIP 或 7z 压缩包"@ {
        ("unsupported_format"@, "当前只支持 ZIP 或 7z 压缩包"@, "文件内容不是受支持的 ZIP 或 7z 格式"@)
    } else if is_prefix("7z anti-item is not supported"@, m) {
        ("unsupported_feature"@, "压缩包使用了当前版本不支持的 7z 功能"@, "7z anti-item"@)
    } else if contains_seq(m, "installation is disabled by device configuration"@) {
        ("device_unsupported"@, "当前设备配置不支持此类安装包"@, "请复制诊断信息反馈设备型号与安装包类型"@)
    } else if rejected_archive_error(m) {
        ("rejected_archive"@, "压缩包未通过安全或资源限制检查"@, rejected_archive_detail_text(m))
    } else if unsupported_layout_error(m) {
        ("unsupported_layout"@, "没有识别到可安装的 APP 或 Port"@, layout_detail_text(m))
    } else if contains_seq(m, "changed after"@) || contains_seq(m, "changed while"@) {
        ("archive_changed"@, "扫描后压缩包发生了变化"@, "请重新扫描或重新上传后再试"@)
    } else if contains_seq(m, "cancelled"@) || contains_seq(m, "canceled"@) {
        ("cancelled"@, "操作已取消"@, "现有文件保持不变"@)
    } else {
        ("invalid_archive"@, "压缩包损坏或无法读取"@, "请重新下载或重新压缩后再试"@)
    }
}

/// The reported format: taken from a marker or the hint, else inferred from
/// the file name, and "unknown" for the unsupported-format message.
pub open spec fn issue_format(display: Seq<char>, hint: Seq<char>, m: Seq<char>) -> Seq<char> {
    let marked = if method_marker(m) is Some {
        method_marker(m)
    } else if feature_marker(m) is Some {
        feature_marker(m)
    } else {
        limit_marker(m)
    };
    let source = match marked {
        Some(v) => match marked_format(v) {
            Some(f) => f,
            None => hint,
        },
        None => hint,
    };
    let f0 = normalized_report_format(source);
    let f1 = if f0 == "unknown"@ && m != "只支持 ZIP 或 7z 压缩包"@ {
        inferred_report_format(display)
    } else {
        f0
    };
    let plain = marked is None && !password_required_error(m) && !invalid_password_error(m);
    if plain && m == "只支持 ZIP 或 7z 压缩包"@ {
        "unknown"@
    } else {
        f1
    }
}

/// The copyable report text.
pub open spec fn report_text(
    file: Seq<char>,
    format: Seq<char>,
    code: Seq<char>,
    summary: Seq<char>,
    detail: Seq<char>,
) -> Seq<char> {
    "APP Manager 压缩包诊断\n文件: "@ + file + "\n格式: "@ + format + "\n代码: "@ + code
        + "\n说明: "@ + summary + "\n详情: "@ + detail + "\n支持范围: ZIP / 7z 常用单卷压缩算法"@
}

/// `issue` is the report of `message` about the archive shown as `display`,
/// with `hint` as the format the caller detected.
pub open spec fn issue_for(issue: ArchiveIssue, display: Seq<char>, hint: Seq<char>, message: Seq<char>) -> bool {
    &&& issue.code@ == issue_fields(message).0
    &&& issue.summary@ == issue_fields(message).1
    &&& issue.detail@ == clean_report(issue_fields(message).2, 240)
    &&& issue.format@ == issue_format(display, hint, message)
    &&& issue.report@ == report_text(
        report_file_name(display),
        issue.format@,
        issue.code@,
        issue.summary@,
        issue.detail@,
    )
}

fn marker_detail_of(message: &[char], marker: &str) -> (r: Option<Vec<char>>)
    ensures
        r matches Some(v) ==> marker_detail(message@, marker@) == Some(v@),
        r is None ==> marker_detail(message@, marker@) is None,
{
    if !starts_with_lit(message, marker) {
        return None;
    }
    let k = chars_of(marker).len();
    let rest = slice(message, k, message.len());
    if starts_with_lit(rest.as_slice(), ": ") {
        let sep = chars_of(": ").len();
        Some(trim(slice(rest.as_slice(), sep, rest.len()).as_slice()))
    } else {
        Some(trim(rest.as_slice()))
    }
}

fn marked_value_of(value: &[char]) -> (r: Vec<char>)
    ensures
        r@ == marked_value(value@),
{
    let k = index_of_first(value, ':');
    if k < value.len() {
        trim(slice(value, k + 1, value.len()).as_slice())
    } else {
        trim(value)
    }
}

fn format_name_of(value: &[char]) -> (r: &'static str)
    ensures
        r@ == format_name(value@),
{
    let lower = to_ascii_lowercase(value);
    if eq_lit(lower.as_slice(), "zip") {
        "zip"
    } else if eq_lit(lower.as_slice(), "7z") {
        "7z"
    } else {
        "unknown"
    }
}

/// The report format named by `value`.
fn normalize_report_format(value: &[char]) -> (r: &'static str)
    ensures
        r@ == normalized_report_format(value@),
{
    format_name_of(trim(value).as_slice())
}

/// The report format suggested by a file name.
fn infer_report_format(value: &[char]) -> (r: &'static str)
    ensures
        r@ == inferred_report_format(value@),
{
    let name = replace_chars(value, '\\', '/');
    format_name_of(after_last_of(name.as_slice(), '.').as_slice())
}

/// Collapses control and white-space runs, cuts after `max_chars` characters
/// and trims.
fn clean_report_value(value: &[char], max_chars: usize) -> (r: Vec<char>)
    ensures
        r@ == clean_report(value@, max_chars as nat),
{
    let mut output: Vec<char> = Vec::new();
    let mut pending_space = false;
    let mut i: usize = 0;
    while i < value.len()
        invariant
            i <= value.len(),
            (output@, pending_space) == clean_state(value@.subrange(0, i as int), max_chars as nat),
            output.len() <= max_chars + 1,
        decreases value.len() - i,
    {
        assert(value@.subrange(0, i + 1).drop_last() =~= value@.subrange(0, i as int));
        let character = value[i];
        if output.len() >= max_chars {
        } else if is_control(character) || is_whitespace(character) {
            pending_space = output.len() > 0;
        } else {
            if pending_space {
                output.push(' ');
                pending_space = false;
            }
            output.push(character);
        }
        i += 1;
    }
    assert(value@.subrange(0, value.len() as int) =~= value@);
    trim(output.as_slice())
}

/// The file name shown in a report: the last path component, cleaned.
fn report_filename(value: &[char]) -> (r: Vec<char>)
    ensures
        r@ == report_file_name(value@),
{
    let normalized = replace_chars(value, '\\', '/');
    let filename = trim(after_last_of(normalized.as_slice(), '/').as_slice());
    let filename = clean_report_value(filename.as_slice(), 120);
    if filename.len() == 0 {
        chars_of("unknown")
    } else {
        filename
    }
}

fn is_rejected_archive_error(m: &[char]) -> (r: bool)
    ensures
        r == rejected_archive_error(m@),
{
    contains_lit(m, "too many entries") || contains_lit(m, "exceeds limit") || contains_lit(
        m,
        "expansion exceeds",
    ) || contains_lit(m, "duplicate entry") || contains_lit(m, "entry conflicts") || contains_lit(
        m,
        "unsafe path",
    ) || contains_lit(m, "reserved transaction path")
}

fn rejected_archive_detail(m: &[char]) -> (r: &'static str)
    ensures
        r@ == rejected_archive_detail_text(m@),
{
    if contains_lit(m, "too many entries") {
        "压缩包条目数量超过安全上限"
    } else if contains_lit(m, "exceeds limit") || contains_lit(m, "expansion exceeds") {
        "单个文件或解压后的总大小超过安全上限"
    } else if contains_lit(m, "duplicate entry") || contains_lit(m, "entry conflicts") {
        "压缩包内存在重复或冲突路径"
    } else {
        "压缩包内存在不安全路径"
    }
}

fn is_unsupported_layout_error(m: &[char]) -> (r: bool)
    ensures
        r == unsupported_layout_error(m@),
{
    eq_lit(m, "unsupported zip bundle") || contains_lit(m, "installable payload") || contains_lit(
        m,
        "supported APP or Port payload",
    ) || contains_lit(m, "launcher or manifest candidates") || contains_lit(
        m,
        "launcher references more than one",
    ) || contains_lit(m, "launcher is missing from the archive") || contains_lit(
        m,
        "data folder is missing from the archive",
    )
}

fn layout_detail(m: &[char]) -> (r: &'static str)
    ensures
        r@ == layout_detail_text(m@),
{
    if contains_lit(m, "more than one") || contains_lit(m, "installable payloads") {
        "压缩包中存在多个候选安装内容，无法安全决定安装哪一个"
    } else {
        "需要一个可识别的 launch.sh APP，或一个 SH 启动脚本及其脚本中引用的数据目录"
    }
}

/// Converts an internal archive error into a stable, path- and password-free report.
pub fn archive_issue(display_name: &str, format_hint: &str, message: &str) -> (r: ArchiveIssue)
    ensures
        issue_for(r, display_name@, format_hint@, message@),
{
    let m = chars_of(message);
    let display = chars_of(display_name);
    let hint = chars_of(format_hint);
    let marked_method = marker_detail_of(m.as_slice(), "archive_unsupported_method");
    let marked_feature = marker_detail_of(m.as_slice(), "archive_unsupported_feature");
    let marked_limit = marker_detail_of(m.as_slice(), "archive_resource_limit");
    let marked: Option<&Vec<char>> = match &marked_method {
        Some(v) => Some(v),
        None => match &marked_feature {
            Some(v) => Some(v),
            None => match &marked_limit {
                Some(v) => Some(v),
                None => None,
            },
        },
    };
    let source: Vec<char> = match marked {
        Some(v) => {
            let k = index_of_first(v.as_slice(), ':');
            if k < v.len() {
                slice(v.as_slice(), 0, k)
            } else {
                slice(hint.as_slice(), 0, hint.len())
            }
        },
        None => slice(hint.as_slice(), 0, hint.len()),
    };
    assert(hint@.subrange(0, hint.len() as int) =~= hint@);
    let unsupported_format = eq_lit(m.as_slice(), "只支持 ZIP 或 7z 压缩包");
    let mut format = normalize_report_format(source.as_slice());
    if eq_lit(chars_of(format).as_slice(), "unknown") && !unsupported_format {
        format = infer_report_format(display.as_slice());
    }
    let password_required = is_password_required_error(message);
    let invalid_password = is_invalid_password_error(message);
    let mut detail_raw: Vec<char> = Vec::new();
    let (code, summary): (&str, &str) = if let Some(value) = &marked_method {
        detail_raw = marked_value_of(value.as_slice());
        ("unsupported_method", "压缩包使用了当前版本不支持的压缩算法")
    } else if let Some(value) = &marked_feature {
        detail_raw = marked_value_of(value.as_slice());
        ("unsupported_feature", "压缩包使用了当前版本不支持的格式功能")
    } else if let Some(value) = &marked_limit {
        detail_raw = marked_value_of(value.as_slice());
        ("resource_limit", "解压这个压缩包需要超出当前限制的内存")
    } else if password_required {
        push_lit(&mut detail_raw, "需要输入密码后继续识别");
        ("password_required", "压缩包已加密")
    } else if invalid_password {
        push_lit(&mut detail_raw, "请重新输入密码");
        ("invalid_password", "压缩包密码不正确")
    } else if unsupported_format {
        format = "unknown";
        push_lit(&mut detail_raw, "文件内容不是受支持的 ZIP 或 7z 格式");
        ("unsupported_format", "当前只支持 ZIP 或 7z 压缩包")
    } else if starts_with_lit(m.as_slice(), "7z anti-item is not supported") {
        push_lit(&mut detail_raw, "7z anti-item");
        ("unsupported_feature", "压缩包使用了当前版本不支持的 7z 功能")
    } else if contains_lit(m.as_slice(), "installation is disabled by device configuration") {
        push_lit(&mut detail_raw, "请复制诊断信息反馈设备型号与安装包类型");
        ("device_unsupported", "当前设备配置不支持此类安装包")
    } else if is_rejected_archive_error(m.as_slice()) {
        push_lit(&mut detail_raw, rejected_archive_detail(m.as_slice()));
        ("rejected_archive", "压缩包未通过安全或资源限制检查")
    } else if is_unsupported_layout_error(m.as_slice()) {
        push_lit(&mut detail_raw, layout_detail(m.as_slice()));
        ("unsupported_layout", "没有识别到可安装的 APP 或 Port")
    } else if contains_lit(m.as_slice(), "changed after") || contains_lit(
        m.as_slice(),
        "changed while",
    ) {
        push_lit(&mut detail_raw, "请重新扫描或重新上传后再试");
        ("archive_changed", "扫描后压缩包发生了变化")
    } else if contains_lit(m.as_slice(), "cancelled") || contains_lit(m.as_slice(), "canceled") {
        push_lit(&mut detail_raw, "现有文件保持不变");
        ("cancelled", "操作已取消")
    } else {
        push_lit(&mut detail_raw, "请重新下载或重新压缩后再试");
        ("invalid_archive", "压缩包损坏或无法读取")
    };
    let filename = report_filename(display.as_slice());
    let detail = clean_report_value(detail_raw.as_slice(), 240);
    let mut report: Vec<char> = Vec::new();
    push_lit(&mut report, "APP Manager 压缩包诊断\n文件: ");
    push_all(&mut report, filename.as_slice());
    push_lit(&mut report, "\n格式: ");
    push_lit(&mut report, format);
    push_lit(&mut report, "\n代码: ");
    push_lit(&mut report, code);
    push_lit(&mut report, "\n说明: ");
    push_lit(&mut report, summary);
    push_lit(&mut report, "\n详情: ");
    push_all(&mut report, detail.as_slice());
    push_lit(&mut report, "\n支持范围: ZIP / 7z 常用单卷压缩算法");
    ArchiveIssue {
        code: code.to_owned(),
        format: format.to_owned(),
        summary: summary.to_owned(),
        detail: string_of(detail.as_slice()),
        report: string_of(report.as_slice()),
    }
}


proof fn lemma_trim_start_chars(t: Seq<char>, c: char)
    ensures
        trim_start_chars_hold(t, c),
    decreases t.len(),
{
    if t.len() > 0 && spec_is_whitespace(t[0]) {
        lemma_trim_start_chars(t.drop_first(), c);
        if crate::text::trim_start_spec(t).contains(c) {
            assert(t.drop_first().contains(c));
            let i = choose|i: int| 0 <= i < t.drop_first().len() && t.drop_first()[i] == c;
            assert(t[i + 1] == c);
        }
    }
}

spec fn trim_start_chars_hold(t: Seq<char>, c: char) -> bool {
    crate::text::trim_start_spec(t).contains(c) ==> t.contains(c)
}

proof fn lemma_trim_end_chars(t: Seq<char>, c: char)
    ensures
        crate::text::trim_end_spec(t).contains(c) ==> t.contains(c),
    decreases t.len(),
{
    if t.len() > 0 && spec_is_whitespace(t.last()) {
        lemma_trim_end_chars(t.drop_last(), c);
        if crate::text::trim_end_spec(t).contains(c) {
            let i = choose|i: int| 0 <= i < t.drop_last().len() && t.drop_last()[i] == c;
            assert(t[i] == c);
        }
    }
}

/// Trimming keeps only characters of the text.
proof fn lemma_trimmed_chars(t: Seq<char>, c: char)
    ensures
        trimmed(t).contains(c) ==> t.contains(c),
{
    lemma_trim_end_chars(crate::text::trim_start_spec(t), c);
    lemma_trim_start_chars(t, c);
}

/// Cleaning keeps only characters of the value, and spaces.
proof fn lemma_clean_state_chars(v: Seq<char>, max: nat, c: char)
    ensures
        clean_state(v, max).0.contains(c) ==> v.contains(c) || c == ' ',
    decreases v.len(),
{
    if v.len() > 0 {
        lemma_clean_state_chars(v.drop_last(), max, c);
        let (out, pending) = clean_state(v.drop_last(), max);
        let x = v.last();
        if clean_state(v, max).0.contains(c) && c != ' ' && c != x {
            if out.len() >= max || spec_is_control(x) || spec_is_whitespace(x) {
            } else if pending {
                let i = choose|i: int| 0 <= i < out.push(' ').push(x).len() && out.push(' ').push(x)[i] == c;
                assert(out[i] == c);
            } else {
                let i = choose|i: int| 0 <= i < out.push(x).len() && out.push(x)[i] == c;
                assert(out[i] == c);
            }
            let j = choose|j: int| 0 <= j < v.drop_last().len() && v.drop_last()[j] == c;
            assert(v[j] == c);
        }
        if clean_state(v, max).0.contains(c) && c == x && c != ' ' {
            assert(v[v.len() - 1] == c);
        }
    }
}

/// The file shown in an archive report never holds a directory separator, so
/// a report never reveals the folders of the device path it was made for.
pub proof fn lemma_report_file_name_has_no_separator(display: Seq<char>)
    ensures
        !report_file_name(display).contains('/'),
        !report_file_name(display).contains('\\'),
{
    let replaced = replace_char(display, '\\', '/');
    let last = after_last(replaced, '/');
    assert(!last.contains('/')) by {
        if last.contains('/') {
            let n = replaced.len() as int;
            let k = choose|k: int| 0 <= k < last.len() && last[k] == '/';
            crate::text::lemma_after_last_free(replaced, '/');
        }
    }
    assert(!replaced.contains('\\')) by {
        if replaced.contains('\\') {
            let j = choose|j: int| 0 <= j < replaced.len() && replaced[j] == '\\';
            assert(replaced[j] == (if display[j] == '\\' { '/' } else { display[j] }));
        }
    }
    assert(!last.contains('\\')) by {
        lemma_after_last_sub(replaced, '/', '\\');
    }
    let t = trimmed(last);
    lemma_trimmed_chars(last, '/');
    lemma_trimmed_chars(last, '\\');
    let st = clean_state(t, 120);
    lemma_clean_state_chars(t, 120, '/');
    lemma_clean_state_chars(t, 120, '\\');
    lemma_trimmed_chars(st.0, '/');
    lemma_trimmed_chars(st.0, '\\');
    reveal_strlit("unknown");
}

proof fn lemma_after_last_sub(t: Seq<char>, c: char, x: char)
    ensures
        after_last(t, c).contains(x) ==> t.contains(x),
    decreases t.len(),
{
    if t.len() > 0 && t.last() != c {
        lemma_after_last_sub(t.drop_last(), c, x);
        if after_last(t, c).contains(x) {
            let k = choose|k: int| 0 <= k < after_last(t, c).len() && after_last(t, c)[k] == x;
            if k < after_last(t.drop_last(), c).len() {
                assert(after_last(t.drop_last(), c)[k] == x);
                assert(t.drop_last().contains(x));
                let j = choose|j: int| 0 <= j < t.drop_last().len() && t.drop_last()[j] == x;
                assert(t.drop_last()[j] == t[j]);
            } else {
                assert(t[t.len() - 1] == x);
            }
        }
    }
}

/// Without a method, feature or resource-limit marker, the detail of a report
/// is one of a fixed set of texts: the raw error text, which may name device
/// paths or passwords, is never copied into it.
pub proof fn lemma_unmarked_detail_is_fixed(message: Seq<char>)
    requires
        method_marker(message) is None,
        feature_marker(message) is None,
        limit_marker(message) is None,
    ensures
        ({
            let d = issue_fields(message).2;
            ||| d == "需要输入密码后继续识别"@
            ||| d == "请重新输入密码"@
            ||| d == "文件内容不是受支持的 ZIP 或 7z 格式"@
            ||| d == "7z anti-item"@
            ||| d == "请复制诊断信息反馈设备型号与安装包类型"@
            ||| d == "压缩包条目数量超过安全上限"@
            ||| d == "单个文件或解压后的总大小超过安全上限"@
            ||| d == "压缩包内存在重复或冲突路径"@
            ||| d == "压缩包内存在不安全路径"@
            ||| d == "压缩包中存在多个候选安装内容，无法安全决定安装哪一个"@
            ||| d == "需要一个可识别的 launch.sh APP，或一个 SH 启动脚本及其脚本中引用的数据目录"@
            ||| d == "请重新扫描或重新上传后再试"@
            ||| d == "现有文件保持不变"@
            ||| d == "请重新下载或重新压缩后再试"@
        }),
{
}

} // verus!
