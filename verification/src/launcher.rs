//! The embedded service's boundary values: requests from the UI, actions it
//! hands over, and the small decisions the service makes about them.
use vstd::prelude::*;

use crate::entry_names::{debug_quote, debug_text};
use crate::task::{ProgressChannel, TaskProgress};
use zeroize::Zeroizing;

use crate::paths::{file_name, file_name_of, join, join_split, joined, parent, parent_of, rebuilt, strip_prefix, stripped, Split};
use crate::text::{
    chars_of, eq_lit, parse_u64, parsed_u64, push_all, push_lit, spec_is_ascii_alphanumeric,
    split_char, split_spec, string_of, trim, trimmed, Text,
};

verus! {

/// The text of an archive password held in `zeroize::Zeroizing`, which
/// overwrites it with zeroes when it is dropped. The field is private and
/// opaque: nothing in the library reads the text.
#[verifier::external_body]
pub struct SecretText {
    secret: Zeroizing<String>,
}

/// `Zeroizing::new`: takes ownership of the text. Nothing is stated of the
/// result, whose content is private.
#[verifier::external_body]
fn secret_text(text: String) -> SecretText {
    SecretText { secret: Zeroizing::new(text) }
}

/// An archive password: the zeroized text and its length in bytes.
pub struct Password {
    secret: SecretText,
    bytes: usize,
}

impl Password {
    /// The length of the password's UTF-8 text, in bytes.
    pub closed spec fn byte_len(&self) -> nat {
        self.bytes as nat
    }

    /// Takes ownership of the text.
    pub fn new(text: String) -> (r: Password)
        ensures
            r.byte_len() == vstd::utf8::encode_utf8(text@).len(),
    {
        let bytes = text.as_str().as_bytes().len();
        Password { secret: secret_text(text), bytes }
    }

    /// The length of the password in bytes.
    pub fn len(&self) -> (r: usize)
        ensures
            r == self.byte_len(),
    {
        self.bytes
    }
}

/// Paths needed by the APP Manager UI process.
#[derive(Clone, Debug)]
pub struct EmbeddedRequest {
    pub source_dir: String,
    pub launcher: String,
    pub app_root: String,
    pub config_dir: Option<String>,
    pub remote_config_dir: Option<String>,
}

/// A prepared service: the request and the environment the frontend gets.
pub struct EmbeddedBootstrap {
    pub request: EmbeddedRequest,
    /// Variables for the frontend, ordered by name.
    pub environment: Vec<(String, String)>,
}

impl EmbeddedBootstrap {
    /// The environment variables, ordered by name.
    pub fn environment(&self) -> (r: &Vec<(String, String)>)
        ensures
            r@ == self.environment@,
    {
        &self.environment
    }
}

/// One action requested by the UI.
pub struct EmbeddedAction {
    pub kind: String,
    pub arg: String,
    pub source_identity: Option<String>,
    pub replace_existing: bool,
    /// Ephemeral archive password, accepted only by INSTALL_ZIP, redacted from
    /// the debug text and zeroized when dropped.
    pub password: Option<Password>,
}

/// The debug text of an optional string.
pub open spec fn optional_debug(v: Option<String>) -> Seq<char> {
    match v {
        Some(s) => "Some("@ + debug_text(s@) + ")"@,
        None => "None"@,
    }
}

pub open spec fn bool_text(b: bool) -> Seq<char> {
    if b {
        "true"@
    } else {
        "false"@
    }
}

/// The debug text of an action, with the password replaced by a marker.
pub open spec fn action_debug(a: EmbeddedAction) -> Seq<char> {
    "EmbeddedAction { kind: "@ + debug_text(a.kind@) + ", arg: "@ + debug_text(a.arg@)
        + ", source_identity: "@ + optional_debug(a.source_identity) + ", replace_existing: "@
        + bool_text(a.replace_existing) + ", password: "@ + (if a.password is Some {
        "Some(\"[REDACTED]\")"@
    } else {
        "None"@
    }) + " }"@
}

impl EmbeddedAction {
    /// The text that `{:?}` shows for the action: every field, except that a
    /// password is shown only as present or absent.
    pub fn debug_text(&self) -> (r: String)
        ensures
            r@ == action_debug(*self),
    {
        let mut out = chars_of("EmbeddedAction { kind: ");
        push_all(&mut out, chars_of(debug_quote(self.kind.as_str()).as_str()).as_slice());
        push_lit(&mut out, ", arg: ");
        push_all(&mut out, chars_of(debug_quote(self.arg.as_str()).as_str()).as_slice());
        push_lit(&mut out, ", source_identity: ");
        match &self.source_identity {
            Some(identity) => {
                push_lit(&mut out, "Some(");
                push_all(&mut out, chars_of(debug_quote(identity.as_str()).as_str()).as_slice());
                push_lit(&mut out, ")");
            },
            None => {
                push_lit(&mut out, "None");
            },
        }
        push_lit(&mut out, ", replace_existing: ");
        if self.replace_existing {
            push_lit(&mut out, "true");
        } else {
            push_lit(&mut out, "false");
        }
        push_lit(&mut out, ", password: ");
        if self.password.is_some() {
            push_lit(&mut out, "Some(\"[REDACTED]\")");
        } else {
            push_lit(&mut out, "None");
        }
        push_lit(&mut out, " }");
        string_of(out.as_slice())
    }
}

/// Two actions that differ only in their password have the same debug text:
/// a password never reaches it.
pub proof fn lemma_password_never_in_debug_text(a: EmbeddedAction, b: EmbeddedAction)
    requires
        a.kind == b.kind,
        a.arg == b.arg,
        a.source_identity == b.source_identity,
        a.replace_existing == b.replace_existing,
        a.password is Some <==> b.password is Some,
    ensures
        action_debug(a) == action_debug(b),
{
}

/// An action checked at the service boundary.
#[derive(Clone, Debug)]
pub struct ServiceAction {
    pub kind: String,
    pub argument: String,
}

/// Characters that would split one action into several in the service's
/// line- and tab-separated protocol.
pub open spec fn boundary_char(c: char) -> bool {
    c == '\t' || c == '\r' || c == '\n' || c == '\0'
}

/// An action kind: non-empty, ASCII upper-case letters and `_`.
pub open spec fn action_kind(kind: Seq<char>) -> bool {
    kind.len() > 0 && forall|i: int| 0 <= i < kind.len() ==> (('A' <= #[trigger] kind[i] && kind[i] <= 'Z') || kind[i] == '_')
}

/// Text that the boundary accepts.
pub open spec fn boundary_safe(a: EmbeddedAction) -> bool {
    action_kind(a.kind@) && forall|i: int| 0 <= i < a.arg@.len() ==> !boundary_char(#[trigger] a.arg@[i])
}

impl ServiceAction {
    /// Accepts an action whose text cannot smuggle another action across the
    /// boundary.
    pub fn try_from(action: &EmbeddedAction) -> (r: Result<ServiceAction, String>)
        ensures
            r is Ok <==> boundary_safe(*action),
            r matches Ok(s) ==> s.kind@ == action.kind@ && s.argument@ == action.arg@,
            r matches Err(e) ==> e@ == "APP Manager action contains unsafe text"@,
    {
        let kind = chars_of(action.kind.as_str());
        let arg = chars_of(action.arg.as_str());
        let mut ok = kind.len() > 0;
        let mut i: usize = 0;
        while i < kind.len()
            invariant
                i <= kind.len(),
                ok == (kind@.len() > 0 && forall|j: int| 0 <= j < i ==> (('A' <= #[trigger] kind@[j] && kind@[j] <= 'Z') || kind@[j] == '_')),
            decreases kind.len() - i,
        {
            let c = kind[i];
            if !(('A' <= c && c <= 'Z') || c == '_') {
                ok = false;
            }
            i += 1;
        }
        let mut j: usize = 0;
        while j < arg.len()
            invariant
                j <= arg.len(),
                ok == (action_kind(kind@) && forall|k: int| 0 <= k < j ==> !boundary_char(#[trigger] arg@[k])),
            decreases arg.len() - j,
        {
            let c = arg[j];
            if c == '\t' || c == '\r' || c == '\n' || c == '\0' {
                ok = false;
            }
            j += 1;
        }
        if !ok {
            return Err("APP Manager action contains unsafe text".to_owned());
        }
        Ok(ServiceAction { kind: action.kind.clone(), argument: action.arg.clone() })
    }
}

/// Who manages the PortMaster environment.
#[derive(Clone, Copy, Debug, PartialEq, Eq, Structural)]
pub enum ManagementMode {
    App,
    System,
}

/// Game management (list, uninstall, leftover cleanup) needs only the ports
/// directory layout, never a working PortMaster core, so it is always available.
pub fn inventory_available(management: &ManagementMode, health: &str) -> (r: bool)
    ensures
        r,
{
    true
}

/// The tasks that may have to finish or undo an interrupted install first:
/// the startup snapshot and the mutating tasks.
pub fn task_needs_recovery(kind: &str) -> (r: bool)
    ensures
        r == (kind@ == "initial-snapshot"@ || kind@ == "apply"@ || kind@ == "install-zips"@),
{
    let k = chars_of(kind);
    eq_lit(k.as_slice(), "initial-snapshot") || eq_lit(k.as_slice(), "apply") || eq_lit(
        k.as_slice(),
        "install-zips",
    )
}

pub open spec fn version_char(c: char) -> bool {
    spec_is_ascii_alphanumeric(c) || c == '.' || c == '_' || c == '-'
}

/// The characters of a version string that are ASCII letters, digits or `. _ -`.
pub open spec fn safe_version_text(value: Seq<char>) -> Seq<char> {
    value.filter(|c: char| version_char(c))
}

/// Keeps only the characters that may appear in a displayed version.
pub fn safe_version(value: &str) -> (r: String)
    ensures
        r@ == safe_version_text(value@),
{
    let v = chars_of(value);
    let mut out: Vec<char> = Vec::new();
    let mut i: usize = 0;
    while i < v.len()
        invariant
            i <= v.len(),
            out@ == v@.subrange(0, i as int).filter(|c: char| version_char(c)),
        decreases v.len() - i,
    {
        let c = v[i];
        proof {
            assert(v@.subrange(0, i + 1).drop_last() =~= v@.subrange(0, i as int));
            v@.subrange(0, i as int).lemma_filter_push(c, |c: char| version_char(c));
            assert(v@.subrange(0, i + 1) =~= v@.subrange(0, i as int).push(c));
        }
        if crate::text::is_ascii_alphanumeric(c) || c == '.' || c == '_' || c == '-' {
            out.push(c);
        }
        i += 1;
    }
    assert(v@.subrange(0, v.len() as int) =~= v@);
    string_of(out.as_slice())
}

pub open spec fn launcher_asset_char(c: char) -> bool {
    spec_is_ascii_alphanumeric(c) || c == '.' || c == '_' || c == '+' || c == '-'
}

/// A release asset name: non-empty, not `.` or `..`, ASCII letters, digits
/// and `. _ + -`.
pub open spec fn release_asset(value: Seq<char>) -> bool {
    &&& value.len() > 0
    &&& value != seq!['.']
    &&& value != seq!['.', '.']
    &&& forall|i: int| 0 <= i < value.len() ==> launcher_asset_char(#[trigger] value[i])
}

pub fn safe_asset_name(value: &str) -> (r: bool)
    ensures
        r == release_asset(value@),
{
    let v = chars_of(value);
    if v.len() == 0 {
        return false;
    }
    if v.len() == 1 && v[0] == '.' {
        assert(v@ =~= seq!['.']);
        return false;
    }
    if v.len() == 2 && v[0] == '.' && v[1] == '.' {
        assert(v@ =~= seq!['.', '.']);
        return false;
    }
    assert(v@ != seq!['.']) by {
        if v@ == seq!['.'] {
            assert(v@[0] == '.');
        }
    }
    assert(v@ != seq!['.', '.']) by {
        if v@ == seq!['.', '.'] {
            assert(v@[0] == '.' && v@[1] == '.');
        }
    }
    let mut i: usize = 0;
    while i < v.len()
        invariant
            i <= v.len(),
            v@ == value@,
            forall|j: int| 0 <= j < i ==> launcher_asset_char(#[trigger] v@[j]),
        decreases v.len() - i,
    {
        let c = v[i];
        if !(crate::text::is_ascii_alphanumeric(c) || c == '.' || c == '_' || c == '+' || c == '-') {
            assert(!launcher_asset_char(v@[i as int]));
            assert(value@[i as int] == v@[i as int]);
            return false;
        }
        i += 1;
    }
    true
}

/// `text` with tabs, carriage returns and newlines replaced by spaces.
pub open spec fn single_line(text: Seq<char>) -> Seq<char> {
    text.map_values(|c: char| if c == '\t' || c == '\r' || c == '\n' { ' ' } else { c })
}

pub(crate) fn one_line(text: &str) -> (r: String)
    ensures
        r@ == single_line(text@),
{
    let t = chars_of(text);
    let mut out: Vec<char> = Vec::new();
    let mut i: usize = 0;
    while i < t.len()
        invariant
            i <= t.len(),
            out@ == single_line(t@.subrange(0, i as int)),
        decreases t.len() - i,
    {
        let c = t[i];
        if c == '\t' || c == '\r' || c == '\n' {
            out.push(' ');
        } else {
            out.push(c);
        }
        i += 1;
        assert(out@ =~= single_line(t@.subrange(0, i as int)));
    }
    assert(t@.subrange(0, t.len() as int) =~= t@);
    string_of(out.as_slice())
}

/// The frame that a progress report publishes.
pub open spec fn progress_frame(
    p: TaskProgress,
    phase: Seq<char>,
    runtime: Seq<char>,
    current: u64,
    total: u64,
    speed: u64,
    detail: Seq<char>,
) -> bool {
    &&& p.phase@ == phase
    &&& p.runtime@ == runtime
    &&& p.index == 0
    &&& p.count == 1
    &&& p.current == current
    &&& p.total == total
    &&& p.speed == speed
    &&& p.detail@ == single_line(detail)
}

/// The progress frame of one step of a single-item task.
pub fn progress_of(phase: &str, runtime: &str, current: u64, total: u64, speed: u64, detail: &str) -> (r: TaskProgress)
    ensures
        progress_frame(r, phase@, runtime@, current, total, speed, detail@),
{
    TaskProgress {
        phase: phase.to_owned(),
        runtime: runtime.to_owned(),
        index: 0,
        count: 1,
        current,
        total,
        speed,
        detail: one_line(detail),
    }
}

/// Publishes one progress frame, when there is a channel.
pub fn publish_progress(
    channel: Option<&ProgressChannel>,
    phase: &str,
    runtime: &str,
    current: u64,
    total: u64,
    speed: u64,
    detail: &str,
) {
    if let Some(channel) = channel {
        channel.publish(progress_of(phase, runtime, current, total, speed, detail));
    }
}

/// Publishes the progress of the PortMaster task.
pub fn publish_task_progress(
    channel: Option<&ProgressChannel>,
    phase: &str,
    current: u64,
    total: u64,
    speed: u64,
    detail: &str,
) -> (r: Result<(), String>)
    ensures
        r is Ok,
{
    publish_progress(channel, phase, "PortMaster", current, total, speed, detail);
    Ok(())
}


/// The frontend's XDG data directory: the parent of a PortMaster root named
/// `PortMaster`, otherwise the resolved scripts directory (a configured
/// `PortMaster` symlink may resolve to a target with another name). No root,
/// or a root without a file name, gives none.
pub open spec fn xdg_data_home(root: Option<Seq<char>>, scripts: Option<Seq<char>>) -> Option<Seq<char>> {
    match root {
        None => None,
        Some(r) => match file_name_of(r) {
            None => None,
            Some(name) => if name == "PortMaster"@ {
                parent_of(r)
            } else {
                scripts
            },
        },
    }
}

pub open spec fn opt_view(v: Option<&str>) -> Option<Seq<char>> {
    match v {
        Some(s) => Some(s@),
        None => None,
    }
}

pub fn portmaster_xdg_data_home(root: Option<&str>, scripts: Option<&str>) -> (r: Option<String>)
    ensures
        (match r {
            Some(s) => Some(s@),
            None => None,
        }) == xdg_data_home(opt_view(root), opt_view(scripts)),
{
    let root = match root {
        Some(r) => chars_of(r),
        None => return None,
    };
    let name = match file_name(root.as_slice()) {
        Some(n) => n,
        None => return None,
    };
    if eq_lit(name.as_slice(), "PortMaster") {
        match parent(root.as_slice()) {
            Some(p) => Some(string_of(p.as_slice())),
            None => None,
        }
    } else {
        match scripts {
            Some(s) => Some(s.to_owned()),
            None => None,
        }
    }
}

/// The PortMaster directory override inside the probed namespace: with a
/// probe root, an override below it is taken relative to it (as an absolute
/// path); any other override is kept as given.
pub open spec fn target_override(target: Option<Seq<char>>, root: Option<Seq<char>>) -> Option<Seq<char>> {
    match target {
        None => None,
        Some(t) => match root {
            None => Some(t),
            Some(r) => match stripped(t, r) {
                Some(rest) => Some(joined("/"@, rebuilt(false, rest))),
                None => Some(t),
            },
        },
    }
}

/// Applies the probe root to the override read from the environment.
pub fn normalized_target_override(target: Option<&str>, root: Option<&str>) -> (r: Option<String>)
    ensures
        (match r {
            Some(s) => Some(s@),
            None => None,
        }) == target_override(opt_view(target), opt_view(root)),
{
    let target = match target {
        Some(t) => t,
        None => return None,
    };
    let root = match root {
        Some(r) => r,
        None => return Some(target.to_owned()),
    };
    match strip_prefix(chars_of(target).as_slice(), chars_of(root).as_slice()) {
        Some(rest) => {
            let relative = join_split(&Split { absolute: false, parts: rest });
            Some(string_of(join(chars_of("/").as_slice(), relative.as_slice()).as_slice()))
        },
        None => Some(target.to_owned()),
    }
}

/// What a config-refresh cache holds: `CHECKED<TAB>STATUS`, where CHECKED is
/// the time of the last refresh in seconds.
pub open spec fn refresh_fields(contents: Seq<char>) -> Seq<Seq<char>> {
    split_spec(trimmed(contents), '\t')
}

/// The cached refresh status at time `now`: `"cached"` for a success younger
/// than a day, `"cached_error"` for a failure younger than six hours, and
/// none otherwise (also for a time in the future).
pub open spec fn refresh_status(contents: Seq<char>, now: u64) -> Option<Seq<char>> {
    let f = refresh_fields(contents);
    if f.len() != 2 {
        None
    } else {
        match parsed_u64(f[0]) {
            None => None,
            Some(checked) => if checked > now {
                None
            } else if f[1] == "ok"@ && now - checked < 86400 {
                Some("cached"@)
            } else if f[1] == "error"@ && now - checked < 21600 {
                Some("cached_error"@)
            } else {
                None
            },
        }
    }
}

/// Reads a config-refresh cache (its contents, when the file could be read).
pub fn fresh_config_refresh_status(contents: &str, now: u64) -> (r: Option<&'static str>)
    ensures
        (match r {
            Some(s) => Some(s@),
            None => None,
        }) == refresh_status(contents@, now),
{
    let t = trim(chars_of(contents).as_slice());
    let fields = split_char(t.as_slice(), '\t');
    let ghost f = fields@.map_values(|v: Vec<char>| v@);
    assert(f.len() == fields.len());
    if fields.len() != 2 {
        return None;
    }
    assert(f[0] == fields[0]@ && f[1] == fields[1]@);
    let checked = match parse_u64(fields[0].as_slice()) {
        Some(c) => c,
        None => return None,
    };
    let age = match now.checked_sub(checked) {
        Some(a) => a,
        None => return None,
    };
    if eq_lit(fields[1].as_slice(), "ok") && age < 86400 {
        Some("cached")
    } else if eq_lit(fields[1].as_slice(), "error") && age < 21600 {
        Some("cached_error")
    } else {
        None
    }
}

pub open spec fn cache_version_char(c: char) -> bool {
    spec_is_ascii_alphanumeric(c) || c == '.' || c == '_' || c == '-'
}

/// The update-check cache: `CHECKED<TAB>STATUS<TAB>LATEST`, read leniently:
/// an unreadable time is 0, a status other than `ok` or `error` is
/// `unknown`, and a latest version with other characters than ASCII letters,
/// digits and `. _ -` is empty.
pub open spec fn update_cache(contents: Option<Seq<char>>) -> (u64, Seq<char>, Seq<char>) {
    match contents {
        None => (0, "unknown"@, Seq::empty()),
        Some(c) => {
            let f = split_spec(crate::text::trim_end_spec(c), '\t');
            let checked = match parsed_u64(f[0]) {
                Some(v) => v,
                None => 0,
            };
            let status = if f.len() >= 2 && f[1] == "ok"@ {
                "ok"@
            } else if f.len() >= 2 && f[1] == "error"@ {
                "error"@
            } else {
                "unknown"@
            };
            let latest = if f.len() >= 3 && forall|i: int| 0 <= i < f[2].len() ==> cache_version_char(#[trigger] f[2][i]) {
                f[2]
            } else {
                Seq::empty()
            };
            (checked, status, latest)
        },
    }
}

/// Parses the update-check cache (its contents, when the file could be read).
pub fn read_update_cache(contents: Option<&str>) -> (r: (u64, String, String))
    ensures
        (r.0, r.1@, r.2@) == update_cache(opt_view(contents)),
{
    let contents = match contents {
        Some(c) => c,
        None => return (0, "unknown".to_owned(), String::new()),
    };
    let t = chars_of(contents);
    let n = t.len();
    let mut end = n;
    assert(t@.subrange(0, n as int) =~= t@);
    while end > 0 && crate::text::is_whitespace(t[end - 1])
        invariant
            end <= n,
            n == t.len(),
            crate::text::trim_end_spec(t@) == crate::text::trim_end_spec(t@.subrange(0, end as int)),
        decreases end,
    {
        assert(t@.subrange(0, end as int).drop_last() =~= t@.subrange(0, end - 1));
        end -= 1;
    }
    let trimmed_end = crate::text::slice(t.as_slice(), 0, end);
    assert(crate::text::trim_end_spec(t@) == trimmed_end@);
    let fields = split_char(trimmed_end.as_slice(), '\t');
    let ghost f = fields@.map_values(|v: Vec<char>| v@);
    assert(f.len() == fields.len());
    assert(f[0] == fields[0]@);
    let checked = match parse_u64(fields[0].as_slice()) {
        Some(v) => v,
        None => 0,
    };
    let status: &str = if fields.len() >= 2 && eq_lit(fields[1].as_slice(), "ok") {
        "ok"
    } else if fields.len() >= 2 && eq_lit(fields[1].as_slice(), "error") {
        "error"
    } else {
        "unknown"
    };
    proof {
        if fields.len() >= 2 {
            assert(f[1] == fields[1]@);
        }
    }
    let mut latest: Vec<char> = Vec::new();
    if fields.len() >= 3 {
        assert(f[2] == fields[2]@);
        let candidate = &fields[2];
        let mut ok = true;
        let mut i: usize = 0;
        while i < candidate.len()
            invariant
                i <= candidate.len(),
                ok == forall|j: int| 0 <= j < i ==> cache_version_char(#[trigger] candidate@[j]),
            decreases candidate.len() - i,
        {
            let c = candidate[i];
            if !(crate::text::is_ascii_alphanumeric(c) || c == '.' || c == '_' || c == '-') {
                ok = false;
            }
            i += 1;
        }
        if ok {
            latest = crate::text::slice(candidate.as_slice(), 0, candidate.len());
            assert(latest@ =~= candidate@);
        }
    }
    (checked, status.to_owned(), string_of(latest.as_slice()))
}

// ---------------------------------------------------------------------------
// Network actions.

/// Network actions that passed validation: a batch of Runtime installs, or
/// one PortMaster install with the acknowledgements the device needs.
#[derive(Debug)]
pub enum ValidatedNetworkActions {
    Runtimes(Vec<String>),
    PortMaster { action: ServiceAction, risk_ack: bool, support_ack: bool },
}

/// An action as values: kind and argument.
pub open spec fn action_view(a: ServiceAction) -> (Seq<char>, Seq<char>) {
    (a.kind@, a.argument@)
}

/// What the acknowledgements and the install among the first `n` actions
/// amount to: whether the device risk and the unsupported device were
/// acknowledged, and where the PortMaster install stands; or the first
/// action that is out of place. An acknowledgement counts once, before the
/// install, and must name the device class (a risk) or the PortMaster root
/// (support for an unsupported device); the install must be the last action
/// and name the stable release.
pub open spec fn ack_scan(
    actions: Seq<(Seq<char>, Seq<char>)>,
    n: int,
    device_class: Seq<char>,
    root: Option<Seq<char>>,
) -> Result<(bool, bool, Option<int>), Seq<char>>
    decreases n,
{
    if n <= 0 {
        Ok((false, false, None))
    } else {
        match ack_scan(actions, n - 1, device_class, root) {
            Err(e) => Err(e),
            Ok((risk, support, install)) => {
                let (kind, argument) = actions[n - 1];
                if kind == "ACK_DEVICE_RISK"@ && install is None && !risk && argument == device_class && (argument
                    == "official-untested"@ || argument == "unsupported-known"@) {
                    Ok((true, support, install))
                } else if kind == "ACK_DEVICE_SUPPORT"@ && install is None && !support && device_class
                    == "unsupported-known"@ && (root matches Some(r) && crate::storage::same_path(r, argument)) {
                    Ok((risk, true, install))
                } else if kind == "INSTALL_PORTMASTER"@ && install is None && n == actions.len() && argument
                    == "stable"@ {
                    Ok((risk, support, Some(n - 1)))
                } else if kind == "ACK_DEVICE_RISK"@ {
                    Err("invalid-device-ack"@)
                } else if kind == "ACK_DEVICE_SUPPORT"@ {
                    Err("invalid-support-ack"@)
                } else if kind == "INSTALL_PORTMASTER"@ {
                    Err("invalid-portmaster-action"@)
                } else {
                    Err("unknown-action"@)
                }
            },
        }
    }
}

/// The acknowledgements each device class needs: none on a tested device,
/// the risk on an official untested one, both on a known unsupported one.
pub open spec fn acks_fit(device_class: Seq<char>, risk: bool, support: bool) -> Option<bool> {
    if device_class == "tested"@ {
        Some(!risk && !support)
    } else if device_class == "official-untested"@ {
        Some(risk && !support)
    } else if device_class == "unsupported-known"@ {
        Some(risk && support)
    } else {
        None
    }
}

/// How a list of network actions is judged: a list with a Runtime install
/// must hold nothing else; otherwise it must be acknowledgements followed by
/// one PortMaster install that fits the device class.
pub open spec fn network_verdict(
    actions: Seq<(Seq<char>, Seq<char>)>,
    device_class: Seq<char>,
    root: Option<Seq<char>>,
) -> Result<(bool, bool, Option<int>), Seq<char>> {
    if exists|i: int| 0 <= i < actions.len() && #[trigger] actions[i].0 == "INSTALL_RUNTIME"@ {
        if forall|i: int| 0 <= i < actions.len() ==> #[trigger] actions[i].0 == "INSTALL_RUNTIME"@ {
            Ok((false, false, None))
        } else {
            Err("mixed-network-actions"@)
        }
    } else {
        match ack_scan(actions, actions.len() as int, device_class, root) {
            Err(e) => Err(e),
            Ok((risk, support, install)) => match install {
                None => Err("missing-portmaster-action"@),
                Some(i) => match acks_fit(device_class, risk, support) {
                    None => Err("unsupported-device"@),
                    Some(false) => Err("invalid-device-ack-set"@),
                    Some(true) => Ok((risk, support, Some(i))),
                },
            },
        }
    }
}

fn is_kind(a: &ServiceAction, kind: &str) -> (r: bool)
    ensures
        r == (a.kind@ == kind@),
{
    crate::text::text_eq(chars_of(a.kind.as_str()).as_slice(), chars_of(kind).as_slice())
}

fn same_text(a: &str, b: &str) -> (r: bool)
    ensures
        r == (a@ == b@),
{
    crate::text::text_eq(chars_of(a).as_slice(), chars_of(b).as_slice())
}

/// Validates every network action before any of them runs, for a device of
/// class `device_class` whose PortMaster root is `portmaster_root`.
pub fn validate_network_actions(
    device_class: &str,
    portmaster_root: Option<&str>,
    actions: &Vec<ServiceAction>,
) -> (r: Result<ValidatedNetworkActions, &'static str>)
    ensures
        ({
            let acts = actions@.map_values(|a: ServiceAction| action_view(a));
            match r {
                Err(e) => network_verdict(acts, device_class@, opt_view(portmaster_root)) == Err::<
                    (bool, bool, Option<int>),
                    Seq<char>,
                >(e@),
                Ok(ValidatedNetworkActions::Runtimes(names)) => network_verdict(acts, device_class@, opt_view(portmaster_root))
                    == Ok::<(bool, bool, Option<int>), Seq<char>>((false, false, None)) && names@.map_values(
                    |s: String| s@,
                ) == acts.map_values(|a: (Seq<char>, Seq<char>)| a.1) && acts.len() > 0,
                Ok(ValidatedNetworkActions::PortMaster { action, risk_ack, support_ack }) => network_verdict(
                    acts,
                    device_class@,
                    opt_view(portmaster_root),
                ) == Ok::<(bool, bool, Option<int>), Seq<char>>((risk_ack, support_ack, Some(acts.len() - 1)))
                    && action_view(action) == acts[acts.len() - 1],
            }
        }),
{
    let ghost acts = actions@.map_values(|a: ServiceAction| action_view(a));
    let mut any_runtime = false;
    let mut all_runtime = true;
    let mut i: usize = 0;
    while i < actions.len()
        invariant
            i <= actions.len(),
            acts == actions@.map_values(|a: ServiceAction| action_view(a)),
            any_runtime == exists|k: int| 0 <= k < i && #[trigger] acts[k].0 == "INSTALL_RUNTIME"@,
            all_runtime == forall|k: int| 0 <= k < i ==> #[trigger] acts[k].0 == "INSTALL_RUNTIME"@,
        decreases actions.len() - i,
    {
        let runtime = is_kind(&actions[i], "INSTALL_RUNTIME");
        assert(acts[i as int].0 == actions[i as int].kind@);
        proof {
            if runtime {
                assert(acts[i as int].0 == "INSTALL_RUNTIME"@);
            }
        }
        any_runtime = any_runtime || runtime;
        all_runtime = all_runtime && runtime;
        i += 1;
    }
    if any_runtime {
        if !all_runtime {
            return Err("mixed-network-actions");
        }
        let mut names: Vec<String> = Vec::new();
        let mut j: usize = 0;
        while j < actions.len()
            invariant
                j <= actions.len(),
                acts == actions@.map_values(|a: ServiceAction| action_view(a)),
                names@.map_values(|s: String| s@) == acts.subrange(0, j as int).map_values(|a: (Seq<char>, Seq<char>)| a.1),
            decreases actions.len() - j,
        {
            let ghost before = names@;
            let argument = actions[j].argument.clone();
            assert(argument@ == actions[j as int].argument@);
            names.push(argument);
            assert(acts[j as int] == action_view(actions[j as int]));
            assert(acts.subrange(0, j + 1) =~= acts.subrange(0, j as int).push(acts[j as int]));
            assert(names@.map_values(|s: String| s@) =~= before.map_values(|s: String| s@).push(argument@));
            assert(acts.subrange(0, j + 1).map_values(|a: (Seq<char>, Seq<char>)| a.1) =~= acts.subrange(
                0,
                j as int,
            ).map_values(|a: (Seq<char>, Seq<char>)| a.1).push(acts[j as int].1));
            assert(names@.map_values(|s: String| s@) =~= acts.subrange(0, j + 1).map_values(
                |a: (Seq<char>, Seq<char>)| a.1,
            ));
            j += 1;
        }
        assert(acts.subrange(0, actions.len() as int) =~= acts);
        return Ok(ValidatedNetworkActions::Runtimes(names));
    }
    assert(!exists|k: int| 0 <= k < acts.len() && #[trigger] acts[k].0 == "INSTALL_RUNTIME"@);
    let mut risk_ack = false;
    let mut support_ack = false;
    let mut install: Option<usize> = None;
    let mut k: usize = 0;
    while k < actions.len()
        invariant
            k <= actions.len(),
            acts == actions@.map_values(|a: ServiceAction| action_view(a)),
            !exists|x: int| 0 <= x < acts.len() && #[trigger] acts[x].0 == "INSTALL_RUNTIME"@,
            ack_scan(acts, k as int, device_class@, opt_view(portmaster_root)) == Ok::<
                (bool, bool, Option<int>),
                Seq<char>,
            >((risk_ack, support_ack, match install {
                Some(x) => Some(x as int),
                None => None,
            })),
        decreases actions.len() - k,
    {
        let action = &actions[k];
        assert(acts[k as int] == action_view(*action));
        let kind_risk = is_kind(action, "ACK_DEVICE_RISK");
        let kind_support = is_kind(action, "ACK_DEVICE_SUPPORT");
        let kind_install = is_kind(action, "INSTALL_PORTMASTER");
        if kind_risk && install.is_none() && !risk_ack && same_text(action.argument.as_str(), device_class) && (
        same_text(action.argument.as_str(), "official-untested") || same_text(action.argument.as_str(), "unsupported-known")) {
            risk_ack = true;
        } else if kind_support && install.is_none() && !support_ack && same_text(device_class, "unsupported-known")
            && match portmaster_root {
            Some(root) => crate::storage::path_eq(chars_of(root).as_slice(), chars_of(action.argument.as_str()).as_slice()),
            None => false,
        } {
            support_ack = true;
        } else if kind_install && install.is_none() && k + 1 == actions.len() && same_text(action.argument.as_str(), "stable") {
            install = Some(k);
        } else {
            let e = if kind_risk {
                "invalid-device-ack"
            } else if kind_support {
                "invalid-support-ack"
            } else if kind_install {
                "invalid-portmaster-action"
            } else {
                "unknown-action"
            };
            assert(ack_scan(acts, k + 1, device_class@, opt_view(portmaster_root)) == Err::<
                (bool, bool, Option<int>),
                Seq<char>,
            >(e@));
            proof {
                lemma_scan_error_stays(acts, k + 1, acts.len() as int, device_class@, opt_view(portmaster_root));
            }
            return Err(e);
        }
        k += 1;
    }
    let index = match install {
        Some(x) => x,
        None => return Err("missing-portmaster-action"),
    };
    let fits = if same_text(device_class, "tested") {
        !risk_ack && !support_ack
    } else if same_text(device_class, "official-untested") {
        risk_ack && !support_ack
    } else if same_text(device_class, "unsupported-known") {
        risk_ack && support_ack
    } else {
        return Err("unsupported-device");
    };
    if !fits {
        return Err("invalid-device-ack-set");
    }
    proof {
        assert(index == actions.len() - 1) by {
            lemma_install_is_last(acts, actions.len() as int, device_class@, opt_view(portmaster_root));
        }
    }
    let last = &actions[index];
    Ok(ValidatedNetworkActions::PortMaster {
        action: ServiceAction { kind: last.kind.clone(), argument: last.argument.clone() },
        risk_ack,
        support_ack,
    })
}

proof fn lemma_scan_error_stays(
    actions: Seq<(Seq<char>, Seq<char>)>,
    n: int,
    m: int,
    device_class: Seq<char>,
    root: Option<Seq<char>>,
)
    requires
        0 < n <= m,
        ack_scan(actions, n, device_class, root) is Err,
    ensures
        ack_scan(actions, m, device_class, root) == ack_scan(actions, n, device_class, root),
    decreases m - n,
{
    if m > n {
        lemma_scan_error_stays(actions, n, m - 1, device_class, root);
    }
}

proof fn lemma_install_is_last(
    actions: Seq<(Seq<char>, Seq<char>)>,
    n: int,
    device_class: Seq<char>,
    root: Option<Seq<char>>,
)
    requires
        0 <= n <= actions.len(),
        ack_scan(actions, n, device_class, root) is Ok,
    ensures
        ack_scan(actions, n, device_class, root) matches Ok((_, _, Some(i))) ==> i == actions.len() - 1
            && n == actions.len(),
    decreases n,
{
    if n > 0 {
        lemma_install_is_last(actions, n - 1, device_class, root);
    }
}

// ---------------------------------------------------------------------------
// Embedded tasks.

/// The tasks the embedded UI can start.
#[derive(Clone, Copy, Debug, PartialEq, Eq, Structural)]
pub enum EmbeddedTask {
    InitialSnapshot,
    Apply,
    UpdateCheck,
    InventoryRefresh,
    ScanZips,
    InstallZips,
}

pub open spec fn task_named(kind: Seq<char>) -> Option<EmbeddedTask> {
    if kind == "initial-snapshot"@ {
        Some(EmbeddedTask::InitialSnapshot)
    } else if kind == "apply"@ {
        Some(EmbeddedTask::Apply)
    } else if kind == "update-check"@ {
        Some(EmbeddedTask::UpdateCheck)
    } else if kind == "inventory-refresh"@ {
        Some(EmbeddedTask::InventoryRefresh)
    } else if kind == "scan-zips"@ {
        Some(EmbeddedTask::ScanZips)
    } else if kind == "install-zips"@ {
        Some(EmbeddedTask::InstallZips)
    } else {
        None
    }
}

/// The task a kind names.
pub fn embedded_task(kind: &str) -> (r: Result<EmbeddedTask, String>)
    ensures
        match r {
            Ok(t) => task_named(kind@) == Some(t),
            Err(e) => task_named(kind@) is None && e@ == "unsupported APP Manager task "@ + debug_text(kind@),
        },
{
    let k = chars_of(kind);
    if eq_lit(k.as_slice(), "initial-snapshot") {
        Ok(EmbeddedTask::InitialSnapshot)
    } else if eq_lit(k.as_slice(), "apply") {
        Ok(EmbeddedTask::Apply)
    } else if eq_lit(k.as_slice(), "update-check") {
        Ok(EmbeddedTask::UpdateCheck)
    } else if eq_lit(k.as_slice(), "inventory-refresh") {
        Ok(EmbeddedTask::InventoryRefresh)
    } else if eq_lit(k.as_slice(), "scan-zips") {
        Ok(EmbeddedTask::ScanZips)
    } else if eq_lit(k.as_slice(), "install-zips") {
        Ok(EmbeddedTask::InstallZips)
    } else {
        let mut out = chars_of("unsupported APP Manager task ");
        push_all(&mut out, chars_of(debug_quote(kind).as_str()).as_slice());
        Err(string_of(out.as_slice()))
    }
}

/// A failed APP Manager task forgets the health facts it may have
/// invalidated: an inventory refresh always, a failed apply too.
pub fn task_clears_health(task: EmbeddedTask, failed: bool) -> (r: bool)
    ensures
        r == (task == EmbeddedTask::InventoryRefresh || (task == EmbeddedTask::Apply && failed)),
{
    match task {
        EmbeddedTask::InventoryRefresh => true,
        EmbeddedTask::Apply => failed,
        _ => false,
    }
}

/// Where the snapshot after a task takes its inventory from.
#[derive(Clone, Copy, Debug, PartialEq, Eq, Structural)]
pub enum InventorySource {
    /// The inventory the task itself persisted.
    Persisted,
    /// The inventory of the cached snapshot.
    Cached,
    /// A new scan.
    Scanned,
}

/// After an apply or a refresh the snapshot reuses the inventory the task
/// persisted; after an update check, the cached one; otherwise it scans.
pub fn inventory_source(task: EmbeddedTask) -> (r: InventorySource)
    ensures
        r == (if task == EmbeddedTask::Apply || task == EmbeddedTask::InventoryRefresh {
            InventorySource::Persisted
        } else if task == EmbeddedTask::UpdateCheck {
            InventorySource::Cached
        } else {
            InventorySource::Scanned
        }),
{
    match task {
        EmbeddedTask::Apply | EmbeddedTask::InventoryRefresh => InventorySource::Persisted,
        EmbeddedTask::UpdateCheck => InventorySource::Cached,
        _ => InventorySource::Scanned,
    }
}

/// Most archives one install task takes.
pub const MAX_ZIP_INSTALL_BUNDLES: usize = 32;

/// An install task takes at most 32 archives, each by an `INSTALL_ZIP` action.
pub fn check_zip_install_payload(actions: &Vec<EmbeddedAction>) -> (r: Result<(), String>)
    ensures
        actions.len() > MAX_ZIP_INSTALL_BUNDLES ==> (r matches Err(e) && e@ == "too many zip bundles selected"@),
        actions.len() <= MAX_ZIP_INSTALL_BUNDLES ==> (r is Ok <==> forall|i: int|
            0 <= i < actions.len() ==> (#[trigger] actions@[i]).kind@ == "INSTALL_ZIP"@),
        actions.len() <= MAX_ZIP_INSTALL_BUNDLES && r is Err ==> (r matches Err(e) && e@
            == "invalid zip install task payload"@),
{
    if actions.len() > MAX_ZIP_INSTALL_BUNDLES {
        return Err("too many zip bundles selected".to_owned());
    }
    let mut i: usize = 0;
    while i < actions.len()
        invariant
            i <= actions.len(),
            actions.len() <= MAX_ZIP_INSTALL_BUNDLES,
            forall|j: int| 0 <= j < i ==> (#[trigger] actions@[j]).kind@ == "INSTALL_ZIP"@,
        decreases actions.len() - i,
    {
        if !eq_lit(chars_of(actions[i].kind.as_str()).as_slice(), "INSTALL_ZIP") {
            return Err("invalid zip install task payload".to_owned());
        }
        i += 1;
    }
    Ok(())
}

/// The counts an install task reports.
#[derive(Clone, Copy, Debug, Default, PartialEq, Eq)]
pub struct ZipInstallTally {
    pub selected_bundles: usize,
    pub installed_bundles: usize,
    pub installed_items: usize,
    pub conflicted_bundles: usize,
    pub conflicts: usize,
    pub failed_bundles: usize,
}

impl ZipInstallTally {
    pub fn new(selected_bundles: usize) -> (r: ZipInstallTally)
        ensures
            r == (ZipInstallTally {
                selected_bundles,
                installed_bundles: 0,
                installed_items: 0,
                conflicted_bundles: 0,
                conflicts: 0,
                failed_bundles: 0,
            }),
    {
        ZipInstallTally {
            selected_bundles,
            installed_bundles: 0,
            installed_items: 0,
            conflicted_bundles: 0,
            conflicts: 0,
            failed_bundles: 0,
        }
    }

    /// Counts one archive that was processed: it installed something, or
    /// only met conflicts.
    pub fn record_outcome(&mut self, installed: usize, conflicts: usize)
        requires
            old(self).installed_bundles < usize::MAX,
            old(self).conflicted_bundles < usize::MAX,
            old(self).installed_items + installed <= usize::MAX,
            old(self).conflicts + conflicts <= usize::MAX,
        ensures
            final(self).selected_bundles == old(self).selected_bundles,
            final(self).failed_bundles == old(self).failed_bundles,
            final(self).installed_items == old(self).installed_items + installed,
            final(self).conflicts == old(self).conflicts + conflicts,
            final(self).installed_bundles == old(self).installed_bundles + (if installed > 0 { 1int } else { 0int }),
            final(self).conflicted_bundles == old(self).conflicted_bundles + (if installed == 0 && conflicts > 0 {
                1int
            } else {
                0int
            }),
    {
        if installed == 0 && conflicts > 0 {
            self.conflicted_bundles += 1;
        } else if installed > 0 {
            self.installed_bundles += 1;
        }
        self.installed_items += installed;
        self.conflicts += conflicts;
    }

    /// Counts one archive whose install failed.
    pub fn record_failure(&mut self)
        requires
            old(self).failed_bundles < usize::MAX,
        ensures
            *final(self) == (ZipInstallTally { failed_bundles: (old(self).failed_bundles + 1) as usize, ..*old(self) }),
    {
        self.failed_bundles += 1;
    }
}

/// Capabilities of the device configuration: names with their state, at
/// most one entry per name.
pub open spec fn capability_on(caps: Seq<(String, bool)>, name: Seq<char>) -> bool {
    exists|i: int| 0 <= i < caps.len() && (#[trigger] caps[i]).0@ == name && caps[i].1
}

fn capability_enabled(caps: &Vec<(String, bool)>, name: &str) -> (r: bool)
    ensures
        r == capability_on(caps@, name@),
{
    let n = chars_of(name);
    let mut i: usize = 0;
    while i < caps.len()
        invariant
            i <= caps.len(),
            n@ == name@,
            forall|j: int| 0 <= j < i ==> !((#[trigger] caps@[j]).0@ == name@ && caps@[j].1),
        decreases caps.len() - i,
    {
        if caps[i].1 && crate::text::text_eq(chars_of(caps[i].0.as_str()).as_slice(), n.as_slice()) {
            return true;
        }
        i += 1;
    }
    false
}

/// An archive kind may be installed only when the device configuration
/// enables its capability: `install_ports` for a Port, `install_apps` for a
/// TrimUI app.
pub fn require_bundle_capability(capabilities: &Vec<(String, bool)>, kind: &str) -> (r: Result<(), String>)
    ensures
        kind@ != "port"@ && kind@ != "trimui_app"@ ==> (r matches Err(e) && e@ == "unsupported zip bundle"@),
        kind@ == "port"@ ==> (r is Ok <==> capability_on(capabilities@, "install_ports"@)),
        kind@ == "trimui_app"@ ==> (r is Ok <==> capability_on(capabilities@, "install_apps"@)),
        (kind@ == "port"@ || kind@ == "trimui_app"@) ==> (r matches Err(e) ==> e@ == kind@
            + " installation is disabled by device configuration"@),
{
    let k = chars_of(kind);
    proof {
        reveal_strlit("port");
        reveal_strlit("trimui_app");
    }
    let capability = if eq_lit(k.as_slice(), "port") {
        "install_ports"
    } else if eq_lit(k.as_slice(), "trimui_app") {
        "install_apps"
    } else {
        return Err("unsupported zip bundle".to_owned());
    };
    assert("port"@.len() == 4);
    assert("trimui_app"@.len() == 10);
    assert(kind@ == "trimui_app"@ ==> k@ != "port"@);
    assert(kind@ == "trimui_app"@ ==> capability@ == "install_apps"@);
    assert(kind@ == "port"@ ==> capability@ == "install_ports"@);
    if capability_enabled(capabilities, capability) {
        Ok(())
    } else {
        let mut out = k;
        push_lit(&mut out, " installation is disabled by device configuration");
        Err(string_of(out.as_slice()))
    }
}

/// Archive scans need at least one install capability.
pub fn require_scan_capability(capabilities: &Vec<(String, bool)>) -> (r: Result<(), String>)
    ensures
        r is Ok <==> (capability_on(capabilities@, "install_ports"@) || capability_on(capabilities@, "install_apps"@)),
        r matches Err(e) ==> e@ == "bundle installation is disabled by device configuration"@,
{
    if !capability_enabled(capabilities, "install_ports") && !capability_enabled(capabilities, "install_apps") {
        return Err("bundle installation is disabled by device configuration".to_owned());
    }
    Ok(())
}

/// A location managed for TrimUI apps.
#[derive(Clone, Debug)]
pub struct AppLocation {
    pub path: String,
    /// The location takes installs.
    pub install: bool,
    /// The location holds TrimUI apps.
    pub trimui_apps: bool,
    pub priority: i64,
}

pub open spec fn app_install_location(l: AppLocation) -> bool {
    l.install && l.trimui_apps
}

/// `l` is an install location for apps whose priority no other one exceeds.
pub open spec fn top_app_location(ls: Seq<AppLocation>, l: AppLocation) -> bool {
    app_install_location(l) && forall|k: int| 0 <= k < ls.len() && app_install_location(#[trigger] ls[k]) ==> ls[k].priority <= l.priority
}

/// The install locations for TrimUI apps with the highest priority, in
/// their order.
pub open spec fn top_app_locations(ls: Seq<AppLocation>) -> Seq<Seq<char>> {
    ls.filter(|l: AppLocation| top_app_location(ls, l)).map_values(|l: AppLocation| l.path@)
}

/// Where TrimUI apps may be installed: the install locations for apps with
/// the highest priority. More than one means the configuration is
/// ambiguous, which an install refuses.
pub fn app_install_targets(locations: &Vec<AppLocation>) -> (r: Vec<String>)
    ensures
        r@.map_values(|s: String| s@) == top_app_locations(locations@),
{
    let ghost ls = locations@;
    let mut best: Option<i64> = None;
    let mut i: usize = 0;
    while i < locations.len()
        invariant
            i <= locations.len(),
            ls == locations@,
            best is None ==> forall|k: int| 0 <= k < i ==> !app_install_location(#[trigger] ls[k]),
            best matches Some(b) ==> (exists|k: int| 0 <= k < i && app_install_location(#[trigger] ls[k]) && ls[k].priority == b)
                && forall|k: int| 0 <= k < i && app_install_location(#[trigger] ls[k]) ==> ls[k].priority <= b,
        decreases locations.len() - i,
    {
        let l = &locations[i];
        if l.install && l.trimui_apps {
            best = match best {
                None => Some(l.priority),
                Some(b) => if l.priority > b { Some(l.priority) } else { Some(b) },
            };
        }
        i += 1;
    }
    let mut out: Vec<String> = Vec::new();
    let mut j: usize = 0;
    while j < locations.len()
        invariant
            j <= locations.len(),
            ls == locations@,
            best is None ==> forall|k: int| 0 <= k < ls.len() ==> !app_install_location(#[trigger] ls[k]),
            best matches Some(b) ==> (exists|k: int| 0 <= k < ls.len() && app_install_location(#[trigger] ls[k]) && ls[k].priority == b)
                && forall|k: int| 0 <= k < ls.len() && app_install_location(#[trigger] ls[k]) ==> ls[k].priority <= b,
            out@.map_values(|s: String| s@) == ls.subrange(0, j as int).filter(|l: AppLocation| top_app_location(ls, l)).map_values(|l: AppLocation| l.path@),
        decreases locations.len() - j,
    {
        let l = &locations[j];
        let top = match best {
            Some(b) => l.install && l.trimui_apps && l.priority == b,
            None => false,
        };
        proof {
            assert(ls.subrange(0, j + 1).drop_last() =~= ls.subrange(0, j as int));
            ls.subrange(0, j as int).lemma_filter_push(ls[j as int], |l: AppLocation| top_app_location(ls, l));
            assert(ls.subrange(0, j + 1) =~= ls.subrange(0, j as int).push(ls[j as int]));
            assert(top == top_app_location(ls, ls[j as int])) by {
                if top_app_location(ls, ls[j as int]) {
                    let b = best->0;
                    let k = choose|k: int| 0 <= k < ls.len() && app_install_location(#[trigger] ls[k]) && ls[k].priority == b;
                    assert(ls[k].priority <= ls[j as int].priority);
                }
            }
        }
        if top {
            let ghost before = out@;
            out.push(l.path.clone());
            assert(out@.map_values(|s: String| s@) =~= before.map_values(|s: String| s@).push(l.path@));
        }
        proof {
            let f = ls.subrange(0, j + 1).filter(|l: AppLocation| top_app_location(ls, l));
            let g = ls.subrange(0, j as int).filter(|l: AppLocation| top_app_location(ls, l));
            if top {
                assert(f.map_values(|l: AppLocation| l.path@) =~= g.map_values(|l: AppLocation| l.path@).push(ls[j as int].path@));
            } else {
                assert(f =~= g);
            }
        }
        j += 1;
    }
    assert(ls.subrange(0, ls.len() as int) =~= ls);
    out
}

// ---------------------------------------------------------------------------
// Stable release metadata.

pub open spec fn spec_is_hex_digit(c: char) -> bool {
    ('0' <= c && c <= '9') || ('a' <= c && c <= 'f') || ('A' <= c && c <= 'F')
}

/// The stable release row: `VERSION<TAB>URL<TAB>MD5` (trailing white space
/// ignored), where the version has only version characters, the URL is on
/// GitHub and the MD5 is 32 hexadecimal digits, given in lower case.
pub open spec fn release_row(contents: Seq<char>) -> Option<(Seq<char>, Seq<char>, Seq<char>)> {
    let f = split_spec(crate::text::trim_end_spec(contents), '\t');
    if f.len() != 3 || safe_version_text(f[0]) != f[0] || !crate::text::is_prefix("https://github.com/"@, f[1])
        || f[2].len() != 32 || !(forall|i: int| 0 <= i < f[2].len() ==> spec_is_hex_digit(#[trigger] f[2][i])) {
        None
    } else {
        Some((f[0], f[1], f[2].map_values(|c: char| crate::text::spec_lower(c))))
    }
}

/// Parses the stable release row (the contents of its file).
pub fn parse_release_row(contents: &str) -> (r: Result<(String, String, String), String>)
    ensures
        match r {
            Ok((version, url, md5)) => release_row(contents@) == Some((version@, url@, md5@)),
            Err(e) => release_row(contents@) is None && e@ == "invalid stable release metadata"@,
        },
{
    let t = chars_of(contents);
    let n = t.len();
    let mut end = n;
    assert(t@.subrange(0, n as int) =~= t@);
    while end > 0 && crate::text::is_whitespace(t[end - 1])
        invariant
            end <= n,
            n == t.len(),
            crate::text::trim_end_spec(t@) == crate::text::trim_end_spec(t@.subrange(0, end as int)),
        decreases end,
    {
        assert(t@.subrange(0, end as int).drop_last() =~= t@.subrange(0, end - 1));
        end -= 1;
    }
    let trimmed_end = crate::text::slice(t.as_slice(), 0, end);
    assert(crate::text::trim_end_spec(t@) == trimmed_end@);
    let fields = split_char(trimmed_end.as_slice(), '\t');
    let ghost f = fields@.map_values(|v: Vec<char>| v@);
    assert(f.len() == fields.len());
    if fields.len() != 3 {
        return Err("invalid stable release metadata".to_owned());
    }
    assert(f[0] == fields[0]@ && f[1] == fields[1]@ && f[2] == fields[2]@);
    let version = string_of(fields[0].as_slice());
    let safe = safe_version(version.as_str());
    let ok_version = crate::text::text_eq(chars_of(safe.as_str()).as_slice(), fields[0].as_slice());
    let ok_url = crate::text::starts_with_lit(fields[1].as_slice(), "https://github.com/");
    let digest = &fields[2];
    let mut ok_md5 = digest.len() == 32;
    let mut i: usize = 0;
    while i < digest.len()
        invariant
            i <= digest.len(),
            ok_md5 == (digest@.len() == 32 && forall|j: int| 0 <= j < i ==> spec_is_hex_digit(#[trigger] digest@[j])),
        decreases digest.len() - i,
    {
        let c = digest[i];
        if !(('0' <= c && c <= '9') || ('a' <= c && c <= 'f') || ('A' <= c && c <= 'F')) {
            ok_md5 = false;
        }
        i += 1;
    }
    if !ok_version || !ok_url || !ok_md5 {
        return Err("invalid stable release metadata".to_owned());
    }
    let lower = crate::text::to_ascii_lowercase(digest.as_slice());
    Ok((version, string_of(fields[1].as_slice()), string_of(lower.as_slice())))
}

} // verus!
