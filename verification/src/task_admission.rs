//! Which task requests the embedded service admits. A request names a task
//! kind, may carry actions and an expected inventory revision; the service
//! runs one foreground task and one background check at a time.
use vstd::prelude::*;

use crate::entry_names::{debug_quote, debug_text};
use crate::launcher::EmbeddedAction;
use crate::text::{chars_of, eq_lit, push_all, push_lit, string_of};

verus! {

/// Where an admitted task runs.
#[derive(Clone, Copy, Debug, PartialEq, Eq, Structural)]
pub enum TaskLane {
    /// The background refresh of the device configuration.
    ConfigRefresh,
    /// The background PortMaster update check.
    UpdateCheck,
    /// The foreground task lane.
    Foreground,
}

/// Longest archive password, in bytes.
pub const MAX_PASSWORD_BYTES: usize = 1024;

pub open spec fn payload_message(kind: Seq<char>) -> Seq<char> {
    "task "@ + debug_text(kind) + " does not accept a payload"@
}

/// A password is accepted only on an `INSTALL_ZIP` action of an
/// `install-zips` task, and only up to 1024 bytes.
pub open spec fn password_refused(kind: Seq<char>, a: EmbeddedAction) -> bool {
    a.password matches Some(p) && (kind != "install-zips"@ || a.kind@ != "INSTALL_ZIP"@ || p.byte_len() > MAX_PASSWORD_BYTES)
}

pub open spec fn refused_among(kind: Seq<char>, actions: Seq<EmbeddedAction>) -> bool {
    exists|i: int| 0 <= i < actions.len() && password_refused(kind, #[trigger] actions[i])
}

pub open spec fn some_password_refused(kind: Seq<char>, actions: Option<Vec<EmbeddedAction>>) -> bool {
    actions matches Some(v) && refused_among(kind, v@)
}

fn payload_error(kind: &str) -> (r: String)
    ensures
        r@ == payload_message(kind@),
{
    let mut out = chars_of("task ");
    push_all(&mut out, chars_of(debug_quote(kind).as_str()).as_slice());
    push_lit(&mut out, " does not accept a payload");
    proof {
        reveal_strlit("task ");
    }
    string_of(out.as_slice())
}

/// The lane of a task request, before any lane is taken: the two background
/// checks take no payload; otherwise every password must be acceptable, and
/// a manual update check waits for the automatic one.
pub fn task_lane(
    kind: &str,
    actions: &Option<Vec<EmbeddedAction>>,
    expected_revision: &Option<String>,
    update_check_running: bool,
) -> (r: Result<TaskLane, String>)
    ensures
        (kind@ == "config-refresh-if-newer"@ || kind@ == "update-check-if-stale"@) ==> if actions is Some
            || expected_revision is Some {
            r matches Err(e) && e@ == payload_message(kind@)
        } else {
            r == Ok::<TaskLane, String>(
                if kind@ == "config-refresh-if-newer"@ {
                    TaskLane::ConfigRefresh
                } else {
                    TaskLane::UpdateCheck
                },
            )
        },
        !(kind@ == "config-refresh-if-newer"@ || kind@ == "update-check-if-stale"@) ==> if some_password_refused(
            kind@,
            *actions,
        ) {
            r matches Err(e) && e@ == "archive passwords are accepted only by INSTALL_ZIP and must be at most 1024 bytes"@
        } else if kind@ == "update-check"@ && update_check_running {
            r matches Err(e) && e@ == "the automatic PortMaster update check is already running"@
        } else {
            r == Ok::<TaskLane, String>(TaskLane::Foreground)
        },
{
    let k = chars_of(kind);
    let refresh = eq_lit(k.as_slice(), "config-refresh-if-newer");
    let stale_check = eq_lit(k.as_slice(), "update-check-if-stale");
    if refresh || stale_check {
        if actions.is_some() || expected_revision.is_some() {
            return Err(payload_error(kind));
        }
        return Ok(if refresh { TaskLane::ConfigRefresh } else { TaskLane::UpdateCheck });
    }
    if let Some(v) = actions {
        let install_zips = eq_lit(k.as_slice(), "install-zips");
        let mut i: usize = 0;
        while i < v.len()
            invariant
                i <= v.len(),
                *actions == Some(*v),
                k@ == kind@,
                install_zips == (kind@ == "install-zips"@),
                !(kind@ == "config-refresh-if-newer"@ || kind@ == "update-check-if-stale"@),
                forall|j: int| 0 <= j < i ==> !password_refused(kind@, #[trigger] v@[j]),
            decreases v.len() - i,
        {
            let a = &v[i];
            if let Some(p) = &a.password {
                let zip_action = eq_lit(chars_of(a.kind.as_str()).as_slice(), "INSTALL_ZIP");
                if !install_zips || !zip_action || p.len() > MAX_PASSWORD_BYTES {
                    assert(password_refused(kind@, v@[i as int]));
                    assert(refused_among(kind@, v@));
                    return Err("archive passwords are accepted only by INSTALL_ZIP and must be at most 1024 bytes".to_owned());
                }
            }
            i += 1;
        }
    }
    if eq_lit(k.as_slice(), "update-check") && update_check_running {
        return Err("the automatic PortMaster update check is already running".to_owned());
    }
    Ok(TaskLane::Foreground)
}

/// The foreground tasks.
pub open spec fn supported_task(kind: Seq<char>) -> bool {
    ||| kind == "initial-snapshot"@
    ||| kind == "apply"@
    ||| kind == "update-check"@
    ||| kind == "inventory-refresh"@
    ||| kind == "scan-zips"@
    ||| kind == "install-zips"@
}

pub open spec fn hex_digit(c: char) -> bool {
    ('0' <= c && c <= '9') || ('a' <= c && c <= 'f') || ('A' <= c && c <= 'F')
}

/// An inventory revision as `apply` needs it: 64 hexadecimal digits.
pub open spec fn revision_given(r: Option<String>) -> bool {
    r matches Some(s) && s@.len() == 64 && forall|i: int| 0 <= i < s@.len() ==> hex_digit(#[trigger] s@[i])
}

/// The payload check of a foreground task, once the lane is taken: `apply`
/// and `install-zips` need actions and the others take none; the kind must
/// be a foreground task; `apply` needs the revision its actions were chosen
/// at, and no other task takes one.
pub fn check_task_payload(kind: &str, actions: &Option<Vec<EmbeddedAction>>, expected_revision: &Option<String>) -> (r: Result<(), String>)
    ensures
        (kind@ == "apply"@ || kind@ == "install-zips"@) && !(actions matches Some(v) && v.len() > 0) ==> (r matches Err(e) && e@
            == "APP Manager action list is empty"@),
        !(kind@ == "apply"@ || kind@ == "install-zips"@) && (actions is Some || expected_revision is Some) ==> (r matches Err(e)
            && e@ == payload_message(kind@)),
        (if kind@ == "apply"@ || kind@ == "install-zips"@ {
            actions matches Some(v) && v.len() > 0
        } else {
            actions is None && expected_revision is None
        }) ==> if !supported_task(kind@) {
            r matches Err(e) && e@ == "unsupported APP Manager task "@ + debug_text(kind@)
        } else if kind@ == "apply"@ && !revision_given(*expected_revision) {
            r matches Err(e) && e@ == "apply requires a current inventory revision"@
        } else if kind@ != "apply"@ && expected_revision is Some {
            r matches Err(e) && e@ == "task "@ + debug_text(kind@) + " does not accept an inventory revision"@
        } else {
            r is Ok
        },
{
    let k = chars_of(kind);
    let apply = eq_lit(k.as_slice(), "apply");
    if apply || eq_lit(k.as_slice(), "install-zips") {
        let nonempty = match actions {
            Some(v) => v.len() > 0,
            None => false,
        };
        if !nonempty {
            return Err("APP Manager action list is empty".to_owned());
        }
    } else if actions.is_some() || expected_revision.is_some() {
        return Err(payload_error(kind));
    }
    let supported = eq_lit(k.as_slice(), "initial-snapshot") || apply || eq_lit(k.as_slice(), "update-check") || eq_lit(
        k.as_slice(),
        "inventory-refresh",
    ) || eq_lit(k.as_slice(), "scan-zips") || eq_lit(k.as_slice(), "install-zips");
    if !supported {
        let mut out = chars_of("unsupported APP Manager task ");
        push_all(&mut out, chars_of(debug_quote(kind).as_str()).as_slice());
        proof {
            reveal_strlit("unsupported APP Manager task ");
        }
        return Err(string_of(out.as_slice()));
    }
    if apply {
        let ok = match expected_revision {
            Some(r) => {
                let t = chars_of(r.as_str());
                let mut good = t.len() == 64;
                let mut i: usize = 0;
                while i < t.len()
                    invariant
                        i <= t.len(),
                        t@ == r@,
                        good == (t@.len() == 64 && forall|j: int| 0 <= j < i ==> hex_digit(#[trigger] t@[j])),
                    decreases t.len() - i,
                {
                    let c = t[i];
                    if !(('0' <= c && c <= '9') || ('a' <= c && c <= 'f') || ('A' <= c && c <= 'F')) {
                        good = false;
                    }
                    i += 1;
                }
                good
            },
            None => false,
        };
        if !ok {
            return Err("apply requires a current inventory revision".to_owned());
        }
    } else if expected_revision.is_some() {
        let mut out = chars_of("task ");
        push_all(&mut out, chars_of(debug_quote(kind).as_str()).as_slice());
        push_lit(&mut out, " does not accept an inventory revision");
        proof {
            reveal_strlit("task ");
        }
        return Err(string_of(out.as_slice()));
    }
    Ok(())
}

} // verus!
