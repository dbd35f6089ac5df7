//! Decisions read from the device configuration and the PortMaster health
//! report: which Runtime architecture the device uses, how healthy the core
//! and its Python are, and which system library groups are usable.
use vstd::prelude::*;

use crate::entry_names::{debug_quote, debug_text};
use crate::text::{chars_of, eq_lit, push_all, push_lit, string_of, text_eq, to_ascii_lowercase};
use crate::textset::TextSet;

verus! {

/// One entry of the configuration's Runtime architecture map: the Runtime
/// architecture id, when the entry has one, and the system architecture
/// names it stands for.
#[derive(Clone, Debug)]
pub struct RuntimeArchitecture {
    pub id: Option<String>,
    pub system_names: Vec<String>,
}

pub open spec fn lowered(s: Seq<char>) -> Seq<char> {
    s.map_values(|c: char| crate::text::spec_lower(c))
}

/// The entry names `arch` among its system names.
pub open spec fn names_arch(entry: RuntimeArchitecture, arch: Seq<char>) -> bool {
    exists|j: int| 0 <= j < entry.system_names.len() && #[trigger] entry.system_names@[j]@ == arch
}

/// The first entry that names `arch`.
pub open spec fn first_naming(map: Seq<RuntimeArchitecture>, arch: Seq<char>, n: int) -> Option<int>
    decreases n,
{
    if n <= 0 {
        None
    } else {
        match first_naming(map, arch, n - 1) {
            Some(i) => Some(i),
            None => if names_arch(map[n - 1], arch) {
                Some(n - 1)
            } else {
                None
            },
        }
    }
}

pub open spec fn no_mapping_message(arch: Seq<char>) -> Seq<char> {
    "device architecture "@ + crate::entry_names::debug_text(arch) + " has no configured Runtime mapping"@
}

/// The Runtime architecture of a device whose system reports `system_arch`
/// (compared in ASCII lower case): the id of the first map entry that names
/// it.
pub fn configured_runtime_arch(architectures: Option<&Vec<RuntimeArchitecture>>, system_arch: &str) -> (r: Result<String, String>)
    ensures
        architectures is None ==> (r matches Err(e) && e@ == "device configuration has no Runtime architecture map"@),
        architectures matches Some(map) ==> match first_naming(map@, lowered(system_arch@), map@.len() as int) {
            Some(i) => match map@[i].id {
                Some(id) => r matches Ok(a) && a@ == id@,
                None => r matches Err(e) && e@ == no_mapping_message(lowered(system_arch@)),
            },
            None => r matches Err(e) && e@ == no_mapping_message(lowered(system_arch@)),
        },
{
    let map = match architectures {
        Some(m) => m,
        None => return Err("device configuration has no Runtime architecture map".to_owned()),
    };
    let arch = to_ascii_lowercase(chars_of(system_arch).as_slice());
    let ghost a = lowered(system_arch@);
    assert(arch@ =~= a);
    let mut i: usize = 0;
    while i < map.len()
        invariant
            i <= map.len(),
            architectures == Some(map),
            arch@ == a,
            a == lowered(system_arch@),
            first_naming(map@, a, i as int) is None,
        decreases map.len() - i,
    {
        let names = &map[i].system_names;
        let mut j: usize = 0;
        let mut hit = false;
        while j < names.len()
            invariant
                j <= names.len(),
                names == map@[i as int].system_names,
                i < map.len(),
                architectures == Some(map),
                first_naming(map@, a, i as int) is None,
                arch@ == a,
                hit == exists|k: int| 0 <= k < j && #[trigger] names@[k]@ == a,
            decreases names.len() - j,
        {
            proof {
                vstd::utf8::encode_utf8_decode_utf8(names@[j as int]@);
            }
            if text_eq(chars_of(names[j].as_str()).as_slice(), arch.as_slice()) {
                hit = true;
            }
            j += 1;
        }
        if hit {
            proof {
                assert(first_naming(map@, a, i + 1) == Some(i as int));
                lemma_first_naming_stays(map@, a, i as int + 1, map@.len() as int);
                lemma_first_naming_bounds(map@, a, map@.len() as int);
            }
            match &map[i].id {
                Some(id) => {
                    let out = id.clone();
                    assert(map@[i as int].id == Some(*id));
                    return Ok(out);
                },
                None => {
                    return Err(no_mapping(arch.as_slice()));
                },
            }
        }
        i += 1;
    }
    Err(no_mapping(arch.as_slice()))
}

proof fn lemma_first_naming_bounds(map: Seq<RuntimeArchitecture>, arch: Seq<char>, n: int)
    ensures
        first_naming(map, arch, n) matches Some(i) ==> 0 <= i < n && names_arch(map[i], arch),
    decreases n,
{
    if n > 0 {
        lemma_first_naming_bounds(map, arch, n - 1);
    }
}

proof fn lemma_first_naming_stays(map: Seq<RuntimeArchitecture>, arch: Seq<char>, n: int, m: int)
    requires
        0 <= n <= m,
        first_naming(map, arch, n) is Some,
    ensures
        first_naming(map, arch, m) == first_naming(map, arch, n),
    decreases m - n,
{
    if m > n {
        lemma_first_naming_stays(map, arch, n, m - 1);
    }
}

fn no_mapping(arch: &[char]) -> (r: String)
    ensures
        r@ == no_mapping_message(arch@),
{
    let quoted = crate::entry_names::debug_quote(string_of(arch).as_str());
    let mut out = chars_of("device architecture ");
    push_all(&mut out, chars_of(quoted.as_str()).as_slice());
    push_lit(&mut out, " has no configured Runtime mapping");
    proof {
        reveal_strlit("device architecture ");
    }
    string_of(out.as_slice())
}

// ---------------------------------------------------------------------------
// Health.

/// The overall status a health report gives the PortMaster core.
#[derive(Clone, Copy, Debug, PartialEq, Eq, Structural)]
pub enum HealthStatus {
    Unresolved,
    Damaged,
    Healthy,
}

/// What the health decision reads of a health report: its status and Python
/// mode, whether the report's Python imports load with the system Python,
/// and whether the report's Python Runtime image has the SquashFS magic.
pub struct HealthReading {
    pub status: HealthStatus,
    pub python_mode: String,
    pub imports_ready: bool,
    pub runtime_image_ok: bool,
}

/// The health shown for the core and its Python.
#[derive(Clone, Copy, Debug, PartialEq, Eq)]
pub struct HealthVerdict {
    pub status: &'static str,
    pub python_ok: bool,
    pub system_python_ok: bool,
}

pub open spec fn status_name(root_exists: bool, report: Option<HealthStatus>) -> Seq<char> {
    if !root_exists {
        "missing"@
    } else {
        match report {
            Some(HealthStatus::Damaged) => "damaged"@,
            Some(HealthStatus::Healthy) => "healthy"@,
            _ => "missing"@,
        }
    }
}

/// The system Python serves the report: its mode does not use the system
/// Python, or the imports load.
pub open spec fn system_python_serves(r: HealthReading) -> bool {
    !(r.python_mode@ == "system"@ || r.python_mode@ == "runtime_mount"@) || r.imports_ready
}

/// Python works in the report's mode: with the system Python, with it or the
/// Runtime image, or without Python; an unknown mode never works.
pub open spec fn python_serves(r: HealthReading) -> bool {
    if r.python_mode@ == "system"@ {
        system_python_serves(r)
    } else if r.python_mode@ == "runtime_mount"@ {
        system_python_serves(r) || r.runtime_image_ok
    } else {
        r.python_mode@.len() == 0
    }
}

/// The health of the core and its Python, given whether the PortMaster root
/// exists and the health report (present whenever the root exists).
pub fn health_verdict(root_exists: bool, report: Option<&HealthReading>) -> (r: HealthVerdict)
    requires
        root_exists ==> report is Some,
    ensures
        r.status@ == status_name(root_exists, match report {
            Some(h) => Some(h.status),
            None => None,
        }),
        r.system_python_ok == (report matches Some(h) && system_python_serves(*h)),
        r.python_ok == (report matches Some(h) && python_serves(*h)),
{
    let status: &'static str = if !root_exists {
        "missing"
    } else {
        match report {
            Some(h) => match h.status {
                HealthStatus::Unresolved => "missing",
                HealthStatus::Damaged => "damaged",
                HealthStatus::Healthy => "healthy",
            },
            None => "missing",
        }
    };
    let (system_python_ok, python_ok) = match report {
        None => (false, false),
        Some(h) => {
            let mode = chars_of(h.python_mode.as_str());
            let system = eq_lit(mode.as_slice(), "system");
            let mount = eq_lit(mode.as_slice(), "runtime_mount");
            let system_ok = !(system || mount) || h.imports_ready;
            let ok = if system {
                system_ok
            } else if mount {
                system_ok || h.runtime_image_ok
            } else {
                mode.len() == 0
            };
            (system_ok, ok)
        },
    };
    HealthVerdict { status, python_ok, system_python_ok }
}

// ---------------------------------------------------------------------------
// System library groups.

/// A frontend transform of the device configuration: its kind and the
/// library group it names, when it names one.
#[derive(Clone, Debug)]
pub struct FrontendTransform {
    pub kind: Option<String>,
    pub library_group: Option<String>,
}

/// The transform exports the library group `g`.
pub open spec fn exports_group(t: FrontendTransform, g: Seq<char>) -> bool {
    &&& t.kind matches Some(k) && k@ == "export_library_group"@
    &&& t.library_group matches Some(n) && n@ == g
}

/// The library groups that the frontend transforms export: only those are
/// probed, since only those does the installer enforce.
pub fn referenced_library_groups(transforms: &Vec<FrontendTransform>) -> (r: TextSet)
    ensures
        r.wf(),
        forall|g: Seq<char>| #[trigger] r.has(g) <==> exists|i: int| 0 <= i < transforms.len() && exports_group(#[trigger] transforms@[i], g),
{
    let mut out = TextSet::new();
    let mut i: usize = 0;
    while i < transforms.len()
        invariant
            i <= transforms.len(),
            out.wf(),
            forall|g: Seq<char>| #[trigger] out.has(g) <==> exists|j: int| 0 <= j < i && exports_group(#[trigger] transforms@[j], g),
        decreases transforms.len() - i,
    {
        let t = &transforms[i];
        let is_export = match &t.kind {
            Some(k) => eq_lit(chars_of(k.as_str()).as_slice(), "export_library_group"),
            None => false,
        };
        if is_export {
            if let Some(name) = &t.library_group {
                out.insert(chars_of(name.as_str()));
                assert forall|g: Seq<char>| #[trigger] out.has(g) <==> exists|j: int| 0 <= j < i + 1 && exports_group(#[trigger] transforms@[j], g) by {
                    if exports_group(transforms@[i as int], g) {
                        assert(g == name@);
                    }
                }
            } else {
                assert forall|g: Seq<char>| #[trigger] out.has(g) <==> exists|j: int| 0 <= j < i + 1 && exports_group(#[trigger] transforms@[j], g) by {
                    assert(!exports_group(transforms@[i as int], g));
                }
            }
        } else {
            assert forall|g: Seq<char>| #[trigger] out.has(g) <==> exists|j: int| 0 <= j < i + 1 && exports_group(#[trigger] transforms@[j], g) by {
                assert(!exports_group(transforms@[i as int], g));
            }
        }
        i += 1;
    }
    out
}

/// `present[c][s]`: the candidate directory `c` holds the soname `s`.
pub open spec fn holds_all(present: Seq<Vec<bool>>, c: int, n: int) -> bool {
    forall|s: int| 0 <= s < n ==> #[trigger] present[c]@[s]
}

/// The first of the first `k` candidates that holds every soname.
pub open spec fn first_complete(present: Seq<Vec<bool>>, n: int, k: int) -> Option<int>
    decreases k,
{
    if k <= 0 {
        None
    } else {
        match first_complete(present, n, k - 1) {
            Some(c) => Some(c),
            None => if holds_all(present, k - 1, n) {
                Some(k - 1)
            } else {
                None
            },
        }
    }
}

/// No candidate holds the soname `s`.
pub open spec fn nowhere(present: Seq<Vec<bool>>, s: int) -> bool {
    forall|c: int| 0 <= c < present.len() ==> !(#[trigger] present[c])@[s]
}

/// The first `k` sonames that no candidate holds, in order.
pub open spec fn missing_sonames(sonames: Seq<String>, present: Seq<Vec<bool>>, k: int) -> Seq<Seq<char>>
    decreases k,
{
    if k <= 0 {
        Seq::empty()
    } else if nowhere(present, k - 1) {
        missing_sonames(sonames, present, k - 1).push(sonames[k - 1]@)
    } else {
        missing_sonames(sonames, present, k - 1)
    }
}

/// The readiness of one library group: the first candidate directory that
/// holds every required soname, and the sonames that no candidate holds.
pub fn library_group_readiness(candidates: &Vec<String>, sonames: &Vec<String>, present: &Vec<Vec<bool>>) -> (r: (
    Option<String>,
    Vec<String>,
))
    requires
        present.len() == candidates.len(),
        forall|c: int| 0 <= c < present.len() ==> (#[trigger] present@[c]).len() == sonames.len(),
    ensures
        match first_complete(present@, sonames.len() as int, present.len() as int) {
            Some(c) => r.0 matches Some(p) && p@ == candidates@[c]@,
            None => r.0 is None,
        },
        r.1@.map_values(|s: String| s@) == missing_sonames(sonames@, present@, sonames.len() as int),
{
    let n = sonames.len();
    let mut found: Option<usize> = None;
    let mut c: usize = 0;
    while c < candidates.len() && found.is_none()
        invariant
            c <= candidates.len(),
            present.len() == candidates.len(),
            n == sonames.len(),
            forall|k: int| 0 <= k < present.len() ==> (#[trigger] present@[k]).len() == sonames.len(),
            found is None ==> first_complete(present@, n as int, c as int) is None,
            found matches Some(k) ==> k < candidates.len() && first_complete(present@, n as int, present.len() as int)
                == Some(k as int),
        decreases candidates.len() - c,
    {
        let row = &present[c];
        let mut s: usize = 0;
        let mut all = true;
        while s < n
            invariant
                s <= n,
                n == sonames.len(),
                row.len() == n,
                row == present@[c as int],
                all == forall|t: int| 0 <= t < s ==> row@[t],
            decreases n - s,
        {
            if !row[s] {
                all = false;
            }
            s += 1;
        }
        if all {
            proof {
                assert(holds_all(present@, c as int, n as int));
                assert(first_complete(present@, n as int, c + 1) == Some(c as int));
                lemma_first_complete_stays(present@, n as int, c + 1, present.len() as int);
            }
            found = Some(c);
        }
        c += 1;
    }
    let selected = match found {
        Some(k) => Some(candidates[k].clone()),
        None => None,
    };
    let mut missing: Vec<String> = Vec::new();
    let mut s: usize = 0;
    while s < n
        invariant
            s <= n,
            n == sonames.len(),
            present.len() == candidates.len(),
            forall|k: int| 0 <= k < present.len() ==> (#[trigger] present@[k]).len() == sonames.len(),
            missing@.map_values(|x: String| x@) == missing_sonames(sonames@, present@, s as int),
        decreases n - s,
    {
        let mut found = false;
        let mut k: usize = 0;
        while k < present.len()
            invariant
                k <= present.len(),
                s < n,
                n == sonames.len(),
                forall|q: int| 0 <= q < present.len() ==> (#[trigger] present@[q]).len() == sonames.len(),
                found == exists|q: int| 0 <= q < k && (#[trigger] present@[q])@[s as int],
            decreases present.len() - k,
        {
            if present[k][s] {
                found = true;
            }
            k += 1;
        }
        if !found {
            missing.push(sonames[s].clone());
        }
        proof {
            assert(found == !nowhere(present@, s as int));
            assert(missing@.map_values(|x: String| x@) =~= missing_sonames(sonames@, present@, s + 1));
        }
        s += 1;
    }
    (selected, missing)
}

proof fn lemma_first_complete_stays(present: Seq<Vec<bool>>, n: int, k: int, m: int)
    requires
        0 <= k <= m,
        first_complete(present, n, k) is Some,
    ensures
        first_complete(present, n, m) == first_complete(present, n, k),
    decreases m - k,
{
    if m > k {
        lemma_first_complete_stays(present, n, k, m - 1);
    }
}

// ---------------------------------------------------------------------------
// Release sources.

/// A release route of the configuration: the name of its manifest
/// endpoint, its archive name, and whether installs are allowed (each when
/// present with the right type).
#[derive(Clone, Debug)]
pub struct ReleaseRoute {
    pub manifest: Option<String>,
    pub archive_name: Option<String>,
    pub install_allowed: Option<bool>,
}

/// Where a PortMaster release comes from.
#[derive(Clone, Debug, PartialEq, Eq)]
pub struct ReleaseSource {
    pub manifest_url: String,
    pub archive_name: String,
    pub install_allowed: bool,
}

/// The first of the first `n` endpoints named `name`.
pub open spec fn endpoint_index(endpoints: Seq<(String, Option<String>)>, name: Seq<char>, n: int) -> Option<int>
    decreases n,
{
    if n <= 0 {
        None
    } else {
        match endpoint_index(endpoints, name, n - 1) {
            Some(k) => Some(k),
            None => if endpoints[n - 1].0@ == name {
                Some(n - 1)
            } else {
                None
            },
        }
    }
}

/// The URL of the endpoint named `name`, when it is a GitHub URL.
pub open spec fn github_endpoint(endpoints: Seq<(String, Option<String>)>, name: Seq<char>) -> Option<Seq<char>> {
    match endpoint_index(endpoints, name, endpoints.len() as int) {
        Some(k) => match endpoints[k].1 {
            Some(url) => if crate::text::is_prefix("https://github.com/"@, url@) {
                Some(url@)
            } else {
                None
            },
            None => None,
        },
        None => None,
    }
}

proof fn lemma_endpoint_index_stays(endpoints: Seq<(String, Option<String>)>, name: Seq<char>, n: int, m: int)
    requires
        0 <= n <= m,
        endpoint_index(endpoints, name, n) is Some,
    ensures
        endpoint_index(endpoints, name, m) == endpoint_index(endpoints, name, n),
    decreases m - n,
{
    if m > n {
        lemma_endpoint_index_stays(endpoints, name, n, m - 1);
    }
}

proof fn lemma_endpoint_index_bounds(endpoints: Seq<(String, Option<String>)>, name: Seq<char>, n: int)
    ensures
        endpoint_index(endpoints, name, n) matches Some(k) ==> 0 <= k < n,
    decreases n,
{
    if n > 0 {
        lemma_endpoint_index_bounds(endpoints, name, n - 1);
    }
}

/// The GitHub URL of the endpoint named `name`.
pub fn find_github_endpoint(endpoints: &Vec<(String, Option<String>)>, name: &str) -> (r: Option<String>)
    ensures
        opt_text(r) == github_endpoint(endpoints@, name@),
{
    proof {
        vstd::utf8::encode_utf8_decode_utf8(name@);
    }
    let want = chars_of(name);
    let mut i: usize = 0;
    while i < endpoints.len()
        invariant
            i <= endpoints.len(),
            want@ == name@,
            endpoint_index(endpoints@, name@, i as int) is None,
        decreases endpoints.len() - i,
    {
        proof {
            vstd::utf8::encode_utf8_decode_utf8(endpoints@[i as int].0@);
        }
        if text_eq(chars_of(endpoints[i].0.as_str()).as_slice(), want.as_slice()) {
            proof {
                assert(endpoint_index(endpoints@, name@, i + 1) == Some(i as int));
                lemma_endpoint_index_stays(endpoints@, name@, i + 1, endpoints.len() as int);
            }
            return match &endpoints[i].1 {
                Some(url) => if crate::text::starts_with_lit(chars_of(url.as_str()).as_slice(), "https://github.com/") {
                    Some(url.clone())
                } else {
                    None
                },
                None => None,
            };
        }
        i += 1;
    }
    None
}

pub open spec fn opt_text(o: Option<String>) -> Option<Seq<char>> {
    match o {
        Some(s) => Some(s@),
        None => None,
    }
}

pub open spec fn route_message(what: Seq<char>, route: Seq<char>, tail: Seq<char>) -> Seq<char> {
    what + debug_text(route) + tail
}

fn route_error(what: &str, route: &str, tail: &str) -> (r: String)
    ensures
        r@ == route_message(what@, route@, tail@),
{
    let mut out = chars_of(what);
    push_all(&mut out, chars_of(debug_quote(route).as_str()).as_slice());
    push_all(&mut out, chars_of(tail).as_slice());
    string_of(out.as_slice())
}

/// The release source of the configured route: the route's manifest
/// endpoint must be a GitHub URL and its archive name a safe asset name;
/// installs are allowed unless the route says otherwise.
pub fn release_source(
    route: &str,
    endpoints: Option<&Vec<(String, Option<String>)>>,
    route_entry: Option<&ReleaseRoute>,
) -> (r: Result<ReleaseSource, String>)
    ensures
        endpoints is None ==> (r matches Err(e) && e@ == "device configuration has no source endpoints"@),
        endpoints is Some && route_entry is None ==> (r matches Err(e) && e@ == route_message(
            "device configuration has no source route "@,
            route@,
            ""@,
        )),
        match (endpoints, route_entry) {
            (Some(ep), Some(entry)) => {
                let url = match entry.manifest {
                    Some(name) => github_endpoint(ep@, name@),
                    None => None,
                };
                if url is None {
                    r matches Err(e) && e@ == route_message("source route "@, route@, " has no valid manifest endpoint"@)
                } else if !(entry.archive_name matches Some(a) && crate::launcher::release_asset(a@)) {
                    r matches Err(e) && e@ == route_message("source route "@, route@, " has no safe archive name"@)
                } else {
                    r matches Ok(s) && Some(s.manifest_url@) == url && Some(s.archive_name@) == opt_text(entry.archive_name)
                        && s.install_allowed == match entry.install_allowed {
                        Some(b) => b,
                        None => true,
                    }
                }
            },
            _ => true,
        },
{
    let ep = match endpoints {
        Some(ep) => ep,
        None => return Err("device configuration has no source endpoints".to_owned()),
    };
    let entry = match route_entry {
        Some(entry) => entry,
        None => return Err(route_error("device configuration has no source route ", route, "")),
    };
    let url = match &entry.manifest {
        Some(name) => find_github_endpoint(ep, name.as_str()),
        None => None,
    };
    let manifest_url = match url {
        Some(u) => u,
        None => return Err(route_error("source route ", route, " has no valid manifest endpoint")),
    };
    let archive_name = match &entry.archive_name {
        Some(a) => if crate::launcher::safe_asset_name(a.as_str()) {
            a.clone()
        } else {
            return Err(route_error("source route ", route, " has no safe archive name"));
        },
        None => return Err(route_error("source route ", route, " has no safe archive name")),
    };
    let install_allowed = match entry.install_allowed {
        Some(b) => b,
        None => true,
    };
    Ok(ReleaseSource { manifest_url, archive_name, install_allowed })
}

/// The URL of the official Runtime metadata: the endpoint the Runtime
/// source names, when it is a GitHub URL.
pub fn runtime_metadata_url(metadata: Option<&str>, endpoints: Option<&Vec<(String, Option<String>)>>) -> (r: Result<String, String>)
    ensures
        match (metadata, endpoints) {
            (Some(name), Some(ep)) => match github_endpoint(ep@, name@) {
                Some(url) => r matches Ok(u) && u@ == url,
                None => r matches Err(e) && e@ == "device configuration has no valid Runtime metadata source"@,
            },
            _ => r matches Err(e) && e@ == "device configuration has no valid Runtime metadata source"@,
        },
{
    let found = match (metadata, endpoints) {
        (Some(name), Some(ep)) => find_github_endpoint(ep, name),
        _ => None,
    };
    match found {
        Some(u) => Ok(u),
        None => Err("device configuration has no valid Runtime metadata source".to_owned()),
    }
}

} // verus!
