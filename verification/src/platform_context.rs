//! The platform context that a device resolution gives APP Manager: which
//! location holds Port launchers, data and images, whether the frontend
//! contract is complete, and which capabilities are current. Nothing is
//! guessed: an ambiguous or incomplete resolution is refused.
use vstd::prelude::*;

use crate::launcher::{capability_on, ManagementMode};
use crate::resolution::ResolutionConversionError;
use crate::text::{chars_of, eq_lit, push_all, push_lit, string_of, text_eq};

verus! {

/// A location of the resolution: its kind (the name of the location kind),
/// path, roles, formats and priority.
#[derive(Clone, Debug)]
pub struct Location {
    pub kind: String,
    pub path: String,
    pub roles: Vec<String>,
    pub formats: Vec<String>,
    pub priority: i64,
}

/// What a location of one kind must offer for the capabilities at hand.
#[derive(Clone, Debug)]
pub struct LocationNeed {
    pub kind: String,
    pub roles: Vec<String>,
    pub format: Option<String>,
}

pub open spec fn has_text(list: Seq<String>, x: Seq<char>) -> bool {
    exists|i: int| 0 <= i < list.len() && #[trigger] list[i]@ == x
}

/// The location is of the needed kind, has every needed role, and the
/// needed format if one is needed.
pub open spec fn eligible(l: Location, need: LocationNeed) -> bool {
    &&& l.kind@ == need.kind@
    &&& forall|i: int| 0 <= i < need.roles.len() ==> has_text(l.roles@, (#[trigger] need.roles@[i])@)
    &&& need.format matches Some(f) ==> has_text(l.formats@, f@)
}

/// An eligible location whose priority no eligible one exceeds.
pub open spec fn top_location(ls: Seq<Location>, need: LocationNeed, l: Location) -> bool {
    eligible(l, need) && forall|k: int| 0 <= k < ls.len() && eligible(#[trigger] ls[k], need) ==> ls[k].priority <= l.priority
}

/// The eligible locations with the highest priority, in order.
pub open spec fn top_locations(ls: Seq<Location>, need: LocationNeed) -> Seq<Location> {
    ls.filter(|l: Location| top_location(ls, need, l))
}

pub open spec fn ambiguity_message(kind: Seq<char>, priority: i64) -> Seq<char> {
    "ambiguous "@ + kind + " location at priority "@ + crate::revision::signed_decimal(priority as int)
}

fn has_text_exec(list: &Vec<String>, x: &str) -> (r: bool)
    ensures
        r == has_text(list@, x@),
{
    proof {
        vstd::utf8::encode_utf8_decode_utf8(x@);
    }
    let target = chars_of(x);
    let mut i: usize = 0;
    while i < list.len()
        invariant
            i <= list.len(),
            target@ == x@,
            forall|j: int| 0 <= j < i ==> (#[trigger] list@[j])@ != x@,
        decreases list.len() - i,
    {
        proof {
            vstd::utf8::encode_utf8_decode_utf8(list@[i as int]@);
        }
        if text_eq(chars_of(list[i].as_str()).as_slice(), target.as_slice()) {
            return true;
        }
        i += 1;
    }
    false
}

fn is_eligible(l: &Location, need: &LocationNeed) -> (r: bool)
    ensures
        r == eligible(*l, *need),
{
    proof {
        vstd::utf8::encode_utf8_decode_utf8(l.kind@);
        vstd::utf8::encode_utf8_decode_utf8(need.kind@);
    }
    if !text_eq(chars_of(l.kind.as_str()).as_slice(), chars_of(need.kind.as_str()).as_slice()) {
        return false;
    }
    let mut i: usize = 0;
    while i < need.roles.len()
        invariant
            i <= need.roles.len(),
            forall|j: int| 0 <= j < i ==> has_text(l.roles@, (#[trigger] need.roles@[j])@),
        decreases need.roles.len() - i,
    {
        if !has_text_exec(&l.roles, need.roles[i].as_str()) {
            return false;
        }
        i += 1;
    }
    match &need.format {
        Some(f) => has_text_exec(&l.formats, f.as_str()),
        None => true,
    }
}

/// The location of a kind: the one eligible location of the highest
/// priority, none when nothing is eligible; two at the highest priority are
/// ambiguous.
pub fn select_location(locations: &Vec<Location>, need: &LocationNeed) -> (r: Result<Option<String>, ResolutionConversionError>)
    ensures
        top_locations(locations@, *need).len() == 0 ==> r matches Ok(None),
        top_locations(locations@, *need).len() == 1 ==> (r matches Ok(Some(p)) && p@ == top_locations(locations@, *need)[0].path@),
        top_locations(locations@, *need).len() > 1 ==> (r matches Err(ResolutionConversionError::Frontend(e)) && e@
            == ambiguity_message(need.kind@, top_locations(locations@, *need)[0].priority)),
{
    let ghost ls = locations@;
    let mut best: Option<i64> = None;
    let mut i: usize = 0;
    while i < locations.len()
        invariant
            i <= locations.len(),
            ls == locations@,
            best is None ==> forall|k: int| 0 <= k < i ==> !eligible(#[trigger] ls[k], *need),
            best matches Some(b) ==> (exists|k: int| 0 <= k < i && eligible(#[trigger] ls[k], *need) && ls[k].priority == b)
                && forall|k: int| 0 <= k < i && eligible(#[trigger] ls[k], *need) ==> ls[k].priority <= b,
        decreases locations.len() - i,
    {
        let l = &locations[i];
        if is_eligible(l, need) {
            best = match best {
                None => Some(l.priority),
                Some(b) => if l.priority > b {
                    Some(l.priority)
                } else {
                    Some(b)
                },
            };
        }
        i += 1;
    }
    let mut out: Vec<String> = Vec::new();
    let mut j: usize = 0;
    while j < locations.len()
        invariant
            j <= locations.len(),
            ls == locations@,
            best is None ==> forall|k: int| 0 <= k < ls.len() ==> !eligible(#[trigger] ls[k], *need),
            best matches Some(b) ==> (exists|k: int| 0 <= k < ls.len() && eligible(#[trigger] ls[k], *need) && ls[k].priority == b)
                && forall|k: int| 0 <= k < ls.len() && eligible(#[trigger] ls[k], *need) ==> ls[k].priority <= b,
            out@.map_values(|s: String| s@) == ls.subrange(0, j as int).filter(|l: Location| top_location(ls, *need, l)).map_values(
                |l: Location| l.path@,
            ),
            forall|k: int| 0 <= k < j && top_location(ls, *need, #[trigger] ls[k]) ==> out.len() > 0,
        decreases locations.len() - j,
    {
        let l = &locations[j];
        let top = match best {
            Some(b) => is_eligible(l, need) && l.priority == b,
            None => false,
        };
        proof {
            assert(ls.subrange(0, j + 1).drop_last() =~= ls.subrange(0, j as int));
            ls.subrange(0, j as int).lemma_filter_push(ls[j as int], |l: Location| top_location(ls, *need, l));
            assert(ls.subrange(0, j + 1) =~= ls.subrange(0, j as int).push(ls[j as int]));
            assert(top == top_location(ls, *need, ls[j as int])) by {
                if top_location(ls, *need, ls[j as int]) {
                    let b = best->0;
                    let k = choose|k: int| 0 <= k < ls.len() && eligible(#[trigger] ls[k], *need) && ls[k].priority == b;
                    assert(ls[k].priority <= ls[j as int].priority);
                }
            }
        }
        if top {
            let ghost before = out@;
            out.push(l.path.clone());
            assert(out@.map_values(|s: String| s@) =~= before.map_values(|s: String| s@).push(l.path@));
        }
        proof {
            let f = ls.subrange(0, j + 1).filter(|l: Location| top_location(ls, *need, l));
            let g = ls.subrange(0, j as int).filter(|l: Location| top_location(ls, *need, l));
            if top {
                assert(f.map_values(|l: Location| l.path@) =~= g.map_values(|l: Location| l.path@).push(ls[j as int].path@));
            } else {
                assert(f =~= g);
            }
        }
        j += 1;
    }
    assert(ls.subrange(0, ls.len() as int) =~= ls);
    let ghost tops = top_locations(ls, *need);
    proof {
        assert(out@.map_values(|s: String| s@).len() == tops.len());
        if tops.len() > 0 {
            ls.filter_lemma(|l: Location| top_location(ls, *need, l));
            assert(top_location(ls, *need, tops[0]));
            assert(tops.contains(tops[0]));
            ls.lemma_filter_contains_rev(|l: Location| top_location(ls, *need, l), tops[0]);
            let m = choose|m: int| 0 <= m < ls.len() && ls[m] == tops[0];
            assert(eligible(ls[m], *need));
            if let Some(b) = best {
                assert(ls[m].priority <= b);
            }
            assert(out@.map_values(|s: String| s@)[0] == tops[0].path@);
        }
        if let Some(b) = best {
            let k = choose|k: int| 0 <= k < ls.len() && eligible(#[trigger] ls[k], *need) && ls[k].priority == b;
            assert(top_location(ls, *need, ls[k]));
            assert(out.len() > 0);
        }
    }
    match best {
        None => {
            proof {
                if out.len() > 0 {
                    assert(top_location(ls, *need, tops[0]));
                }
            }
            Ok(None)
        },
        Some(b) => {
            if out.len() == 1 {
                Ok(Some(out[0].clone()))
            } else {
                proof {
                    assert(top_location(ls, *need, tops[0]));
                    let k = choose|k: int| 0 <= k < ls.len() && eligible(#[trigger] ls[k], *need) && ls[k].priority == b;
                    assert(tops[0].priority == b);
                }
                let mut message = chars_of("ambiguous ");
                push_all(&mut message, chars_of(need.kind.as_str()).as_slice());
                push_lit(&mut message, " location at priority ");
                crate::revision::push_signed(&mut message, b);
                proof {
                    reveal_strlit("ambiguous ");
                }
                Err(ResolutionConversionError::Frontend(string_of(message.as_slice())))
            }
        },
    }
}

/// The location chosen for a kind offers every needed role and format,
/// and no eligible location has a higher priority: a location that lacks a
/// needed role is never chosen, whatever its priority.
pub proof fn lemma_chosen_location_is_eligible(locations: Seq<Location>, need: LocationNeed)
    requires
        top_locations(locations, need).len() > 0,
    ensures
        eligible(top_locations(locations, need)[0], need),
        forall|k: int| 0 <= k < locations.len() && eligible(#[trigger] locations[k], need) ==> locations[k].priority
            <= top_locations(locations, need)[0].priority,
{
    locations.filter_lemma(|l: Location| top_location(locations, need, l));
}

// ---------------------------------------------------------------------------
// Capabilities.

/// Whether a capability of the context is currently granted.
#[derive(Clone, Copy, Debug, PartialEq, Eq, Structural)]
pub enum CapabilityState {
    Current,
    Unknown,
}

pub open spec fn state_of(on: bool) -> CapabilityState {
    if on {
        CapabilityState::Current
    } else {
        CapabilityState::Unknown
    }
}

/// The capabilities of the context, from those the resolution enables.
#[derive(Clone, Copy, Debug, PartialEq, Eq)]
pub struct ContextCapabilities {
    pub inventory: CapabilityState,
    pub install_plan: CapabilityState,
    pub cache_invalidation: CapabilityState,
    pub inventory_ports: CapabilityState,
    pub manage_ports: CapabilityState,
    pub install_ports: CapabilityState,
    pub inventory_apps: CapabilityState,
    pub manage_apps: CapabilityState,
    pub install_apps: CapabilityState,
    pub trash: CapabilityState,
    pub leftovers: CapabilityState,
    pub cleanup_appledouble: CapabilityState,
}

fn enabled(caps: &Vec<(String, bool)>, name: &str) -> (r: bool)
    ensures
        r == capability_on(caps@, name@),
{
    proof {
        vstd::utf8::encode_utf8_decode_utf8(name@);
    }
    let n = chars_of(name);
    let mut i: usize = 0;
    while i < caps.len()
        invariant
            i <= caps.len(),
            n@ == name@,
            forall|j: int| 0 <= j < i ==> !((#[trigger] caps@[j]).0@ == name@ && caps@[j].1),
        decreases caps.len() - i,
    {
        proof {
            vstd::utf8::encode_utf8_decode_utf8(caps@[i as int].0@);
        }
        if caps[i].1 && text_eq(chars_of(caps[i].0.as_str()).as_slice(), n.as_slice()) {
            return true;
        }
        i += 1;
    }
    false
}

fn state(on: bool) -> (r: CapabilityState)
    ensures
        r == state_of(on),
{
    if on {
        CapabilityState::Current
    } else {
        CapabilityState::Unknown
    }
}

/// A capability is current only when the resolution enables it: any
/// capability the resolution leaves out or disables is unknown, so the
/// context fails closed.
pub fn context_capabilities(caps: &Vec<(String, bool)>) -> (r: ContextCapabilities)
    ensures
        r.inventory == state_of(capability_on(caps@, "inventory_ports"@) || capability_on(caps@, "inventory_apps"@)),
        r.install_plan == state_of(capability_on(caps@, "install_portmaster"@)),
        r.cache_invalidation == state_of(capability_on(caps@, "manage_ports"@) || capability_on(caps@, "manage_apps"@)),
        r.inventory_ports == state_of(capability_on(caps@, "inventory_ports"@)),
        r.manage_ports == state_of(capability_on(caps@, "manage_ports"@)),
        r.install_ports == state_of(capability_on(caps@, "install_ports"@)),
        r.inventory_apps == state_of(capability_on(caps@, "inventory_apps"@)),
        r.manage_apps == state_of(capability_on(caps@, "manage_apps"@)),
        r.install_apps == state_of(capability_on(caps@, "install_apps"@)),
        r.trash == state_of(capability_on(caps@, "trash"@)),
        r.leftovers == state_of(capability_on(caps@, "leftovers"@)),
        r.cleanup_appledouble == state_of(capability_on(caps@, "cleanup_appledouble"@)),
{
    let inventory_ports = enabled(caps, "inventory_ports");
    let inventory_apps = enabled(caps, "inventory_apps");
    let manage_ports = enabled(caps, "manage_ports");
    let manage_apps = enabled(caps, "manage_apps");
    ContextCapabilities {
        inventory: state(inventory_ports || inventory_apps),
        install_plan: state(enabled(caps, "install_portmaster")),
        cache_invalidation: state(manage_ports || manage_apps),
        inventory_ports: state(inventory_ports),
        manage_ports: state(manage_ports),
        install_ports: state(enabled(caps, "install_ports")),
        inventory_apps: state(inventory_apps),
        manage_apps: state(manage_apps),
        install_apps: state(enabled(caps, "install_apps")),
        trash: state(enabled(caps, "trash")),
        leftovers: state(enabled(caps, "leftovers")),
        cleanup_appledouble: state(enabled(caps, "cleanup_appledouble")),
    }
}

// ---------------------------------------------------------------------------
// The frontend contract.

/// One file the frontend installs: where it comes from, where it goes, and
/// whether it is executable.
#[derive(Clone, Debug)]
pub struct InstallMapEntry {
    pub source: String,
    pub target: String,
    pub executable: bool,
}

/// A frontend transform that exports a system library group.
#[derive(Clone, Debug)]
pub struct TransformInput {
    pub target: String,
    pub variable: String,
    pub library_group: String,
}

/// The frontend section of a resolution, as read from its document.
#[derive(Clone, Debug)]
pub struct FrontendInput {
    pub kind: String,
    pub management: String,
    pub names: Vec<String>,
    pub primary: String,
    pub install_map: Vec<InstallMapEntry>,
    pub control_source: Option<String>,
    pub core_launcher_source: Option<String>,
    pub remove_core_launcher: bool,
    pub empty_tasksetter: bool,
    pub core_executable: Option<String>,
    pub frontend_executable: Option<String>,
    pub transforms: Vec<TransformInput>,
}

/// What an install of the PortMaster core must produce for the frontend:
/// the frontend names and primary, the control and launcher sources, the
/// frontend files (source and destination), the launcher and tasksetter
/// policy, the executables, and the core entries an install preserves.
#[derive(Clone, Debug)]
pub struct InstallContract {
    pub frontend_names: Vec<String>,
    pub primary_frontend: String,
    pub control_source: Option<String>,
    pub core_launcher_source: Option<String>,
    pub frontend_map: Vec<(String, String)>,
    pub remove_core_launcher: bool,
    pub empty_tasksetter: bool,
    pub core_executable: Option<String>,
    pub frontend_executable: Option<String>,
    pub preserve_core_entries: Vec<String>,
}

/// `k` is the install contract of the frontend section `f` with the
/// preserved core entries `preserved`.
pub open spec fn contract_of(f: FrontendInput, preserved: Seq<String>, k: InstallContract) -> bool {
    &&& texts(k.frontend_names@) == texts(f.names@)
    &&& k.primary_frontend@ == f.primary@
    &&& opt_text(k.control_source) == opt_text(f.control_source)
    &&& opt_text(k.core_launcher_source) == opt_text(f.core_launcher_source)
    &&& k.frontend_map.len() == f.install_map.len()
    &&& (forall|i: int| 0 <= i < k.frontend_map.len() ==> (#[trigger] k.frontend_map@[i]).0@ == f.install_map@[i].source@
        && k.frontend_map@[i].1@ == f.install_map@[i].target@)
    &&& k.remove_core_launcher == f.remove_core_launcher
    &&& k.empty_tasksetter == f.empty_tasksetter
    &&& opt_text(k.core_executable) == opt_text(f.core_executable)
    &&& opt_text(k.frontend_executable) == opt_text(f.frontend_executable)
    &&& texts(k.preserve_core_entries@) == texts(preserved)
}

fn opt_copy(o: &Option<String>) -> (r: Option<String>)
    ensures
        opt_text(r) == opt_text(*o),
{
    match o {
        Some(s) => Some(s.clone()),
        None => None,
    }
}

fn frontend_files(map: &Vec<InstallMapEntry>) -> (r: Vec<(String, String)>)
    ensures
        r.len() == map.len(),
        forall|i: int| 0 <= i < r.len() ==> (#[trigger] r@[i]).0@ == map@[i].source@ && r@[i].1@ == map@[i].target@,
{
    let mut out: Vec<(String, String)> = Vec::new();
    let mut i: usize = 0;
    while i < map.len()
        invariant
            i <= map.len(),
            out.len() == i,
            forall|j: int| 0 <= j < i ==> (#[trigger] out@[j]).0@ == map@[j].source@ && out@[j].1@ == map@[j].target@,
        decreases map.len() - i,
    {
        out.push((map[i].source.clone(), map[i].target.clone()));
        i += 1;
    }
    out
}

fn install_contract(f: &FrontendInput, preserved: &Vec<String>) -> (r: InstallContract)
    ensures
        contract_of(*f, preserved@, r),
{
    InstallContract {
        frontend_names: copy_texts(&f.names),
        primary_frontend: f.primary.clone(),
        control_source: opt_copy(&f.control_source),
        core_launcher_source: opt_copy(&f.core_launcher_source),
        frontend_map: frontend_files(&f.install_map),
        remove_core_launcher: f.remove_core_launcher,
        empty_tasksetter: f.empty_tasksetter,
        core_executable: opt_copy(&f.core_executable),
        frontend_executable: opt_copy(&f.frontend_executable),
        preserve_core_entries: copy_texts(preserved),
    }
}

/// An app location: a location of the `Apps` kind.
pub open spec fn app_location(l: Location) -> bool {
    l.kind@ == "Apps"@
}

fn app_locations(ls: &Vec<Location>) -> (r: Vec<String>)
    ensures
        texts(r@) == ls@.filter(|l: Location| app_location(l)).map_values(|l: Location| l.path@),
{
    let mut out: Vec<String> = Vec::new();
    let mut j: usize = 0;
    while j < ls.len()
        invariant
            j <= ls.len(),
            texts(out@) == ls@.subrange(0, j as int).filter(|l: Location| app_location(l)).map_values(|l: Location| l.path@),
        decreases ls.len() - j,
    {
        let l = &ls[j];
        let is_app = eq_lit(chars_of(l.kind.as_str()).as_slice(), "Apps");
        proof {
            assert(ls@.subrange(0, j + 1).drop_last() =~= ls@.subrange(0, j as int));
            ls@.subrange(0, j as int).lemma_filter_push(ls@[j as int], |l: Location| app_location(l));
            assert(ls@.subrange(0, j + 1) =~= ls@.subrange(0, j as int).push(ls@[j as int]));
        }
        if is_app {
            let ghost before = out@;
            out.push(l.path.clone());
            assert(texts(out@) =~= texts(before).push(l.path@));
        }
        proof {
            let f = ls@.subrange(0, j + 1).filter(|l: Location| app_location(l));
            let g = ls@.subrange(0, j as int).filter(|l: Location| app_location(l));
            if is_app {
                assert(f.map_values(|l: Location| l.path@) =~= g.map_values(|l: Location| l.path@).push(ls@[j as int].path@));
            } else {
                assert(f =~= g);
            }
        }
        j += 1;
    }
    assert(ls@.subrange(0, ls.len() as int) =~= ls@);
    out
}

/// A system library group: candidate directories and the sonames each must
/// hold.
#[derive(Clone, Debug)]
pub struct LibraryGroup {
    pub candidates: Vec<String>,
    pub required_sonames: Vec<String>,
}

/// A library group of the resolution by name, as read from its document
/// (or why it could not be read).
#[derive(Debug)]
pub struct LibraryGroupInput {
    pub name: String,
    pub parsed: Result<LibraryGroup, String>,
}

/// A transform with its library group resolved.
#[derive(Clone, Debug)]
pub struct ResolvedTransform {
    pub target: String,
    pub variable: String,
    pub candidates: Vec<String>,
    pub required_sonames: Vec<String>,
}

pub open spec fn groups_view(g: Option<Vec<LibraryGroupInput>>) -> Option<Seq<LibraryGroupInput>> {
    match g {
        Some(v) => Some(v@),
        None => None,
    }
}

pub open spec fn opt_text(o: Option<String>) -> Option<Seq<char>> {
    match o {
        Some(s) => Some(s@),
        None => None,
    }
}

pub open spec fn management_of(m: Seq<char>) -> Option<ManagementMode> {
    if m == "app"@ {
        Some(ManagementMode::App)
    } else if m == "system"@ {
        Some(ManagementMode::System)
    } else {
        None
    }
}

/// Some executable install target is `t`.
pub open spec fn executable_target(map: Seq<InstallMapEntry>, t: Seq<char>) -> bool {
    exists|i: int| 0 <= i < map.len() && (#[trigger] map[i]).executable && map[i].target@ == t
}

/// The executable targets of the install map name exactly the frontend
/// executable: it is one of them, or, when there is none, no target is
/// executable.
pub open spec fn executables_agree(map: Seq<InstallMapEntry>, exe: Option<String>) -> bool {
    match exe {
        Some(e) => executable_target(map, e@),
        None => forall|i: int| 0 <= i < map.len() ==> !(#[trigger] map[i]).executable,
    }
}

/// The first of the first `n` groups named `name`.
pub open spec fn group_index(groups: Seq<LibraryGroupInput>, name: Seq<char>, n: int) -> Option<int>
    decreases n,
{
    if n <= 0 {
        None
    } else {
        match group_index(groups, name, n - 1) {
            Some(k) => Some(k),
            None => if groups[n - 1].name@ == name {
                Some(n - 1)
            } else {
                None
            },
        }
    }
}

/// The group a transform exports, when the resolution has it.
pub open spec fn group_of(groups: Option<Seq<LibraryGroupInput>>, name: Seq<char>) -> Option<LibraryGroupInput> {
    match groups {
        None => None,
        Some(g) => match group_index(g, name, g.len() as int) {
            Some(k) => Some(g[k]),
            None => None,
        },
    }
}

/// The transform's group exists and could be read.
pub open spec fn transform_resolves(groups: Option<Seq<LibraryGroupInput>>, t: TransformInput) -> bool {
    group_of(groups, t.library_group@) matches Some(g) && g.parsed is Ok
}

pub open spec fn missing_group_message(name: Seq<char>) -> Seq<char> {
    "frontend transform references missing library group "@ + crate::entry_names::debug_text(name)
}

/// The error of the first transform that does not resolve.
pub open spec fn transform_error(groups: Option<Seq<LibraryGroupInput>>, t: TransformInput, e: ResolutionConversionError) -> bool {
    e matches ResolutionConversionError::Frontend(m) && match group_of(groups, t.library_group@) {
        None => m@ == missing_group_message(t.library_group@),
        Some(g) => g.parsed matches Err(p) && m@ == p@,
    }
}

pub open spec fn texts(v: Seq<String>) -> Seq<Seq<char>> {
    v.map_values(|s: String| s@)
}

/// `r` is `t` with the group `g` resolved.
pub open spec fn resolved_as(r: ResolvedTransform, t: TransformInput, g: LibraryGroup) -> bool {
    &&& r.target@ == t.target@
    &&& r.variable@ == t.variable@
    &&& texts(r.candidates@) == texts(g.candidates@)
    &&& texts(r.required_sonames@) == texts(g.required_sonames@)
}

fn copy_texts(v: &Vec<String>) -> (r: Vec<String>)
    ensures
        texts(r@) == texts(v@),
{
    let mut out: Vec<String> = Vec::new();
    let mut i: usize = 0;
    while i < v.len()
        invariant
            i <= v.len(),
            texts(out@) == texts(v@.subrange(0, i as int)),
        decreases v.len() - i,
    {
        let ghost before = out@;
        out.push(v[i].clone());
        proof {
            assert(texts(out@) =~= texts(before).push(v@[i as int]@));
            assert(v@.subrange(0, i + 1) =~= v@.subrange(0, i as int).push(v@[i as int]));
            assert(texts(v@.subrange(0, i + 1)) =~= texts(v@.subrange(0, i as int)).push(v@[i as int]@));
        }
        i += 1;
    }
    assert(v@.subrange(0, v.len() as int) =~= v@);
    out
}

fn management_mode(m: &str) -> (r: Result<ManagementMode, ResolutionConversionError>)
    ensures
        management_of(m@) matches Some(mode) ==> r == Ok::<ManagementMode, ResolutionConversionError>(mode),
        management_of(m@) is None ==> (r matches Err(ResolutionConversionError::Frontend(e)) && e@ == "unsupported management mode "@
            + crate::entry_names::debug_text(m@)),
{
    let t = chars_of(m);
    if eq_lit(t.as_slice(), "app") {
        Ok(ManagementMode::App)
    } else if eq_lit(t.as_slice(), "system") {
        Ok(ManagementMode::System)
    } else {
        let mut out = chars_of("unsupported management mode ");
        push_all(&mut out, chars_of(crate::entry_names::debug_quote(m).as_str()).as_slice());
        proof {
            reveal_strlit("unsupported management mode ");
        }
        Err(ResolutionConversionError::Frontend(string_of(out.as_slice())))
    }
}

fn check_executables(map: &Vec<InstallMapEntry>, exe: &Option<String>) -> (r: Result<(), ResolutionConversionError>)
    ensures
        r is Ok <==> executables_agree(map@, *exe),
        r matches Err(ResolutionConversionError::Frontend(e)) ==> (exe is Some ==> e@ == "frontend_executable is not executable in install_map"@)
            && (exe is None ==> e@ == "executable install_map target lacks frontend_executable"@),
        r matches Err(e) ==> e is Frontend,
{
    match exe {
        Some(e) => {
            proof {
                vstd::utf8::encode_utf8_decode_utf8(e@);
            }
            let want = chars_of(e.as_str());
            let mut i: usize = 0;
            while i < map.len()
                invariant
                    i <= map.len(),
                    want@ == e@,
                    *exe == Some(*e),
                    forall|j: int| 0 <= j < i ==> !((#[trigger] map@[j]).executable && map@[j].target@ == e@),
                decreases map.len() - i,
            {
                proof {
                    vstd::utf8::encode_utf8_decode_utf8(map@[i as int].target@);
                }
                if map[i].executable && text_eq(chars_of(map[i].target.as_str()).as_slice(), want.as_slice()) {
                    return Ok(());
                }
                i += 1;
            }
            Err(ResolutionConversionError::Frontend("frontend_executable is not executable in install_map".to_owned()))
        },
        None => {
            let mut i: usize = 0;
            while i < map.len()
                invariant
                    i <= map.len(),
                    exe is None,
                    forall|j: int| 0 <= j < i ==> !(#[trigger] map@[j]).executable,
                decreases map.len() - i,
            {
                if map[i].executable {
                    return Err(
                        ResolutionConversionError::Frontend("executable install_map target lacks frontend_executable".to_owned()),
                    );
                }
                i += 1;
            }
            Ok(())
        },
    }
}

proof fn lemma_group_index_bounds(groups: Seq<LibraryGroupInput>, name: Seq<char>, n: int)
    ensures
        group_index(groups, name, n) matches Some(k) ==> 0 <= k < n && groups[k].name@ == name,
    decreases n,
{
    if n > 0 {
        lemma_group_index_bounds(groups, name, n - 1);
    }
}

proof fn lemma_group_index_stays(groups: Seq<LibraryGroupInput>, name: Seq<char>, n: int, m: int)
    requires
        0 <= n <= m,
        group_index(groups, name, n) is Some,
    ensures
        group_index(groups, name, m) == group_index(groups, name, n),
    decreases m - n,
{
    if m > n {
        lemma_group_index_stays(groups, name, n, m - 1);
    }
}

fn find_group<'a>(groups: &'a Option<Vec<LibraryGroupInput>>, name: &str) -> (r: Option<&'a LibraryGroupInput>)
    ensures
        r matches Some(g) ==> group_of(groups_view(*groups), name@) == Some(*g),
        r is None ==> group_of(groups_view(*groups), name@) is None,
{
    match groups {
        None => None,
        Some(g) => {
            proof {
                vstd::utf8::encode_utf8_decode_utf8(name@);
            }
            let want = chars_of(name);
            let mut i: usize = 0;
            while i < g.len()
                invariant
                    i <= g.len(),
                    want@ == name@,
                    *groups == Some(*g),
                    group_index(g@, name@, i as int) is None,
                decreases g.len() - i,
            {
                proof {
                    vstd::utf8::encode_utf8_decode_utf8(g@[i as int].name@);
                }
                if text_eq(chars_of(g[i].name.as_str()).as_slice(), want.as_slice()) {
                    proof {
                        assert(group_index(g@, name@, i + 1) == Some(i as int));
                        lemma_group_index_stays(g@, name@, i + 1, g.len() as int);
                    }
                    return Some(&g[i]);
                }
                i += 1;
            }
            None
        },
    }
}

/// Resolves each transform's library group, in order; the first that is
/// missing or unreadable is an error.
pub fn resolve_transforms(transforms: &Vec<TransformInput>, groups: &Option<Vec<LibraryGroupInput>>) -> (r: Result<
    Vec<ResolvedTransform>,
    ResolutionConversionError,
>)
    ensures
        r is Ok <==> forall|i: int| 0 <= i < transforms.len() ==> transform_resolves(groups_view(*groups), #[trigger] transforms@[i]),
        r matches Ok(out) ==> out.len() == transforms.len() && forall|i: int| 0 <= i < out.len() ==> (group_of(
            groups_view(*groups),
            transforms@[i].library_group@,
        ) matches Some(g) && g.parsed matches Ok(lg) && resolved_as(#[trigger] out@[i], transforms@[i], lg)),
        r matches Err(e) ==> exists|i: int|
            0 <= i < transforms.len() && !transform_resolves(groups_view(*groups), #[trigger] transforms@[i])
                && (forall|j: int| 0 <= j < i ==> transform_resolves(groups_view(*groups), #[trigger] transforms@[j]))
                && transform_error(groups_view(*groups), transforms@[i], e),
{
    let ghost gs = groups_view(*groups);
    let mut out: Vec<ResolvedTransform> = Vec::new();
    let mut i: usize = 0;
    while i < transforms.len()
        invariant
            i <= transforms.len(),
            gs == groups_view(*groups),
            out.len() == i,
            forall|j: int| 0 <= j < i ==> transform_resolves(gs, #[trigger] transforms@[j]),
            forall|j: int| 0 <= j < i ==> (group_of(gs, transforms@[j].library_group@) matches Some(g) && g.parsed matches Ok(lg)
                && resolved_as(#[trigger] out@[j], transforms@[j], lg)),
        decreases transforms.len() - i,
    {
        let t = &transforms[i];
        let g = match find_group(groups, t.library_group.as_str()) {
            Some(g) => g,
            None => {
                let mut m = chars_of("frontend transform references missing library group ");
                push_all(&mut m, chars_of(crate::entry_names::debug_quote(t.library_group.as_str()).as_str()).as_slice());
                proof {
                    reveal_strlit("frontend transform references missing library group ");
                }
                let e = ResolutionConversionError::Frontend(string_of(m.as_slice()));
                assert(transform_error(gs, transforms@[i as int], e));
                return Err(e);
            },
        };
        match &g.parsed {
            Err(message) => {
                let e = ResolutionConversionError::Frontend(message.clone());
                assert(transform_error(gs, transforms@[i as int], e));
                return Err(e);
            },
            Ok(lg) => {
                let resolved = ResolvedTransform {
                    target: t.target.clone(),
                    variable: t.variable.clone(),
                    candidates: copy_texts(&lg.candidates),
                    required_sonames: copy_texts(&lg.required_sonames),
                };
                out.push(resolved);
            },
        }
        i += 1;
    }
    Ok(out)
}

// ---------------------------------------------------------------------------
// The whole context.

/// What a resolution gives for the platform context: whether the target is
/// confirmed, the `portmaster_core` and `frontend` paths, the locations with
/// what the Port locations must offer, the frontend section (or why it could
/// not be read), the library groups (none when the resolution has no group
/// map), and the capabilities.
pub struct ResolutionInput {
    pub platform_id: String,
    pub device_class: String,
    pub preserved_dirs: Vec<String>,
    pub target_confirmed: bool,
    pub portmaster: Option<String>,
    pub frontend_dir: Option<String>,
    pub locations: Vec<Location>,
    pub scripts_need: LocationNeed,
    pub data_need: LocationNeed,
    pub images_need: LocationNeed,
    pub frontend: Result<FrontendInput, String>,
    pub library_groups: Option<Vec<LibraryGroupInput>>,
    pub capabilities: Vec<(String, bool)>,
}

/// The platform context: capabilities, management mode, roots (the libs
/// directory is `libs` beneath the core), the frontend directory and
/// launcher, and the resolved transforms.
#[derive(Debug)]
pub struct PlatformContext {
    pub profile: String,
    pub device_class: String,
    pub target_confirmed: bool,
    pub frontend_kind: String,
    pub install: InstallContract,
    pub apps: Vec<String>,
    pub capabilities: ContextCapabilities,
    pub management: ManagementMode,
    pub portmaster: Option<String>,
    pub libs: Option<String>,
    pub scripts: String,
    pub game_dirs: String,
    pub images: Option<String>,
    pub frontend_dir: String,
    pub launcher: String,
    pub transforms: Vec<ResolvedTransform>,
}

/// Why a resolution gives no context, in the order it is checked.
pub enum ContextFault {
    /// A confirmed target without the core path.
    MissingCore,
    AmbiguousScripts,
    MissingScripts,
    AmbiguousData,
    MissingData,
    MissingFrontendPath,
    AmbiguousImages,
    /// The frontend section could not be read.
    FrontendUnreadable,
    BadManagement,
    /// The executable targets disagree with the frontend executable.
    Executables,
    /// A transform's library group is missing or unreadable.
    Transforms,
}

pub open spec fn tops_of(input: ResolutionInput, need: LocationNeed) -> Seq<Location> {
    top_locations(input.locations@, need)
}

/// The first fault of a resolution, if any.
pub open spec fn context_fault(input: ResolutionInput) -> Option<ContextFault> {
    let gs = groups_view(input.library_groups);
    if input.target_confirmed && input.portmaster is None {
        Some(ContextFault::MissingCore)
    } else if tops_of(input, input.scripts_need).len() > 1 {
        Some(ContextFault::AmbiguousScripts)
    } else if tops_of(input, input.scripts_need).len() == 0 {
        Some(ContextFault::MissingScripts)
    } else if tops_of(input, input.data_need).len() > 1 {
        Some(ContextFault::AmbiguousData)
    } else if tops_of(input, input.data_need).len() == 0 {
        Some(ContextFault::MissingData)
    } else if input.frontend_dir is None {
        Some(ContextFault::MissingFrontendPath)
    } else if tops_of(input, input.images_need).len() > 1 {
        Some(ContextFault::AmbiguousImages)
    } else {
        match input.frontend {
            Err(_) => Some(ContextFault::FrontendUnreadable),
            Ok(f) => if management_of(f.management@) is None {
                Some(ContextFault::BadManagement)
            } else if !executables_agree(f.install_map@, f.frontend_executable) {
                Some(ContextFault::Executables)
            } else if !(forall|i: int| 0 <= i < f.transforms.len() ==> transform_resolves(gs, #[trigger] f.transforms@[i])) {
                Some(ContextFault::Transforms)
            } else {
                None
            },
        }
    }
}

/// `e` is the error the fault `f` gives.
pub open spec fn fault_error(input: ResolutionInput, f: ContextFault, e: ResolutionConversionError) -> bool {
    let gs = groups_view(input.library_groups);
    match f {
        ContextFault::MissingCore => e matches ResolutionConversionError::MissingPath(p) && p@ == "portmaster_core"@,
        ContextFault::AmbiguousScripts => e matches ResolutionConversionError::Frontend(m) && m@ == ambiguity_message(
            input.scripts_need.kind@,
            tops_of(input, input.scripts_need)[0].priority,
        ),
        ContextFault::MissingScripts => e matches ResolutionConversionError::MissingPath(p) && p@ == "scripts location"@,
        ContextFault::AmbiguousData => e matches ResolutionConversionError::Frontend(m) && m@ == ambiguity_message(
            input.data_need.kind@,
            tops_of(input, input.data_need)[0].priority,
        ),
        ContextFault::MissingData => e matches ResolutionConversionError::MissingPath(p) && p@ == "game data location"@,
        ContextFault::MissingFrontendPath => e matches ResolutionConversionError::MissingPath(p) && p@ == "frontend"@,
        ContextFault::AmbiguousImages => e matches ResolutionConversionError::Frontend(m) && m@ == ambiguity_message(
            input.images_need.kind@,
            tops_of(input, input.images_need)[0].priority,
        ),
        ContextFault::FrontendUnreadable => input.frontend matches Err(why) && e matches ResolutionConversionError::Frontend(m)
            && m@ == why@,
        ContextFault::BadManagement => input.frontend matches Ok(fr) && e matches ResolutionConversionError::Frontend(m) && m@
            == "unsupported management mode "@ + crate::entry_names::debug_text(fr.management@),
        ContextFault::Executables => input.frontend matches Ok(fr) && e matches ResolutionConversionError::Frontend(m) && m@
            == (if fr.frontend_executable is Some {
            "frontend_executable is not executable in install_map"@
        } else {
            "executable install_map target lacks frontend_executable"@
        }),
        ContextFault::Transforms => input.frontend matches Ok(fr) && exists|i: int|
            0 <= i < fr.transforms.len() && !transform_resolves(gs, #[trigger] fr.transforms@[i]) && (forall|j: int|
                0 <= j < i ==> transform_resolves(gs, #[trigger] fr.transforms@[j])) && transform_error(gs, fr.transforms@[i], e),
    }
}

/// `c` is the context of `input`, whose frontend section is `f` and
/// frontend path `d`.
pub open spec fn context_of(input: ResolutionInput, f: FrontendInput, d: String, c: PlatformContext) -> bool {
    &&& c.profile@ == input.platform_id@
    &&& c.device_class@ == input.device_class@
    &&& c.target_confirmed == input.target_confirmed
    &&& c.frontend_kind@ == f.kind@
    &&& contract_of(f, input.preserved_dirs@, c.install)
    &&& texts(c.apps@) == input.locations@.filter(|l: Location| app_location(l)).map_values(|l: Location| l.path@)
    &&& c.capabilities == context_capabilities_of(input.capabilities@)
    &&& management_of(f.management@) == Some(c.management)
    &&& c.portmaster == input.portmaster
    &&& opt_text(c.libs) == (match input.portmaster { Some(p) => Some(crate::paths::joined(p@, "libs"@)), None => None })
    &&& c.scripts@ == tops_of(input, input.scripts_need)[0].path@
    &&& c.game_dirs@ == tops_of(input, input.data_need)[0].path@
    &&& opt_text(c.images) == (if tops_of(input, input.images_need).len() == 1 {
        Some(tops_of(input, input.images_need)[0].path@)
    } else {
        None::<Seq<char>>
    })
    &&& c.frontend_dir@ == d@
    &&& c.launcher@ == crate::paths::joined(d@, f.primary@)
    &&& c.transforms.len() == f.transforms.len()
    &&& forall|i: int| 0 <= i < c.transforms.len() ==> (group_of(
        groups_view(input.library_groups),
        f.transforms@[i].library_group@,
    ) matches Some(g) && g.parsed matches Ok(lg) && resolved_as(#[trigger] c.transforms@[i], f.transforms@[i], lg))
}

/// The platform context of a resolution, or the first reason it has none.
pub fn platform_context(input: &ResolutionInput) -> (r: Result<PlatformContext, ResolutionConversionError>)
    ensures
        r is Ok <==> context_fault(*input) is None,
        r matches Err(e) ==> fault_error(*input, context_fault(*input)->0, e),
        r matches Ok(c) ==> input.frontend matches Ok(f) && input.frontend_dir matches Some(d) && context_of(*input, f, d, c),
{
    if input.target_confirmed && input.portmaster.is_none() {
        return Err(ResolutionConversionError::MissingPath("portmaster_core".to_owned()));
    }
    let scripts = match select_location(&input.locations, &input.scripts_need) {
        Err(e) => return Err(e),
        Ok(None) => return Err(ResolutionConversionError::MissingPath("scripts location".to_owned())),
        Ok(Some(p)) => p,
    };
    let game_dirs = match select_location(&input.locations, &input.data_need) {
        Err(e) => return Err(e),
        Ok(None) => return Err(ResolutionConversionError::MissingPath("game data location".to_owned())),
        Ok(Some(p)) => p,
    };
    let frontend_dir = match &input.frontend_dir {
        None => return Err(ResolutionConversionError::MissingPath("frontend".to_owned())),
        Some(d) => d.clone(),
    };
    let images = match select_location(&input.locations, &input.images_need) {
        Err(e) => return Err(e),
        Ok(p) => p,
    };
    let frontend = match &input.frontend {
        Err(why) => return Err(ResolutionConversionError::Frontend(why.clone())),
        Ok(f) => f,
    };
    let management = match management_mode(frontend.management.as_str()) {
        Err(e) => return Err(e),
        Ok(m) => m,
    };
    match check_executables(&frontend.install_map, &frontend.frontend_executable) {
        Err(e) => return Err(e),
        Ok(()) => {},
    }
    let transforms = match resolve_transforms(&frontend.transforms, &input.library_groups) {
        Err(e) => return Err(e),
        Ok(t) => t,
    };
    let libs = match &input.portmaster {
        Some(p) => Some(string_of(crate::paths::join(chars_of(p.as_str()).as_slice(), chars_of("libs").as_slice()).as_slice())),
        None => None,
    };
    let launcher = string_of(
        crate::paths::join(chars_of(frontend_dir.as_str()).as_slice(), chars_of(frontend.primary.as_str()).as_slice()).as_slice(),
    );
    Ok(PlatformContext {
        profile: input.platform_id.clone(),
        device_class: input.device_class.clone(),
        target_confirmed: input.target_confirmed,
        frontend_kind: frontend.kind.clone(),
        install: install_contract(frontend, &input.preserved_dirs),
        apps: app_locations(&input.locations),
        capabilities: context_capabilities(&input.capabilities),
        management,
        portmaster: input.portmaster.clone(),
        libs,
        scripts,
        game_dirs,
        images,
        frontend_dir,
        launcher,
        transforms,
    })
}

/// The capabilities `context_capabilities` gives.
pub open spec fn context_capabilities_of(caps: Seq<(String, bool)>) -> ContextCapabilities {
    ContextCapabilities {
        inventory: state_of(capability_on(caps, "inventory_ports"@) || capability_on(caps, "inventory_apps"@)),
        install_plan: state_of(capability_on(caps, "install_portmaster"@)),
        cache_invalidation: state_of(capability_on(caps, "manage_ports"@) || capability_on(caps, "manage_apps"@)),
        inventory_ports: state_of(capability_on(caps, "inventory_ports"@)),
        manage_ports: state_of(capability_on(caps, "manage_ports"@)),
        install_ports: state_of(capability_on(caps, "install_ports"@)),
        inventory_apps: state_of(capability_on(caps, "inventory_apps"@)),
        manage_apps: state_of(capability_on(caps, "manage_apps"@)),
        install_apps: state_of(capability_on(caps, "install_apps"@)),
        trash: state_of(capability_on(caps, "trash"@)),
        leftovers: state_of(capability_on(caps, "leftovers"@)),
        cleanup_appledouble: state_of(capability_on(caps, "cleanup_appledouble"@)),
    }
}

} // verus!
