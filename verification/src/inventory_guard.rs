//! The last check before a destructive management action: the inventory the
//! user selected from must still say the same about every data folder and
//! image the selection removes. Paths are compared as `Path`s are, by
//! components.
use vstd::prelude::*;

use crate::launcher::ServiceAction;
use crate::storage::{path_eq, same_path};
use crate::text::{chars_of, push_all, push_lit, string_of};

verus! {

/// An installed Port as the inventory lists it: its launcher, its data
/// folder, and the images that belong to it.
#[derive(Clone, Debug)]
pub struct InventoryPort {
    pub path: String,
    pub data_path: String,
    pub images: Vec<String>,
}

/// What the destructive check reads of an inventory: data folders, Ports,
/// how many Ports use each data folder (keyed by the folder's path text),
/// folders no Port uses, images, and images no Port uses.
#[derive(Clone, Debug)]
pub struct InventoryFacts {
    pub data_dirs: Vec<String>,
    pub ports: Vec<InventoryPort>,
    pub data_refcount: Vec<(String, usize)>,
    pub orphan_dirs: Vec<String>,
    pub images: Vec<String>,
    pub orphan_images: Vec<String>,
}

/// Actions that remove something.
pub open spec fn destructive(kind: Seq<char>) -> bool {
    kind == "TRASH"@ || kind == "DELETE_MANAGED"@
}

/// `p` is removed by one of the actions.
pub open spec fn is_selected(actions: Seq<ServiceAction>, p: Seq<char>) -> bool {
    exists|i: int| 0 <= i < actions.len() && destructive(actions[i].kind@) && same_path(#[trigger] actions[i].argument@, p)
}

/// Some path of `list` is `p`.
pub open spec fn listed(list: Seq<String>, p: Seq<char>) -> bool {
    exists|i: int| 0 <= i < list.len() && same_path(#[trigger] list[i]@, p)
}

/// The first of the first `n` paths of `list` that is `p`.
pub open spec fn first_listed(list: Seq<String>, p: Seq<char>, n: int) -> Option<int>
    decreases n,
{
    if n <= 0 {
        None
    } else {
        match first_listed(list, p, n - 1) {
            Some(i) => Some(i),
            None => if same_path(list[n - 1]@, p) {
                Some(n - 1)
            } else {
                None
            },
        }
    }
}

/// The count recorded for the exact key `key` among the first `n` entries,
/// or 0.
pub open spec fn recorded_count(counts: Seq<(String, usize)>, key: Seq<char>, n: int) -> usize
    decreases n,
{
    if n <= 0 {
        0
    } else if counts[0].0@ == key {
        counts[0].1
    } else {
        recorded_count(counts.drop_first(), key, n - 1)
    }
}

/// How many of the first `n` Ports use the data folder `p` and are removed
/// themselves.
pub open spec fn selected_references(ports: Seq<InventoryPort>, actions: Seq<ServiceAction>, p: Seq<char>, n: int) -> nat
    decreases n,
{
    if n <= 0 {
        0
    } else {
        selected_references(ports, actions, p, n - 1) + if same_path(ports[n - 1].data_path@, p) && is_selected(
            actions,
            ports[n - 1].path@,
        ) {
            1nat
        } else {
            0nat
        }
    }
}

/// A Port that uses the image `p`.
pub open spec fn uses_image(port: InventoryPort, p: Seq<char>) -> bool {
    listed(port.images@, p)
}

/// Removing `p` keeps what the inventory says of it as a data folder: no
/// Port that stays uses it, and a folder no Port uses is still listed as
/// such.
pub open spec fn data_dir_unchanged(inv: InventoryFacts, actions: Seq<ServiceAction>, p: Seq<char>) -> bool {
    match first_listed(inv.data_dirs@, p, inv.data_dirs@.len() as int) {
        None => true,
        Some(i) => {
            let entry = inv.data_dirs@[i]@;
            let current = recorded_count(inv.data_refcount@, entry, inv.data_refcount@.len() as int);
            let selected = selected_references(inv.ports@, actions, p, inv.ports@.len() as int);
            !(current > selected || (current == 0 && !listed(inv.orphan_dirs@, entry)))
        },
    }
}

/// Removing `p` keeps what the inventory says of it as an image: no Port
/// that stays uses it, and an image no Port uses is still listed as such.
pub open spec fn image_unchanged(inv: InventoryFacts, actions: Seq<ServiceAction>, p: Seq<char>) -> bool {
    let ports = inv.ports@;
    let used_by_kept = exists|i: int| 0 <= i < ports.len() && !is_selected(actions, ports[i].path@) && uses_image(#[trigger] ports[i], p);
    let associated = exists|i: int| 0 <= i < ports.len() && uses_image(#[trigger] ports[i], p);
    !listed(inv.images@, p) || !(used_by_kept || (!associated && !listed(inv.orphan_images@, p)))
}

/// An action the inventory still allows.
pub open spec fn action_allowed(inv: InventoryFacts, actions: Seq<ServiceAction>, a: ServiceAction) -> bool {
    destructive(a.kind@) ==> data_dir_unchanged(inv, actions, a.argument@) && image_unchanged(inv, actions, a.argument@)
}

pub open spec fn stale_selection_message(p: Seq<char>) -> Seq<char> {
    "selection changed; rescan before removing "@ + p
}

fn destructive_kind(kind: &str) -> (r: bool)
    ensures
        r == destructive(kind@),
{
    let k = chars_of(kind);
    crate::text::eq_lit(k.as_slice(), "TRASH") || crate::text::eq_lit(k.as_slice(), "DELETE_MANAGED")
}

fn selected_exec(actions: &Vec<ServiceAction>, p: &[char]) -> (r: bool)
    ensures
        r == is_selected(actions@, p@),
{
    let mut i: usize = 0;
    while i < actions.len()
        invariant
            i <= actions.len(),
            forall|j: int| 0 <= j < i ==> !(destructive(actions@[j].kind@) && same_path(#[trigger] actions@[j].argument@, p@)),
        decreases actions.len() - i,
    {
        if destructive_kind(actions[i].kind.as_str()) && path_eq(chars_of(actions[i].argument.as_str()).as_slice(), p) {
            return true;
        }
        i += 1;
    }
    false
}

fn listed_exec(list: &Vec<String>, p: &[char]) -> (r: bool)
    ensures
        r == listed(list@, p@),
{
    let mut i: usize = 0;
    while i < list.len()
        invariant
            i <= list.len(),
            forall|j: int| 0 <= j < i ==> !same_path(#[trigger] list@[j]@, p@),
        decreases list.len() - i,
    {
        if path_eq(chars_of(list[i].as_str()).as_slice(), p) {
            return true;
        }
        i += 1;
    }
    false
}

proof fn lemma_first_listed_none(list: Seq<String>, p: Seq<char>, n: int)
    requires
        0 <= n <= list.len(),
        forall|j: int| 0 <= j < n ==> !same_path(#[trigger] list[j]@, p),
    ensures
        first_listed(list, p, n) is None,
    decreases n,
{
    if n > 0 {
        lemma_first_listed_none(list, p, n - 1);
    }
}

proof fn lemma_first_listed_found(list: Seq<String>, p: Seq<char>, i: int, n: int)
    requires
        0 <= i < n <= list.len(),
        same_path(list[i]@, p),
        forall|j: int| 0 <= j < i ==> !same_path(#[trigger] list[j]@, p),
    ensures
        first_listed(list, p, n) == Some(i),
    decreases n,
{
    if n > i + 1 {
        lemma_first_listed_found(list, p, i, n - 1);
    } else {
        lemma_first_listed_none(list, p, i);
    }
}

fn first_listed_exec(list: &Vec<String>, p: &[char]) -> (r: Option<usize>)
    ensures
        match r {
            Some(i) => first_listed(list@, p@, list@.len() as int) == Some(i as int) && i < list.len(),
            None => first_listed(list@, p@, list@.len() as int) is None,
        },
{
    let mut i: usize = 0;
    while i < list.len()
        invariant
            i <= list.len(),
            forall|j: int| 0 <= j < i ==> !same_path(#[trigger] list@[j]@, p@),
        decreases list.len() - i,
    {
        if path_eq(chars_of(list[i].as_str()).as_slice(), p) {
            proof {
                lemma_first_listed_found(list@, p@, i as int, list@.len() as int);
            }
            return Some(i);
        }
        i += 1;
    }
    proof {
        lemma_first_listed_none(list@, p@, list@.len() as int);
    }
    None
}

proof fn lemma_recorded_count_skip(counts: Seq<(String, usize)>, key: Seq<char>, i: int)
    requires
        0 <= i < counts.len(),
        forall|j: int| 0 <= j <= i ==> (#[trigger] counts[j]).0@ != key,
    ensures
        recorded_count(counts, key, counts.len() as int) == recorded_count(counts.subrange(i + 1, counts.len() as int), key, counts.len() - i - 1),
    decreases i,
{
    if i > 0 {
        assert(forall|j: int| 0 <= j <= i - 1 ==> (#[trigger] counts[j]).0@ != key);
        lemma_recorded_count_skip(counts, key, i - 1);
        let rest = counts.subrange(i, counts.len() as int);
        assert(rest[0] == counts[i]);
        assert(rest.drop_first() =~= counts.subrange(i + 1, counts.len() as int));
    } else {
        assert(counts.drop_first() =~= counts.subrange(1, counts.len() as int));
    }
}

fn recorded_count_exec(counts: &Vec<(String, usize)>, key: &str) -> (r: usize)
    ensures
        r == recorded_count(counts@, key@, counts@.len() as int),
{
    let mut i: usize = 0;
    while i < counts.len()
        invariant
            i <= counts.len(),
            forall|j: int| 0 <= j < i ==> (#[trigger] counts@[j]).0@ != key@,
        decreases counts.len() - i,
    {
        proof {
            vstd::utf8::encode_utf8_decode_utf8(key@);
            vstd::utf8::encode_utf8_decode_utf8(counts@[i as int].0@);
        }
        if crate::text::text_eq(chars_of(counts[i].0.as_str()).as_slice(), chars_of(key).as_slice()) {
            proof {
                if i > 0 {
                    lemma_recorded_count_skip(counts@, key@, i - 1);
                    assert(counts@.subrange(i as int, counts@.len() as int)[0] == counts@[i as int]);
                }
            }
            return counts[i].1;
        }
        i += 1;
    }
    proof {
        if counts.len() > 0 {
            lemma_recorded_count_skip(counts@, key@, counts.len() - 1);
        }
    }
    0
}

fn selected_references_exec(ports: &Vec<InventoryPort>, actions: &Vec<ServiceAction>, p: &[char]) -> (r: usize)
    ensures
        r == selected_references(ports@, actions@, p@, ports@.len() as int),
{
    let mut count: usize = 0;
    let mut i: usize = 0;
    while i < ports.len()
        invariant
            i <= ports.len(),
            count == selected_references(ports@, actions@, p@, i as int),
            count <= i,
        decreases ports.len() - i,
    {
        if path_eq(chars_of(ports[i].data_path.as_str()).as_slice(), p) && selected_exec(
            actions,
            chars_of(ports[i].path.as_str()).as_slice(),
        ) {
            count += 1;
        }
        i += 1;
    }
    count
}

fn data_dir_check(inv: &InventoryFacts, actions: &Vec<ServiceAction>, p: &[char]) -> (r: bool)
    ensures
        r == data_dir_unchanged(*inv, actions@, p@),
{
    match first_listed_exec(&inv.data_dirs, p) {
        None => true,
        Some(i) => {
            let entry = &inv.data_dirs[i];
            let current = recorded_count_exec(&inv.data_refcount, entry.as_str());
            let selected = selected_references_exec(&inv.ports, actions, p);
            let orphan = listed_exec(&inv.orphan_dirs, chars_of(entry.as_str()).as_slice());
            !(current > selected || (current == 0 && !orphan))
        },
    }
}

fn image_check(inv: &InventoryFacts, actions: &Vec<ServiceAction>, p: &[char]) -> (r: bool)
    ensures
        r == image_unchanged(*inv, actions@, p@),
{
    if !listed_exec(&inv.images, p) {
        return true;
    }
    let ghost ports = inv.ports@;
    let mut used_by_kept = false;
    let mut associated = false;
    let mut i: usize = 0;
    while i < inv.ports.len()
        invariant
            i <= inv.ports.len(),
            ports == inv.ports@,
            used_by_kept == exists|j: int| 0 <= j < i && !is_selected(actions@, ports[j].path@) && uses_image(#[trigger] ports[j], p@),
            associated == exists|j: int| 0 <= j < i && uses_image(#[trigger] ports[j], p@),
        decreases inv.ports.len() - i,
    {
        let port = &inv.ports[i];
        if listed_exec(&port.images, p) {
            associated = true;
            if !selected_exec(actions, chars_of(port.path.as_str()).as_slice()) {
                used_by_kept = true;
            }
        }
        i += 1;
    }
    let orphan = listed_exec(&inv.orphan_images, p);
    !(used_by_kept || (!associated && !orphan))
}

/// Refuses a selection whose destructive actions the inventory no longer
/// supports: a data folder that a Port outside the selection still uses, or
/// that turned from unused to used; an image that a Port outside the
/// selection uses, or that is neither used nor listed as unused.
pub fn validate_destructive_inventory(inventory: &InventoryFacts, actions: &Vec<ServiceAction>) -> (r: Result<(), String>)
    ensures
        r is Ok <==> forall|i: int| 0 <= i < actions.len() ==> action_allowed(*inventory, actions@, #[trigger] actions@[i]),
        r matches Err(e) ==> exists|i: int|
            0 <= i < actions.len() && !action_allowed(*inventory, actions@, #[trigger] actions@[i]) && (forall|j: int|
                0 <= j < i ==> action_allowed(*inventory, actions@, #[trigger] actions@[j])) && e@ == stale_selection_message(
                actions@[i].argument@,
            ),
{
    let mut i: usize = 0;
    while i < actions.len()
        invariant
            i <= actions.len(),
            forall|j: int| 0 <= j < i ==> action_allowed(*inventory, actions@, #[trigger] actions@[j]),
        decreases actions.len() - i,
    {
        let action = &actions[i];
        if destructive_kind(action.kind.as_str()) {
            let p = chars_of(action.argument.as_str());
            if !data_dir_check(inventory, actions, p.as_slice()) || !image_check(inventory, actions, p.as_slice()) {
                let mut message = chars_of("selection changed; rescan before removing ");
                push_all(&mut message, p.as_slice());
                proof {
                    reveal_strlit("selection changed; rescan before removing ");
                    assert(!action_allowed(*inventory, actions@, actions@[i as int]));
                }
                return Err(string_of(message.as_slice()));
            }
        }
        i += 1;
    }
    Ok(())
}

/// How many of the first `n` Ports use the data folder `p`.
pub open spec fn references(ports: Seq<InventoryPort>, p: Seq<char>, n: int) -> nat
    decreases n,
{
    if n <= 0 {
        0
    } else {
        references(ports, p, n - 1) + if same_path(ports[n - 1].data_path@, p) {
            1nat
        } else {
            0nat
        }
    }
}

proof fn lemma_selected_below_references(ports: Seq<InventoryPort>, actions: Seq<ServiceAction>, p: Seq<char>, n: int, k: int)
    requires
        0 <= n <= ports.len(),
    ensures
        selected_references(ports, actions, p, n) <= references(ports, p, n),
        0 <= k < n && same_path(ports[k].data_path@, p) && !is_selected(actions, ports[k].path@) ==> selected_references(
            ports,
            actions,
            p,
            n,
        ) < references(ports, p, n),
    decreases n,
{
    if n > 0 {
        lemma_selected_below_references(ports, actions, p, n - 1, k);
    }
}

proof fn lemma_references_same_path(ports: Seq<InventoryPort>, p: Seq<char>, q: Seq<char>, n: int)
    requires
        same_path(p, q),
    ensures
        references(ports, p, n) == references(ports, q, n),
    decreases n,
{
    if n > 0 {
        lemma_references_same_path(ports, p, q, n - 1);
    }
}

proof fn lemma_first_listed_is_listed(list: Seq<String>, p: Seq<char>, n: int)
    requires
        0 <= n <= list.len(),
    ensures
        first_listed(list, p, n) matches Some(i) ==> 0 <= i < n && same_path(list[i]@, p),
    decreases n,
{
    if n > 0 {
        lemma_first_listed_is_listed(list, p, n - 1);
    }
}

/// A data folder that a Port outside the selection still uses is never
/// removed, when the inventory counts every Port that uses each folder.
pub proof fn lemma_kept_port_keeps_its_data(inventory: InventoryFacts, actions: Seq<ServiceAction>, a: ServiceAction, k: int)
    requires
        destructive(a.kind@),
        forall|i: int| 0 <= i < inventory.data_dirs@.len() ==> recorded_count(
            inventory.data_refcount@,
            #[trigger] inventory.data_dirs@[i]@,
            inventory.data_refcount@.len() as int,
        ) == references(inventory.ports@, inventory.data_dirs@[i]@, inventory.ports@.len() as int),
        listed(inventory.data_dirs@, a.argument@),
        0 <= k < inventory.ports@.len(),
        same_path(inventory.ports@[k].data_path@, a.argument@),
        !is_selected(actions, inventory.ports@[k].path@),
    ensures
        !action_allowed(inventory, actions, a),
{
    let dirs = inventory.data_dirs@;
    let p = a.argument@;
    lemma_first_listed_is_listed(dirs, p, dirs.len() as int);
    if first_listed(dirs, p, dirs.len() as int) is None {
        let j = choose|j: int| 0 <= j < dirs.len() && same_path(#[trigger] dirs[j]@, p);
        lemma_first_listed_none_only(dirs, p, dirs.len() as int, j);
    }
    let i = first_listed(dirs, p, dirs.len() as int)->0;
    lemma_references_same_path(inventory.ports@, dirs[i]@, p, inventory.ports@.len() as int);
    lemma_selected_below_references(inventory.ports@, actions, p, inventory.ports@.len() as int, k);
}

proof fn lemma_first_listed_none_only(list: Seq<String>, p: Seq<char>, n: int, j: int)
    requires
        0 <= j < n <= list.len(),
        same_path(list[j]@, p),
    ensures
        first_listed(list, p, n) is Some,
    decreases n,
{
    if n > j + 1 {
        lemma_first_listed_none_only(list, p, n - 1, j);
    }
}

/// An image that a Port outside the selection still uses is never removed.
pub proof fn lemma_kept_port_keeps_its_image(inventory: InventoryFacts, actions: Seq<ServiceAction>, a: ServiceAction, k: int)
    requires
        destructive(a.kind@),
        listed(inventory.images@, a.argument@),
        0 <= k < inventory.ports@.len(),
        uses_image(inventory.ports@[k], a.argument@),
        !is_selected(actions, inventory.ports@[k].path@),
    ensures
        !action_allowed(inventory, actions, a),
{
}

} // verus!
