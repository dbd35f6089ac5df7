//! The moves of a journaled bundle install: publishing its staged entries,
//! undoing a failed install, and finishing or undoing one that a crash
//! interrupted. Each plan is computed from what the journal records and from
//! the identity (device, inode) observed at every path it names; the caller
//! performs the moves in order, each as a rename that never overwrites.
use vstd::prelude::*;

use crate::journal::{BundleTransactionEntry, BundleTransactionJournal};
use crate::port_zip::BundleInstallOutcome;

verus! {

/// The identities observed at the three paths of one journal entry: its
/// target, its staged temporary and its backup (`None`: nothing there).
#[derive(Clone, Copy, Debug)]
pub struct EntryState {
    pub target: Option<(u64, u64)>,
    pub temporary: Option<(u64, u64)>,
    pub backup: Option<(u64, u64)>,
}

/// One move of a plan, naming a journal entry by its index.
#[derive(Clone, Copy, Debug)]
pub enum PlanAction {
    /// Move the existing target aside to its backup path.
    SetAside(usize),
    /// Move the staged temporary to the target.
    Publish(usize),
    /// Remove the staged temporary.
    RemoveTemporary(usize),
    /// Remove the install's owner marker from the published target.
    RemoveOwnerMarker(usize),
    /// Remove the backup of a replaced target.
    RemoveBackup(usize),
    /// Remove the published target.
    RemoveTarget(usize),
    /// Move the backup back to the target.
    Restore(usize),
}

/// The identity the install staged for entry `e`.
pub open spec fn staged_id(e: BundleTransactionEntry) -> Option<(u64, u64)> {
    Some((e.device, e.inode))
}

/// The identity of the target that entry `e` replaces, if any.
pub open spec fn replaced_id(e: BundleTransactionEntry) -> Option<(u64, u64)> {
    match e.replacement {
        Some(r) => Some((r.device, r.inode)),
        None => None,
    }
}

/// Whether `a` may be performed when the paths hold `s`: a path is only
/// removed when it holds the identity the journal recorded for it, and a
/// move only goes into an empty path.
pub open spec fn action_safe(es: Seq<BundleTransactionEntry>, s: Seq<EntryState>, a: PlanAction) -> bool {
    match a {
        PlanAction::SetAside(i) => i < es.len() && i < s.len() && replaced_id(es[i as int]) is Some
            && s[i as int].target == replaced_id(es[i as int]) && s[i as int].backup is None,
        PlanAction::Publish(i) => i < es.len() && i < s.len() && es[i as int].ready && s[i as int].target is None
            && s[i as int].temporary == staged_id(es[i as int]),
        PlanAction::RemoveTemporary(i) => i < es.len() && i < s.len() && s[i as int].temporary == staged_id(es[i as int]),
        PlanAction::RemoveOwnerMarker(i) => i < es.len() && i < s.len() && s[i as int].target == staged_id(es[i as int]),
        PlanAction::RemoveBackup(i) => i < es.len() && i < s.len() && replaced_id(es[i as int]) is Some
            && s[i as int].backup == replaced_id(es[i as int]),
        PlanAction::RemoveTarget(i) => i < es.len() && i < s.len() && s[i as int].target == staged_id(es[i as int]),
        PlanAction::Restore(i) => i < es.len() && i < s.len() && replaced_id(es[i as int]) is Some
            && s[i as int].backup == replaced_id(es[i as int]) && s[i as int].target is None,
    }
}

/// What the paths hold after `a`.
pub open spec fn after(s: Seq<EntryState>, a: PlanAction) -> Seq<EntryState> {
    match a {
        PlanAction::SetAside(i) => s.update(
            i as int,
            EntryState { target: None, temporary: s[i as int].temporary, backup: s[i as int].target },
        ),
        PlanAction::Publish(i) => s.update(
            i as int,
            EntryState { target: s[i as int].temporary, temporary: None, backup: s[i as int].backup },
        ),
        PlanAction::RemoveTemporary(i) => s.update(
            i as int,
            EntryState { target: s[i as int].target, temporary: None, backup: s[i as int].backup },
        ),
        PlanAction::RemoveOwnerMarker(i) => s,
        PlanAction::RemoveBackup(i) => s.update(
            i as int,
            EntryState { target: s[i as int].target, temporary: s[i as int].temporary, backup: None },
        ),
        PlanAction::RemoveTarget(i) => s.update(
            i as int,
            EntryState { target: None, temporary: s[i as int].temporary, backup: s[i as int].backup },
        ),
        PlanAction::Restore(i) => s.update(
            i as int,
            EntryState { target: s[i as int].backup, temporary: s[i as int].temporary, backup: None },
        ),
    }
}

/// What the paths hold after the moves `acts`, starting from `s`.
pub open spec fn run(s: Seq<EntryState>, acts: Seq<PlanAction>) -> Seq<EntryState>
    decreases acts.len(),
{
    if acts.len() == 0 {
        s
    } else {
        after(run(s, acts.drop_last()), acts.last())
    }
}

/// Every move of `acts` is safe where it happens.
pub open spec fn plan_safe(es: Seq<BundleTransactionEntry>, s: Seq<EntryState>, acts: Seq<PlanAction>) -> bool
    decreases acts.len(),
{
    if acts.len() == 0 {
        true
    } else {
        plan_safe(es, s, acts.drop_last()) && action_safe(es, run(s, acts.drop_last()), acts.last())
    }
}

/// The content replaced by entry `i` is at its target or at its backup.
pub open spec fn replaced_kept(es: Seq<BundleTransactionEntry>, s: Seq<EntryState>, i: int) -> bool {
    s[i].target == replaced_id(es[i]) || s[i].backup == replaced_id(es[i])
}

/// The replaced content of every entry that still had it, and whose staged
/// identity differs from it, is kept.
pub open spec fn keeps_replaced(es: Seq<BundleTransactionEntry>, before: Seq<EntryState>, now: Seq<EntryState>) -> bool {
    forall|i: int|
        0 <= i < es.len() && replaced_id(es[i]) is Some && staged_id(es[i]) != replaced_id(es[i]) && #[trigger] replaced_kept(
            es,
            before,
            i,
        ) ==> replaced_kept(es, now, i)
}

pub open spec fn is_removal_of_backup(a: PlanAction) -> bool {
    a is RemoveBackup
}

/// A move that only cleans up after a committed install.
pub open spec fn cleanup_only(a: PlanAction) -> bool {
    a is RemoveTemporary || a is RemoveOwnerMarker || a is RemoveBackup
}

fn holds(o: Option<(u64, u64)>, device: u64, inode: u64) -> (r: bool)
    ensures
        r == (o == Some((device, inode))),
{
    match o {
        Some(p) => p.0 == device && p.1 == inode,
        None => false,
    }
}

fn replaced_holds(o: Option<(u64, u64)>, e: &BundleTransactionEntry) -> (r: bool)
    ensures
        r == (replaced_id(*e) is Some && o == replaced_id(*e)),
{
    match &e.replacement {
        Some(rep) => holds(o, rep.device, rep.inode),
        None => false,
    }
}

/// Appends `a` and performs it on `cur`.
fn perform(
    es: &Vec<BundleTransactionEntry>,
    cur: &mut Vec<EntryState>,
    acts: &mut Vec<PlanAction>,
    a: PlanAction,
    Ghost(start): Ghost<Seq<EntryState>>,
)
    requires
        old(cur)@ == run(start, old(acts)@),
        plan_safe(es@, start, old(acts)@),
        action_safe(es@, old(cur)@, a),
        old(cur).len() == es.len(),
    ensures
        final(acts)@ == old(acts)@.push(a),
        final(cur)@ == after(old(cur)@, a),
        final(cur)@ == run(start, final(acts)@),
        plan_safe(es@, start, final(acts)@),
        final(cur).len() == es.len(),
{
    let ghost before = acts@;
    let i = match a {
        PlanAction::SetAside(i) => i,
        PlanAction::Publish(i) => i,
        PlanAction::RemoveTemporary(i) => i,
        PlanAction::RemoveOwnerMarker(i) => i,
        PlanAction::RemoveBackup(i) => i,
        PlanAction::RemoveTarget(i) => i,
        PlanAction::Restore(i) => i,
    };
    let s = cur[i];
    let next = match a {
        PlanAction::SetAside(_) => EntryState { target: None, temporary: s.temporary, backup: s.target },
        PlanAction::Publish(_) => EntryState { target: s.temporary, temporary: None, backup: s.backup },
        PlanAction::RemoveTemporary(_) => EntryState { target: s.target, temporary: None, backup: s.backup },
        PlanAction::RemoveOwnerMarker(_) => s,
        PlanAction::RemoveBackup(_) => EntryState { target: s.target, temporary: s.temporary, backup: None },
        PlanAction::RemoveTarget(_) => EntryState { target: None, temporary: s.temporary, backup: s.backup },
        PlanAction::Restore(_) => EntryState { target: s.backup, temporary: s.temporary, backup: None },
    };
    cur.set(i, next);
    acts.push(a);
    proof {
        assert(acts@.drop_last() == before);
        if a is RemoveOwnerMarker {
            assert(cur@ =~= old(cur)@);
        }
    }
}

/// Undoes the entries of an install that does not complete: from the last
/// entry to the first, its staged temporary and its published target are
/// removed where they still hold the staged identity, and a target that was
/// set aside is moved back when its path is free. The second result tells
/// whether nothing was left behind.
fn undo_entries(
    es: &Vec<BundleTransactionEntry>,
    cur: &mut Vec<EntryState>,
    acts: &mut Vec<PlanAction>,
    Ghost(start): Ghost<Seq<EntryState>>,
) -> (complete: bool)
    requires
        old(cur)@ == run(start, old(acts)@),
        plan_safe(es@, start, old(acts)@),
        old(cur).len() == es.len(),
    ensures
        final(cur)@ == run(start, final(acts)@),
        plan_safe(es@, start, final(acts)@),
        final(cur).len() == es.len(),
        old(acts).len() <= final(acts).len(),
        final(acts)@.subrange(0, old(acts).len() as int) == old(acts)@,
        keeps_replaced(es@, old(cur)@, final(cur)@),
        forall|k: int| old(acts).len() <= k < final(acts).len() ==> !is_removal_of_backup(#[trigger] final(acts)@[k]),
        forall|i: int| 0 <= i < es.len() ==> final(cur)@[i].target != staged_id(#[trigger] es@[i]),
        forall|i: int| 0 <= i < es.len() ==> final(cur)@[i].temporary != staged_id(#[trigger] es@[i]),
        forall|i: int|
            0 <= i < es.len() && replaced_id(#[trigger] es@[i]) is Some && staged_id(es@[i]) != replaced_id(es@[i])
                && old(cur)@[i].backup == replaced_id(es@[i]) && (old(cur)@[i].target is None || old(cur)@[i].target
                == staged_id(es@[i])) ==> final(cur)@[i].target == replaced_id(es@[i]),
        complete ==> undone(es@, final(cur)@),
{
    let ghost first = cur@;
    let ghost acts0 = acts.len();
    let mut complete = true;
    let mut k: usize = es.len();
    while k > 0
        invariant
            k <= es.len(),
            cur.len() == es.len(),
            cur@ == run(start, acts@),
            plan_safe(es@, start, acts@),
            acts0 <= acts.len(),
            acts0 == old(acts).len(),
            acts@.subrange(0, acts0 as int) == old(acts)@,
            first == old(cur)@,
            forall|j: int| acts0 <= j < acts.len() ==> !is_removal_of_backup(#[trigger] acts@[j]),
            forall|i: int| 0 <= i < k ==> cur@[i] == #[trigger] first[i],
            keeps_replaced(es@, first, cur@),
            forall|i: int| k <= i < es.len() ==> cur@[i].target != staged_id(#[trigger] es@[i]),
            forall|i: int| k <= i < es.len() ==> cur@[i].temporary != staged_id(#[trigger] es@[i]),
            forall|i: int|
                k <= i < es.len() && replaced_id(#[trigger] es@[i]) is Some && staged_id(es@[i]) != replaced_id(es@[i])
                    && first[i].backup == replaced_id(es@[i]) && (first[i].target is None || first[i].target
                    == staged_id(es@[i])) ==> cur@[i].target == replaced_id(es@[i]),
            complete ==> forall|i: int|
                k <= i < es.len() ==> {
                    &&& cur@[i].temporary is None
                    &&& cur@[i].target is None || cur@[i].target == replaced_id(#[trigger] es@[i])
                    &&& replaced_id(es@[i]) is Some && cur@[i].backup == replaced_id(es@[i]) ==> staged_id(es@[i])
                        == replaced_id(es@[i])
                },
        decreases k,
    {
        k -= 1;
        let e = &es[k];
        let ghost mid0 = cur@;
        if holds(cur[k].temporary, e.device, e.inode) {
            perform(es, cur, acts, PlanAction::RemoveTemporary(k), Ghost(start));
        } else if cur[k].temporary.is_some() {
            complete = false;
        }
        if holds(cur[k].target, e.device, e.inode) {
            perform(es, cur, acts, PlanAction::RemoveTarget(k), Ghost(start));
        } else if cur[k].target.is_some() {
            complete = false;
        }
        if replaced_holds(cur[k].backup, e) && !replaced_holds(Some((e.device, e.inode)), e) {
            if cur[k].target.is_none() {
                perform(es, cur, acts, PlanAction::Restore(k), Ghost(start));
            } else {
                complete = false;
            }
        }
        proof {
            assert forall|i: int| 0 <= i < es.len() && i != k implies cur@[i] == mid0[i] by {}
            assert forall|i: int|
                0 <= i < es.len() && replaced_id(es@[i]) is Some && staged_id(es@[i]) != replaced_id(es@[i])
                    && #[trigger] replaced_kept(es@, first, i) implies replaced_kept(es@, cur@, i) by {
                if i != k {
                    assert(cur@[i] == mid0[i]);
                }
            }
        }
    }
    complete
}

/// The moves that publish the staged entries of an install whose staging is
/// complete: each existing target is first set aside (only a replaceable
/// directory, only when replacing was chosen, and only the one whose identity
/// the journal recorded), then the directories are published, and the
/// launcher files after them. `directories[i]` tells whether entry `i` is a
/// directory.
pub fn commit_plan(
    journal: &BundleTransactionJournal,
    directories: &Vec<bool>,
    replace_existing: bool,
    observed: &Vec<EntryState>,
) -> (r: Result<Vec<PlanAction>, String>)
    requires
        observed.len() == journal.entries.len(),
        directories.len() == journal.entries.len(),
    ensures
        r is Ok <==> forall|i: int|
            0 <= i < observed.len() ==> {
                &&& (#[trigger] observed@[i]).target is Some ==> replace_existing && directories@[i]
                    && replaced_id(journal.entries@[i]) == observed@[i].target && observed@[i].backup is None
                &&& journal.entries@[i].ready
                &&& observed@[i].temporary == staged_id(journal.entries@[i])
                &&& staged_id(journal.entries@[i]) != replaced_id(journal.entries@[i])
            },
        r matches Ok(acts) ==> {
            &&& plan_safe(journal.entries@, observed@, acts@)
            &&& forall|i: int| 0 <= i < observed.len() ==> run(observed@, acts@)[i].target == staged_id(
                #[trigger] journal.entries@[i],
            )
            &&& forall|i: int|
                0 <= i < observed.len() && (#[trigger] observed@[i]).target is Some ==> run(observed@, acts@)[i].backup
                    == observed@[i].target
            &&& forall|a: int, b: int|
                0 <= a < b < acts.len() && (#[trigger] acts@[a]) is Publish && (#[trigger] acts@[b]) is SetAside ==> false
            &&& directories_first(acts@, directories@)
            &&& !replace_existing ==> forall|a: int| 0 <= a < acts.len() ==> !((#[trigger] acts@[a]) is SetAside)
        },
{
    let es = &journal.entries;
    let n = es.len();
    let mut i: usize = 0;
    while i < n
        invariant
            i <= n,
            n == es.len(),
            es@ == journal.entries@,
            observed.len() == n,
            directories.len() == n,
            forall|j: int|
                0 <= j < i ==> {
                    &&& (#[trigger] observed@[j]).target is Some ==> replace_existing && directories@[j]
                        && replaced_id(es@[j]) == observed@[j].target && observed@[j].backup is None
                    &&& es@[j].ready
                    &&& observed@[j].temporary == staged_id(es@[j])
                    &&& staged_id(es@[j]) != replaced_id(es@[j])
                },
        decreases n - i,
    {
        let e = &es[i];
        let s = observed[i];
        assert(s == observed@[i as int] && *e == es@[i as int]);
        if s.target.is_some() {
            if !replace_existing {
                return Err("commit install target without replacing another entry".to_owned());
            }
            if !directories[i] {
                return Err("launcher target appeared during installation; rescan and retry".to_owned());
            }
            if !replaced_holds(s.target, e) {
                return Err("install target changed while preparing replacement".to_owned());
            }
            if s.backup.is_some() {
                return Err("replacement backup already exists".to_owned());
            }
        }
        if !e.ready || !holds(s.temporary, e.device, e.inode) || replaced_holds(Some((e.device, e.inode)), e) {
            return Err("staged install entry changed before commit".to_owned());
        }
        i += 1;
    }
    let mut cur = observed.clone();
    assert(cur@ =~= observed@);
    let mut acts: Vec<PlanAction> = Vec::new();
    let ghost start = observed@;
    let mut k: usize = 0;
    while k < n
        invariant
            k <= n,
            n == es.len(),
            es@ == journal.entries@,
            observed.len() == n,
            cur.len() == n,
            cur@ == run(start, acts@),
            start == observed@,
            plan_safe(es@, start, acts@),
            forall|j: int|
                0 <= j < n ==> {
                    &&& (#[trigger] observed@[j]).target is Some ==> replace_existing && directories@[j]
                        && replaced_id(es@[j]) == observed@[j].target && observed@[j].backup is None
                    &&& es@[j].ready
                    &&& observed@[j].temporary == staged_id(es@[j])
                    &&& staged_id(es@[j]) != replaced_id(es@[j])
                },
            forall|j: int| k <= j < n ==> cur@[j] == #[trigger] observed@[j],
            forall|j: int| 0 <= j < k ==> (#[trigger] cur@[j]).target is None,
            forall|j: int| 0 <= j < k ==> (#[trigger] cur@[j]).temporary == observed@[j].temporary,
            forall|j: int| 0 <= j < k && (#[trigger] observed@[j]).target is Some ==> cur@[j].backup == observed@[j].target,
            forall|j: int| 0 <= j < acts.len() ==> (#[trigger] acts@[j]) is SetAside,
            !replace_existing ==> acts.len() == 0,
        decreases n - k,
    {
        if observed[k].target.is_some() {
            let ghost mid = cur@;
            perform(es, &mut cur, &mut acts, PlanAction::SetAside(k), Ghost(start));
            assert forall|j: int| 0 <= j < n && j != k implies cur@[j] == mid[j] by {}
        }
        k += 1;
    }
    let asides = acts.len();
    let mut pass: usize = 0;
    while pass < 2
        invariant
            pass <= 2,
            n == es.len(),
            es@ == journal.entries@,
            observed.len() == n,
            directories.len() == n,
            cur.len() == n,
            cur@ == run(start, acts@),
            start == observed@,
            plan_safe(es@, start, acts@),
            asides <= acts.len(),
            forall|j: int| 0 <= j < asides ==> (#[trigger] acts@[j]) is SetAside,
            forall|j: int| asides <= j < acts.len() ==> (#[trigger] acts@[j]) is Publish,
            !replace_existing ==> asides == 0,
            forall|j: int| 0 <= j < n ==> es@[j].ready && observed@[j].temporary == staged_id(#[trigger] es@[j]),
            forall|j: int|
                0 <= j < n && (#[trigger] observed@[j]).target is Some ==> cur@[j].backup == observed@[j].target,
            forall|j: int|
                0 <= j < n ==> if pass_done(pass as int, directories@[j]) {
                    (#[trigger] cur@[j]).target == staged_id(es@[j])
                } else {
                    cur@[j].target is None && cur@[j].temporary == staged_id(es@[j])
                },
            forall|a: int|
                asides <= a < acts.len() ==> (#[trigger] acts@[a]) is Publish && 0 <= action_index(acts@[a]) < n
                    && pass_done(pass as int, directories@[action_index(acts@[a])]) && (pass == 1 ==> directories@[action_index(acts@[a])]),
            directories_first(acts@, directories@),
        decreases 2 - pass,
    {
        let want_directory = pass == 0;
        let mut k: usize = 0;
        let ghost acts_before = acts@;
        while k < n
            invariant
                k <= n,
                pass < 2,
                want_directory == (pass == 0),
                n == es.len(),
                es@ == journal.entries@,
            es@ == journal.entries@,
                observed.len() == n,
                directories.len() == n,
                cur.len() == n,
                cur@ == run(start, acts@),
                start == observed@,
                plan_safe(es@, start, acts@),
                asides <= acts_before.len() <= acts.len(),
                acts@.subrange(0, acts_before.len() as int) == acts_before,
                forall|j: int| 0 <= j < asides ==> (#[trigger] acts@[j]) is SetAside,
                forall|j: int| asides <= j < acts.len() ==> (#[trigger] acts@[j]) is Publish,
                forall|j: int| 0 <= j < n ==> es@[j].ready && observed@[j].temporary == staged_id(#[trigger] es@[j]),
                forall|j: int|
                    0 <= j < n && (#[trigger] observed@[j]).target is Some ==> cur@[j].backup == observed@[j].target,
                forall|j: int|
                    0 <= j < n ==> if pass_done(pass as int, directories@[j]) || (j < k && directories@[j]
                        == want_directory) {
                        (#[trigger] cur@[j]).target == staged_id(es@[j])
                    } else {
                        cur@[j].target is None && cur@[j].temporary == staged_id(es@[j])
                    },
                forall|a: int|
                    asides <= a < acts_before.len() ==> (#[trigger] acts@[a]) is Publish && 0 <= action_index(acts@[a]) < n
                        && pass_done(pass as int, directories@[action_index(acts@[a])]) && (pass == 1 ==> directories@[action_index(acts@[a])]),
                forall|a: int|
                    acts_before.len() <= a < acts.len() ==> (#[trigger] acts@[a]) is Publish && 0 <= action_index(acts@[a])
                        < k && directories@[action_index(acts@[a])] == want_directory,
                directories_first(acts_before, directories@),
            decreases n - k,
        {
            if directories[k] == want_directory {
                let ghost mid = cur@;
                let ghost mid_acts = acts@;
                perform(es, &mut cur, &mut acts, PlanAction::Publish(k), Ghost(start));
                proof {
                    assert forall|j: int| 0 <= j < n && j != k implies cur@[j] == mid[j] by {}
                    assert forall|j: int| 0 <= j < mid_acts.len() implies acts@[j] == mid_acts[j] by {}
                    assert(acts@.subrange(0, acts_before.len() as int) =~= acts_before);
                }
            }
            k += 1;
        }
        proof {
            assert forall|a: int, b: int|
                0 <= a < b < acts.len() && (#[trigger] acts@[a]) is Publish && (#[trigger] acts@[b]) is Publish
                    implies directories@[action_index(acts@[a])] || !directories@[action_index(acts@[b])] by {
                if b >= acts_before.len() && a < acts_before.len() {
                    assert(acts@[a] == acts_before[a]);
                } else if a < acts_before.len() {
                    assert(acts@[a] == acts_before[a]);
                    assert(acts@[b] == acts_before[b]);
                }
            }
            assert forall|a: int|
                asides <= a < acts.len() implies (#[trigger] acts@[a]) is Publish && 0 <= action_index(acts@[a]) < n
                    && pass_done(pass + 1, directories@[action_index(acts@[a])]) && (pass + 1 == 1 ==> directories@[action_index(acts@[a])]) by {
                if a < acts_before.len() {
                    assert(acts@[a] == acts_before[a]);
                }
            }
        }
        pass += 1;
    }
    Ok(acts)
}

/// The entry a move acts on.
pub open spec fn action_index(a: PlanAction) -> int {
    match a {
        PlanAction::SetAside(i) => i as int,
        PlanAction::Publish(i) => i as int,
        PlanAction::RemoveTemporary(i) => i as int,
        PlanAction::RemoveOwnerMarker(i) => i as int,
        PlanAction::RemoveBackup(i) => i as int,
        PlanAction::RemoveTarget(i) => i as int,
        PlanAction::Restore(i) => i as int,
    }
}

/// No launcher file is published before a directory.
pub open spec fn directories_first(acts: Seq<PlanAction>, directories: Seq<bool>) -> bool {
    forall|a: int, b: int|
        0 <= a < b < acts.len() && (#[trigger] acts[a]) is Publish && (#[trigger] acts[b]) is Publish ==> directories[action_index(acts[a])]
            || !directories[action_index(acts[b])]
}

/// After `pass` passes, the entries published are the directories (first
/// pass) and then also the files.
pub open spec fn pass_done(pass: int, directory: bool) -> bool {
    pass >= 2 || (pass >= 1 && directory)
}

/// The moves that undo an install that failed after staging began: each
/// entry's staged temporary and published target are removed where they
/// still hold the staged identity, and each target that was set aside is put
/// back. The second result tells whether nothing was left behind.
pub fn rollback_plan(journal: &BundleTransactionJournal, observed: &Vec<EntryState>) -> (r: (Vec<PlanAction>, bool))
    requires
        observed.len() == journal.entries.len(),
    ensures
        plan_safe(journal.entries@, observed@, r.0@),
        keeps_replaced(journal.entries@, observed@, run(observed@, r.0@)),
        forall|k: int| 0 <= k < r.0.len() ==> !is_removal_of_backup(#[trigger] r.0@[k]),
        forall|i: int|
            0 <= i < observed.len() ==> run(observed@, r.0@)[i].target != staged_id(#[trigger] journal.entries@[i]),
        forall|i: int|
            0 <= i < observed.len() ==> run(observed@, r.0@)[i].temporary != staged_id(#[trigger] journal.entries@[i]),
        forall|i: int|
            0 <= i < observed.len() && replaced_id(#[trigger] journal.entries@[i]) is Some && staged_id(
                journal.entries@[i],
            ) != replaced_id(journal.entries@[i]) && observed@[i].backup == replaced_id(journal.entries@[i]) && (
            observed@[i].target is None || observed@[i].target == staged_id(journal.entries@[i]))
                ==> run(observed@, r.0@)[i].target == replaced_id(journal.entries@[i]),
        r.1 ==> undone(journal.entries@, run(observed@, r.0@)),
{
    let mut cur = observed.clone();
    assert(cur@ =~= observed@);
    let mut acts: Vec<PlanAction> = Vec::new();
    let complete = undo_entries(&journal.entries, &mut cur, &mut acts, Ghost(observed@));
    (acts, complete)
}

/// How to finish or undo a transaction that a crash interrupted.
pub struct RecoveryPlan {
    pub actions: Vec<PlanAction>,
    /// The transaction counts as done: committed, or every entry published.
    pub finished: bool,
    /// Nothing is left behind once the moves succeed, so the journal may go.
    pub complete: bool,
}

/// After an undo, nothing of the install is left: no temporary, a target
/// that is empty or holds the content it replaced, and no replaced content
/// still waiting at its backup path.
pub open spec fn undone(es: Seq<BundleTransactionEntry>, s: Seq<EntryState>) -> bool {
    forall|i: int|
        0 <= i < es.len() ==> {
            &&& s[i].temporary is None
            &&& s[i].target is None || s[i].target == replaced_id(#[trigger] es[i])
            &&& replaced_id(es[i]) is Some && s[i].backup == replaced_id(es[i]) ==> staged_id(es[i]) == replaced_id(es[i])
        }
}

/// Every entry is ready and its target already holds what it staged, which
/// differs from what it replaced: the install was fully published.
pub open spec fn all_published(es: Seq<BundleTransactionEntry>, s: Seq<EntryState>) -> bool {
    forall|i: int|
        0 <= i < es.len() ==> (#[trigger] es[i]).ready && s[i].target == staged_id(es[i]) && staged_id(es[i])
            != replaced_id(es[i])
}

/// `acts` includes the move `a`.
pub open spec fn includes(acts: Seq<PlanAction>, a: PlanAction) -> bool {
    exists|k: int| 0 <= k < acts.len() && acts[k] == a
}

/// After `acts` nothing of a finished transaction is left to clean up: no
/// staged temporary, no replaced content at a backup path, and every target
/// that holds the staged identity has its owner marker removed.
pub open spec fn cleaned_up(es: Seq<BundleTransactionEntry>, s: Seq<EntryState>, acts: Seq<PlanAction>) -> bool {
    forall|i: int|
        0 <= i < es.len() ==> {
            &&& run(s, acts)[i].temporary != staged_id(#[trigger] es[i])
            &&& replaced_id(es[i]) is Some ==> run(s, acts)[i].backup != replaced_id(es[i])
            &&& run(s, acts)[i].target == staged_id(es[i]) ==> includes(acts, PlanAction::RemoveOwnerMarker(i as usize))
        }
}

/// Nothing at all is left at the temporary paths, nor at the backup paths of
/// replaced targets.
pub open spec fn nothing_left(es: Seq<BundleTransactionEntry>, s: Seq<EntryState>, acts: Seq<PlanAction>) -> bool {
    forall|i: int|
        0 <= i < es.len() ==> {
            &&& run(s, acts)[i].temporary is None
            &&& replaced_id(#[trigger] es[i]) is Some ==> run(s, acts)[i].backup is None
        }
}

/// A replaced target sits where its backup should go, and something else
/// occupies the backup path.
pub open spec fn blocked_set_aside(e: BundleTransactionEntry, s: EntryState) -> bool {
    &&& replaced_id(e) is Some
    &&& s.target == replaced_id(e)
    &&& s.backup != replaced_id(e)
    &&& s.backup is Some
}

/// The recovery of an interrupted transaction. An uncommitted one first
/// moves a replaced target still in place back to its backup, then publishes
/// every ready entry whose staged copy is intact, whose target is free and
/// whose replaced target is safe in its backup. If it is then committed or
/// fully published it is finished: temporaries, owner markers and backups are
/// cleaned up. Otherwise it is undone as after a failed install.
pub fn recovery_plan(journal: &BundleTransactionJournal, committed: bool, observed: &Vec<EntryState>) -> (r: Result<
    RecoveryPlan,
    String,
>)
    requires
        observed.len() == journal.entries.len(),
    ensures
        r is Err <==> !committed && exists|i: int|
            0 <= i < observed.len() && blocked_set_aside(journal.entries@[i], #[trigger] observed@[i]),
        r matches Err(e) ==> e@ == "recover preserved install target: backup path is occupied"@,
        r matches Ok(p) ==> {
            &&& plan_safe(journal.entries@, observed@, p.actions@)
            &&& committed ==> p.finished && forall|k: int| 0 <= k < p.actions.len() ==> cleanup_only(#[trigger] p.actions@[k])
            &&& p.finished && !committed ==> journal.entries.len() > 0 && forall|i: int|
                0 <= i < observed.len() ==> (#[trigger] journal.entries@[i]).ready && run(observed@, p.actions@)[i].target
                    == staged_id(journal.entries@[i])
            &&& !p.finished ==> {
                &&& keeps_replaced(journal.entries@, observed@, run(observed@, p.actions@))
                &&& forall|k: int| 0 <= k < p.actions.len() ==> !is_removal_of_backup(#[trigger] p.actions@[k])
            }
            &&& forall|i: int|
                0 <= i < observed.len() ==> run(observed@, p.actions@)[i].temporary != staged_id(
                    #[trigger] journal.entries@[i],
                )
            &&& p.finished ==> cleaned_up(journal.entries@, observed@, p.actions@)
            &&& p.finished && p.complete ==> nothing_left(journal.entries@, observed@, p.actions@)
            &&& !p.finished && p.complete ==> undone(journal.entries@, run(observed@, p.actions@))
            &&& journal.entries.len() > 0 && all_published(journal.entries@, observed@) ==> p.finished
        },
{
    let es = &journal.entries;
    let n = es.len();
    let mut cur = observed.clone();
    assert(cur@ =~= observed@);
    let mut acts: Vec<PlanAction> = Vec::new();
    let ghost start = observed@;
    if !committed {
        let mut i: usize = 0;
        while i < n
            invariant
                i <= n,
                n == es.len(),
                es@ == journal.entries@,
            es@ == journal.entries@,
                observed.len() == n,
                cur.len() == n,
                start == observed@,
                cur@ == run(start, acts@),
                plan_safe(es@, start, acts@),
                !committed,
                forall|j: int| 0 <= j < i ==> !blocked_set_aside(es@[j], #[trigger] observed@[j]),
                forall|j: int| i <= j < n ==> cur@[j] == #[trigger] observed@[j],
                keeps_replaced(es@, start, cur@),
                forall|k: int| 0 <= k < acts.len() ==> (#[trigger] acts@[k]) is SetAside,
                all_published(es@, start) ==> all_published(es@, cur@),
            decreases n - i,
        {
            let e = &es[i];
            let s = cur[i];
            if !replaced_holds(s.backup, e) && replaced_holds(s.target, e) {
                if s.backup.is_some() {
                    assert(blocked_set_aside(journal.entries@[i as int], observed@[i as int]));
                    assert(exists|j: int|
                        0 <= j < observed.len() && blocked_set_aside(journal.entries@[j], #[trigger] observed@[j]));
                    return Err("recover preserved install target: backup path is occupied".to_owned());
                }
                let ghost mid = cur@;
                perform(es, &mut cur, &mut acts, PlanAction::SetAside(i), Ghost(start));
                proof {
                    assert forall|j: int| 0 <= j < n && j != i implies cur@[j] == mid[j] by {}
                    assert forall|j: int|
                        0 <= j < n && replaced_id(es@[j]) is Some && staged_id(es@[j]) != replaced_id(es@[j])
                            && #[trigger] replaced_kept(es@, start, j) implies replaced_kept(es@, cur@, j) by {
                        if j != i {
                            assert(cur@[j] == mid[j]);
                        }
                    }
                }
            }
            i += 1;
        }
        let mut i: usize = 0;
        while i < n
            invariant
                i <= n,
                n == es.len(),
                es@ == journal.entries@,
            es@ == journal.entries@,
                observed.len() == n,
                cur.len() == n,
                start == observed@,
                cur@ == run(start, acts@),
                plan_safe(es@, start, acts@),
                keeps_replaced(es@, start, cur@),
                forall|k: int| 0 <= k < acts.len() ==> (#[trigger] acts@[k]) is SetAside || acts@[k] is Publish,
                all_published(es@, start) ==> all_published(es@, cur@),
            decreases n - i,
        {
            let e = &es[i];
            let s = cur[i];
            if !holds(s.target, e.device, e.inode) {
                let old_is_safe = match &e.replacement {
                    None => true,
                    Some(_) => replaced_holds(s.backup, e),
                };
                if e.ready && old_is_safe && holds(s.temporary, e.device, e.inode) && s.target.is_none() {
                    let ghost mid = cur@;
                    perform(es, &mut cur, &mut acts, PlanAction::Publish(i), Ghost(start));
                    proof {
                        assert forall|j: int|
                            0 <= j < n && replaced_id(es@[j]) is Some && staged_id(es@[j]) != replaced_id(es@[j])
                                && #[trigger] replaced_kept(es@, start, j) implies replaced_kept(es@, cur@, j) by {
                            if j != i {
                                assert(cur@[j] == mid[j]);
                            } else {
                                assert(replaced_kept(es@, mid, j));
                            }
                        }
                    }
                }
            }
            i += 1;
        }
    }
    let mut finished = committed;
    if !committed {
        let mut all = n > 0;
        let mut i: usize = 0;
        while i < n
            invariant
                i <= n,
                n == es.len(),
                es@ == journal.entries@,
            es@ == journal.entries@,
                cur.len() == n,
                all ==> n > 0 && forall|j: int| 0 <= j < i ==> (#[trigger] es@[j]).ready && cur@[j].target == staged_id(es@[j]),
                n > 0 && all_published(es@, start) ==> all && all_published(es@, cur@),
                start == observed@,
            decreases n - i,
        {
            if !(es[i].ready && holds(cur[i].target, es[i].device, es[i].inode)) {
                all = false;
            }
            i += 1;
        }
        finished = all;
    }
    let complete;
    if finished {
        let ghost acts0 = acts@;
        let ghost cur0 = cur@;
        let mut done = true;
        let mut k: usize = n;
        while k > 0
            invariant
                k <= n,
                n == es.len(),
                es@ == journal.entries@,
            es@ == journal.entries@,
                cur.len() == n,
                cur@ == run(start, acts@),
                plan_safe(es@, start, acts@),
                acts0.len() <= acts.len(),
                acts@.subrange(0, acts0.len() as int) == acts0,
                forall|j: int| acts0.len() <= j < acts.len() ==> cleanup_only(#[trigger] acts@[j]),
                forall|j: int| 0 <= j < n ==> (#[trigger] cur@[j]).target == cur0[j].target,
                forall|j: int| k <= j < n ==> cur@[j].temporary != staged_id(#[trigger] es@[j]),
                forall|j: int| 0 <= j < k ==> (#[trigger] cur@[j]) == cur0[j],
                forall|j: int|
                    k <= j < n ==> {
                        &&& replaced_id(#[trigger] es@[j]) is Some ==> cur@[j].backup != replaced_id(es@[j])
                        &&& cur@[j].target == staged_id(es@[j]) ==> includes(acts@, PlanAction::RemoveOwnerMarker(j as usize))
                    },
                done ==> forall|j: int|
                    k <= j < n ==> {
                        &&& cur@[j].temporary is None
                        &&& replaced_id(#[trigger] es@[j]) is Some ==> cur@[j].backup is None
                    },
            decreases k,
        {
            k -= 1;
            let e = &es[k];
            let ghost mid = cur@;
            let ghost mid_acts = acts@;
            if holds(cur[k].temporary, e.device, e.inode) {
                let ghost m = acts@;
                perform(es, &mut cur, &mut acts, PlanAction::RemoveTemporary(k), Ghost(start));
                assert(acts@.subrange(0, acts0.len() as int) =~= m.subrange(0, acts0.len() as int));
            } else if cur[k].temporary.is_some() {
                done = false;
            }
            if holds(cur[k].target, e.device, e.inode) {
                let ghost m = acts@;
                perform(es, &mut cur, &mut acts, PlanAction::RemoveOwnerMarker(k), Ghost(start));
                assert(acts@.subrange(0, acts0.len() as int) =~= m.subrange(0, acts0.len() as int));
            }
            if e.replacement.is_some() {
                if replaced_holds(cur[k].backup, e) {
                    let ghost m = acts@;
                    perform(es, &mut cur, &mut acts, PlanAction::RemoveBackup(k), Ghost(start));
                    assert(acts@.subrange(0, acts0.len() as int) =~= m.subrange(0, acts0.len() as int));
                } else if cur[k].backup.is_some() {
                    done = false;
                }
            }
            proof {
                assert forall|j: int| 0 <= j < n && j != k implies cur@[j] == mid[j] by {}
                assert forall|j: int| k < j < n && #[trigger] includes(mid_acts, PlanAction::RemoveOwnerMarker(j as usize))
                    implies includes(acts@, PlanAction::RemoveOwnerMarker(j as usize)) by {
                    let x = choose|x: int| 0 <= x < mid_acts.len() && mid_acts[x] == PlanAction::RemoveOwnerMarker(j as usize);
                    assert(acts@[x] == mid_acts[x]);
                }
            }
        }
        complete = done;
        proof {
            if committed {
                assert(acts0.len() == 0);
            }
            assert forall|j: int| 0 <= j < acts0.len() implies acts@[j] == acts0[j] by {
                assert(acts@.subrange(0, acts0.len() as int)[j] == acts0[j]);
            }
        }
    } else {
        let ghost acts0 = acts@;
        complete = undo_entries(es, &mut cur, &mut acts, Ghost(start));
        proof {
            assert forall|j: int| 0 <= j < acts0.len() implies !is_removal_of_backup(#[trigger] acts@[j]) by {
                assert(acts0[j] is SetAside || acts0[j] is Publish);
            }
        }
    }
    Ok(RecoveryPlan { actions: acts, finished, complete })
}

/// The install targets among `targets` that already exist (`existing[i]`),
/// in order.
pub open spec fn existing_targets(targets: Seq<String>, existing: Seq<bool>) -> Seq<Seq<char>>
    decreases targets.len(),
{
    if targets.len() == 0 || existing.len() == 0 {
        Seq::empty()
    } else {
        let rest = existing_targets(targets.drop_last(), existing.drop_last());
        if existing.last() {
            rest.push(targets.last()@)
        } else {
            rest
        }
    }
}

/// Before anything is staged: when some target exists and replacing was not
/// chosen, the install stops and reports those targets as conflicts, having
/// installed nothing; otherwise it goes on (`None`).
pub fn conflict_outcome(targets: &Vec<String>, existing: &Vec<bool>, replace_existing: bool) -> (r: Option<BundleInstallOutcome>)
    requires
        existing.len() == targets.len(),
    ensures
        r is Some <==> !replace_existing && existing_targets(targets@, existing@).len() > 0,
        r matches Some(o) ==> o.installed.len() == 0 && o.conflicts@.map_values(|c: String| c@) == existing_targets(
            targets@,
            existing@,
        ),
{
    let mut conflicts: Vec<String> = Vec::new();
    let mut i: usize = 0;
    while i < targets.len()
        invariant
            i <= targets.len(),
            existing.len() == targets.len(),
            conflicts@.map_values(|c: String| c@) == existing_targets(targets@.subrange(0, i as int), existing@.subrange(0, i as int)),
        decreases targets.len() - i,
    {
        proof {
            assert(targets@.subrange(0, i + 1).drop_last() =~= targets@.subrange(0, i as int));
            assert(existing@.subrange(0, i + 1).drop_last() =~= existing@.subrange(0, i as int));
        }
        if existing[i] {
            let t = copy_string(&targets[i]);
            let ghost before = conflicts@;
            conflicts.push(t);
            proof {
                assert(conflicts@.map_values(|c: String| c@) =~= before.map_values(|c: String| c@).push(targets@[i as int]@));
            }
        }
        i += 1;
    }
    proof {
        assert(targets@.subrange(0, targets.len() as int) =~= targets@);
        assert(existing@.subrange(0, existing.len() as int) =~= existing@);
    }
    if conflicts.len() > 0 && !replace_existing {
        Some(BundleInstallOutcome { installed: Vec::new(), conflicts })
    } else {
        None
    }
}

fn copy_string(s: &String) -> (r: String)
    ensures
        r@ == s@,
{
    let t = crate::text::chars_of(s.as_str());
    crate::text::string_of(t.as_slice())
}

/// Before the archive is retired or removed after its targets are published:
/// the file still at the archive's path must be the one that was inspected,
/// by its identity; otherwise the install fails and is undone.
pub fn retirement_check(scanned_identity: &str, current_identity: &str) -> (r: Result<(), String>)
    ensures
        r is Ok <==> scanned_identity@ == current_identity@,
        r matches Err(e) ==> e@ == "archive changed after it was scanned; please scan it again"@,
{
    let a = crate::text::chars_of(scanned_identity);
    let b = crate::text::chars_of(current_identity);
    if crate::text::text_eq(a.as_slice(), b.as_slice()) {
        Ok(())
    } else {
        Err("archive changed after it was scanned; please scan it again".to_owned())
    }
}

} // verus!
