//! The journal of a bundle install transaction, and the checks that make a
//! recovery trust it: the journal must belong to the transaction directory
//! it sits in, and may only name paths that the install itself creates.
use vstd::prelude::*;

use crate::paths::{file_name, file_name_of, is_absolute, join, joined, parent, parent_of};
use crate::storage::{path_eq, same_path};
use crate::text::{chars_of, decimal, decimal_spec, is_prefix, push_all, push_lit, starts_with, Text};

verus! {

/// Prefix of a bundle transaction's identifier; the owner token follows it.
pub const BUNDLE_TRANSACTION_PREFIX: &'static str = ".pam-install-transaction-v1-";

/// The backup of a directory that an install replaces.
#[derive(Clone, Debug)]
pub struct BundleReplacement {
    pub backup: String,
    pub device: u64,
    pub inode: u64,
}

/// One path an install publishes.
#[derive(Clone, Debug)]
pub struct BundleTransactionEntry {
    pub target: String,
    pub temporary: String,
    pub device: u64,
    pub inode: u64,
    pub ready: bool,
    pub replacement: Option<BundleReplacement>,
}

/// The journal of one install transaction.
#[derive(Clone, Debug)]
pub struct BundleTransactionJournal {
    pub schema: u32,
    pub transaction_id: String,
    pub owner_token: String,
    pub entries: Vec<BundleTransactionEntry>,
}

pub open spec fn is_hex_digit(c: char) -> bool {
    ('0' <= c && c <= '9') || ('a' <= c && c <= 'f') || ('A' <= c && c <= 'F')
}

/// An owner token: 64 hexadecimal digits.
pub open spec fn owner_token_ok(t: Seq<char>) -> bool {
    t.len() == 64 && forall|i: int| 0 <= i < t.len() ==> is_hex_digit(#[trigger] t[i])
}

pub open spec fn transaction_prefix() -> Seq<char> {
    ".pam-install-transaction-v1-"@
}

/// `Path::parent` compared as paths (`Option<&Path>` equality).
pub open spec fn same_parent(a: Seq<char>, b: Seq<char>) -> bool {
    match (parent_of(a), parent_of(b)) {
        (None, None) => true,
        (Some(x), Some(y)) => same_path(x, y),
        _ => false,
    }
}

/// The name prefix of the staging path of entry `index`.
pub open spec fn staging_prefix(id: Seq<char>, index: nat) -> Seq<char> {
    ".pam-install-stage-"@ + id + seq!['-'] + decimal_spec(index) + seq!['-']
}

/// The only backup path entry `index` may name.
pub open spec fn backup_name(id: Seq<char>, index: nat) -> Seq<char> {
    ".pam-install-replaced-"@ + id + seq!['-'] + decimal_spec(index)
}

/// The paths of an entry as values.
pub type EntryPaths = (Seq<char>, Seq<char>, Option<Seq<char>>);

pub open spec fn entry_paths(e: BundleTransactionEntry) -> EntryPaths {
    (e.target@, e.temporary@, match e.replacement {
        Some(r) => Some(r.backup@),
        None => None,
    })
}

/// Entry `k`'s target, staging path and backup, judged against the earlier
/// entries: the target lies directly in an allowed root, the staging path is
/// its sibling with the staging prefix, the backup is the expected sibling,
/// and no path repeats an earlier one of its kind.
pub open spec fn entry_fault(es: Seq<EntryPaths>, k: int, id: Seq<char>, roots: Seq<Seq<char>>) -> Option<Seq<char>> {
    let (target, temporary, backup) = es[k];
    let allowed = exists|r: int| 0 <= r < roots.len() && (parent_of(target) matches Some(p) && same_path(p, #[trigger] roots[r]));
    let staged = file_name_of(temporary) matches Some(n) && is_prefix(staging_prefix(id, k as nat), n);
    if !is_absolute(target) || !is_absolute(temporary) || !allowed || !same_parent(temporary, target) || !staged
        || (exists|j: int| 0 <= j < k && same_path(#[trigger] es[j].0, target)) || (exists|j: int|
        0 <= j < k && same_path(#[trigger] es[j].1, temporary)) {
        Some("bundle transaction contains an unsafe path"@)
    } else {
        match backup {
            None => None,
            Some(b) => if !(parent_of(target) matches Some(p) && same_path(b, joined(p, backup_name(id, k as nat))))
                || !is_absolute(b) || (exists|j: int| 0 <= j < k && (#[trigger] es[j].2 matches Some(c) && same_path(c, b))) {
                Some("bundle replacement transaction contains an unsafe path"@)
            } else {
                None
            },
        }
    }
}

/// The first faulty entry among the first `n`, if any.
pub open spec fn first_fault(es: Seq<EntryPaths>, n: int, id: Seq<char>, roots: Seq<Seq<char>>) -> Option<Seq<char>>
    decreases n,
{
    if n <= 0 {
        None
    } else {
        match first_fault(es, n - 1, id, roots) {
            Some(e) => Some(e),
            None => entry_fault(es, n - 1, id, roots),
        }
    }
}

/// Whether a recovery may act on `journal`, found in the transaction
/// directory `expected_id`; `owner_marker` tells whether that directory
/// holds the owner file named after the journal's token.
pub open spec fn journal_verdict(
    journal: BundleTransactionJournal,
    expected_id: Seq<char>,
    owner_marker: bool,
    roots: Seq<Seq<char>>,
) -> Result<(), Seq<char>> {
    if journal.schema != 1 || journal.transaction_id@ != expected_id || !owner_token_ok(journal.owner_token@)
        || journal.transaction_id@ != transaction_prefix() + journal.owner_token@ || !owner_marker {
        Err("bundle transaction ownership check failed"@)
    } else {
        let es = journal.entries@.map_values(|e: BundleTransactionEntry| entry_paths(e));
        match first_fault(es, es.len() as int, journal.transaction_id@, roots) {
            Some(e) => Err(e),
            None => Ok(()),
        }
    }
}

fn hex_token(t: &[char]) -> (r: bool)
    ensures
        r == owner_token_ok(t@),
{
    if t.len() != 64 {
        return false;
    }
    let mut i: usize = 0;
    while i < t.len()
        invariant
            i <= t.len(),
            forall|j: int| 0 <= j < i ==> is_hex_digit(#[trigger] t@[j]),
        decreases t.len() - i,
    {
        let c = t[i];
        if !(('0' <= c && c <= '9') || ('a' <= c && c <= 'f') || ('A' <= c && c <= 'F')) {
            return false;
        }
        i += 1;
    }
    true
}

fn parents_equal(a: &[char], b: &[char]) -> (r: bool)
    ensures
        r == same_parent(a@, b@),
{
    match (parent(a), parent(b)) {
        (None, None) => true,
        (Some(x), Some(y)) => path_eq(x.as_slice(), y.as_slice()),
        _ => false,
    }
}

fn is_abs(p: &[char]) -> (r: bool)
    ensures
        r == is_absolute(p@),
{
    p.len() > 0 && p[0] == '/'
}

/// Judges entry `k` of the journal.
fn check_entry(es: &Vec<BundleTransactionEntry>, k: usize, id: &[char], roots: &Vec<String>) -> (r: Option<&'static str>)
    requires
        k < es.len(),
    ensures
        match r {
            Some(e) => entry_fault(es@.map_values(|e: BundleTransactionEntry| entry_paths(e)), k as int, id@, roots@.map_values(|s: String| s@))
                == Some(e@),
            None => entry_fault(es@.map_values(|e: BundleTransactionEntry| entry_paths(e)), k as int, id@, roots@.map_values(|s: String| s@)) is None,
        },
{
    let ghost ps = es@.map_values(|e: BundleTransactionEntry| entry_paths(e));
    let ghost rs = roots@.map_values(|s: String| s@);
    let item = &es[k];
    assert(ps[k as int] == entry_paths(*item));
    let target = chars_of(item.target.as_str());
    let temporary = chars_of(item.temporary.as_str());
    let target_parent = parent(target.as_slice());
    let mut allowed = false;
    let mut r: usize = 0;
    while r < roots.len()
        invariant
            r <= roots.len(),
            rs == roots@.map_values(|s: String| s@),
            target@ == item.target@,
            target_parent matches Some(p) ==> parent_of(target@) == Some(p@),
            target_parent is None ==> parent_of(target@) is None,
            allowed == exists|x: int| 0 <= x < r && (parent_of(target@) matches Some(p) && same_path(p, #[trigger] rs[x])),
        decreases roots.len() - r,
    {
        let here = match &target_parent {
            Some(p) => path_eq(p.as_slice(), chars_of(roots[r].as_str()).as_slice()),
            None => false,
        };
        assert(rs[r as int] == roots[r as int]@);
        allowed = allowed || here;
        r += 1;
    }
    let mut prefix = chars_of(".pam-install-stage-");
    push_all(&mut prefix, id);
    prefix.push('-');
    push_all(&mut prefix, decimal(k as u64).as_slice());
    prefix.push('-');
    assert(prefix@ =~= staging_prefix(id@, k as nat));
    let staged = match file_name(temporary.as_slice()) {
        Some(n) => starts_with(n.as_slice(), prefix.as_slice()),
        None => false,
    };
    let mut repeated = false;
    let mut j: usize = 0;
    while j < k
        invariant
            j <= k,
            k < es.len(),
            ps == es@.map_values(|e: BundleTransactionEntry| entry_paths(e)),
            target@ == item.target@,
            temporary@ == item.temporary@,
            repeated == ((exists|x: int| 0 <= x < j && same_path(#[trigger] ps[x].0, target@)) || (exists|x: int|
                0 <= x < j && same_path(#[trigger] ps[x].1, temporary@))),
        decreases k - j,
    {
        assert(ps[j as int] == entry_paths(es[j as int]));
        let a = path_eq(chars_of(es[j].target.as_str()).as_slice(), target.as_slice());
        let b = path_eq(chars_of(es[j].temporary.as_str()).as_slice(), temporary.as_slice());
        assert(a == same_path(ps[j as int].0, target@));
        assert(b == same_path(ps[j as int].1, temporary@));
        repeated = repeated || a || b;
        j += 1;
    }
    if !is_abs(target.as_slice()) || !is_abs(temporary.as_slice()) || !allowed || !parents_equal(
        temporary.as_slice(),
        target.as_slice(),
    ) || !staged || repeated {
        return Some("bundle transaction contains an unsafe path");
    }
    match &item.replacement {
        None => None,
        Some(old) => {
            let backup = chars_of(old.backup.as_str());
            let mut name = chars_of(".pam-install-replaced-");
            push_all(&mut name, id);
            name.push('-');
            push_all(&mut name, decimal(k as u64).as_slice());
            assert(name@ =~= backup_name(id@, k as nat));
            let expected = match &target_parent {
                Some(p) => path_eq(backup.as_slice(), join(p.as_slice(), name.as_slice()).as_slice()),
                None => false,
            };
            let mut seen = false;
            let mut x: usize = 0;
            while x < k
                invariant
                    x <= k,
                    k < es.len(),
                    ps == es@.map_values(|e: BundleTransactionEntry| entry_paths(e)),
                    backup@ == old.backup@,
                    seen == exists|y: int| 0 <= y < x && (#[trigger] ps[y].2 matches Some(c) && same_path(c, backup@)),
                decreases k - x,
            {
                assert(ps[x as int] == entry_paths(es[x as int]));
                let here = match &es[x].replacement {
                    Some(other) => path_eq(chars_of(other.backup.as_str()).as_slice(), backup.as_slice()),
                    None => false,
                };
                assert(here == (ps[x as int].2 matches Some(c) && same_path(c, backup@)));
                seen = seen || here;
                x += 1;
            }
            if !expected || !is_abs(backup.as_slice()) || seen {
                Some("bundle replacement transaction contains an unsafe path")
            } else {
                None
            }
        },
    }
}

/// Checks a journal before a recovery acts on it; see `journal_verdict`.
/// `owner_marker` tells whether the transaction directory holds the file
/// `owner-<token>` for the journal's owner token.
pub fn validate_bundle_journal(
    journal: &BundleTransactionJournal,
    expected_id: &str,
    owner_marker: bool,
    allowed_roots: &Vec<String>,
) -> (r: Result<(), String>)
    ensures
        match r {
            Ok(()) => journal_verdict(*journal, expected_id@, owner_marker, allowed_roots@.map_values(|s: String| s@)) is Ok,
            Err(e) => journal_verdict(*journal, expected_id@, owner_marker, allowed_roots@.map_values(|s: String| s@))
                == Err::<(), Seq<char>>(e@),
        },
{
    let id = chars_of(journal.transaction_id.as_str());
    let token = chars_of(journal.owner_token.as_str());
    let mut full = chars_of(".pam-install-transaction-v1-");
    push_all(&mut full, token.as_slice());
    proof {
        reveal_strlit(".pam-install-transaction-v1-");
    }
    if journal.schema != 1 || !crate::text::text_eq(id.as_slice(), chars_of(expected_id).as_slice()) || !hex_token(
        token.as_slice(),
    ) || !crate::text::text_eq(id.as_slice(), full.as_slice()) || !owner_marker {
        return Err("bundle transaction ownership check failed".to_owned());
    }
    let ghost ps = journal.entries@.map_values(|e: BundleTransactionEntry| entry_paths(e));
    let ghost rs = allowed_roots@.map_values(|s: String| s@);
    let ghost verdict = journal_verdict(*journal, expected_id@, owner_marker, rs);
    assert(verdict == match first_fault(ps, ps.len() as int, id@, rs) {
        Some(e) => Err::<(), Seq<char>>(e),
        None => Ok(()),
    });
    let mut k: usize = 0;
    while k < journal.entries.len()
        invariant
            k <= journal.entries.len(),
            id@ == journal.transaction_id@,
            ps == journal.entries@.map_values(|e: BundleTransactionEntry| entry_paths(e)),
            rs == allowed_roots@.map_values(|s: String| s@),
            verdict == journal_verdict(*journal, expected_id@, owner_marker, rs),
            verdict == match first_fault(ps, ps.len() as int, id@, rs) {
                Some(e) => Err::<(), Seq<char>>(e),
                None => Ok(()),
            },
            first_fault(ps, k as int, id@, rs) is None,
        decreases journal.entries.len() - k,
    {
        match check_entry(&journal.entries, k, id.as_slice(), allowed_roots) {
            Some(e) => {
                assert(first_fault(ps, k + 1, id@, rs) == Some(e@));
                proof {
                    lemma_fault_stays(ps, k + 1, ps.len() as int, id@, rs);
                }
                return Err(e.to_owned());
            },
            None => {},
        }
        k += 1;
    }
    Ok(())
}

proof fn lemma_fault_stays(es: Seq<EntryPaths>, n: int, m: int, id: Seq<char>, roots: Seq<Seq<char>>)
    requires
        0 < n <= m,
        first_fault(es, n, id, roots) is Some,
    ensures
        first_fault(es, m, id, roots) == first_fault(es, n, id, roots),
    decreases m - n,
{
    if m > n {
        lemma_fault_stays(es, n, m - 1, id, roots);
    }
}

/// The owner token named by a transaction directory, when the name has the
/// transaction prefix and a well-formed token.
pub fn transaction_owner_token(transaction_id: &str) -> (r: Result<String, String>)
    ensures
        !is_prefix(transaction_prefix(), transaction_id@) ==> (r matches Err(e) && e@
            == "bundle transaction prefix is invalid"@),
        is_prefix(transaction_prefix(), transaction_id@) ==> {
            let token = transaction_id@.subrange(transaction_prefix().len() as int, transaction_id@.len() as int);
            &&& owner_token_ok(token) ==> (r matches Ok(t) && t@ == token)
            &&& !owner_token_ok(token) ==> (r matches Err(e) && e@ == "bundle transaction directory owner is invalid"@)
        },
{
    let id = chars_of(transaction_id);
    let prefix = chars_of(".pam-install-transaction-v1-");
    proof {
        reveal_strlit(".pam-install-transaction-v1-");
    }
    if !starts_with(id.as_slice(), prefix.as_slice()) {
        return Err("bundle transaction prefix is invalid".to_owned());
    }
    let token = crate::text::slice(id.as_slice(), prefix.len(), id.len());
    if !hex_token(token.as_slice()) {
        return Err("bundle transaction directory owner is invalid".to_owned());
    }
    Ok(crate::text::string_of(token.as_slice()))
}

/// A journal that passes the checks names only paths of its own install:
/// each target lies directly in an allowed root, each staging path beside
/// its target under the transaction's staging name, each backup at the
/// expected name beside its target; no target is named twice. A forged
/// journal therefore cannot steer a recovery to any other directory.
pub proof fn lemma_trusted_journal_stays_in_its_roots(
    journal: BundleTransactionJournal,
    expected_id: Seq<char>,
    owner_marker: bool,
    roots: Seq<Seq<char>>,
)
    requires
        journal_verdict(journal, expected_id, owner_marker, roots) is Ok,
    ensures
        journal.transaction_id@ == expected_id,
        owner_marker,
        forall|k: int| 0 <= k < journal.entries@.len() ==> {
            let e = #[trigger] journal.entries@[k];
            &&& is_absolute(e.target@)
            &&& exists|r: int| 0 <= r < roots.len() && (parent_of(e.target@) matches Some(p) && same_path(p, #[trigger] roots[r]))
            &&& same_parent(e.temporary@, e.target@)
            &&& (file_name_of(e.temporary@) matches Some(n) && is_prefix(staging_prefix(expected_id, k as nat), n))
            &&& (e.replacement matches Some(b) ==> (parent_of(e.target@) matches Some(p) && same_path(
                b.backup@,
                joined(p, backup_name(expected_id, k as nat)),
            )))
        },
        forall|i: int, k: int| 0 <= i < k < journal.entries@.len() ==> !same_path(
            journal.entries@[i].target@,
            journal.entries@[k].target@,
        ),
{
    let ps = journal.entries@.map_values(|e: BundleTransactionEntry| entry_paths(e));
    lemma_no_fault_means_sound(ps, ps.len() as int, expected_id, roots);
    assert forall|k: int| 0 <= k < journal.entries@.len() implies {
        let e = #[trigger] journal.entries@[k];
        &&& is_absolute(e.target@)
        &&& exists|r: int| 0 <= r < roots.len() && (parent_of(e.target@) matches Some(p) && same_path(p, #[trigger] roots[r]))
        &&& same_parent(e.temporary@, e.target@)
        &&& (file_name_of(e.temporary@) matches Some(n) && is_prefix(staging_prefix(expected_id, k as nat), n))
        &&& (e.replacement matches Some(b) ==> (parent_of(e.target@) matches Some(p) && same_path(
            b.backup@,
            joined(p, backup_name(expected_id, k as nat)),
        )))
    } by {
        assert(ps[k] == entry_paths(journal.entries@[k]));
        assert(entry_fault(ps, k, expected_id, roots) is None);
    }
    assert forall|i: int, k: int| 0 <= i < k < journal.entries@.len() implies !same_path(
        journal.entries@[i].target@,
        journal.entries@[k].target@,
    ) by {
        assert(ps[k] == entry_paths(journal.entries@[k]));
        assert(ps[i] == entry_paths(journal.entries@[i]));
        assert(entry_fault(ps, k, expected_id, roots) is None);
        if same_path(journal.entries@[i].target@, journal.entries@[k].target@) {
            assert(same_path(ps[i].0, ps[k].0));
        }
    }
}

proof fn lemma_no_fault_means_sound(es: Seq<EntryPaths>, n: int, id: Seq<char>, roots: Seq<Seq<char>>)
    requires
        0 <= n <= es.len(),
        first_fault(es, n, id, roots) is None,
    ensures
        forall|k: int| 0 <= k < n ==> #[trigger] entry_fault(es, k, id, roots) is None,
    decreases n,
{
    if n > 0 {
        lemma_no_fault_means_sound(es, n - 1, id, roots);
    }
}

} // verus!
