//! The checks an archive's catalog must pass before anything is extracted:
//! entry count, encryption, unique names, safe paths, size limits, and no
//! file that is also a directory.
use vstd::prelude::*;

use crate::entry_names::{debug_text, normalize, normalized_name, path_verdict, validate_path};
use crate::port_zip::BundleLimits;
use crate::recognition::{ArchiveCatalog, ArchiveEntry};
use crate::text::{
    before, chars_of, is_prefix, is_suffix, lemma_text_before_irreflexive, lemma_text_before_total,
    lemma_text_before_trans, push_all, push_lit, slice, string_of, text_before, text_eq, Text,
};

verus! {

/// The canonical name of an entry.
pub open spec fn canonical(e: ArchiveEntry) -> Seq<char> {
    normalized_name(e.name@)
}

/// Entry `j` repeats the canonical name of an earlier entry.
pub open spec fn repeats_earlier(es: Seq<ArchiveEntry>, j: int) -> bool {
    exists|i: int| 0 <= i < j && #[trigger] canonical(es[i]) == canonical(es[j])
}

/// Leading `./` pieces removed.
pub open spec fn without_dot_slash(t: Seq<char>) -> Seq<char>
    decreases t.len(),
{
    if t.len() >= 2 && t[0] == '.' && t[1] == '/' {
        without_dot_slash(t.subrange(2, t.len() as int))
    } else {
        t
    }
}

pub open spec fn saturating_sum(a: u64, b: u64) -> u64 {
    if a + b > u64::MAX {
        u64::MAX
    } else {
        (a + b) as u64
    }
}

/// The checks of the first `n` entries, in catalog order, and the running
/// total of their sizes (saturating).
pub open spec fn entry_checks(es: Seq<ArchiveEntry>, limits: BundleLimits, n: int) -> Result<u64, Seq<char>>
    decreases n,
{
    if n <= 0 {
        Ok(0)
    } else {
        match entry_checks(es, limits, n - 1) {
            Err(e) => Err(e),
            Ok(total) => {
                let e = es[n - 1];
                let relative = without_dot_slash(e.name@);
                if e.anti_item {
                    Err("7z anti-item is not supported: "@ + e.name@)
                } else if path_verdict(relative) == Some(true) {
                    Err("unsafe path: "@ + debug_text(relative))
                } else if path_verdict(relative) == Some(false) {
                    Err("reserved transaction path: "@ + debug_text(relative))
                } else if !e.directory && !is_suffix("/"@, e.name@) && e.size > limits.entry_bytes {
                    Err("entry exceeds limit: "@ + e.name@)
                } else if saturating_sum(total, e.size) > limits.total_bytes {
                    Err("archive expansion exceeds total limit"@)
                } else {
                    Ok(saturating_sum(total, e.size))
                }
            },
        }
    }
}

/// Entry `j` is a file under whose name another entry lies.
pub open spec fn file_with_children(es: Seq<ArchiveEntry>, j: int) -> bool {
    &&& !es[j].directory
    &&& exists|i: int| 0 <= i < es.len() && is_prefix(canonical(es[j]) + seq!['/'], #[trigger] canonical(es[i]))
}

/// The whole verdict on a catalog: the size of its content when every check
/// passes, or the first failure. The checks come in this order: the entry
/// count, a password for encrypted content, unique canonical names (the
/// first repeated name is reported), each entry in turn, and last no file
/// with entries under it (the first such file in name order is reported).
pub open spec fn catalog_verdict(catalog: ArchiveCatalog, limits: BundleLimits, password_given: bool) -> Result<u64, Seq<char>> {
    let es = catalog.entries@;
    if es.len() > limits.entries {
        Err("archive contains too many entries"@)
    } else if catalog.encrypted && !password_given {
        Err("archive_password_required"@)
    } else if exists|j: int| 0 <= j < es.len() && repeats_earlier(es, j) {
        let j = choose|j: int| 0 <= j < es.len() && repeats_earlier(es, j) && forall|k: int| 0 <= k < j ==> !repeats_earlier(es, k);
        Err("duplicate entry: "@ + canonical(es[j]))
    } else {
        match entry_checks(es, limits, es.len() as int) {
            Err(e) => Err(e),
            Ok(total) => if exists|j: int| 0 <= j < es.len() && file_with_children(es, j) {
                let j = choose|j: int| 0 <= j < es.len() && file_with_children(es, j) && forall|k: int|
                    0 <= k < es.len() && file_with_children(es, k) ==> !text_before(canonical(es[k]), canonical(es[j]));
                Err("archive file entry conflicts with child entries: "@ + canonical(es[j]))
            } else {
                Ok(total)
            },
        }
    }
}

/// The sum of the sizes of the first `n` entries.
pub open spec fn size_sum(es: Seq<ArchiveEntry>, n: int) -> int
    decreases n,
{
    if n <= 0 {
        0
    } else {
        size_sum(es, n - 1) + es[n - 1].size
    }
}

/// An entry that can never be extracted: a 7z anti-item, an unsafe or
/// reserved path, or a file larger than the per-entry limit.
pub open spec fn rejected_entry(e: ArchiveEntry, limits: BundleLimits) -> bool {
    ||| e.anti_item
    ||| path_verdict(without_dot_slash(e.name@)) is Some
    ||| !e.directory && !is_suffix("/"@, e.name@) && e.size > limits.entry_bytes
}

proof fn lemma_entry_checks(es: Seq<ArchiveEntry>, limits: BundleLimits, n: int)
    requires
        0 <= n <= es.len(),
    ensures
        (exists|j: int| 0 <= j < n && rejected_entry(#[trigger] es[j], limits)) ==> entry_checks(es, limits, n) is Err,
        entry_checks(es, limits, n) matches Ok(t) ==> t <= limits.total_bytes && (size_sum(es, n) <= u64::MAX ==> t
            == size_sum(es, n)),
    decreases n,
{
    if n > 0 {
        lemma_entry_checks(es, limits, n - 1);
        if exists|j: int| 0 <= j < n && rejected_entry(#[trigger] es[j], limits) {
            let j = choose|j: int| 0 <= j < n && rejected_entry(#[trigger] es[j], limits);
            if j < n - 1 {
                assert(entry_checks(es, limits, n - 1) is Err);
            } else {
                let v = path_verdict(without_dot_slash(es[n - 1].name@));
                assert(v is Some ==> v == Some(true) || v == Some(false));
            }
        }
        assert(size_sum(es, n - 1) <= size_sum(es, n));
    }
}

/// What validation accepts, whatever the order of its checks: a catalog
/// over the entry limit, an encrypted one without a password, one where two
/// entries name the same path, and one with an entry that can never be
/// extracted are refused; an accepted catalog's total is the sum of its
/// entry sizes and stays within the total limit.
pub proof fn lemma_catalog_verdict(catalog: ArchiveCatalog, limits: BundleLimits, password_given: bool)
    ensures
        catalog.entries.len() > limits.entries ==> catalog_verdict(catalog, limits, password_given)
            == Err::<u64, Seq<char>>("archive contains too many entries"@),
        catalog.entries.len() <= limits.entries && catalog.encrypted && !password_given ==> catalog_verdict(
            catalog,
            limits,
            password_given,
        ) == Err::<u64, Seq<char>>("archive_password_required"@),
        (exists|i: int, j: int|
            0 <= i < j < catalog.entries.len() && canonical(#[trigger] catalog.entries@[i]) == canonical(
                #[trigger] catalog.entries@[j],
            )) ==> catalog_verdict(catalog, limits, password_given) is Err,
        (exists|j: int| 0 <= j < catalog.entries.len() && rejected_entry(#[trigger] catalog.entries@[j], limits))
            ==> catalog_verdict(catalog, limits, password_given) is Err,
        catalog_verdict(catalog, limits, password_given) matches Ok(t) ==> t <= limits.total_bytes && (size_sum(
            catalog.entries@,
            catalog.entries.len() as int,
        ) <= u64::MAX ==> t == size_sum(catalog.entries@, catalog.entries.len() as int)),
{
    let es = catalog.entries@;
    lemma_entry_checks(es, limits, es.len() as int);
    if exists|i: int, j: int| 0 <= i < j < es.len() && canonical(#[trigger] es[i]) == canonical(#[trigger] es[j]) {
        let (i, j) = choose|i: int, j: int| 0 <= i < j < es.len() && canonical(#[trigger] es[i]) == canonical(#[trigger] es[j]);
        assert(repeats_earlier(es, j));
    }
}

fn strip_dot_slash(t: &[char]) -> (r: Text)
    ensures
        r@ == without_dot_slash(t@),
{
    let mut i: usize = 0;
    assert(t@.subrange(0, t.len() as int) =~= t@);
    while t.len() - i >= 2 && t[i] == '.' && t[i + 1] == '/'
        invariant
            i <= t.len(),
            without_dot_slash(t@) == without_dot_slash(t@.subrange(i as int, t.len() as int)),
        decreases t.len() - i,
    {
        assert(t@.subrange(i as int, t.len() as int).subrange(2, t.len() - i) =~= t@.subrange(i + 2, t.len() as int));
        i += 2;
    }
    let r = slice(t, i, t.len());
    r
}

/// The first entry whose canonical name an earlier entry already has.
fn first_repeat(names: &Vec<Text>, es: Ghost<Seq<ArchiveEntry>>) -> (r: Option<usize>)
    requires
        names.len() == es@.len(),
        forall|i: int| 0 <= i < names.len() ==> #[trigger] names[i]@ == canonical(es@[i]),
    ensures
        r is None ==> forall|j: int| 0 <= j < es@.len() ==> !repeats_earlier(es@, j),
        r matches Some(j) ==> j < es@.len() && repeats_earlier(es@, j as int) && forall|k: int|
            0 <= k < j ==> !repeats_earlier(es@, k),
{
    let mut j: usize = 0;
    while j < names.len()
        invariant
            j <= names.len(),
            names.len() == es@.len(),
            forall|i: int| 0 <= i < names.len() ==> #[trigger] names[i]@ == canonical(es@[i]),
            forall|k: int| 0 <= k < j ==> !repeats_earlier(es@, k),
        decreases names.len() - j,
    {
        let mut i: usize = 0;
        while i < j
            invariant
                i <= j,
                j < names.len(),
                names.len() == es@.len(),
                forall|x: int| 0 <= x < names.len() ==> #[trigger] names[x]@ == canonical(es@[x]),
                forall|x: int| 0 <= x < i ==> canonical(es@[x]) != canonical(es@[j as int]),
                forall|k: int| 0 <= k < j ==> !repeats_earlier(es@, k),
            decreases j - i,
        {
            if text_eq(names[i].as_slice(), names[j].as_slice()) {
                assert(names[i as int]@ == canonical(es@[i as int]));
                assert(names[j as int]@ == canonical(es@[j as int]));
                assert(canonical(es@[i as int]) == canonical(es@[j as int]));
                assert(repeats_earlier(es@, j as int));
                return Some(j);
            }
            i += 1;
        }
        assert(!repeats_earlier(es@, j as int)) by {
            if repeats_earlier(es@, j as int) {
                let x = choose|x: int| 0 <= x < j && #[trigger] canonical(es@[x]) == canonical(es@[j as int]);
            }
        }
        j += 1;
    }
    None
}

/// Does some name lie under the file name `f`?
fn has_child(names: &Vec<Text>, f: &[char]) -> (r: bool)
    ensures
        r == exists|i: int| 0 <= i < names.len() && is_prefix(f@ + seq!['/'], #[trigger] names[i]@),
{
    let mut prefix: Vec<char> = slice(f, 0, f.len());
    prefix.push('/');
    assert(prefix@ =~= f@ + seq!['/']);
    let mut i: usize = 0;
    while i < names.len()
        invariant
            i <= names.len(),
            prefix@ == f@ + seq!['/'],
            forall|x: int| 0 <= x < i ==> !is_prefix(f@ + seq!['/'], #[trigger] names[x]@),
        decreases names.len() - i,
    {
        if crate::text::starts_with(names[i].as_slice(), prefix.as_slice()) {
            return true;
        }
        i += 1;
    }
    false
}

/// Checks an archive's catalog before extraction and gives the total size
/// of its content; see `catalog_verdict`. `password_given` tells whether a
/// password was supplied. `cancel` is polled before each entry is checked.
pub fn validate_catalog<F: Fn() -> bool>(
    catalog: &ArchiveCatalog,
    limits: &BundleLimits,
    password_given: bool,
    cancel: &F,
) -> (r: Result<u64, String>)
    requires
        forall|u: ()| #[trigger] cancel.requires(u),
    ensures
        match r {
            Ok(total) => catalog_verdict(*catalog, *limits, password_given) == Ok::<u64, Seq<char>>(total),
            Err(e) => e@ == "zip installation cancelled"@ || catalog_verdict(*catalog, *limits, password_given)
                == Err::<u64, Seq<char>>(e@),
        },
        catalog_verdict(*catalog, *limits, password_given) is Err ==> r is Err,
        (forall|u: (), b: bool| #[trigger] cancel.ensures(u, b) ==> !b) ==> match r {
            Ok(total) => catalog_verdict(*catalog, *limits, password_given) == Ok::<u64, Seq<char>>(total),
            Err(e) => catalog_verdict(*catalog, *limits, password_given) == Err::<u64, Seq<char>>(e@),
        },
{
    let ghost es = catalog.entries@;
    if catalog.entries.len() > limits.entries {
        return Err("archive contains too many entries".to_owned());
    }
    if catalog.encrypted && !password_given {
        return Err("archive_password_required".to_owned());
    }
    let mut names: Vec<Text> = Vec::new();
    let mut n: usize = 0;
    while n < catalog.entries.len()
        invariant
            n <= catalog.entries.len(),
            es == catalog.entries@,
            names.len() == n,
            forall|i: int| 0 <= i < n ==> #[trigger] names[i]@ == canonical(es[i]),
        decreases catalog.entries.len() - n,
    {
        names.push(normalize(chars_of(catalog.entries[n].name.as_str()).as_slice()));
        n += 1;
    }
    match first_repeat(&names, Ghost(es)) {
        Some(j) => {
            let mut message = chars_of("duplicate entry: ");
            push_all(&mut message, names[j].as_slice());
            proof {
                let c = choose|c: int| 0 <= c < es.len() && repeats_earlier(es, c) && forall|k: int|
                    0 <= k < c ==> !repeats_earlier(es, k);
                if c < j {
                } else if c > j {
                    assert(!repeats_earlier(es, j as int));
                }
            }
            return Err(string_of(message.as_slice()));
        },
        None => {},
    }
    let mut total: u64 = 0;
    let mut k: usize = 0;
    while k < catalog.entries.len()
        invariant
            k <= catalog.entries.len(),
            es == catalog.entries@,
            forall|u: ()| #[trigger] cancel.requires(u),
            es.len() <= limits.entries,
            !(catalog.encrypted && !password_given),
            forall|x: int| 0 <= x < es.len() ==> !repeats_earlier(es, x),
            entry_checks(es, *limits, k as int) == Ok::<u64, Seq<char>>(total),
        decreases catalog.entries.len() - k,
    {
        let stop = cancel();
        if stop {
            assert(cancel.ensures((), stop));
            return Err("zip installation cancelled".to_owned());
        }
        let entry = &catalog.entries[k];
        if entry.anti_item {
            let mut message = chars_of("7z anti-item is not supported: ");
            push_all(&mut message, chars_of(entry.name.as_str()).as_slice());
            assert(entry_checks(es, *limits, k + 1) == Err::<u64, Seq<char>>(message@));
            proof {
                lemma_check_error_stays(es, *limits, k + 1, es.len() as int);
            }
            return Err(string_of(message.as_slice()));
        }
        let raw = chars_of(entry.name.as_str());
        let relative = string_of(strip_dot_slash(raw.as_slice()).as_slice());
        match validate_path(relative.as_str()) {
            Ok(()) => {},
            Err(e) => {
                assert(relative@ == without_dot_slash(entry.name@));
                assert(es[k as int] == *entry);
                assert(!entry.anti_item);
                assert(path_verdict(relative@) is Some);
                assert(entry_checks(es, *limits, k as int) == Ok::<u64, Seq<char>>(total));
                proof {
                    if path_verdict(relative@) == Some(true) {
                        assert(e@ == "unsafe path: "@ + debug_text(relative@));
                    } else {
                        let v = path_verdict(relative@);
                        assert(v matches Some(b) && !b);
                        assert(v == Some(false));
                        assert(e@ == "reserved transaction path: "@ + debug_text(relative@));
                    }
                }
                assert(entry_checks(es, *limits, k + 1) == Err::<u64, Seq<char>>(e@));
                proof {
                    lemma_check_error_stays(es, *limits, k + 1, es.len() as int);
                }
                return Err(e);
            },
        }
        if !entry.directory && !crate::text::ends_with_lit(raw.as_slice(), "/") && entry.size > limits.entry_bytes {
            let mut message = chars_of("entry exceeds limit: ");
            push_all(&mut message, raw.as_slice());
            assert(entry_checks(es, *limits, k + 1) == Err::<u64, Seq<char>>(message@));
            proof {
                lemma_check_error_stays(es, *limits, k + 1, es.len() as int);
            }
            return Err(string_of(message.as_slice()));
        }
        total = total.saturating_add(entry.size);
        if total > limits.total_bytes {
            assert(entry_checks(es, *limits, k + 1) == Err::<u64, Seq<char>>("archive expansion exceeds total limit"@));
            proof {
                lemma_check_error_stays(es, *limits, k + 1, es.len() as int);
            }
            return Err("archive expansion exceeds total limit".to_owned());
        }
        k += 1;
    }
    let mut found: Option<usize> = None;
    let mut j: usize = 0;
    while j < names.len()
        invariant
            j <= names.len(),
            names.len() == es.len(),
            es == catalog.entries@,
            forall|i: int| 0 <= i < names.len() ==> #[trigger] names[i]@ == canonical(es[i]),
            found is None ==> forall|x: int| 0 <= x < j ==> !file_with_children(es, x),
            found matches Some(f) ==> f < j && file_with_children(es, f as int) && forall|x: int|
                0 <= x < j && file_with_children(es, x) ==> !text_before(canonical(es[x]), canonical(es[f as int])),
        decreases names.len() - j,
    {
        let file = !catalog.entries[j].directory && has_child(&names, names[j].as_slice());
        proof {
            lemma_children_by_name(es, names@, j as int);
        }
        if file {
            let better = match found {
                None => true,
                Some(f) => before(names[j].as_slice(), names[f].as_slice()),
            };
            if better {
                proof {
                    if let Some(f) = found {
                        assert forall|x: int| 0 <= x < j + 1 && file_with_children(es, x) implies !text_before(
                            canonical(es[x]),
                            canonical(es[j as int]),
                        ) by {
                            if x < j {
                                if text_before(canonical(es[x]), canonical(es[j as int])) {
                                    lemma_text_before_trans(canonical(es[x]), canonical(es[j as int]), canonical(es[f as int]));
                                }
                            } else {
                                lemma_text_before_irreflexive(canonical(es[x]));
                            }
                        }
                    } else {
                        lemma_text_before_irreflexive(canonical(es[j as int]));
                    }
                }
                found = Some(j);
            } else {
                proof {
                    if let Some(f) = found {
                        lemma_text_before_total(canonical(es[f as int]), canonical(es[j as int]));
                    }
                }
            }
        }
        j += 1;
    }
    match found {
        Some(f) => {
            let mut message = chars_of("archive file entry conflicts with child entries: ");
            push_all(&mut message, names[f].as_slice());
            proof {
                let c = choose|c: int| 0 <= c < es.len() && file_with_children(es, c) && forall|x: int|
                    0 <= x < es.len() && file_with_children(es, x) ==> !text_before(canonical(es[x]), canonical(es[c]));
                lemma_text_before_total(canonical(es[c]), canonical(es[f as int]));
                if canonical(es[c]) != canonical(es[f as int]) {
                    assert(!text_before(canonical(es[c]), canonical(es[f as int])));
                    assert(!text_before(canonical(es[f as int]), canonical(es[c])));
                }
            }
            Err(string_of(message.as_slice()))
        },
        None => Ok(total),
    }
}

proof fn lemma_children_by_name(es: Seq<ArchiveEntry>, names: Seq<Text>, j: int)
    requires
        names.len() == es.len(),
        0 <= j < es.len(),
        forall|i: int| 0 <= i < names.len() ==> #[trigger] names[i]@ == canonical(es[i]),
    ensures
        file_with_children(es, j) == (!es[j].directory && exists|i: int| 0 <= i < names.len() && is_prefix(
            names[j]@ + seq!['/'],
            #[trigger] names[i]@,
        )),
{
    assert(names[j]@ == canonical(es[j]));
    if !es[j].directory {
        if exists|i: int| 0 <= i < names.len() && is_prefix(names[j]@ + seq!['/'], #[trigger] names[i]@) {
            let i = choose|i: int| 0 <= i < names.len() && is_prefix(names[j]@ + seq!['/'], #[trigger] names[i]@);
            assert(names[i]@ == canonical(es[i]));
        }
        if file_with_children(es, j) {
            let i = choose|i: int| 0 <= i < es.len() && is_prefix(canonical(es[j]) + seq!['/'], #[trigger] canonical(es[i]));
            assert(names[i]@ == canonical(es[i]));
        }
    }
}

proof fn lemma_check_error_stays(es: Seq<ArchiveEntry>, limits: BundleLimits, n: int, m: int)
    requires
        0 < n <= m,
        entry_checks(es, limits, n) is Err,
    ensures
        entry_checks(es, limits, m) == entry_checks(es, limits, n),
    decreases m - n,
{
    if m > n {
        lemma_check_error_stays(es, limits, n, m - 1);
    }
}


/// Every entry of a catalog that passes validation is safe to extract: its
/// path stays inside the target and names no transaction file, it is no 7z
/// anti-item, a file is within the per-entry limit, and no two entries share
/// a canonical name.
pub proof fn lemma_valid_catalog_is_safe(catalog: ArchiveCatalog, limits: BundleLimits, password_given: bool)
    requires
        catalog_verdict(catalog, limits, password_given) is Ok,
    ensures
        forall|i: int| 0 <= i < catalog.entries@.len() ==> {
            let e = #[trigger] catalog.entries@[i];
            &&& path_verdict(without_dot_slash(e.name@)) is None
            &&& !e.anti_item
            &&& (!e.directory && !is_suffix("/"@, e.name@) ==> e.size <= limits.entry_bytes)
        },
        forall|i: int, j: int| 0 <= i < j < catalog.entries@.len() ==> canonical(catalog.entries@[i]) != canonical(
            catalog.entries@[j],
        ),
{
    let es = catalog.entries@;
    assert forall|i: int, j: int| 0 <= i < j < es.len() implies canonical(es[i]) != canonical(es[j]) by {
        if canonical(es[i]) == canonical(es[j]) {
            assert(repeats_earlier(es, j));
        }
    }
    lemma_checked_entries_are_safe(es, limits, es.len() as int);
}

proof fn lemma_checked_entries_are_safe(es: Seq<ArchiveEntry>, limits: BundleLimits, n: int)
    requires
        0 <= n <= es.len(),
        entry_checks(es, limits, n) is Ok,
    ensures
        forall|i: int| 0 <= i < n ==> {
            let e = #[trigger] es[i];
            &&& path_verdict(without_dot_slash(e.name@)) is None
            &&& !e.anti_item
            &&& (!e.directory && !is_suffix("/"@, e.name@) ==> e.size <= limits.entry_bytes)
        },
    decreases n,
{
    if n > 0 {
        assert(entry_checks(es, limits, n - 1) is Ok);
        lemma_checked_entries_are_safe(es, limits, n - 1);
        let e = es[n - 1];
        match path_verdict(without_dot_slash(e.name@)) {
            Some(b) => {
                if b {
                    assert(path_verdict(without_dot_slash(e.name@)) == Some(true));
                } else {
                    assert(path_verdict(without_dot_slash(e.name@)) == Some(false));
                }
            },
            None => {},
        }
        assert(!e.anti_item);
        assert(!e.directory && !is_suffix("/"@, e.name@) ==> e.size <= limits.entry_bytes);
    }
}

} // verus!
