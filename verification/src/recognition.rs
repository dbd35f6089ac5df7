//! Recognition of one archive from its catalog: which entries to read, how
//! launchers are associated with their data folders, and the resulting
//! candidate bundle.
use vstd::prelude::*;

use crate::bundle_layout::{
    candidates, classify_layout, is_script, members, rejection, verdict_for, CandidateKey,
    Recognized, RecognizedView,
};
use crate::entry_names::{
    depth, file_name, ignored_metadata, is_ignored_metadata_path, name_depth, name_file,
    name_parent, normalize, normalized_name,
};
use crate::paths::{component_ok, join, strip_prefix};
use crate::port_zip::{archive_issue, issue_for, kind_name, ArchiveIssue, ZipCandidate, ZipKind};
use crate::text::{chars_of, ends_with_lit, eq_lit, is_suffix, push_lit, slice, string_of, Text};
use crate::textset::TextSet;

verus! {

/// One entry of an archive's catalog, as the archive reader lists it.
pub struct ArchiveEntry {
    pub name: String,
    pub directory: bool,
    pub size: u64,
    /// A 7z entry that deletes a file instead of holding one.
    pub anti_item: bool,
}

/// The physical format of an archive.
#[derive(Debug, Clone, Copy, PartialEq, Eq, Structural)]
pub enum ArchiveFormat {
    Zip,
    SevenZ,
}

pub open spec fn format_label(f: ArchiveFormat) -> Seq<char> {
    match f {
        ArchiveFormat::Zip => "zip"@,
        ArchiveFormat::SevenZ => "7z"@,
    }
}

impl ArchiveFormat {
    pub fn name(self) -> (r: &'static str)
        ensures
            r@ == format_label(self),
    {
        match self {
            ArchiveFormat::Zip => "zip",
            ArchiveFormat::SevenZ => "7z",
        }
    }
}

/// The catalog of an archive: its format, whether its content is encrypted,
/// and its entries.
pub struct ArchiveCatalog {
    pub format: ArchiveFormat,
    pub encrypted: bool,
    pub entries: Vec<ArchiveEntry>,
}

/// What was learned about the archive file itself when it was opened.
pub struct ArchiveSource {
    pub path: String,
    pub size: u64,
    /// Opaque filesystem identity of the opened file.
    pub identity: String,
}

/// Largest number of catalog entries that recognition looks at.
pub const MAX_ZIP_ENTRIES: usize = 4096;

/// Largest launcher script that recognition reads.
pub const MAX_LAUNCHER_INSPECTION_BYTES: u64 = 4194304;

/// Largest package manifest that recognition reads.
pub const MAX_MANIFEST_BYTES: u64 = 65536;

/// Largest number of launchers and manifests that recognition reads.
pub const MAX_INSPECTED: usize = 64;

pub open spec fn entry_name(e: ArchiveEntry) -> Seq<char> {
    normalized_name(e.name@)
}

/// A name that takes part in recognition.
pub open spec fn kept_name(n: Seq<char>) -> bool {
    n.len() > 0 && !ignored_metadata(n)
}

/// Some entry of `es` has the (kept) name `n` and is a directory exactly when `dir`.
pub open spec fn listed(es: Seq<ArchiveEntry>, n: Seq<char>, dir: bool) -> bool {
    kept_name(n) && exists|i: int|
        0 <= i < es.len() && #[trigger] entry_name(es[i]) == n && es[i].directory == dir
}

/// `n` is a file within three levels.
pub open spec fn layout_file(es: Seq<ArchiveEntry>, n: Seq<char>) -> bool {
    listed(es, n, false) && depth(n) <= 3
}

/// `x` is a proper leading directory of the name `f`.
pub open spec fn ancestor(x: Seq<char>, f: Seq<char>) -> bool {
    exists|j: int| 0 < j < f.len() && f[j] == '/' && #[trigger] f.subrange(0, j) == x
}

/// `n` is a directory within three levels: listed as one, or holding a file.
pub open spec fn layout_dir(es: Seq<ArchiveEntry>, n: Seq<char>) -> bool {
    ||| listed(es, n, true) && 1 <= depth(n) <= 3
    ||| exists|f: Seq<char>| #[trigger] layout_file(es, f) && ancestor(n, f)
}

pub open spec fn layout_files(es: Seq<ArchiveEntry>) -> Set<Seq<char>> {
    Set::new(|n: Seq<char>| layout_file(es, n))
}

pub open spec fn layout_dirs(es: Seq<ArchiveEntry>) -> Set<Seq<char>> {
    Set::new(|n: Seq<char>| layout_dir(es, n))
}

/// `n` is read during recognition: a small enough launcher script or package
/// manifest within three levels.
pub open spec fn inspected(es: Seq<ArchiveEntry>, n: Seq<char>) -> bool {
    &&& kept_name(n)
    &&& depth(n) <= 3
    &&& exists|i: int|
        0 <= i < es.len() && #[trigger] entry_name(es[i]) == n && !es[i].directory && ((file_name(n)
            == "port.json"@ && es[i].size <= MAX_MANIFEST_BYTES) || (is_suffix(".sh"@, n)
            && es[i].size <= MAX_LAUNCHER_INSPECTION_BYTES))
}

pub open spec fn inspected_names(es: Seq<ArchiveEntry>) -> Set<Seq<char>> {
    Set::new(|n: Seq<char>| inspected(es, n))
}

/// A launcher text was supplied for `s`.
pub open spec fn has_text(texts: Seq<(String, String)>, s: Seq<char>) -> bool {
    exists|i: int| 0 <= i < texts.len() && #[trigger] texts[i].0@ == s
}

/// `refs` holds, for every launcher script that has a text, the names of the
/// directories that its text refers to.
pub open spec fn references_for(
    files: Set<Seq<char>>,
    texts: Seq<(String, String)>,
    refs: Seq<(Text, TextSet)>,
) -> bool {
    &&& forall|i: int|
        0 <= i < refs.len() ==> is_script(files, (#[trigger] refs[i]).0@) && has_text(texts, refs[i].0@)
            && forall|x: Seq<char>| #[trigger] refs[i].1.has(x) ==> component_ok(x)
    &&& forall|s: Seq<char>|
        #[trigger] is_script(files, s) && has_text(texts, s) ==> exists|i: int|
            0 <= i < refs.len() && #[trigger] refs[i].0@ == s
}

/// The outcome of recognizing a catalog with the given launcher texts and
/// manifest items.
pub open spec fn recognition_outcome(
    es: Seq<ArchiveEntry>,
    texts: Seq<(String, String)>,
    manifests: Seq<(String, Vec<String>)>,
    v: RecognizedView,
) -> bool {
    if es.len() > MAX_ZIP_ENTRIES {
        v == rejection(ZipKind::Unknown, "archive contains too many entries"@)
    } else if inspected_names(es).len() > MAX_INSPECTED {
        v == rejection(ZipKind::Unknown, "archive contains too many launcher or manifest candidates"@)
    } else {
        exists|refs: Seq<(Text, TextSet)>|
            references_for(layout_files(es), texts, refs) && candidates(layout_files(es), layout_dirs(es), refs, manifests).finite()
                && v == verdict_for(candidates(layout_files(es), layout_dirs(es), refs, manifests))
    }
}

proof fn lemma_listed_step(es: Seq<ArchiveEntry>, i: int, n: Seq<char>, dir: bool)
    requires
        0 <= i < es.len(),
    ensures
        listed(es.subrange(0, i + 1), n, dir) == (listed(es.subrange(0, i), n, dir) || (kept_name(n)
            && entry_name(es[i]) == n && es[i].directory == dir)),
{
    let a = es.subrange(0, i);
    let b = es.subrange(0, i + 1);
    if listed(b, n, dir) {
        let k = choose|k: int| 0 <= k < b.len() && #[trigger] entry_name(b[k]) == n && b[k].directory == dir;
        if k < i {
            assert(a[k] == b[k]);
            assert(entry_name(a[k]) == n);
        } else {
            assert(b[k] == es[i]);
        }
    }
    if listed(a, n, dir) {
        let k = choose|k: int| 0 <= k < a.len() && #[trigger] entry_name(a[k]) == n && a[k].directory == dir;
        assert(b[k] == a[k]);
        assert(entry_name(b[k]) == n);
    }
    if kept_name(n) && entry_name(es[i]) == n && es[i].directory == dir {
        assert(b[i] == es[i]);
        assert(entry_name(b[i]) == n);
    }
}

proof fn lemma_dir_step(es: Seq<ArchiveEntry>, i: int, x: Seq<char>)
    requires
        0 <= i < es.len(),
    ensures
        layout_dir(es.subrange(0, i + 1), x) == (layout_dir(es.subrange(0, i), x) || (
        es[i].directory && kept_name(x) && entry_name(es[i]) == x && 1 <= depth(x) <= 3) || (
        !es[i].directory && kept_name(entry_name(es[i])) && depth(entry_name(es[i])) <= 3 && ancestor(
            x,
            entry_name(es[i]),
        ))),
{
    let a = es.subrange(0, i);
    let b = es.subrange(0, i + 1);
    let n = entry_name(es[i]);
    lemma_listed_step(es, i, x, true);
    assert forall|f: Seq<char>| #[trigger] layout_file(b, f) == (layout_file(a, f) || (kept_name(f)
        && n == f && !es[i].directory && depth(f) <= 3)) by {
        lemma_listed_step(es, i, f, false);
    }
    if !es[i].directory && kept_name(n) && depth(n) <= 3 && ancestor(x, n) {
        assert(layout_file(b, n));
    }
    if exists|f: Seq<char>| #[trigger] layout_file(a, f) && ancestor(x, f) {
        let f = choose|f: Seq<char>| #[trigger] layout_file(a, f) && ancestor(x, f);
        assert(layout_file(b, f));
    }
    if exists|f: Seq<char>| #[trigger] layout_file(b, f) && ancestor(x, f) {
        let f = choose|f: Seq<char>| #[trigger] layout_file(b, f) && ancestor(x, f);
        if !layout_file(a, f) {
            assert(n == f);
        }
    }
}

/// The files and directories of an archive within three levels.
pub fn collect_layout(entries: &Vec<ArchiveEntry>) -> (r: (TextSet, TextSet))
    ensures
        r.0.wf(),
        r.1.wf(),
        members(r.0) == layout_files(entries@),
        members(r.1) == layout_dirs(entries@),
{
    let ghost es = entries@;
    let mut files = TextSet::new();
    let mut dirs = TextSet::new();
    let mut i: usize = 0;
    while i < entries.len()
        invariant
            es == entries@,
            i <= entries.len(),
            files.wf(),
            dirs.wf(),
            forall|x: Seq<char>| #[trigger] files.has(x) <==> layout_file(es.subrange(0, i as int), x),
            forall|x: Seq<char>| #[trigger] dirs.has(x) <==> layout_dir(es.subrange(0, i as int), x),
        decreases entries.len() - i,
    {
        let e = &entries[i];
        let n = normalize(chars_of(e.name.as_str()).as_slice());
        let ghost nv = n@;
        assert(nv == entry_name(es[i as int]));
        proof {
            assert forall|x: Seq<char>| #[trigger] layout_file(es.subrange(0, i + 1), x) == (layout_file(
                es.subrange(0, i as int),
                x,
            ) || (kept_name(x) && nv == x && !e.directory && depth(x) <= 3)) by {
                lemma_listed_step(es, i as int, x, false);
            }
            assert forall|x: Seq<char>| #[trigger] layout_dir(es.subrange(0, i + 1), x) == (layout_dir(
                es.subrange(0, i as int),
                x,
            ) || (e.directory && kept_name(x) && nv == x && 1 <= depth(x) <= 3) || (!e.directory
                && kept_name(nv) && depth(nv) <= 3 && ancestor(x, nv))) by {
                lemma_dir_step(es, i as int, x);
            }
        }
        if n.len() > 0 && !is_ignored_metadata_path(n.as_slice()) {
            let d = name_depth(n.as_slice());
            if e.directory {
                if d >= 1 && d <= 3 {
                    dirs.insert(n);
                }
            } else if d <= 3 {
                files.insert(n.clone());
                let mut j: usize = 1;
                while j < n.len()
                    invariant
                        n@ == nv,
                        1 <= j <= n.len(),
                        dirs.wf(),
                        forall|x: Seq<char>| #[trigger] dirs.has(x) <==> (layout_dir(es.subrange(0, i as int), x)
                            || exists|m: int| 0 < m < j && nv[m] == '/' && #[trigger] nv.subrange(0, m) == x),
                    decreases n.len() - j,
                {
                    if n[j] == '/' {
                        let prefix = slice(n.as_slice(), 0, j);
                        dirs.insert(prefix);
                    }
                    proof {
                        assert forall|x: Seq<char>| #[trigger] dirs.has(x) <==> (layout_dir(es.subrange(0, i as int), x)
                            || exists|m: int| 0 < m < j + 1 && nv[m] == '/' && #[trigger] nv.subrange(0, m) == x) by {
                            if exists|m: int| 0 < m < j + 1 && nv[m] == '/' && #[trigger] nv.subrange(0, m) == x {
                                let m = choose|m: int| 0 < m < j + 1 && nv[m] == '/' && #[trigger] nv.subrange(0, m) == x;
                                if m == j {
                                    assert(dirs.has(nv.subrange(0, j as int)));
                                }
                            }
                        }
                    }
                    j += 1;
                }
                proof {
                    assert forall|x: Seq<char>| #[trigger] dirs.has(x) <==> layout_dir(es.subrange(0, i + 1), x) by {
                        if n.len() == 0 {
                        }
                        if ancestor(x, nv) {
                            let m = choose|m: int| 0 < m < nv.len() && nv[m] == '/' && #[trigger] nv.subrange(0, m) == x;
                            assert(nv.subrange(0, m) == x);
                        }
                    }
                }
            }
        }
        i += 1;
    }
    assert(es.subrange(0, entries.len() as int) =~= es);
    assert(members(files) =~= layout_files(es));
    assert(members(dirs) =~= layout_dirs(es));
    (files, dirs)
}

/// The names that recognition reads.
pub fn select_inspected_entries(catalog: &ArchiveCatalog) -> (r: TextSet)
    ensures
        r.wf(),
        members(r) == inspected_names(catalog.entries@),
{
    let ghost es = catalog.entries@;
    let mut out = TextSet::new();
    let mut i: usize = 0;
    while i < catalog.entries.len()
        invariant
            es == catalog.entries@,
            i <= catalog.entries.len(),
            out.wf(),
            forall|x: Seq<char>| #[trigger] out.has(x) <==> inspected(es.subrange(0, i as int), x),
        decreases catalog.entries.len() - i,
    {
        let e = &catalog.entries[i];
        let n = normalize(chars_of(e.name.as_str()).as_slice());
        let ghost nv = n@;
        let ghost a = es.subrange(0, i as int);
        let ghost b = es.subrange(0, i + 1);
        assert(nv == entry_name(es[i as int]));
        let mut take = false;
        if n.len() > 0 && !is_ignored_metadata_path(n.as_slice()) && !e.directory && name_depth(n.as_slice()) <= 3 {
            let f = name_file(n.as_slice());
            if (eq_lit(f.as_slice(), "port.json") && e.size <= MAX_MANIFEST_BYTES) || (ends_with_lit(n.as_slice(), ".sh")
                && e.size <= MAX_LAUNCHER_INSPECTION_BYTES) {
                take = true;
            }
        }
        proof {
            assert forall|x: Seq<char>| #[trigger] inspected(b, x) == (inspected(a, x) || (take && x == nv)) by {
                if inspected(b, x) {
                    let k = choose|k: int| 0 <= k < b.len() && #[trigger] entry_name(b[k]) == x && !b[k].directory && ((file_name(x)
                        == "port.json"@ && b[k].size <= MAX_MANIFEST_BYTES) || (is_suffix(".sh"@, x)
                        && b[k].size <= MAX_LAUNCHER_INSPECTION_BYTES));
                    if k < i {
                        assert(a[k] == b[k]);
                        assert(entry_name(a[k]) == x);
                    } else {
                        assert(b[k] == es[i as int]);
                    }
                }
                if inspected(a, x) {
                    let k = choose|k: int| 0 <= k < a.len() && #[trigger] entry_name(a[k]) == x && !a[k].directory && ((file_name(x)
                        == "port.json"@ && a[k].size <= MAX_MANIFEST_BYTES) || (is_suffix(".sh"@, x)
                        && a[k].size <= MAX_LAUNCHER_INSPECTION_BYTES));
                    assert(b[k] == a[k]);
                    assert(entry_name(b[k]) == x);
                }
                if take && x == nv {
                    assert(b[i as int] == es[i as int]);
                    assert(entry_name(b[i as int]) == x);
                }
            }
        }
        if take {
            out.insert(n);
        }
        i += 1;
    }
    assert(es.subrange(0, catalog.entries.len() as int) =~= es);
    assert(members(out) =~= inspected_names(es));
    out
}


/// A sorted text set has as many members as items.
pub proof fn lemma_members_len(t: TextSet)
    requires
        t.wf(),
    ensures
        members(t).finite(),
        members(t).len() == t.items.len(),
{
    let v = t.items@.map_values(|x: Text| x@);
    assert forall|i: int, j: int| 0 <= i < v.len() && 0 <= j < v.len() && i != j implies v[i] != v[j] by {
        if i < j {
            if t.items[i]@ == t.items[j]@ {
                crate::textset::lemma_text_lt_irreflexive(t.items[i]@);
            }
        } else {
            if t.items[i]@ == t.items[j]@ {
                crate::textset::lemma_text_lt_irreflexive(t.items[j]@);
            }
        }
    }
    assert forall|x: Seq<char>| #[trigger] v.to_set().contains(x) <==> members(t).contains(x) by {
        if t.has(x) {
            let i = choose|i: int| 0 <= i < t.items.len() && #[trigger] t.items[i]@ == x;
            assert(v[i] == x);
        }
        if v.contains(x) {
            let i = choose|i: int| 0 <= i < v.len() && v[i] == x;
            assert(t.items[i]@ == x);
        }
    }
    assert(v.to_set() =~= members(t));
    v.unique_seq_to_set();
    vstd::seq_lib::seq_to_set_is_finite(v);
}

/// `x` is the first component of `value` below `root`, and no component
/// below the root is `..`.
pub open spec fn first_below(value: Seq<char>, root: Seq<char>, x: Seq<char>) -> bool {
    crate::paths::stripped(value, root) matches Some(rest) && rest.len() > 0 && rest[0] == x && forall|m: int|
        0 <= m < rest.len() ==> rest[m] != ".."@
}

/// Adds, for every value under one of the roots, the first component below
/// that root (a value with a `..` component below the root adds nothing).
fn add_first_components(out: &mut TextSet, values: &Vec<String>, roots: &Vec<Text>)
    requires
        old(out).wf(),
        forall|x: Seq<char>| #[trigger] old(out).has(x) ==> component_ok(x),
    ensures
        final(out).wf(),
        forall|x: Seq<char>| #[trigger] final(out).has(x) ==> component_ok(x),
        forall|x: Seq<char>| #[trigger] final(out).has(x) <==> (old(out).has(x) || exists|i: int, k: int|
            0 <= i < values.len() && 0 <= k < roots.len() && first_below(values@[i]@, roots@[k]@, x)),
{
    let ghost start = *out;
    let mut i: usize = 0;
    while i < values.len()
        invariant
            i <= values.len(),
            out.wf(),
            forall|x: Seq<char>| #[trigger] out.has(x) ==> component_ok(x),
            forall|x: Seq<char>| #[trigger] out.has(x) <==> (start.has(x) || exists|a: int, k: int|
                0 <= a < i && 0 <= k < roots.len() && first_below(values@[a]@, roots@[k]@, x)),
        decreases values.len() - i,
    {
        let value = chars_of(values[i].as_str());
        let mut k: usize = 0;
        while k < roots.len()
            invariant
                i < values.len(),
                k <= roots.len(),
                value@ == values@[i as int]@,
                out.wf(),
                forall|x: Seq<char>| #[trigger] out.has(x) ==> component_ok(x),
                forall|x: Seq<char>| #[trigger] out.has(x) <==> (start.has(x) || (exists|a: int, b: int|
                    0 <= a < i && 0 <= b < roots.len() && first_below(values@[a]@, roots@[b]@, x)) || (exists|b: int|
                    0 <= b < k && first_below(values@[i as int]@, roots@[b]@, x))),
            decreases roots.len() - k,
        {
            let ghost before = *out;
            if let Some(rest) = strip_prefix(value.as_slice(), roots[k].as_slice()) {
                let ghost rv = crate::paths::views(rest@);
                let mut parent_dir = false;
                let mut m: usize = 0;
                while m < rest.len()
                    invariant
                        m <= rest.len(),
                        rv == crate::paths::views(rest@),
                        parent_dir == exists|q: int| 0 <= q < m && rv[q] == ".."@,
                    decreases rest.len() - m,
                {
                    assert(rv[m as int] == rest@[m as int]@);
                    if eq_lit(rest[m].as_slice(), "..") {
                        parent_dir = true;
                    }
                    m += 1;
                }
                if !parent_dir && rest.len() > 0 {
                    let first = rest[0].clone();
                    assert(component_ok(first@));
                    assert(first@ == rv[0]);
                    out.insert(first);
                    assert(first_below(values@[i as int]@, roots@[k as int]@, rv[0]));
                }
                assert forall|x: Seq<char>| first_below(values@[i as int]@, roots@[k as int]@, x) implies #[trigger] out.has(x) by {
                    assert(rv[0] == x);
                    if parent_dir {
                        let q = choose|q: int| 0 <= q < rest.len() && rv[q] == ".."@;
                        assert(rv[q] != ".."@);
                    }
                }
                assert forall|x: Seq<char>| #[trigger] out.has(x) && !before.has(x) implies first_below(values@[i as int]@, roots@[k as int]@, x) by {
                    assert forall|q: int| 0 <= q < rv.len() implies rv[q] != ".."@ by {
                        if rv[q] == ".."@ {
                            assert(parent_dir);
                        }
                    }
                }
            }
            proof {
                assert forall|x: Seq<char>| #[trigger] out.has(x) <==> (start.has(x) || (exists|a: int, b: int|
                    0 <= a < i && 0 <= b < roots.len() && first_below(values@[a]@, roots@[b]@, x)) || (exists|b: int|
                    0 <= b < k + 1 && first_below(values@[i as int]@, roots@[b]@, x))) by {
                    if exists|b: int| 0 <= b < k + 1 && first_below(values@[i as int]@, roots@[b]@, x) {
                        let b = choose|b: int| 0 <= b < k + 1 && first_below(values@[i as int]@, roots@[b]@, x);
                        if b == k {
                        }
                    }
                }
            }
            k += 1;
        }
        proof {
            assert forall|x: Seq<char>| #[trigger] out.has(x) <==> (start.has(x) || exists|a: int, b: int|
                0 <= a < i + 1 && 0 <= b < roots.len() && first_below(values@[a]@, roots@[b]@, x)) by {
                if exists|a: int, b: int| 0 <= a < i + 1 && 0 <= b < roots.len() && first_below(values@[a]@, roots@[b]@, x) {
                    let (a, b) = choose|a: int, b: int| 0 <= a < i + 1 && 0 <= b < roots.len() && first_below(values@[a]@, roots@[b]@, x);
                    if a == i {
                        assert(exists|c: int| 0 <= c < roots.len() && first_below(values@[i as int]@, roots@[c]@, x));
                    }
                }
            }
        }
        i += 1;
    }
}

/// The roots below which a launcher's references count: the launcher's own
/// folder inside the archive, the card's `ports` folder, `/roms/ports` and
/// `/ports`.
pub open spec fn reference_roots(script_dir: Seq<char>) -> Seq<Seq<char>> {
    seq![crate::paths::joined("/__archive__"@, script_dir), "/__portmaster_card__/ports"@, "/roms/ports"@, "/ports"@]
}

/// `x` is the first component below one of `roots` of one of `values`.
pub open spec fn first_below_any(values: Seq<String>, roots: Seq<Seq<char>>, x: Seq<char>) -> bool {
    exists|i: int, k: int| 0 <= i < values.len() && 0 <= k < roots.len() && first_below(values[i]@, roots[k], x)
}

/// `x` is a directory name that the analysis of a launcher in `script_dir`
/// refers to: the first component, below a reference root, of one of its
/// path references, declared paths, sources or working directories.
pub open spec fn referenced_in(a: crate::shell_paths::PathAnalysis, script_dir: Seq<char>, x: Seq<char>) -> bool {
    ||| first_below_any(a.paths@, reference_roots(script_dir), x)
    ||| first_below_any(a.declared_paths@, reference_roots(script_dir), x)
    ||| first_below_any(a.sources@, reference_roots(script_dir), x)
    ||| first_below_any(a.working_directories@, reference_roots(script_dir), x)
}

/// The directory names that the analysis of a launcher in `script_dir`
/// refers to; see `referenced_in`.
pub fn launcher_references_in(analysis: &crate::shell_paths::PathAnalysis, script_dir: &[char]) -> (r: TextSet)
    ensures
        r.wf(),
        forall|x: Seq<char>| #[trigger] r.has(x) ==> component_ok(x),
        forall|x: Seq<char>| #[trigger] r.has(x) <==> referenced_in(*analysis, script_dir@, x),
{
    let archive_root = chars_of("/__archive__");
    let mut roots: Vec<Text> = Vec::new();
    roots.push(join(archive_root.as_slice(), script_dir));
    roots.push(chars_of("/__portmaster_card__/ports"));
    roots.push(chars_of("/roms/ports"));
    roots.push(chars_of("/ports"));
    let ghost rs = reference_roots(script_dir@);
    assert(roots@.len() == 4 && roots@[0]@ == rs[0] && roots@[1]@ == rs[1] && roots@[2]@ == rs[2] && roots@[3]@ == rs[3]);
    let mut out = TextSet::new();
    add_first_components(&mut out, &analysis.paths, &roots);
    add_first_components(&mut out, &analysis.declared_paths, &roots);
    add_first_components(&mut out, &analysis.sources, &roots);
    add_first_components(&mut out, &analysis.working_directories, &roots);
    proof {
        assert forall|x: Seq<char>| #[trigger] out.has(x) <==> referenced_in(*analysis, script_dir@, x) by {
            let vs = seq![analysis.paths@, analysis.declared_paths@, analysis.sources@, analysis.working_directories@];
            assert forall|v: Seq<String>| (exists|i: int, k: int| 0 <= i < v.len() && 0 <= k < roots.len() && first_below(v[i]@, roots@[k]@, x)) <==> first_below_any(v, rs, x) by {
                if exists|i: int, k: int| 0 <= i < v.len() && 0 <= k < roots.len() && first_below(v[i]@, roots@[k]@, x) {
                    let (i, k) = choose|i: int, k: int| 0 <= i < v.len() && 0 <= k < roots.len() && first_below(v[i]@, roots@[k]@, x);
                    assert(roots@[k]@ == rs[k]);
                }
                if first_below_any(v, rs, x) {
                    let (i, k) = choose|i: int, k: int| 0 <= i < v.len() && 0 <= k < rs.len() && first_below(v[i]@, rs[k], x);
                    assert(roots@[k]@ == rs[k]);
                }
            }
        }
    }
    out
}

/// The names of the directories a launcher refers to under the explicit
/// portable-package roots (`reference_roots`). The launcher is analyzed with
/// only the symbolic card root bound, never a device path; the names are
/// those that `launcher_references_in` finds in that analysis.
pub fn launcher_references(text: &str, script_name: &[char], script_dir: &[char]) -> (r: TextSet)
    ensures
        r.wf(),
        forall|x: Seq<char>| #[trigger] r.has(x) ==> component_ok(x),
{
    let mut seed: Vec<(String, String)> = Vec::new();
    seed.push(("directory".to_owned(), "/__portmaster_card__".to_owned()));
    let archive_root = chars_of("/__archive__");
    let virtual_parent = join(archive_root.as_slice(), script_dir);
    let mut file: Vec<char> = slice(script_name, 0, script_name.len());
    push_lit(&mut file, ".sh");
    let script = join(virtual_parent.as_slice(), file.as_slice());
    let analysis = crate::shell_paths::analyze(text, &seed, string_of(script.as_slice()).as_str());
    launcher_references_in(&analysis, script_dir)
}

/// The directories among `real_dirs` that a launcher refers to (see
/// `launcher_references`), in increasing order; which of them those are is
/// decided by `referenced_directories`.
pub fn launcher_data_directories(text: &str, real_dirs: &Vec<String>, script_name: &str, script_dir: &str) -> (r: Vec<String>)
    ensures
        forall|i: int| 0 <= i < r.len() ==> crate::shell_paths::listed(real_dirs@, (#[trigger] r[i])@),
        forall|i: int| 0 <= i < r.len() ==> component_ok((#[trigger] r[i])@),
        forall|i: int, j: int| 0 <= i < j < r.len() ==> r[i]@ != r[j]@,
{
    let name = chars_of(script_name);
    let dir = chars_of(script_dir);
    let all = launcher_references(text, name.as_slice(), dir.as_slice());
    referenced_directories(&all, real_dirs)
}

/// The directories among `real_dirs` that are in `refs`, each once and in
/// increasing order.
pub fn referenced_directories(all: &TextSet, real_dirs: &Vec<String>) -> (r: Vec<String>)
    requires
        all.wf(),
        forall|x: Seq<char>| #[trigger] all.has(x) ==> component_ok(x),
    ensures
        forall|x: Seq<char>| crate::shell_paths::listed(r@, x) <==> (all.has(x) && crate::shell_paths::listed(real_dirs@, x)),
        forall|i: int| 0 <= i < r.len() ==> crate::shell_paths::listed(real_dirs@, (#[trigger] r[i])@),
        forall|i: int| 0 <= i < r.len() ==> component_ok((#[trigger] r[i])@),
        forall|i: int, j: int| 0 <= i < j < r.len() ==> r[i]@ != r[j]@,
{

    let mut out = TextSet::new();
    let mut i: usize = 0;
    while i < all.items.len()
        invariant
            i <= all.items.len(),
            out.wf(),
            forall|x: Seq<char>| #[trigger] all.has(x) ==> component_ok(x),
            forall|x: Seq<char>| #[trigger] out.has(x) ==> component_ok(x) && exists|j: int| 0 <= j < real_dirs.len() && #[trigger] real_dirs[j]@ == x,
            forall|x: Seq<char>| #[trigger] out.has(x) <==> (exists|k: int| 0 <= k < i && #[trigger] all.items[k]@ == x) && crate::shell_paths::listed(real_dirs@, x),
        decreases all.items.len() - i,
    {
        let mut j: usize = 0;
        let mut found = false;
        while j < real_dirs.len() && !found
            invariant
                i < all.items.len(),
                j <= real_dirs.len(),
                found ==> j > 0 && real_dirs[j - 1]@ == all.items[i as int]@,
                !found ==> forall|m: int| 0 <= m < j ==> (#[trigger] real_dirs[m])@ != all.items[i as int]@,
            decreases real_dirs.len() - j,
        {
            if crate::text::text_eq(chars_of(real_dirs[j].as_str()).as_slice(), all.items[i].as_slice()) {
                found = true;
            }
            j += 1;
        }
        let ghost prev = out;
        if found {
            let ghost x = all.items[i as int]@;
            assert(all.has(x));
            assert(real_dirs[j - 1]@ == x);
            out.insert(all.items[i].clone());
        }
        proof {
            assert forall|x: Seq<char>| #[trigger] out.has(x) <==> (exists|k: int| 0 <= k < i + 1 && #[trigger] all.items[k]@ == x) && crate::shell_paths::listed(real_dirs@, x) by {
                if x == all.items[i as int]@ && crate::shell_paths::listed(real_dirs@, x) && !found {
                    let m = choose|m: int| 0 <= m < real_dirs.len() && #[trigger] real_dirs@[m]@ == x;
                    assert(real_dirs[m]@ != all.items[i as int]@);
                }
                if exists|k: int| 0 <= k < i + 1 && #[trigger] all.items[k]@ == x {
                    let k = choose|k: int| 0 <= k < i + 1 && #[trigger] all.items[k]@ == x;
                    if k < i {
                        assert(exists|k2: int| 0 <= k2 < i && #[trigger] all.items[k2]@ == x);
                    }
                }
                if found && x == all.items[i as int]@ {
                    assert(crate::shell_paths::listed(real_dirs@, x)) by {
                        assert(real_dirs@[j - 1]@ == x);
                    }
                }
            }
        }
        i += 1;
    }
    let r = out.to_strings();
    proof {
        assert forall|x: Seq<char>| crate::shell_paths::listed(r@, x) <==> (all.has(x) && crate::shell_paths::listed(real_dirs@, x)) by {
            if crate::shell_paths::listed(r@, x) {
                let j = choose|j: int| 0 <= j < r.len() && #[trigger] r@[j]@ == x;
                assert(out.items[j]@ == x);
                assert(out.has(x));
            }
            if all.has(x) && crate::shell_paths::listed(real_dirs@, x) {
                let k = choose|k: int| 0 <= k < all.items.len() && #[trigger] all.items[k]@ == x;
                assert(out.has(x));
                let j = choose|j: int| 0 <= j < out.items.len() && #[trigger] out.items[j]@ == x;
                assert(r@[j]@ == x);
            }
        }
        assert forall|i: int| 0 <= i < r.len() implies crate::shell_paths::listed(real_dirs@, (#[trigger] r[i])@) by {
            assert(out.has(out.items[i]@));
            let j = choose|j: int| 0 <= j < real_dirs.len() && #[trigger] real_dirs[j]@ == out.items[i]@;
            assert(real_dirs@[j]@ == r[i]@);
        }
        assert forall|i: int| 0 <= i < r.len() implies component_ok((#[trigger] r[i])@) by {
            assert(out.has(out.items[i]@));
        }
        assert forall|i: int, j: int| 0 <= i < j < r.len() implies r[i]@ != r[j]@ by {
            if r[i]@ == r[j]@ {
                crate::textset::lemma_text_lt_irreflexive(out.items[i]@);
            }
        }
    }
    r
}


/// The file name without its trailing `.sh` suffixes.
pub open spec fn stem_spec(t: Seq<char>) -> Seq<char>
    decreases t.len(),
{
    if t.len() >= 3 && t[t.len() - 3] == '.' && t[t.len() - 2] == 's' && t[t.len() - 1] == 'h' {
        stem_spec(t.subrange(0, t.len() - 3))
    } else {
        t
    }
}

/// The launcher stem: the file name without its trailing `.sh` suffixes.
fn script_stem(file: &[char]) -> (r: Text)
    ensures
        r@ == stem_spec(file@),
{
    let mut end = file.len();
    assert(file@.subrange(0, file.len() as int) =~= file@);
    while end >= 3 && file[end - 3] == '.' && file[end - 2] == 's' && file[end - 1] == 'h'
        invariant
            end <= file.len(),
            stem_spec(file@) == stem_spec(file@.subrange(0, end as int)),
        decreases end,
    {
        assert(file@.subrange(0, end as int).subrange(0, end - 3) =~= file@.subrange(0, end - 3));
        end -= 3;
    }
    slice(file, 0, end)
}

/// The first supplied text for the launcher `s`.
fn text_of<'a>(texts: &'a Vec<(String, String)>, s: &[char]) -> (r: Option<&'a String>)
    ensures
        r is Some <==> has_text(texts@, s@),
{
    let mut i: usize = 0;
    while i < texts.len()
        invariant
            i <= texts.len(),
            forall|k: int| 0 <= k < i ==> texts@[k].0@ != s@,
        decreases texts.len() - i,
    {
        if crate::text::text_eq(chars_of(texts[i].0.as_str()).as_slice(), s) {
            assert(texts@[i as int].0@ == s@);
            return Some(&texts[i].1);
        }
        i += 1;
    }
    proof {
        if has_text(texts@, s@) {
            let k = choose|k: int| 0 <= k < texts.len() && #[trigger] texts@[k].0@ == s@;
        }
    }
    None
}

/// The directory references of every launcher script that has a text.
fn references_of(files: &TextSet, texts: &Vec<(String, String)>) -> (r: Vec<(Text, TextSet)>)
    ensures
        references_for(members(*files), texts@, r@),
{
    let ghost fs = members(*files);
    let mut refs: Vec<(Text, TextSet)> = Vec::new();
    let mut i: usize = 0;
    while i < files.items.len()
        invariant
            i <= files.items.len(),
            fs == members(*files),
            forall|k: int|
                0 <= k < refs.len() ==> is_script(fs, (#[trigger] refs@[k]).0@) && has_text(texts@, refs@[k].0@)
                    && forall|x: Seq<char>| #[trigger] refs@[k].1.has(x) ==> component_ok(x),
            forall|j: int|
                0 <= j < i && is_script(fs, #[trigger] files.items[j]@) && has_text(texts@, files.items[j]@)
                    ==> exists|k: int| 0 <= k < refs.len() && #[trigger] refs@[k].0@ == files.items[j]@,
        decreases files.items.len() - i,
    {
        let s = &files.items[i];
        assert(files.has(s@));
        let f = name_file(s.as_slice());
        if ends_with_lit(f.as_slice(), ".sh") {
            if let Some(text) = text_of(texts, s.as_slice()) {
                let stem = script_stem(f.as_slice());
                let dir = name_parent(s.as_slice());
                let found = launcher_references(text.as_str(), stem.as_slice(), dir.as_slice());
                let ghost before = refs@;
                refs.push((s.clone(), found));
                proof {
                    assert(refs@[before.len() as int].0@ == s@);
                    assert forall|j: int|
                        0 <= j < i + 1 && is_script(fs, #[trigger] files.items[j]@) && has_text(texts@, files.items[j]@)
                            implies exists|k: int| 0 <= k < refs.len() && #[trigger] refs@[k].0@ == files.items[j]@ by {
                        if j < i {
                            let k = choose|k: int| 0 <= k < before.len() && #[trigger] before[k].0@ == files.items[j]@;
                            assert(refs@[k] == before[k]);
                        }
                    }
                }
            }
        }
        i += 1;
    }
    proof {
        assert forall|s: Seq<char>| #[trigger] is_script(fs, s) && has_text(texts@, s) implies exists|i: int|
            0 <= i < refs.len() && #[trigger] refs@[i].0@ == s by {
            assert(files.has(s));
            let j = choose|j: int| 0 <= j < files.items.len() && #[trigger] files.items[j]@ == s;
        }
    }
    refs
}

/// Recognizes the payload of an archive from its catalog, the texts of the
/// launcher scripts among the inspected entries, and the items of the package
/// manifests among them that could be read. `cancel` is polled once per entry.
pub fn recognize_catalog<F: Fn() -> bool>(
    catalog: &ArchiveCatalog,
    launcher_texts: &Vec<(String, String)>,
    manifests: &Vec<(String, Vec<String>)>,
    cancel: &F,
) -> (r: Result<Recognized, String>)
    requires
        forall|u: ()| #[trigger] cancel.requires(u),
    ensures
        r matches Err(e) ==> e@ == "archive inspection cancelled"@,
        r matches Ok(v) ==> recognition_outcome(catalog.entries@, launcher_texts@, manifests@, v.view_of()),
        catalog.entries.len() > MAX_ZIP_ENTRIES ==> r is Ok,
        (forall|u: (), b: bool| #[trigger] cancel.ensures(u, b) ==> b) && 1 <= catalog.entries.len() <= MAX_ZIP_ENTRIES
            ==> r is Err,
{
    if catalog.entries.len() > MAX_ZIP_ENTRIES {
        return Ok(
            Recognized {
                kind: ZipKind::Unknown,
                entry_script: String::new(),
                entry_data: String::new(),
                app_name: String::new(),
                diagnostic: "archive contains too many entries".to_owned(),
            },
        );
    }
    let mut i: usize = 0;
    while i < catalog.entries.len()
        invariant
            forall|u: ()| #[trigger] cancel.requires(u),
            catalog.entries.len() <= MAX_ZIP_ENTRIES,
            i <= catalog.entries.len(),
            (forall|u: (), b: bool| #[trigger] cancel.ensures(u, b) ==> b) && catalog.entries.len() >= 1 ==> i == 0,
        decreases catalog.entries.len() - i,
    {
        let stop = cancel();
        if stop {
            return Err("archive inspection cancelled".to_owned());
        }
        assert(cancel.ensures((), stop));
        i += 1;
    }
    let selected = select_inspected_entries(catalog);
    proof {
        lemma_members_len(selected);
    }
    if selected.len() > MAX_INSPECTED {
        return Ok(
            Recognized {
                kind: ZipKind::Unknown,
                entry_script: String::new(),
                entry_data: String::new(),
                app_name: String::new(),
                diagnostic: "archive contains too many launcher or manifest candidates".to_owned(),
            },
        );
    }
    let (files, dirs) = collect_layout(&catalog.entries);
    let refs = references_of(&files, launcher_texts);
    let recognized = classify_layout(&files, &dirs, &refs, manifests);
    assert(references_for(layout_files(catalog.entries@), launcher_texts@, refs@));
    Ok(recognized)
}

/// `c` describes the archive `source` with catalog `catalog`, recognized as `v`.
pub open spec fn candidate_for(c: ZipCandidate, source: ArchiveSource, catalog: ArchiveCatalog, v: RecognizedView) -> bool {
    &&& c.path@ == source.path@
    &&& c.size == source.size
    &&& c.source_identity@ == source.identity@
    &&& c.format@ == format_label(catalog.format)
    &&& c.password_required == catalog.encrypted
    &&& c.kind@ == kind_name(v.0)
    &&& c.entry_script@ == v.1
    &&& c.entry_data@ == v.2
    &&& c.app_name@ == v.3
    &&& c.diagnostic@ == v.4
    &&& v.4.len() == 0 ==> c.issue is None
    &&& v.4.len() > 0 ==> (c.issue matches Some(issue) && issue_for(issue, source.path@, format_label(catalog.format), v.4))
}

/// Inspects a ZIP or 7z archive that was opened with an optional password:
/// `catalog` lists its entries, and `launcher_texts` and `manifests` hold what
/// could be read of the entries that `select_inspected_entries` names.
pub fn inspect_archive_bundle_with_password<F: Fn() -> bool>(
    source: &ArchiveSource,
    catalog: &ArchiveCatalog,
    launcher_texts: &Vec<(String, String)>,
    manifests: &Vec<(String, Vec<String>)>,
    cancel: &F,
) -> (r: Result<ZipCandidate, String>)
    requires
        forall|u: ()| #[trigger] cancel.requires(u),
    ensures
        r matches Err(e) ==> e@ == "archive inspection cancelled"@,
        r matches Ok(c) ==> exists|v: RecognizedView|
            recognition_outcome(catalog.entries@, launcher_texts@, manifests@, v) && candidate_for(c, *source, *catalog, v),
        catalog.entries.len() > MAX_ZIP_ENTRIES ==> r is Ok,
        (forall|u: (), b: bool| #[trigger] cancel.ensures(u, b) ==> b) && 1 <= catalog.entries.len() <= MAX_ZIP_ENTRIES
            ==> r is Err,
{
    let candidate = match recognize_catalog(catalog, launcher_texts, manifests, cancel) {
        Ok(c) => c,
        Err(e) => return Err(e),
    };
    let format = catalog.format.name();
    let issue: Option<ArchiveIssue> = if candidate.diagnostic.as_str().unicode_len() > 0 {
        Some(archive_issue(source.path.as_str(), format, candidate.diagnostic.as_str()))
    } else {
        None
    };
    let ghost v = candidate.view_of();
    let c = ZipCandidate {
        path: source.path.clone(),
        size: source.size,
        source_identity: source.identity.clone(),
        format: format.to_owned(),
        password_required: catalog.encrypted,
        kind: candidate.kind.name().to_owned(),
        entry_script: candidate.entry_script,
        entry_data: candidate.entry_data,
        app_name: candidate.app_name,
        diagnostic: candidate.diagnostic,
        issue,
    };
    assert(candidate_for(c, *source, *catalog, v));
    Ok(c)
}

/// Inspects one archive; see `inspect_archive_bundle_with_password`.
pub fn inspect_zip_bundle<F: Fn() -> bool>(
    source: &ArchiveSource,
    catalog: &ArchiveCatalog,
    launcher_texts: &Vec<(String, String)>,
    manifests: &Vec<(String, Vec<String>)>,
    cancel: &F,
) -> (r: Result<ZipCandidate, String>)
    requires
        forall|u: ()| #[trigger] cancel.requires(u),
    ensures
        r matches Err(e) ==> e@ == "archive inspection cancelled"@,
        r matches Ok(c) ==> exists|v: RecognizedView|
            recognition_outcome(catalog.entries@, launcher_texts@, manifests@, v) && candidate_for(c, *source, *catalog, v),
        catalog.entries.len() > MAX_ZIP_ENTRIES ==> r is Ok,
        (forall|u: (), b: bool| #[trigger] cancel.ensures(u, b) ==> b) && 1 <= catalog.entries.len() <= MAX_ZIP_ENTRIES
            ==> r is Err,
{
    inspect_archive_bundle_with_password(source, catalog, launcher_texts, manifests, cancel)
}


/// A recognized TrimUI app or Port has a launcher that is a file of the
/// archive at most three levels deep.
pub proof fn lemma_recognized_launcher_within_three_levels(
    es: Seq<ArchiveEntry>,
    texts: Seq<(String, String)>,
    manifests: Seq<(String, Vec<String>)>,
    v: RecognizedView,
)
    requires
        recognition_outcome(es, texts, manifests, v),
        v.0 == ZipKind::Port || v.0 == ZipKind::TrimuiApp,
    ensures
        layout_files(es).contains(v.1),
        depth(v.1) <= 3,
{
    let refs = choose|refs: Seq<(Text, TextSet)>|
        references_for(layout_files(es), texts, refs) && candidates(layout_files(es), layout_dirs(es), refs, manifests).finite()
            && v == verdict_for(candidates(layout_files(es), layout_dirs(es), refs, manifests));
    let c = candidates(layout_files(es), layout_dirs(es), refs, manifests);
    assert(c.len() == 1);
    vstd::set::axiom_set_choose_len(c);
    let k = c.choose();
    assert(crate::bundle_layout::candidate(layout_files(es), layout_dirs(es), refs, manifests, k));
    crate::bundle_layout::lemma_candidate_script_is_file(layout_files(es), layout_dirs(es), refs, manifests, k);
}

/// A recognition yields an installable payload (a TrimUI app or a Port)
/// exactly when it reports no diagnostic.
pub proof fn lemma_recognized_iff_no_diagnostic(
    es: Seq<ArchiveEntry>,
    texts: Seq<(String, String)>,
    manifests: Seq<(String, Vec<String>)>,
    v: RecognizedView,
)
    requires
        recognition_outcome(es, texts, manifests, v),
    ensures
        (v.0 == ZipKind::Port || v.0 == ZipKind::TrimuiApp) <==> v.4.len() == 0,
{
    reveal_strlit("archive contains too many entries");
    reveal_strlit("archive contains too many launcher or manifest candidates");
    reveal_strlit("archive contains ");
    reveal_strlit("archive does not contain one supported APP or Port payload");
    reveal_strlit("launcher references more than one packaged data directory");
    if es.len() <= MAX_ZIP_ENTRIES && inspected_names(es).len() <= MAX_INSPECTED {
        let refs = choose|refs: Seq<(Text, TextSet)>|
            references_for(layout_files(es), texts, refs) && candidates(layout_files(es), layout_dirs(es), refs, manifests).finite()
                && v == verdict_for(candidates(layout_files(es), layout_dirs(es), refs, manifests));
        let c = candidates(layout_files(es), layout_dirs(es), refs, manifests);
        if c.len() == 1 {
            vstd::set::axiom_set_choose_len(c);
            let k = c.choose();
            assert(crate::bundle_layout::candidate(layout_files(es), layout_dirs(es), refs, manifests, k));
        } else if c.len() > 1 {
            assert(("archive contains "@ + crate::text::decimal_spec(c.len()) + " installable payloads"@).len() > 0);
        }
    }
}

/// A recognized Port's data folder is one that its launcher names.
pub proof fn lemma_recognized_port_data_named_by_launcher(
    es: Seq<ArchiveEntry>,
    texts: Seq<(String, String)>,
    manifests: Seq<(String, Vec<String>)>,
    v: RecognizedView,
)
    requires
        recognition_outcome(es, texts, manifests, v),
        v.0 == ZipKind::Port,
    ensures
        exists|refs: Seq<(Text, TextSet)>|
            references_for(layout_files(es), texts, refs) && crate::bundle_layout::in_refs(refs, v.1, file_name(v.2)),
{
    let refs = choose|refs: Seq<(Text, TextSet)>|
        references_for(layout_files(es), texts, refs) && candidates(layout_files(es), layout_dirs(es), refs, manifests).finite()
            && v == verdict_for(candidates(layout_files(es), layout_dirs(es), refs, manifests));
    let c = candidates(layout_files(es), layout_dirs(es), refs, manifests);
    assert(c.len() == 1);
    vstd::set::axiom_set_choose_len(c);
    let k = c.choose();
    crate::bundle_layout::lemma_port_data_named_by_launcher(layout_files(es), layout_dirs(es), refs, manifests, k);
}


// ---------------------------------------------------------------------------
// Installation decisions.

/// `name` is one of the entries of a directory listing.
pub open spec fn taken(existing: Seq<String>, name: Seq<char>) -> bool {
    exists|i: int| 0 <= i < existing.len() && #[trigger] existing[i]@ == name
}

fn is_taken(existing: &Vec<String>, name: &[char]) -> (r: bool)
    ensures
        r == taken(existing@, name@),
{
    let mut i: usize = 0;
    while i < existing.len()
        invariant
            i <= existing.len(),
            forall|j: int| 0 <= j < i ==> existing@[j]@ != name@,
        decreases existing.len() - i,
    {
        if crate::text::text_eq(chars_of(existing[i].as_str()).as_slice(), name) {
            return true;
        }
        i += 1;
    }
    false
}

/// The numbered launcher name `STEM<k>.sh`.
pub open spec fn numbered_launcher(stem: Seq<char>, k: nat) -> Seq<char> {
    stem + crate::text::decimal_spec(k) + ".sh"@
}

/// The name a Port launcher gets in the scripts directory: its own file
/// name when that is free, otherwise the first free numbered name. Launchers
/// are never replaced.
pub fn next_port_launcher_target(scripts_dir: &str, entry_script: &str, existing: &Vec<String>) -> (r: Result<String, String>)
    ensures
        crate::paths::file_name_of(entry_script@) is None ==> (r matches Err(e) && e@ == "Port launcher has no valid UTF-8 file name"@),
        crate::paths::file_name_of(entry_script@) matches Some(f) ==> {
            let stem = f.subrange(0, f.len() - 3);
            &&& !is_suffix(".sh"@, f) ==> (r matches Err(e) && e@ == "Port launcher file name must end in .sh"@)
            &&& is_suffix(".sh"@, f) && !taken(existing@, f) ==> (r matches Ok(p) && p@ == crate::paths::joined(scripts_dir@, f))
            &&& is_suffix(".sh"@, f) && taken(existing@, f) ==> (r matches Ok(p) ==> exists|k: nat|
                1 <= k <= u32::MAX && p@ == crate::paths::joined(scripts_dir@, numbered_launcher(stem, k))
                    && !taken(existing@, numbered_launcher(stem, k)) && forall|j: nat|
                    1 <= j < k ==> taken(existing@, #[trigger] numbered_launcher(stem, j)))
            &&& is_suffix(".sh"@, f) && taken(existing@, f) ==> (r is Err ==> forall|j: nat|
                1 <= j <= u32::MAX ==> taken(existing@, #[trigger] numbered_launcher(stem, j)))
        },
{
    let dir = chars_of(scripts_dir);
    let file = match crate::paths::file_name(chars_of(entry_script).as_slice()) {
        Some(f) => f,
        None => return Err("Port launcher has no valid UTF-8 file name".to_owned()),
    };
    if !ends_with_lit(file.as_slice(), ".sh") {
        return Err("Port launcher file name must end in .sh".to_owned());
    }
    proof {
        reveal_strlit(".sh");
    }
    let stem = slice(file.as_slice(), 0, file.len() - 3);
    if !is_taken(existing, file.as_slice()) {
        return Ok(string_of(crate::paths::join(dir.as_slice(), file.as_slice()).as_slice()));
    }
    let mut suffix: u64 = 1;
    while suffix <= 4294967295
        invariant
            1 <= suffix <= 4294967296,
            crate::paths::file_name_of(entry_script@) == Some(file@),
            dir@ == scripts_dir@,
            is_suffix(".sh"@, file@),
            taken(existing@, file@),
            stem@ == file@.subrange(0, file@.len() - 3),
            forall|j: nat| 1 <= j < suffix ==> taken(existing@, #[trigger] numbered_launcher(stem@, j)),
        decreases 4294967296 - suffix,
    {
        let mut candidate = slice(stem.as_slice(), 0, stem.len());
        crate::text::push_all(&mut candidate, crate::text::decimal(suffix).as_slice());
        push_lit(&mut candidate, ".sh");
        assert(candidate@ =~= numbered_launcher(stem@, suffix as nat));
        if !is_taken(existing, candidate.as_slice()) {
            let out = string_of(crate::paths::join(dir.as_slice(), candidate.as_slice()).as_slice());
            assert(out@ == crate::paths::joined(scripts_dir@, numbered_launcher(stem@, suffix as nat)));
            return Ok(out);
        }
        suffix += 1;
    }
    let mut message = chars_of("cannot allocate a unique launcher name for ");
    crate::text::push_all(&mut message, file.as_slice());
    Err(string_of(message.as_slice()))
}

/// The install-time recognition still describes the scanned candidate.
pub open spec fn unchanged_since_scan(bundle: ZipCandidate, identity: Seq<char>, format: ArchiveFormat, v: RecognizedView) -> Result<(), Seq<char>> {
    if identity != bundle.source_identity@ {
        Err("archive changed after it was scanned; please scan it again"@)
    } else if format_label(format) != bundle.format@ && bundle.format@.len() > 0 {
        Err("archive changed after it was scanned; please scan it again"@)
    } else if !(bundle.kind@ == "locked"@ && bundle.password_required) && (kind_name(v.0) != bundle.kind@
        || v.1 != bundle.entry_script@ || v.2 != bundle.entry_data@ || v.3 != bundle.app_name@) {
        Err("压缩包在扫描后发生了变化，请重新扫描"@)
    } else {
        Ok(())
    }
}

/// Refuses to install an archive that changed after it was scanned: another
/// file at the same path, another format, or another payload (a locked
/// archive is classified only once its password is known).
pub fn check_unchanged(bundle: &ZipCandidate, identity: &str, format: ArchiveFormat, recognized: &Recognized) -> (r: Result<(), String>)
    ensures
        match r {
            Ok(()) => unchanged_since_scan(*bundle, identity@, format, recognized.view_of()) is Ok,
            Err(e) => unchanged_since_scan(*bundle, identity@, format, recognized.view_of()) == Err::<(), Seq<char>>(e@),
        },
{
    let same = |a: &str, b: &str| -> (r: bool)
        ensures
            r == (a@ == b@),
    { crate::text::text_eq(chars_of(a).as_slice(), chars_of(b).as_slice()) };
    if !same(identity, bundle.source_identity.as_str()) {
        return Err("archive changed after it was scanned; please scan it again".to_owned());
    }
    if !same(format.name(), bundle.format.as_str()) && bundle.format.as_str().unicode_len() > 0 {
        return Err("archive changed after it was scanned; please scan it again".to_owned());
    }
    let unlocks = same(bundle.kind.as_str(), "locked") && bundle.password_required;
    if !unlocks && (!same(recognized.kind.name(), bundle.kind.as_str()) || !same(
        recognized.entry_script.as_str(),
        bundle.entry_script.as_str(),
    ) || !same(recognized.entry_data.as_str(), bundle.entry_data.as_str()) || !same(
        recognized.app_name.as_str(),
        bundle.app_name.as_str(),
    )) {
        return Err("压缩包在扫描后发生了变化，请重新扫描".to_owned());
    }
    Ok(())
}

/// Where an install writes: the app folder inside the single APP install
/// target, or the launcher in the scripts directory and the data folder
/// inside the game data directory.
pub open spec fn install_targets(
    v: RecognizedView,
    launcher: Option<Seq<char>>,
    game_dirs: Seq<char>,
    app_targets: Seq<String>,
) -> Result<Seq<Seq<char>>, Seq<char>> {
    if v.0 == ZipKind::TrimuiApp {
        if app_targets.len() != 1 {
            Err("device configuration must resolve exactly one APP install target"@)
        } else {
            Ok(seq![crate::paths::joined(app_targets[0]@, v.3)])
        }
    } else if v.0 == ZipKind::Port {
        match launcher {
            None => Err("Port launcher target was not resolved"@),
            Some(l) => if v.2.len() == 0 {
                Ok(seq![l])
            } else {
                match crate::paths::file_name_of(v.2) {
                    None => Err("Port data folder has no name"@),
                    Some(name) => Ok(seq![l, crate::paths::joined(game_dirs, name)]),
                }
            },
        }
    } else {
        Err("无法识别这个压缩包，请确认文件完整且受支持"@)
    }
}

/// The paths an install of `recognized` will create; `launcher` is the
/// launcher target that `next_port_launcher_target` chose for a Port.
pub fn intended_targets(
    recognized: &Recognized,
    launcher: Option<&str>,
    game_dirs: &str,
    app_install_targets: &Vec<String>,
) -> (r: Result<Vec<String>, String>)
    ensures
        match r {
            Ok(t) => install_targets(recognized.view_of(), crate::launcher::opt_view(launcher), game_dirs@, app_install_targets@)
                == Ok::<Seq<Seq<char>>, Seq<char>>(t@.map_values(|s: String| s@)),
            Err(e) => install_targets(recognized.view_of(), crate::launcher::opt_view(launcher), game_dirs@, app_install_targets@)
                == Err::<Seq<Seq<char>>, Seq<char>>(e@),
        },
{
    let mut out: Vec<String> = Vec::new();
    match recognized.kind {
        ZipKind::TrimuiApp => {
            if app_install_targets.len() != 1 {
                return Err("device configuration must resolve exactly one APP install target".to_owned());
            }
            let target = crate::paths::join(chars_of(app_install_targets[0].as_str()).as_slice(), chars_of(recognized.app_name.as_str()).as_slice());
            out.push(string_of(target.as_slice()));
            assert(out@.map_values(|s: String| s@) =~= seq![target@]);
            Ok(out)
        },
        ZipKind::Port => {
            let l = match launcher {
                Some(l) => l,
                None => return Err("Port launcher target was not resolved".to_owned()),
            };
            out.push(l.to_owned());
            if recognized.entry_data.as_str().unicode_len() == 0 {
                assert(out@.map_values(|s: String| s@) =~= seq![l@]);
                return Ok(out);
            }
            let name = match crate::paths::file_name(chars_of(recognized.entry_data.as_str()).as_slice()) {
                Some(n) => n,
                None => return Err("Port data folder has no name".to_owned()),
            };
            let data = crate::paths::join(chars_of(game_dirs).as_slice(), name.as_slice());
            out.push(string_of(data.as_slice()));
            assert(out@.map_values(|s: String| s@) =~= seq![l@, data@]);
            Ok(out)
        },
        _ => Err("无法识别这个压缩包，请确认文件完整且受支持".to_owned()),
    }
}

// ---------------------------------------------------------------------------
// Scanning storage roots.

/// A file whose extension is `zip` or `7z`, in any letter case, is an
/// archive that a scan inspects.
pub open spec fn archive_file_name(path: Seq<char>) -> bool {
    match crate::paths::file_name_of(path) {
        None => false,
        Some(name) => match crate::paths::extension_of(name) {
            None => false,
            Some(ext) => {
                let l = ext.map_values(|c: char| crate::text::spec_lower(c));
                l == "zip"@ || l == "7z"@
            },
        },
    }
}

/// Does a scan inspect the file at `path`?
pub fn is_archive_file_name(path: &str) -> (r: bool)
    ensures
        r == archive_file_name(path@),
{
    match crate::paths::extension(chars_of(path).as_slice()) {
        None => false,
        Some(ext) => {
            let l = crate::text::to_ascii_lowercase(ext.as_slice());
            eq_lit(l.as_slice(), "zip") || eq_lit(l.as_slice(), "7z")
        },
    }
}

/// The archive files among `s`, in order.
pub open spec fn archive_paths(s: Seq<Seq<char>>) -> Seq<Seq<char>>
    decreases s.len(),
{
    if s.len() == 0 {
        Seq::empty()
    } else if archive_file_name(s.last()) {
        archive_paths(s.drop_last()).push(s.last())
    } else {
        archive_paths(s.drop_last())
    }
}

/// The order in which a scan visits the entries of one directory: the
/// archive files among them, each path once, in `Path` order.
pub fn scan_order(entries: &Vec<String>) -> (r: Vec<String>)
    ensures
        crate::storage_roots::ascending(crate::storage_roots::texts(r@)),
        crate::storage_roots::texts(r@).to_multiset() == crate::storage_roots::distinct_paths(
            archive_paths(crate::storage_roots::texts(entries@)),
        ).to_multiset(),
{
    let ghost es = crate::storage_roots::texts(entries@);
    let mut archives: Vec<String> = Vec::new();
    let mut i: usize = 0;
    while i < entries.len()
        invariant
            i <= entries.len(),
            es == crate::storage_roots::texts(entries@),
            crate::storage_roots::texts(archives@) == archive_paths(es.subrange(0, i as int)),
        decreases entries.len() - i,
    {
        let ghost before = archives@;
        assert(es.subrange(0, i + 1).drop_last() =~= es.subrange(0, i as int));
        assert(es.subrange(0, i + 1).last() == entries@[i as int]@);
        if is_archive_file_name(entries[i].as_str()) {
            archives.push(entries[i].clone());
            assert(crate::storage_roots::texts(archives@) =~= crate::storage_roots::texts(before).push(
                entries@[i as int]@,
            ));
        }
        i += 1;
    }
    assert(es.subrange(0, entries.len() as int) =~= es);
    let unique = crate::storage_roots::first_of_each(&archives);
    proof {
        crate::storage_roots::lemma_distinct_paths_distinct(crate::storage_roots::texts(archives@));
    }
    crate::storage_roots::sort_paths(unique)
}

/// The candidate a scan reports for an archive that needs a password before
/// it can be recognized.
pub fn locked_candidate(path: &str, size: u64, identity: &str, format: ArchiveFormat) -> (r: ZipCandidate)
    ensures
        r.path@ == path@,
        r.size == size,
        r.source_identity@ == identity@,
        r.format@ == format_label(format),
        r.password_required,
        r.kind@ == "locked"@,
        r.entry_script@.len() == 0 && r.entry_data@.len() == 0 && r.app_name@.len() == 0,
        r.diagnostic@ == "压缩包已加密，需要输入密码后识别"@,
        r.issue is None,
{
    ZipCandidate {
        path: path.to_owned(),
        size,
        source_identity: identity.to_owned(),
        format: format.name().to_owned(),
        password_required: true,
        kind: "locked".to_owned(),
        entry_script: String::new(),
        entry_data: String::new(),
        app_name: String::new(),
        diagnostic: "压缩包已加密，需要输入密码后识别".to_owned(),
        issue: None,
    }
}

/// The candidate a scan reports for an archive that could not be inspected,
/// with the sanitized account of `message`.
pub fn invalid_candidate(path: &str, size: u64, identity: &str, message: &str) -> (r: ZipCandidate)
    ensures
        r.path@ == path@,
        r.size == size,
        r.source_identity@ == identity@,
        !r.password_required,
        r.kind@ == "invalid"@,
        r.entry_script@.len() == 0 && r.entry_data@.len() == 0 && r.app_name@.len() == 0,
        r.issue matches Some(issue) && issue_for(issue, path@, ""@, message@) && r.format@ == issue.format@
            && r.diagnostic@ == crate::port_zip::issue_message(issue.summary@, issue.detail@),
{
    let issue = archive_issue(path, "", message);
    let diagnostic = issue.message();
    ZipCandidate {
        path: path.to_owned(),
        size,
        source_identity: identity.to_owned(),
        format: issue.format.clone(),
        password_required: false,
        kind: "invalid".to_owned(),
        entry_script: String::new(),
        entry_data: String::new(),
        app_name: String::new(),
        diagnostic,
        issue: Some(issue),
    }
}

} // verus!
