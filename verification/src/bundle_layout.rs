//! Recognition of an archive's payload from its entry names, the launcher
//! scripts it holds and the package manifests it declares.
//!
//! Within three levels an archive must contain a launcher script and the data
//! folder that the launcher itself names (a standard Port), or a TrimUI app
//! folder holding `launch.sh` beside `config.json`.
use vstd::prelude::*;

use crate::entry_names::{
    depth, file_name, name_depth, name_file, name_parent, name_sibling, normalize, parent,
    path_verdict, sibling, verdict_of,
};
use crate::port_zip::ZipKind;
use crate::text::{chars_of, decimal, decimal_spec, ends_with_lit, eq_lit, is_suffix, push_all, push_lit, slice, string_of, Text};
use crate::textset::{lemma_text_lt_irreflexive, TextSet};

verus! {

/// The members of a text set, as a mathematical set.
pub open spec fn members(t: TextSet) -> Set<Seq<char>> {
    Set::new(|x: Seq<char>| t.has(x))
}

/// A candidate payload: its kind, launcher script, data folder and app name.
pub type CandidateKey = (ZipKind, Seq<char>, Seq<char>, Seq<char>);

/// `s` is a launcher script among the files.
pub open spec fn is_script(files: Set<Seq<char>>, s: Seq<char>) -> bool {
    files.contains(s) && is_suffix(".sh"@, file_name(s))
}

/// `x` is the name of a directory beside the script `s`.
pub open spec fn real_dir(dirs: Set<Seq<char>>, s: Seq<char>, x: Seq<char>) -> bool {
    exists|d: Seq<char>| #[trigger] dirs.contains(d) && parent(d) == parent(s) && file_name(d) == x
}

/// The launcher `s` names the directory `x` (according to `refs`, which maps
/// launcher scripts to the directory names their text refers to).
pub open spec fn in_refs(refs: Seq<(Text, TextSet)>, s: Seq<char>, x: Seq<char>) -> bool {
    exists|i: int| 0 <= i < refs.len() && refs[i].0@ == s && (#[trigger] refs[i]).1.has(x)
}

/// `x` is a directory beside `s` that the launcher `s` names.
pub open spec fn picked(dirs: Set<Seq<char>>, refs: Seq<(Text, TextSet)>, s: Seq<char>, x: Seq<char>) -> bool {
    in_refs(refs, s, x) && real_dir(dirs, s, x)
}

/// A TrimUI app: `launch.sh` beside `config.json` inside a folder.
pub open spec fn trimui_candidate(files: Set<Seq<char>>, k: CandidateKey) -> bool {
    let (kind, s, d, a) = k;
    &&& kind == ZipKind::TrimuiApp
    &&& is_script(files, s)
    &&& file_name(s) == "launch.sh"@
    &&& parent(s).len() > 0
    &&& files.contains(sibling(parent(s), "config.json"@))
    &&& d.len() == 0
    &&& a == file_name(parent(s))
}

/// A Port found from its launcher: the launcher names exactly one directory
/// beside it (ambiguous when it names more than one).
pub open spec fn script_candidate(
    files: Set<Seq<char>>,
    dirs: Set<Seq<char>>,
    refs: Seq<(Text, TextSet)>,
    k: CandidateKey,
) -> bool {
    let (kind, s, d, a) = k;
    &&& is_script(files, s)
    &&& file_name(s) != "launch.sh"@
    &&& a.len() == 0
    &&& {
        ||| kind == ZipKind::Ambiguous && d.len() == 0 && exists|x: Seq<char>, y: Seq<char>|
            x != y && #[trigger] picked(dirs, refs, s, x) && #[trigger] picked(dirs, refs, s, y)
        ||| kind == ZipKind::Port && exists|x: Seq<char>|
            #[trigger] picked(dirs, refs, s, x) && (forall|y: Seq<char>|
                #[trigger] picked(dirs, refs, s, y) ==> y == x) && d == sibling(parent(s), x)
    }
}

/// The items of a manifest, as texts.
pub open spec fn item_texts(items: Seq<String>) -> Seq<Seq<char>> {
    items.map_values(|s: String| s@)
}

/// A manifest item that may be declared: a safe path at most two levels deep.
pub open spec fn item_valid(n: Seq<char>) -> bool {
    path_verdict(n) is None && depth(n) <= 2
}

/// The launcher scripts that the items declare under `base`.
pub open spec fn declared_scripts(files: Set<Seq<char>>, base: Seq<char>, items: Seq<Seq<char>>) -> Seq<Seq<char>>
    decreases items.len(),
{
    if items.len() == 0 {
        Seq::empty()
    } else {
        let prev = declared_scripts(files, base, items.drop_last());
        let n = crate::entry_names::normalized_name(items.last());
        let full = sibling(base, n);
        if files.contains(full) && is_suffix(".sh"@, n) {
            prev.push(full)
        } else {
            prev
        }
    }
}

/// The data directories that the items declare under `base`.
pub open spec fn declared_data(
    files: Set<Seq<char>>,
    dirs: Set<Seq<char>>,
    base: Seq<char>,
    items: Seq<Seq<char>>,
) -> Seq<Seq<char>>
    decreases items.len(),
{
    if items.len() == 0 {
        Seq::empty()
    } else {
        let prev = declared_data(files, dirs, base, items.drop_last());
        let n = crate::entry_names::normalized_name(items.last());
        let full = sibling(base, n);
        if files.contains(full) && is_suffix(".sh"@, n) {
            prev
        } else if dirs.contains(full) {
            prev.push(full)
        } else {
            prev
        }
    }
}

/// The bases that a manifest's items are read against: its own folder, and
/// the archive root for a manifest nested in a folder.
pub open spec fn manifest_base(path: Seq<char>, base: Seq<char>) -> bool {
    base == parent(path) || (parent(path).len() > 0 && base.len() == 0)
}

/// A manifest at `path` with `items` declares the launcher `s` and the data
/// folder `d` under `base`, and the launcher itself names that folder.
pub open spec fn manifest_declares(
    files: Set<Seq<char>>,
    dirs: Set<Seq<char>>,
    refs: Seq<(Text, TextSet)>,
    path: Seq<char>,
    items: Seq<Seq<char>>,
    base: Seq<char>,
    s: Seq<char>,
    d: Seq<char>,
) -> bool {
    &&& 2 <= items.len() <= 32
    &&& forall|i: int| 0 <= i < items.len() ==> item_valid(crate::entry_names::normalized_name(#[trigger] items[i]))
    &&& declared_scripts(files, base, items) == seq![s]
    &&& declared_data(files, dirs, base, items) == seq![d]
    &&& (base.len() == 0 && parent(path).len() > 0) ==> d == parent(path)
    &&& in_refs(refs, s, file_name(d))
}

/// A Port confirmed by a package manifest.
pub open spec fn manifest_candidate(
    files: Set<Seq<char>>,
    dirs: Set<Seq<char>>,
    refs: Seq<(Text, TextSet)>,
    manifests: Seq<(String, Vec<String>)>,
    k: CandidateKey,
) -> bool {
    let (kind, s, d, a) = k;
    &&& kind == ZipKind::Port
    &&& a.len() == 0
    &&& exists|i: int, b: Seq<char>|
        0 <= i < manifests.len() && manifest_base(manifests[i].0@, b) && #[trigger] manifest_declares(
            files,
            dirs,
            refs,
            manifests[i].0@,
            item_texts(manifests[i].1@),
            b,
            s,
            d,
        )
}

pub open spec fn candidate(
    files: Set<Seq<char>>,
    dirs: Set<Seq<char>>,
    refs: Seq<(Text, TextSet)>,
    manifests: Seq<(String, Vec<String>)>,
    k: CandidateKey,
) -> bool {
    trimui_candidate(files, k) || script_candidate(files, dirs, refs, k) || manifest_candidate(
        files,
        dirs,
        refs,
        manifests,
        k,
    )
}

/// All distinct candidate payloads.
pub open spec fn candidates(
    files: Set<Seq<char>>,
    dirs: Set<Seq<char>>,
    refs: Seq<(Text, TextSet)>,
    manifests: Seq<(String, Vec<String>)>,
) -> Set<CandidateKey> {
    Set::new(|k: CandidateKey| candidate(files, dirs, refs, manifests, k))
}

/// What the recognition of an archive found.
#[derive(Debug)]
pub struct Recognized {
    pub kind: ZipKind,
    pub entry_script: String,
    pub entry_data: String,
    pub app_name: String,
    pub diagnostic: String,
}

/// A recognition result as values: kind, script, data folder, app name, diagnostic.
pub type RecognizedView = (ZipKind, Seq<char>, Seq<char>, Seq<char>, Seq<char>);

impl Recognized {
    pub open spec fn view_of(&self) -> RecognizedView {
        (self.kind, self.entry_script@, self.entry_data@, self.app_name@, self.diagnostic@)
    }
}

/// The diagnostic that goes with a candidate of `kind`.
pub open spec fn candidate_diagnostic(kind: ZipKind) -> Seq<char> {
    if kind == ZipKind::Ambiguous {
        "launcher references more than one packaged data directory"@
    } else {
        Seq::empty()
    }
}

/// A result with no payload and a diagnostic.
pub open spec fn rejection(kind: ZipKind, diagnostic: Seq<char>) -> RecognizedView {
    (kind, Seq::empty(), Seq::empty(), Seq::empty(), diagnostic)
}

/// The recognition result for a set of candidates: the single candidate, an
/// ambiguity that counts them, or no payload.
pub open spec fn verdict_for(c: Set<CandidateKey>) -> RecognizedView {
    if c.len() == 1 {
        let k = c.choose();
        (k.0, k.1, k.2, k.3, candidate_diagnostic(k.0))
    } else if c.len() > 1 {
        rejection(
            ZipKind::Ambiguous,
            "archive contains "@ + decimal_spec(c.len()) + " installable payloads"@,
        )
    } else {
        rejection(ZipKind::Unknown, "archive does not contain one supported APP or Port payload"@)
    }
}

/// One candidate while it is being collected.
struct Candidate {
    kind: ZipKind,
    script: Text,
    data: Text,
    app: Text,
}

impl Candidate {
    spec fn key(&self) -> CandidateKey {
        (self.kind, self.script@, self.data@, self.app@)
    }
}

spec fn keys(list: Seq<Candidate>) -> Seq<CandidateKey> {
    list.map_values(|c: Candidate| c.key())
}

fn same_candidate(a: &Candidate, b: &Candidate) -> (r: bool)
    ensures
        r == (a.key() == b.key()),
{
    a.kind == b.kind && crate::text::text_eq(a.script.as_slice(), b.script.as_slice())
        && crate::text::text_eq(a.data.as_slice(), b.data.as_slice()) && crate::text::text_eq(
        a.app.as_slice(),
        b.app.as_slice(),
    )
}

/// Adds `c` unless an equal candidate is already listed.
fn push_unique(list: &mut Vec<Candidate>, c: Candidate)
    requires
        keys(old(list)@).no_duplicates(),
    ensures
        keys(final(list)@).no_duplicates(),
        keys(final(list)@).to_set() == keys(old(list)@).to_set().insert(c.key()),
{
    let ghost before = keys(list@);
    let mut i: usize = 0;
    while i < list.len()
        invariant
            i <= list.len(),
            keys(list@) == before,
            before.no_duplicates(),
            forall|j: int| 0 <= j < i ==> list@[j].key() != c.key(),
        decreases list.len() - i,
    {
        if same_candidate(&list[i], &c) {
            proof {
                assert(before[i as int] == c.key());
                assert(before.to_set().insert(c.key()) =~= before.to_set());
            }
            return;
        }
        i += 1;
    }
    let ghost key = c.key();
    list.push(c);
    proof {
        assert(keys(list@) =~= before.push(key));
        assert(!before.contains(key)) by {
            if before.contains(key) {
                let j = choose|j: int| 0 <= j < before.len() && before[j] == key;
                assert(list@[j].key() == key);
            }
        }
        lemma_push_to_set(before, key);
    }
}

proof fn lemma_push_to_set<A>(s: Seq<A>, x: A)
    ensures
        s.push(x).to_set() == s.to_set().insert(x),
{
    broadcast use vstd::set::group_set_axioms;

    assert forall|y: A| #[trigger] s.push(x).to_set().contains(y) <==> s.to_set().insert(x).contains(y) by {
        if s.push(x).contains(y) {
            let j = choose|j: int| 0 <= j < s.push(x).len() && s.push(x)[j] == y;
            if j < s.len() {
                assert(s[j] == y);
            }
        }
        if s.contains(y) {
            let j = choose|j: int| 0 <= j < s.len() && s[j] == y;
            assert(s.push(x)[j] == y);
        }
        if y == x {
            assert(s.push(x)[s.len() as int] == x);
        }
    }
    assert(s.push(x).to_set() =~= s.to_set().insert(x));
}


/// `s` is one of the first `i` members of `t`.
spec fn seen(t: TextSet, i: int, s: Seq<char>) -> bool {
    exists|j: int| 0 <= j < i && #[trigger] t.items[j]@ == s
}

/// The directories beside the script `s` that its launcher names.
fn picked_dirs(dirs: &TextSet, refs: &Vec<(Text, TextSet)>, s: &[char]) -> (r: TextSet)
    ensures
        r.wf(),
        forall|x: Seq<char>| #[trigger] r.has(x) <==> picked(members(*dirs), refs@, s@, x),
{
    let p = name_parent(s);
    let mut beside = TextSet::new();
    let mut j: usize = 0;
    while j < dirs.items.len()
        invariant
            j <= dirs.items.len(),
            beside.wf(),
            p@ == parent(s@),
            forall|x: Seq<char>| #[trigger] beside.has(x) <==> exists|k: int|
                0 <= k < j && parent(#[trigger] dirs.items[k]@) == p@ && file_name(dirs.items[k]@) == x,
        decreases dirs.items.len() - j,
    {
        let dp = name_parent(dirs.items[j].as_slice());
        if crate::text::text_eq(dp.as_slice(), p.as_slice()) {
            let f = name_file(dirs.items[j].as_slice());
            let ghost fv = f@;
            beside.insert(f);
            assert forall|x: Seq<char>| #[trigger] beside.has(x) <==> exists|k: int|
                0 <= k < j + 1 && parent(#[trigger] dirs.items[k]@) == p@ && file_name(dirs.items[k]@) == x by {
                if x == fv {
                    assert(parent(dirs.items[j as int]@) == p@ && file_name(dirs.items[j as int]@) == x);
                }
            }
        } else {
            assert forall|x: Seq<char>| #[trigger] beside.has(x) <==> exists|k: int|
                0 <= k < j + 1 && parent(#[trigger] dirs.items[k]@) == p@ && file_name(dirs.items[k]@) == x by {
                if exists|k: int| 0 <= k < j + 1 && parent(#[trigger] dirs.items[k]@) == p@ && file_name(dirs.items[k]@) == x {
                    let k = choose|k: int| 0 <= k < j + 1 && parent(#[trigger] dirs.items[k]@) == p@ && file_name(dirs.items[k]@) == x;
                    assert(k < j);
                }
            }
        }
        j += 1;
    }
    assert forall|x: Seq<char>| #[trigger] beside.has(x) <==> real_dir(members(*dirs), s@, x) by {
        if beside.has(x) {
            let k = choose|k: int| 0 <= k < dirs.items.len() && parent(#[trigger] dirs.items[k]@) == p@ && file_name(dirs.items[k]@) == x;
            assert(members(*dirs).contains(dirs.items[k]@));
        }
        if real_dir(members(*dirs), s@, x) {
            let d = choose|d: Seq<char>| #[trigger] members(*dirs).contains(d) && parent(d) == parent(s@) && file_name(d) == x;
            assert(dirs.has(d));
            let k = choose|k: int| 0 <= k < dirs.items.len() && #[trigger] dirs.items[k]@ == d;
            assert(parent(dirs.items[k]@) == p@);
        }
    }
    let mut out = TextSet::new();
    let mut i: usize = 0;
    while i < refs.len()
        invariant
            i <= refs.len(),
            out.wf(),
            forall|x: Seq<char>| #[trigger] beside.has(x) <==> real_dir(members(*dirs), s@, x),
            forall|x: Seq<char>| #[trigger] out.has(x) <==> (beside.has(x) && exists|k: int|
                0 <= k < i && refs@[k].0@ == s@ && (#[trigger] refs@[k]).1.has(x)),
        decreases refs.len() - i,
    {
        if crate::text::text_eq(refs[i].0.as_slice(), s) {
            let set = &refs[i].1;
            let mut m: usize = 0;
            while m < set.items.len()
                invariant
                    i < refs.len(),
                    set == &refs@[i as int].1,
                    refs@[i as int].0@ == s@,
                    m <= set.items.len(),
                    out.wf(),
                    forall|x: Seq<char>| #[trigger] beside.has(x) <==> real_dir(members(*dirs), s@, x),
                    forall|x: Seq<char>| #[trigger] out.has(x) <==> (beside.has(x) && ((exists|k: int|
                        0 <= k < i && refs@[k].0@ == s@ && (#[trigger] refs@[k]).1.has(x)) || exists|q: int|
                        0 <= q < m && #[trigger] set.items[q]@ == x)),
                decreases set.items.len() - m,
            {
                if beside.contains(set.items[m].as_slice()) {
                    let ghost v = set.items[m as int]@;
                    out.insert(set.items[m].clone());
                    assert forall|x: Seq<char>| #[trigger] out.has(x) <==> (beside.has(x) && ((exists|k: int|
                        0 <= k < i && refs@[k].0@ == s@ && (#[trigger] refs@[k]).1.has(x)) || exists|q: int|
                        0 <= q < m + 1 && #[trigger] set.items[q]@ == x)) by {
                        if x == v {
                            assert(set.items[m as int]@ == x);
                        }
                        if exists|q: int| 0 <= q < m + 1 && #[trigger] set.items[q]@ == x {
                            let q = choose|q: int| 0 <= q < m + 1 && #[trigger] set.items[q]@ == x;
                            if q == m {
                                assert(x == v);
                            }
                        }
                    }
                } else {
                    assert forall|x: Seq<char>| #[trigger] out.has(x) <==> (beside.has(x) && ((exists|k: int|
                        0 <= k < i && refs@[k].0@ == s@ && (#[trigger] refs@[k]).1.has(x)) || exists|q: int|
                        0 <= q < m + 1 && #[trigger] set.items[q]@ == x)) by {
                        if beside.has(x) && exists|q: int| 0 <= q < m + 1 && #[trigger] set.items[q]@ == x {
                            let q = choose|q: int| 0 <= q < m + 1 && #[trigger] set.items[q]@ == x;
                            if q == m {
                                assert(beside.has(set.items[m as int]@));
                            }
                        }
                    }
                }
                m += 1;
            }
            assert forall|x: Seq<char>| #[trigger] out.has(x) <==> (beside.has(x) && exists|k: int|
                0 <= k < i + 1 && refs@[k].0@ == s@ && (#[trigger] refs@[k]).1.has(x)) by {
                if out.has(x) && !(exists|k: int| 0 <= k < i && refs@[k].0@ == s@ && (#[trigger] refs@[k]).1.has(x)) {
                    let q = choose|q: int| 0 <= q < set.items.len() && #[trigger] set.items[q]@ == x;
                    assert(refs@[i as int].1.has(x));
                }
                if beside.has(x) && exists|k: int| 0 <= k < i + 1 && refs@[k].0@ == s@ && (#[trigger] refs@[k]).1.has(x) {
                    let k = choose|k: int| 0 <= k < i + 1 && refs@[k].0@ == s@ && (#[trigger] refs@[k]).1.has(x);
                    if k == i {
                        let q = choose|q: int| 0 <= q < set.items.len() && #[trigger] set.items[q]@ == x;
                    }
                }
            }
        } else {
            assert forall|x: Seq<char>| #[trigger] out.has(x) <==> (beside.has(x) && exists|k: int|
                0 <= k < i + 1 && refs@[k].0@ == s@ && (#[trigger] refs@[k]).1.has(x)) by {
                if exists|k: int| 0 <= k < i + 1 && refs@[k].0@ == s@ && (#[trigger] refs@[k]).1.has(x) {
                    let k = choose|k: int| 0 <= k < i + 1 && refs@[k].0@ == s@ && (#[trigger] refs@[k]).1.has(x);
                    assert(k < i);
                }
            }
        }
        i += 1;
    }
    out
}


/// The members of a sorted text set are distinct.
proof fn lemma_members_distinct(t: TextSet, i: int, j: int)
    requires
        t.wf(),
        0 <= i < j < t.items.len(),
    ensures
        t.items[i]@ != t.items[j]@,
{
    if t.items[i]@ == t.items[j]@ {
        lemma_text_lt_irreflexive(t.items[i]@);
    }
}

/// Phase one: TrimUI apps and launcher-named Ports, one script at a time.
fn collect_script_candidates(
    files: &TextSet,
    dirs: &TextSet,
    refs: &Vec<(Text, TextSet)>,
    Ghost(manifests): Ghost<Seq<(String, Vec<String>)>>,
) -> (list: Vec<Candidate>)
    requires
        files.wf(),
    ensures
        keys(list@).no_duplicates(),
        forall|k: CandidateKey| #[trigger] keys(list@).contains(k) ==> candidate(members(*files), members(*dirs), refs@, manifests, k),
        forall|k: CandidateKey| (trimui_candidate(members(*files), k) || script_candidate(members(*files), members(*dirs), refs@, k)) ==> #[trigger] keys(list@).contains(k),
{
    let ghost fs = members(*files);
    let ghost ds = members(*dirs);
    let mut list: Vec<Candidate> = Vec::new();
    let mut i: usize = 0;
    while i < files.items.len()
        invariant
            i <= files.items.len(),
            files.wf(),
            fs == members(*files),
            ds == members(*dirs),
            keys(list@).no_duplicates(),
            forall|k: CandidateKey| #[trigger] keys(list@).contains(k) ==> candidate(fs, ds, refs@, manifests, k),
            forall|k: CandidateKey| (trimui_candidate(fs, k) || script_candidate(fs, ds, refs@, k)) && seen(*files, i as int, k.1) ==> #[trigger] keys(list@).contains(k),
        decreases files.items.len() - i,
    {
        let s = &files.items[i];
        let ghost sv = s@;
        assert(fs.contains(sv)) by {
            assert(files.has(sv));
        }
        let f = name_file(s.as_slice());
        let ghost before = keys(list@);
        // Which keys with this script are candidates, and what was added.
        let ghost mut added: Option<CandidateKey> = None;
        let ghost mut second: Option<CandidateKey> = None;
        if ends_with_lit(f.as_slice(), ".sh") {
            if eq_lit(f.as_slice(), "launch.sh") {
                let p = name_parent(s.as_slice());
                if p.len() > 0 {
                    let lit = chars_of("config.json");
                    let cfg = name_sibling(p.as_slice(), lit.as_slice());
                    if files.contains(cfg.as_slice()) {
                        let app = name_file(p.as_slice());
                        let c = Candidate { kind: ZipKind::TrimuiApp, script: s.clone(), data: Vec::new(), app };
                        proof {
                            added = Some(c.key());
                            assert(c.key().2 =~= Seq::<char>::empty());
                            assert(fs.contains(cfg@));
                            assert(trimui_candidate(fs, c.key()));
                        }
                        push_unique(&mut list, c);
                    }
                }
            } else {
                let picks = picked_dirs(dirs, refs, s.as_slice());
                if picks.items.len() > 1 {
                    let c = Candidate { kind: ZipKind::Ambiguous, script: s.clone(), data: Vec::new(), app: Vec::new() };
                    proof {
                        added = Some(c.key());
                        assert(c.key().2 =~= Seq::<char>::empty());
                        assert(c.key().3 =~= Seq::<char>::empty());
                        lemma_members_distinct(picks, 0, 1);
                        assert(picks.has(picks.items[0]@));
                        assert(picks.has(picks.items[1]@));
                        assert(picked(ds, refs@, sv, picks.items[0]@));
                        assert(picked(ds, refs@, sv, picks.items[1]@));
                        assert(script_candidate(fs, ds, refs@, c.key()));
                    }
                    push_unique(&mut list, c);
                } else if picks.items.len() == 1 {
                    let p = name_parent(s.as_slice());
                    let data = name_sibling(p.as_slice(), picks.items[0].as_slice());
                    let c = Candidate { kind: ZipKind::Port, script: s.clone(), data, app: Vec::new() };
                    proof {
                        added = Some(c.key());
                        assert(c.key().3 =~= Seq::<char>::empty());
                        let x = picks.items[0]@;
                        assert(picks.has(x));
                        assert(picked(ds, refs@, sv, x));
                        assert forall|y: Seq<char>| #[trigger] picked(ds, refs@, sv, y) implies y == x by {
                            assert(picks.has(y));
                        }
                        assert(script_candidate(fs, ds, refs@, c.key()));
                    }
                    push_unique(&mut list, c);
                } else {
                    proof {
                        assert forall|y: Seq<char>| !#[trigger] picked(ds, refs@, sv, y) by {
                            if picked(ds, refs@, sv, y) {
                                assert(picks.has(y));
                            }
                        }
                    }
                }
                proof {
                    assert forall|x: Seq<char>, y: Seq<char>| #[trigger] picked(ds, refs@, sv, x) && #[trigger] picked(ds, refs@, sv, y) && picks.items.len() <= 1 implies x == y by {
                        assert(picks.has(x));
                        assert(picks.has(y));
                    }
                }
            }
        }
        proof {
            if added is Some {
                assert(candidate(fs, ds, refs@, manifests, added->0));
                assert(keys(list@).to_set() == before.to_set().insert(added->0));
            } else {
                assert(keys(list@) == before);
            }
            assert forall|k: CandidateKey| #[trigger] keys(list@).contains(k) implies candidate(fs, ds, refs@, manifests, k) by {
                assert(keys(list@).to_set().contains(k));
                if !before.contains(k) {
                    assert(before.to_set().insert(added->0).contains(k));
                }
            }
            // Every key with this script that is a phase-one candidate is the one added.
            assert forall|k: CandidateKey| (trimui_candidate(fs, k) || script_candidate(fs, ds, refs@, k)) && k.1 == sv implies added == Some(k) by {
                if trimui_candidate(fs, k) {
                    assert(k.2 =~= Seq::<char>::empty());
                } else {
                    assert(k.3 =~= Seq::<char>::empty());
                    if k.0 == ZipKind::Ambiguous {
                        assert(k.2 =~= Seq::<char>::empty());
                    }
                }
            }
            assert forall|k: CandidateKey| (trimui_candidate(fs, k) || script_candidate(fs, ds, refs@, k)) && seen(*files, i + 1, k.1) implies #[trigger] keys(list@).contains(k) by {
                let j = choose|j: int| 0 <= j < i + 1 && #[trigger] files.items[j]@ == k.1;
                if j < i {
                    assert(seen(*files, i as int, k.1));
                    assert(before.contains(k));
                    assert(keys(list@).to_set().contains(k));
                } else {
                    assert(added == Some(k));
                    assert(keys(list@).to_set().contains(k));
                }
            }
        }
        i += 1;
    }
    proof {
        assert forall|k: CandidateKey| (trimui_candidate(fs, k) || script_candidate(fs, ds, refs@, k)) implies #[trigger] keys(list@).contains(k) by {
            assert(files.has(k.1));
            let j = choose|j: int| 0 <= j < files.items.len() && #[trigger] files.items[j]@ == k.1;
            assert(seen(*files, files.items.len() as int, k.1));
        }
    }
    list
}


spec fn text_views(v: Seq<Text>) -> Seq<Seq<char>> {
    v.map_values(|t: Text| t@)
}

/// Reads a manifest's items against `base`: whether every item is valid, and
/// the scripts and data directories they declare.
fn declarations(files: &TextSet, dirs: &TextSet, base: &[char], items: &Vec<String>) -> (r: (
    bool,
    Vec<Text>,
    Vec<Text>,
))
    ensures
        r.0 == forall|i: int|
            0 <= i < items.len() ==> item_valid(
                crate::entry_names::normalized_name(#[trigger] item_texts(items@)[i]),
            ),
        r.0 ==> text_views(r.1@) == declared_scripts(members(*files), base@, item_texts(items@)),
        r.0 ==> text_views(r.2@) == declared_data(members(*files), members(*dirs), base@, item_texts(items@)),
{
    let ghost all = item_texts(items@);
    let mut scripts: Vec<Text> = Vec::new();
    let mut data: Vec<Text> = Vec::new();
    let mut k: usize = 0;
    while k < items.len()
        invariant
            k <= items.len(),
            all == item_texts(items@),
            all.len() == items.len(),
            forall|i: int| 0 <= i < k ==> item_valid(crate::entry_names::normalized_name(#[trigger] all[i])),
            text_views(scripts@) == declared_scripts(members(*files), base@, all.subrange(0, k as int)),
            text_views(data@) == declared_data(members(*files), members(*dirs), base@, all.subrange(0, k as int)),
        decreases items.len() - k,
    {
        let item = chars_of(items[k].as_str());
        assert(item@ == all[k as int]);
        let n = normalize(item.as_slice());
        if verdict_of(n.as_slice()).is_some() || name_depth(n.as_slice()) > 2 {
            assert(!item_valid(crate::entry_names::normalized_name(all[k as int])));
            return (false, scripts, data);
        }
        let full = name_sibling(base, n.as_slice());
        let ghost prefix = all.subrange(0, k as int);
        assert(all.subrange(0, k + 1).drop_last() =~= prefix);
        assert(all.subrange(0, k + 1).last() == all[k as int]);
        if files.contains(full.as_slice()) && ends_with_lit(n.as_slice(), ".sh") {
            assert(members(*files).contains(full@));
            scripts.push(full);
            assert(text_views(scripts@) =~= text_views(scripts@.drop_last()).push(scripts@.last()@));
        } else if dirs.contains(full.as_slice()) {
            assert(!(members(*files).contains(full@) && crate::text::is_suffix(".sh"@, n@)));
            assert(members(*dirs).contains(full@));
            data.push(full);
            assert(text_views(data@) =~= text_views(data@.drop_last()).push(data@.last()@));
        } else {
            assert(!members(*dirs).contains(full@));
        }
        k += 1;
    }
    assert(all.subrange(0, k as int) =~= all);
    (true, scripts, data)
}

/// Does the launcher `s` name `x`?
fn names_directory(refs: &Vec<(Text, TextSet)>, s: &[char], x: &[char]) -> (r: bool)
    ensures
        r == in_refs(refs@, s@, x@),
{
    let mut i: usize = 0;
    while i < refs.len()
        invariant
            i <= refs.len(),
            forall|k: int| 0 <= k < i ==> !(refs@[k].0@ == s@ && (#[trigger] refs@[k]).1.has(x@)),
        decreases refs.len() - i,
    {
        if crate::text::text_eq(refs[i].0.as_slice(), s) && refs[i].1.contains(x) {
            return true;
        }
        i += 1;
    }
    false
}

spec fn manifest_candidate_before(
    files: Set<Seq<char>>,
    dirs: Set<Seq<char>>,
    refs: Seq<(Text, TextSet)>,
    manifests: Seq<(String, Vec<String>)>,
    n: int,
    k: CandidateKey,
) -> bool {
    let (kind, s, d, a) = k;
    &&& kind == ZipKind::Port
    &&& a.len() == 0
    &&& exists|i: int, b: Seq<char>|
        0 <= i < n && manifest_base(manifests[i].0@, b) && #[trigger] manifest_declares(
            files,
            dirs,
            refs,
            manifests[i].0@,
            item_texts(manifests[i].1@),
            b,
            s,
            d,
        )
}

/// Phase two: Ports confirmed by package manifests.
fn add_manifest_candidates(
    list: &mut Vec<Candidate>,
    files: &TextSet,
    dirs: &TextSet,
    refs: &Vec<(Text, TextSet)>,
    manifests: &Vec<(String, Vec<String>)>,
)
    requires
        keys(old(list)@).no_duplicates(),
        forall|k: CandidateKey| #[trigger] keys(old(list)@).contains(k) ==> candidate(members(*files), members(*dirs), refs@, manifests@, k),
    ensures
        keys(final(list)@).no_duplicates(),
        forall|k: CandidateKey| #[trigger] keys(final(list)@).contains(k) ==> candidate(members(*files), members(*dirs), refs@, manifests@, k),
        forall|k: CandidateKey| keys(old(list)@).contains(k) ==> #[trigger] keys(final(list)@).contains(k),
        forall|k: CandidateKey| manifest_candidate(members(*files), members(*dirs), refs@, manifests@, k) ==> #[trigger] keys(final(list)@).contains(k),
{
    let ghost fs = members(*files);
    let ghost ds = members(*dirs);
    let ghost start = keys(list@);
    let mut mi: usize = 0;
    while mi < manifests.len()
        invariant
            mi <= manifests.len(),
            fs == members(*files),
            ds == members(*dirs),
            keys(list@).no_duplicates(),
            forall|k: CandidateKey| #[trigger] keys(list@).contains(k) ==> candidate(fs, ds, refs@, manifests@, k),
            forall|k: CandidateKey| start.contains(k) ==> #[trigger] keys(list@).contains(k),
            forall|k: CandidateKey| manifest_candidate_before(fs, ds, refs@, manifests@, mi as int, k) ==> #[trigger] keys(list@).contains(k),
        decreases manifests.len() - mi,
    {
        let path = chars_of(manifests[mi].0.as_str());
        let items = &manifests[mi].1;
        let mp = name_parent(path.as_slice());
        let ghost before = keys(list@);
        let ghost mut added: Set<CandidateKey> = Set::empty();
        if items.len() >= 2 && items.len() <= 32 {
            let mut round: usize = 0;
            while round < 2
                invariant
                    mi < manifests.len(),
                    round <= 2,
                    path@ == manifests@[mi as int].0@,
                    items == &manifests@[mi as int].1,
                    mp@ == parent(path@),
                    2 <= items.len() <= 32,
                    fs == members(*files),
                    ds == members(*dirs),
                    keys(list@).no_duplicates(),
                    forall|k: CandidateKey| #[trigger] keys(list@).contains(k) ==> candidate(fs, ds, refs@, manifests@, k),
                    forall|k: CandidateKey| before.contains(k) ==> #[trigger] keys(list@).contains(k),
                    forall|b: Seq<char>, s: Seq<char>, d: Seq<char>|
                        (b == parent(path@) && round >= 1 || (round >= 2 && parent(path@).len() > 0 && b.len() == 0))
                            && #[trigger] manifest_declares(fs, ds, refs@, path@, item_texts(items@), b, s, d)
                            ==> keys(list@).contains((ZipKind::Port, s, d, Seq::<char>::empty())),
                decreases 2 - round,
            {
                let base: Vec<char> = if round == 0 { slice(mp.as_slice(), 0, mp.len()) } else { Vec::new() };
                assert(round == 0 ==> base@ =~= mp@);
                let ghost round_start = keys(list@);
                if round == 0 || mp.len() > 0 {
                    let (valid, declared_scripts_list, declared_data_list) = declarations(files, dirs, base.as_slice(), items);
                    let root_relative_nested = base.len() == 0 && mp.len() > 0;
                    if valid && declared_scripts_list.len() == 1 && declared_data_list.len() == 1 && (!root_relative_nested
                        || crate::text::text_eq(declared_data_list[0].as_slice(), mp.as_slice())) {
                        let script = &declared_scripts_list[0];
                        let directory = &declared_data_list[0];
                        let data_name = name_file(directory.as_slice());
                        if names_directory(refs, script.as_slice(), data_name.as_slice()) {
                            let c = Candidate { kind: ZipKind::Port, script: script.clone(), data: directory.clone(), app: Vec::new() };
                            proof {
                                assert(text_views(declared_scripts_list@) =~= seq![script@]);
                                assert(text_views(declared_data_list@) =~= seq![directory@]);
                                assert(c.key().3 =~= Seq::<char>::empty());
                                assert(manifest_base(manifests@[mi as int].0@, base@));
                                assert(c.script@ == script@);
                                assert(c.data@ == directory@);
                                assert(manifest_declares(fs, ds, refs@, manifests@[mi as int].0@, item_texts(manifests@[mi as int].1@), base@, c.key().1, c.key().2));
                                assert(manifest_candidate(fs, ds, refs@, manifests@, c.key()));
                            }
                            let ghost key = c.key();
                            let ghost mid = keys(list@);
                            push_unique(list, c);
                            proof {
                                assert forall|k: CandidateKey| #[trigger] keys(list@).contains(k) implies candidate(fs, ds, refs@, manifests@, k) by {
                                    assert(keys(list@).to_set().contains(k));
                                    if !mid.contains(k) {
                                        assert(mid.to_set().insert(key).contains(k));
                                    }
                                }
                                assert forall|k: CandidateKey| mid.contains(k) implies #[trigger] keys(list@).contains(k) by {
                                    assert(mid.to_set().contains(k));
                                    assert(keys(list@).to_set().contains(k));
                                }
                                assert(keys(list@).to_set().contains(key));
                            }
                        }
                    }
                    proof {
                        assert forall|s: Seq<char>, d: Seq<char>|
                            #[trigger] manifest_declares(fs, ds, refs@, path@, item_texts(items@), base@, s, d)
                            implies keys(list@).contains((ZipKind::Port, s, d, Seq::<char>::empty())) by {
                            assert(valid);
                            assert(text_views(declared_scripts_list@) == seq![s]);
                            assert(text_views(declared_data_list@) == seq![d]);
                            assert(text_views(declared_scripts_list@).len() == declared_scripts_list@.len());
                            assert(text_views(declared_data_list@).len() == declared_data_list@.len());
                            assert(declared_scripts_list.len() == 1);
                            assert(declared_data_list.len() == 1);
                            assert(text_views(declared_scripts_list@)[0] == declared_scripts_list@[0]@);
                            assert(text_views(declared_data_list@)[0] == declared_data_list@[0]@);
                            assert(seq![s][0] == s);
                            assert(seq![d][0] == d);
                            assert(declared_scripts_list@[0]@ == s);
                            assert(declared_data_list@[0]@ == d);
                            assert(in_refs(refs@, s, file_name(d)));
                            if root_relative_nested {
                                assert(d == parent(path@));
                            }
                        }
                    }
                }
                proof {
                    assert forall|k: CandidateKey| round_start.contains(k) implies #[trigger] keys(list@).contains(k) by {
                        if round_start.contains(k) {
                            assert(round_start.to_set().contains(k));
                        }
                    }
                    assert forall|b: Seq<char>, s: Seq<char>, d: Seq<char>|
                        (b == parent(path@) && round + 1 >= 1 || (round + 1 >= 2 && parent(path@).len() > 0 && b.len() == 0))
                            && #[trigger] manifest_declares(fs, ds, refs@, path@, item_texts(items@), b, s, d)
                            implies keys(list@).contains((ZipKind::Port, s, d, Seq::<char>::empty())) by {
                        if round != 0 && b.len() == 0 {
                            assert(b =~= base@);
                        }
                        if b == base@ && (round == 0 || mp.len() > 0) {
                        } else {
                            assert(round_start.contains((ZipKind::Port, s, d, Seq::<char>::empty())));
                        }
                    }
                }
                round += 1;
            }
        }
        proof {
            assert forall|k: CandidateKey| manifest_candidate_before(fs, ds, refs@, manifests@, mi + 1, k) implies #[trigger] keys(list@).contains(k) by {
                let (i, b) = choose|i: int, b: Seq<char>|
                    0 <= i < mi + 1 && manifest_base(manifests@[i].0@, b) && #[trigger] manifest_declares(
                        fs, ds, refs@, manifests@[i].0@, item_texts(manifests@[i].1@), b, k.1, k.2);
                if i < mi {
                    assert(manifest_candidate_before(fs, ds, refs@, manifests@, mi as int, k));
                    assert(before.contains(k));
                } else {
                    assert(k == (ZipKind::Port, k.1, k.2, Seq::<char>::empty()));
                }
            }
        }
        mi += 1;
    }
    proof {
        assert forall|k: CandidateKey| manifest_candidate(fs, ds, refs@, manifests@, k) implies #[trigger] keys(list@).contains(k) by {
            assert(manifest_candidate_before(fs, ds, refs@, manifests@, manifests.len() as int, k));
        }
    }
}


fn diagnostic_for(kind: ZipKind) -> (r: String)
    ensures
        r@ == candidate_diagnostic(kind),
{
    if kind == ZipKind::Ambiguous {
        "launcher references more than one packaged data directory".to_owned()
    } else {
        String::new()
    }
}

/// Classifies an archive from its files and directories (within three
/// levels), the directory names each launcher refers to, and the items of
/// its package manifests.
pub fn classify_layout(
    files: &TextSet,
    dirs: &TextSet,
    refs: &Vec<(Text, TextSet)>,
    manifests: &Vec<(String, Vec<String>)>,
) -> (r: Recognized)
    requires
        files.wf(),
    ensures
        candidates(members(*files), members(*dirs), refs@, manifests@).finite(),
        r.view_of() == verdict_for(candidates(members(*files), members(*dirs), refs@, manifests@)),
{
    let ghost fs = members(*files);
    let ghost ds = members(*dirs);
    let mut list = collect_script_candidates(files, dirs, refs, Ghost(manifests@));
    add_manifest_candidates(&mut list, files, dirs, refs, manifests);
    let ghost c = candidates(fs, ds, refs@, manifests@);
    proof {
        assert forall|k: CandidateKey| #[trigger] keys(list@).to_set().contains(k) <==> c.contains(k) by {
            if c.contains(k) {
                assert(candidate(fs, ds, refs@, manifests@, k));
            }
        }
        assert(keys(list@).to_set() =~= c);
        keys(list@).unique_seq_to_set();
        vstd::seq_lib::seq_to_set_is_finite(keys(list@));
        assert(keys(list@).len() == list.len());
    }
    if list.len() == 1 {
        let first = &list[0];
        proof {
            let k0 = keys(list@)[0];
            assert(k0 == first.key());
            assert(c.contains(k0));
            assert(c.contains(c.choose()));
            assert(keys(list@).contains(c.choose()));
            assert(c.choose() == k0);
        }
        Recognized {
            kind: first.kind,
            entry_script: string_of(first.script.as_slice()),
            entry_data: string_of(first.data.as_slice()),
            app_name: string_of(first.app.as_slice()),
            diagnostic: diagnostic_for(first.kind),
        }
    } else if list.len() > 1 {
        let mut message = chars_of("archive contains ");
        let count = decimal(list.len() as u64);
        push_all(&mut message, count.as_slice());
        push_lit(&mut message, " installable payloads");
        Recognized {
            kind: ZipKind::Ambiguous,
            entry_script: String::new(),
            entry_data: String::new(),
            app_name: String::new(),
            diagnostic: string_of(message.as_slice()),
        }
    } else {
        Recognized {
            kind: ZipKind::Unknown,
            entry_script: String::new(),
            entry_data: String::new(),
            app_name: String::new(),
            diagnostic: "archive does not contain one supported APP or Port payload".to_owned(),
        }
    }
}


/// `x` is the last component of `x` inside any folder.
proof fn lemma_file_name_of_sibling(p: Seq<char>, x: Seq<char>)
    requires
        !x.contains('/'),
    ensures
        file_name(sibling(p, x)) == x,
{
    let t = sibling(p, x);
    if p.len() == 0 {
        crate::text::lemma_after_last(t, '/', -1);
        assert(t.subrange(0, t.len() as int) =~= t);
    } else {
        assert forall|j: int| p.len() < j < t.len() implies t[j] != '/' by {
            assert(t[j] == x[j - p.len() - 1]);
        }
        crate::text::lemma_after_last(t, '/', p.len() as int);
        assert(t.subrange(p.len() as int + 1, t.len() as int) =~= x);
    }
}

/// Every Port's data folder is a folder that its launcher itself names: a
/// package manifest may confirm an association but never create one.
pub proof fn lemma_port_data_named_by_launcher(
    files: Set<Seq<char>>,
    dirs: Set<Seq<char>>,
    refs: Seq<(Text, TextSet)>,
    manifests: Seq<(String, Vec<String>)>,
    k: CandidateKey,
)
    requires
        candidate(files, dirs, refs, manifests, k),
        k.0 == ZipKind::Port,
    ensures
        in_refs(refs, k.1, file_name(k.2)),
{
    if script_candidate(files, dirs, refs, k) {
        let x = choose|x: Seq<char>|
            #[trigger] picked(dirs, refs, k.1, x) && (forall|y: Seq<char>|
                #[trigger] picked(dirs, refs, k.1, y) ==> y == x) && k.2 == sibling(parent(k.1), x);
        let d = choose|d: Seq<char>| #[trigger] dirs.contains(d) && parent(d) == parent(k.1) && file_name(d) == x;
        crate::text::lemma_after_last_free(d, '/');
        lemma_file_name_of_sibling(parent(k.1), x);
    }
}

/// Scripts declared by manifest items are files of the archive.
proof fn lemma_declared_scripts_are_files(files: Set<Seq<char>>, base: Seq<char>, items: Seq<Seq<char>>, s: Seq<char>)
    requires
        declared_scripts(files, base, items).contains(s),
    ensures
        files.contains(s),
    decreases items.len(),
{
    let prev = declared_scripts(files, base, items.drop_last());
    if prev.contains(s) {
        lemma_declared_scripts_are_files(files, base, items.drop_last(), s);
    } else {
        let i = choose|i: int| 0 <= i < declared_scripts(files, base, items).len() && declared_scripts(files, base, items)[i] == s;
        if i < prev.len() {
            assert(prev[i] == s);
        }
    }
}

/// The launcher of every candidate is one of the archive's files.
pub proof fn lemma_candidate_script_is_file(
    files: Set<Seq<char>>,
    dirs: Set<Seq<char>>,
    refs: Seq<(Text, TextSet)>,
    manifests: Seq<(String, Vec<String>)>,
    k: CandidateKey,
)
    requires
        candidate(files, dirs, refs, manifests, k),
    ensures
        files.contains(k.1),
{
    if manifest_candidate(files, dirs, refs, manifests, k) && !trimui_candidate(files, k) && !script_candidate(files, dirs, refs, k) {
        let (i, b) = choose|i: int, b: Seq<char>|
            0 <= i < manifests.len() && manifest_base(manifests[i].0@, b) && #[trigger] manifest_declares(
                files, dirs, refs, manifests[i].0@, item_texts(manifests[i].1@), b, k.1, k.2);
        let items = item_texts(manifests[i].1@);
        assert(declared_scripts(files, b, items)[0] == k.1);
        lemma_declared_scripts_are_files(files, b, items, k.1);
    }
}

} // verus!
