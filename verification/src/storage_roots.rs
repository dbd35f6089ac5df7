//! From candidate mounts to the list of storage roots: which mounts count as
//! user storage, one volume per mount point, and the roots in path order.
use vstd::prelude::*;

use crate::path_order::{lemma_path_order, path_before, path_lt};
use crate::storage::{path_eq, rooted, rooted_mount_point, same_path, user_media, user_media_namespace};
use crate::text::{chars_of, trim, trimmed};

verus! {

/// A mounted block device that may be user storage, with what the system
/// tells about it: whether the kernel reports its disk as removable, and
/// the symlinks under `/mnt` that resolve to its mount point.
#[derive(Clone, Debug)]
pub struct MountCandidate {
    pub device: String,
    pub mount_point: String,
    pub removable: bool,
    pub aliases: Vec<String>,
}

/// A sysfs `removable` attribute reads `1` when the disk is removable.
pub fn removable_flag(contents: &str) -> (r: bool)
    ensures
        r == (trimmed(contents@) == seq!['1']),
{
    let t = trim(chars_of(contents).as_slice());
    let r = t.len() == 1 && t[0] == '1';
    proof {
        if t@ == seq!['1'] {
            assert(t@[0] == '1');
        }
        if r {
            assert(t@ =~= seq!['1']);
        }
    }
    r
}

/// A mount is user storage when the kernel reports it removable or it lies
/// in a standard user-media namespace.
pub open spec fn accepted(c: MountCandidate) -> bool {
    c.removable || user_media(c.mount_point@)
}

/// Candidate `i` is user storage at a mount point no earlier user storage
/// candidate has.
pub open spec fn first_mount(cs: Seq<MountCandidate>, i: int) -> bool {
    accepted(cs[i]) && forall|j: int| 0 <= j < i && accepted(#[trigger] cs[j]) ==> !same_path(cs[j].mount_point@, cs[i].mount_point@)
}

pub open spec fn alias_texts(c: MountCandidate) -> Seq<Seq<char>> {
    c.aliases@.map_values(|s: String| s@)
}

/// The roots of the first `n` candidates: for each volume, its mount point
/// inside the probed namespace, then its aliases.
pub open spec fn volume_roots(cs: Seq<MountCandidate>, probe: Option<Seq<char>>, n: int) -> Seq<Seq<char>>
    decreases n,
{
    if n <= 0 {
        Seq::empty()
    } else {
        volume_roots(cs, probe, n - 1) + if first_mount(cs, n - 1) {
            seq![rooted(probe, cs[n - 1].mount_point@)] + alias_texts(cs[n - 1])
        } else {
            Seq::<Seq<char>>::empty()
        }
    }
}

/// The first of each group of equal paths, in order.
pub open spec fn distinct_paths(s: Seq<Seq<char>>) -> Seq<Seq<char>>
    decreases s.len(),
{
    if s.len() == 0 {
        Seq::empty()
    } else if exists|j: int| 0 <= j < s.len() - 1 && same_path(#[trigger] s[j], s.last()) {
        distinct_paths(s.drop_last())
    } else {
        distinct_paths(s.drop_last()).push(s.last())
    }
}

/// Strictly increasing in path order.
pub open spec fn ascending(s: Seq<Seq<char>>) -> bool {
    forall|i: int, j: int| 0 <= i < j < s.len() ==> path_before(#[trigger] s[i], #[trigger] s[j])
}

pub open spec fn texts(v: Seq<String>) -> Seq<Seq<char>> {
    v.map_values(|s: String| s@)
}

/// The storage roots: the roots of every user storage volume, each path
/// once, in path order.
pub fn storage_roots(candidates: &Vec<MountCandidate>, probe_root: Option<&str>) -> (r: Vec<String>)
    ensures
        ascending(texts(r@)),
        texts(r@).to_multiset() == distinct_paths(
            volume_roots(candidates@, crate::launcher::opt_view(probe_root), candidates.len() as int),
        ).to_multiset(),
{
    let collected = collect_roots(candidates, probe_root);
    let unique = first_of_each(&collected);
    proof {
        lemma_distinct_paths_distinct(texts(collected@));
    }
    sort_paths(unique)
}

/// Whether an earlier user storage mount point equals `mp`.
fn seen_before(seen: &Vec<String>, mp: &[char]) -> (r: bool)
    ensures
        r == exists|x: int| 0 <= x < seen.len() && same_path(#[trigger] seen@[x]@, mp@),
{
    let mut k: usize = 0;
    while k < seen.len()
        invariant
            k <= seen.len(),
            forall|x: int| 0 <= x < k ==> !same_path(#[trigger] seen@[x]@, mp@),
        decreases seen.len() - k,
    {
        if path_eq(chars_of(seen[k].as_str()).as_slice(), mp) {
            return true;
        }
        k += 1;
    }
    false
}

/// Appends a volume's root and its aliases.
fn push_volume(out: &mut Vec<String>, root: String, aliases: &Vec<String>)
    ensures
        texts(final(out)@) == texts(old(out)@) + seq![root@] + texts(aliases@),
{
    let ghost start = texts(out@);
    let ghost root_text = root@;
    out.push(root);
    let mut a: usize = 0;
    while a < aliases.len()
        invariant
            a <= aliases.len(),
            texts(out@) == start + seq![root_text] + texts(aliases@).subrange(0, a as int),
        decreases aliases.len() - a,
    {
        let ghost prior = out@;
        out.push(aliases[a].clone());
        assert(texts(out@) =~= texts(prior).push(aliases@[a as int]@));
        assert(texts(aliases@).subrange(0, a + 1) =~= texts(aliases@).subrange(0, a as int).push(aliases@[a as int]@));
        a += 1;
    }
    assert(texts(aliases@).subrange(0, aliases.len() as int) =~= texts(aliases@));
}

/// The mount points of the user storage candidates among the first `n`.
pub open spec fn seen_points(cs: Seq<MountCandidate>, n: int) -> Seq<Seq<char>>
    decreases n,
{
    if n <= 0 {
        Seq::empty()
    } else if accepted(cs[n - 1]) {
        seen_points(cs, n - 1).push(cs[n - 1].mount_point@)
    } else {
        seen_points(cs, n - 1)
    }
}

proof fn lemma_seen_points(cs: Seq<MountCandidate>, n: int, m: Seq<char>)
    requires
        0 <= n <= cs.len(),
    ensures
        (exists|x: int| 0 <= x < seen_points(cs, n).len() && same_path(#[trigger] seen_points(cs, n)[x], m))
            == (exists|j: int| 0 <= j < n && accepted(#[trigger] cs[j]) && same_path(cs[j].mount_point@, m)),
    decreases n,
{
    if n > 0 {
        lemma_seen_points(cs, n - 1, m);
        let prev = seen_points(cs, n - 1);
        let cur = seen_points(cs, n);
        if exists|j: int| 0 <= j < n && accepted(#[trigger] cs[j]) && same_path(cs[j].mount_point@, m) {
            let j = choose|j: int| 0 <= j < n && accepted(#[trigger] cs[j]) && same_path(cs[j].mount_point@, m);
            if j < n - 1 {
                let x = choose|x: int| 0 <= x < prev.len() && same_path(#[trigger] prev[x], m);
                assert(cur[x] == prev[x]);
            } else {
                assert(cur[prev.len() as int] == cs[n - 1].mount_point@);
            }
        }
        if exists|x: int| 0 <= x < cur.len() && same_path(#[trigger] cur[x], m) {
            let x = choose|x: int| 0 <= x < cur.len() && same_path(#[trigger] cur[x], m);
            if x < prev.len() {
                assert(cur[x] == prev[x]);
            } else {
                assert(accepted(cs[n - 1]));
            }
        }
    }
}

fn collect_roots(candidates: &Vec<MountCandidate>, probe_root: Option<&str>) -> (r: Vec<String>)
    ensures
        texts(r@) == volume_roots(candidates@, crate::launcher::opt_view(probe_root), candidates.len() as int),
{
    let ghost cs = candidates@;
    let ghost probe = crate::launcher::opt_view(probe_root);
    let mut out: Vec<String> = Vec::new();
    let mut seen: Vec<String> = Vec::new();
    let mut n: usize = 0;
    while n < candidates.len()
        invariant
            n <= candidates.len(),
            cs == candidates@,
            probe == crate::launcher::opt_view(probe_root),
            texts(out@) == volume_roots(cs, probe, n as int),
            texts(seen@) == seen_points(cs, n as int),
        decreases candidates.len() - n,
    {
        let c = &candidates[n];
        let accept = c.removable || user_media_namespace(c.mount_point.as_str());
        assert(accept == accepted(cs[n as int]));
        if accept {
            let mp = chars_of(c.mount_point.as_str());
            let dup = seen_before(&seen, mp.as_slice());
            proof {
                lemma_seen_points(cs, n as int, mp@);
                assert(dup == exists|x: int| 0 <= x < texts(seen@).len() && same_path(#[trigger] texts(seen@)[x], mp@)) by {
                    if dup {
                        let x = choose|x: int| 0 <= x < seen.len() && same_path(#[trigger] seen@[x]@, mp@);
                        assert(texts(seen@)[x] == seen@[x]@);
                    }
                    if exists|x: int| 0 <= x < texts(seen@).len() && same_path(#[trigger] texts(seen@)[x], mp@) {
                        let x = choose|x: int| 0 <= x < texts(seen@).len() && same_path(#[trigger] texts(seen@)[x], mp@);
                        assert(texts(seen@)[x] == seen@[x]@);
                    }
                }
                assert(dup == !first_mount(cs, n as int));
            }
            if !dup {
                push_volume(&mut out, rooted_mount_point(probe_root, c.mount_point.as_str()), &c.aliases);
            }
            let ghost before_seen = seen@;
            seen.push(c.mount_point.clone());
            assert(texts(seen@) =~= texts(before_seen).push(c.mount_point@));
        } else {
            assert(!first_mount(cs, n as int));
        }
        proof {
            if !first_mount(cs, n as int) {
                assert(volume_roots(cs, probe, n + 1) =~= volume_roots(cs, probe, n as int));
            } else {
                assert(texts(out@) =~= volume_roots(cs, probe, n + 1));
            }
        }
        n += 1;
    }
    out
}

pub(crate) fn first_of_each(paths: &Vec<String>) -> (r: Vec<String>)
    ensures
        texts(r@) == distinct_paths(texts(paths@)),
{
    let ghost ps = texts(paths@);
    let mut out: Vec<String> = Vec::new();
    let mut i: usize = 0;
    while i < paths.len()
        invariant
            i <= paths.len(),
            ps == texts(paths@),
            texts(out@) == distinct_paths(ps.subrange(0, i as int)),
        decreases paths.len() - i,
    {
        let p = chars_of(paths[i].as_str());
        let mut dup = false;
        let mut j: usize = 0;
        while j < i
            invariant
                j <= i,
                i < paths.len(),
                ps == texts(paths@),
                p@ == ps[i as int],
                dup == exists|x: int| 0 <= x < j && same_path(#[trigger] ps[x], p@),
            decreases i - j,
        {
            assert(ps[j as int] == paths@[j as int]@);
            if path_eq(chars_of(paths[j].as_str()).as_slice(), p.as_slice()) {
                dup = true;
            }
            j += 1;
        }
        proof {
            let s = ps.subrange(0, i + 1);
            assert(s.drop_last() =~= ps.subrange(0, i as int));
            assert(s.last() == ps[i as int]);
            assert(dup == exists|x: int| 0 <= x < s.len() - 1 && same_path(#[trigger] s[x], s.last())) by {
                if dup {
                    let x = choose|x: int| 0 <= x < i && same_path(#[trigger] ps[x], p@);
                    assert(s[x] == ps[x]);
                }
                if exists|x: int| 0 <= x < s.len() - 1 && same_path(#[trigger] s[x], s.last()) {
                    let x = choose|x: int| 0 <= x < s.len() - 1 && same_path(#[trigger] s[x], s.last());
                    assert(s[x] == ps[x]);
                }
            }
        }
        if !dup {
            let ghost before = out@;
            out.push(paths[i].clone());
            assert(texts(out@) =~= texts(before).push(ps[i as int]));
        }
        i += 1;
    }
    assert(ps.subrange(0, paths.len() as int) =~= ps);
    out
}

/// No two of the paths are equal.
pub open spec fn pairwise_distinct(s: Seq<Seq<char>>) -> bool {
    forall|i: int, j: int| 0 <= i < j < s.len() ==> !same_path(s[i], s[j])
}

pub(crate) proof fn lemma_distinct_paths_distinct(s: Seq<Seq<char>>)
    ensures
        pairwise_distinct(distinct_paths(s)),
        forall|i: int| 0 <= i < distinct_paths(s).len() ==> s.contains(#[trigger] distinct_paths(s)[i]),
    decreases s.len(),
{
    if s.len() > 0 {
        let init = s.drop_last();
        lemma_distinct_paths_distinct(init);
        let d = distinct_paths(init);
        assert forall|i: int| 0 <= i < d.len() implies s.contains(#[trigger] d[i]) by {
            assert(init.contains(d[i]));
            let k = choose|k: int| 0 <= k < init.len() && init[k] == d[i];
            assert(s[k] == init[k]);
        }
        if !(exists|j: int| 0 <= j < s.len() - 1 && same_path(#[trigger] s[j], s.last())) {
            let e = d.push(s.last());
            assert(e[d.len() as int] == s.last());
            assert forall|i: int| 0 <= i < d.len() implies !same_path(d[i], s.last()) by {
                assert(init.contains(d[i]));
                let k = choose|k: int| 0 <= k < init.len() && init[k] == d[i];
                assert(s[k] == init[k]);
                if same_path(d[i], s.last()) {
                    assert(same_path(s[k], s.last()));
                }
            }
            assert forall|i: int| 0 <= i < e.len() implies s.contains(#[trigger] e[i]) by {
                if i < d.len() {
                    assert(e[i] == d[i]);
                } else {
                    assert(s[s.len() - 1] == s.last());
                }
            }
        }
    }
}

/// Sorts pairwise distinct paths into path order.
pub(crate) fn sort_paths(paths: Vec<String>) -> (r: Vec<String>)
    requires
        pairwise_distinct(texts(paths@)),
    ensures
        ascending(texts(r@)),
        texts(r@).to_multiset() == texts(paths@).to_multiset(),
{
    broadcast use vstd::seq_lib::group_to_multiset_ensures;

    let ghost ps = texts(paths@);
    let mut out: Vec<String> = Vec::new();
    let mut i: usize = 0;
    while i < paths.len()
        invariant
            i <= paths.len(),
            ps == texts(paths@),
            pairwise_distinct(ps),
            ascending(texts(out@)),
            texts(out@).to_multiset() == ps.subrange(0, i as int).to_multiset(),
        decreases paths.len() - i,
    {
        let p = chars_of(paths[i].as_str());
        let ghost o = texts(out@);
        let mut k: usize = 0;
        while k < out.len() && path_lt(chars_of(out[k].as_str()).as_slice(), p.as_slice())
            invariant
                k <= out.len(),
                i < paths.len(),
                ps == texts(paths@),
                o == texts(out@),
                p@ == ps[i as int],
                forall|x: int| 0 <= x < k ==> path_before(#[trigger] o[x], p@),
            decreases out.len() - k,
        {
            k += 1;
        }
        proof {
            assert forall|x: int| 0 <= x < o.len() implies !same_path(#[trigger] o[x], p@) by {
                assert(o.contains(o[x]));
                o.to_multiset_ensures();
                ps.subrange(0, i as int).to_multiset_ensures();
                assert(o.to_multiset().count(o[x]) > 0);
                assert(ps.subrange(0, i as int).to_multiset().count(o[x]) > 0);
                assert(ps.subrange(0, i as int).contains(o[x]));
                let y = choose|y: int| 0 <= y < i && ps.subrange(0, i as int)[y] == o[x];
                assert(ps[y] == o[x]);
            }
            if k < o.len() {
                assert(!path_before(o[k as int], p@));
                lemma_path_order(o[k as int], p@, p@);
                assert(path_before(p@, o[k as int]));
            }
        }
        let ghost before = out@;
        out.insert(k, paths[i].clone());
        proof {
            let n = texts(out@);
            assert(n =~= o.insert(k as int, p@));
            assert forall|a: int, b: int| 0 <= a < b < n.len() implies path_before(#[trigger] n[a], #[trigger] n[b]) by {
                if b < k {
                    assert(n[a] == o[a] && n[b] == o[b]);
                } else if b == k {
                    assert(n[a] == o[a]);
                } else if a == k {
                    assert(n[b] == o[b - 1]);
                    if b - 1 > k {
                        assert(path_before(o[k as int], o[b - 1]));
                        lemma_path_order(p@, o[k as int], o[b - 1]);
                    }
                } else if a < k {
                    assert(n[a] == o[a] && n[b] == o[b - 1]);
                    if b - 1 >= k {
                        assert(path_before(o[a], p@));
                        if b - 1 == k {
                            lemma_path_order(o[a], p@, o[k as int]);
                        } else {
                            assert(path_before(o[a], o[b - 1]));
                        }
                    }
                } else {
                    assert(n[a] == o[a - 1] && n[b] == o[b - 1]);
                }
            }
            vstd::seq_lib::to_multiset_insert(o, k as int, p@);
            assert(ps.subrange(0, i + 1) =~= ps.subrange(0, i as int).push(ps[i as int]));
            vstd::seq_lib::to_multiset_build(ps.subrange(0, i as int), ps[i as int]);
        }
        i += 1;
    }
    assert(ps.subrange(0, paths.len() as int) =~= ps);
    out
}

} // verus!
