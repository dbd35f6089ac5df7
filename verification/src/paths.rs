//! Lexical path operations on character sequences, with the component rules
//! of `std::path` on Unix: `/` separates components, empty and `.` components
//! vanish except a leading `.` of a relative path, and `..` is kept.
use vstd::prelude::*;

use crate::text::{concat, eq_lit, push_all, Text};

verus! {

/// One component of a split path: never empty, never holds `/`.
pub open spec fn component_ok(c: Seq<char>) -> bool {
    c.len() > 0 && !c.contains('/')
}

pub open spec fn is_dot(c: Seq<char>) -> bool {
    c == seq!['.']
}

pub open spec fn is_dot_dot(c: Seq<char>) -> bool {
    c == seq!['.', '.']
}

/// A split path: whether it is absolute, and its components.
pub struct Split {
    pub absolute: bool,
    pub parts: Vec<Text>,
}

impl Split {
    pub open spec fn wf(&self) -> bool {
        forall|i: int|
            0 <= i < self.parts.len() ==> component_ok(#[trigger] self.parts[i]@) && (!is_dot(
                self.parts[i]@,
            ) || (i == 0 && !self.absolute))
    }
}

/// The texts of a sequence of texts.
pub open spec fn views(v: Seq<Text>) -> Seq<Seq<char>> {
    v.map_values(|t: Text| t@)
}

/// The pieces of `p` between its `/` separators: one more than there are
/// separators, possibly empty.
pub open spec fn pieces(p: Seq<char>) -> Seq<Seq<char>>
    decreases p.len(),
{
    if p.len() == 0 {
        seq![Seq::empty()]
    } else {
        let prev = pieces(p.drop_last());
        if p.last() == '/' {
            prev.push(Seq::empty())
        } else {
            prev.update(prev.len() - 1, prev.last().push(p.last()))
        }
    }
}

/// A piece survives as a component when it is not empty, and it is not `.`
/// unless it is the first piece.
pub open spec fn kept_piece(piece: Seq<char>, k: int) -> bool {
    piece.len() > 0 && (piece != seq!['.'] || k == 0)
}

/// The components among the first `n` pieces.
pub open spec fn components_upto(ps: Seq<Seq<char>>, n: nat) -> Seq<Seq<char>>
    decreases n,
{
    if n == 0 {
        Seq::empty()
    } else {
        let prev = components_upto(ps, (n - 1) as nat);
        if kept_piece(ps[n - 1], n - 1) {
            prev.push(ps[n - 1])
        } else {
            prev
        }
    }
}

/// `Path::components` of `p`, without the root: the pieces that survive.
pub open spec fn components(p: Seq<char>) -> Seq<Seq<char>> {
    components_upto(pieces(p), pieces(p).len())
}

pub open spec fn is_absolute(p: Seq<char>) -> bool {
    p.len() > 0 && p[0] == '/'
}

/// Components joined by `/`.
pub open spec fn join_parts(parts: Seq<Seq<char>>) -> Seq<char>
    decreases parts.len(),
{
    if parts.len() == 0 {
        Seq::empty()
    } else if parts.len() == 1 {
        parts[0]
    } else {
        join_parts(parts.drop_last()) + seq!['/'] + parts.last()
    }
}

/// The path made of a root (when absolute) and components.
pub open spec fn rebuilt(absolute: bool, parts: Seq<Seq<char>>) -> Seq<char> {
    (if absolute { seq!['/'] } else { Seq::empty() }) + join_parts(parts)
}

/// The normal form of a path.
pub open spec fn normal_form(p: Seq<char>) -> Seq<char> {
    rebuilt(is_absolute(p), components(p))
}

/// `Path::parent`, in normal form.
pub open spec fn parent_of(p: Seq<char>) -> Option<Seq<char>> {
    if components(p).len() == 0 {
        None
    } else {
        Some(rebuilt(is_absolute(p), components(p).drop_last()))
    }
}

/// `Path::file_name`: the last component unless it is `.` or `..`.
pub open spec fn file_name_of(p: Seq<char>) -> Option<Seq<char>> {
    let c = components(p);
    if c.len() == 0 || is_dot(c.last()) || is_dot_dot(c.last()) {
        None
    } else {
        Some(c.last())
    }
}

/// `Path::strip_prefix`, as components.
pub open spec fn stripped(p: Seq<char>, root: Seq<char>) -> Option<Seq<Seq<char>>> {
    let a = components(p);
    let b = components(root);
    if is_absolute(p) == is_absolute(root) && b.len() <= a.len() && a.subrange(0, b.len() as int) == b {
        Some(a.subrange(b.len() as int, a.len() as int))
    } else {
        None
    }
}

/// `PathBuf::push` of `rel` onto `base`.
pub open spec fn joined(base: Seq<char>, rel: Seq<char>) -> Seq<char> {
    if is_absolute(rel) || base.len() == 0 {
        rel
    } else if base.last() == '/' {
        base + rel
    } else {
        base + seq!['/'] + rel
    }
}

pub proof fn lemma_pieces_nonempty(p: Seq<char>)
    ensures
        pieces(p).len() >= 1,
    decreases p.len(),
{
    if p.len() > 0 {
        lemma_pieces_nonempty(p.drop_last());
    }
}

/// The components among the first `n` pieces depend only on those pieces.
pub proof fn lemma_components_prefix(a: Seq<Seq<char>>, b: Seq<Seq<char>>, n: nat)
    requires
        n <= a.len(),
        n <= b.len(),
        forall|j: int| 0 <= j < n ==> a[j] == b[j],
    ensures
        components_upto(a, n) == components_upto(b, n),
    decreases n,
{
    if n > 0 {
        lemma_components_prefix(a, b, (n - 1) as nat);
    }
}

/// Splits a path into its components.
pub fn split_path(p: &[char]) -> (r: Split)
    ensures
        r.wf(),
        r.absolute == is_absolute(p@),
        views(r.parts@) == components(p@),
{
    let absolute = p.len() > 0 && p[0] == '/';
    let mut parts: Vec<Text> = Vec::new();
    let mut cur: Text = Vec::new();
    let mut i: usize = 0;
    assert(p@.subrange(0, 0) =~= Seq::<char>::empty());
    loop
        invariant_except_break
            i <= p.len(),
            !cur@.contains('/'),
            pieces(p@.subrange(0, i as int)).len() >= 1,
            cur@ == pieces(p@.subrange(0, i as int)).last(),
            pieces(p@.subrange(0, i as int)).len() == 1 <==> cur.len() == i,
            pieces(p@.subrange(0, i as int)).len() == 1 ==> cur@ == p@.subrange(0, i as int),
            views(parts@) == components_upto(pieces(p@.subrange(0, i as int)), (pieces(p@.subrange(0, i as int)).len() - 1) as nat),
        invariant
            absolute == is_absolute(p@),
            forall|k: int|
                0 <= k < parts.len() ==> component_ok(#[trigger] parts[k]@) && (!is_dot(parts[k]@)
                    || (k == 0 && !absolute)),
        ensures
            views(parts@) == components(p@),
        decreases p.len() + 1 - i,
    {
        let ghost ps = pieces(p@.subrange(0, i as int));
        let ghost n = (ps.len() - 1) as nat;
        if i == p.len() || p[i] == '/' {
            if cur.len() > 0 {
                let dot = cur.len() == 1 && cur[0] == '.';
                assert(dot == is_dot(cur@)) by {
                    if is_dot(cur@) {
                        assert(cur@[0] == '.');
                    }
                    if dot {
                        assert(cur@ =~= seq!['.']);
                    }
                }
                let keep = !dot || (!absolute && parts.len() == 0 && i == cur.len());
                proof {
                    if dot && i == cur.len() {
                        assert(cur@ == p@.subrange(0, i as int));
                        assert(p@[0] == cur@[0]);
                        assert(components_upto(ps, 0) == Seq::<Seq<char>>::empty());
                    }
                    assert(keep == kept_piece(ps[n as int], n as int));
                }
                if keep {
                    let ghost old_parts = parts@;
                    let ghost c = cur@;
                    parts.push(cur);
                    assert(views(parts@) =~= views(old_parts).push(c));
                    assert forall|k: int| 0 <= k < parts.len() implies component_ok(
                        #[trigger] parts[k]@,
                    ) && (!is_dot(parts[k]@) || (k == 0 && !absolute)) by {
                        if k < old_parts.len() {
                            assert(parts[k] == old_parts[k]);
                        } else {
                            assert(parts[k]@ == c);
                            if is_dot(c) {
                                assert(old_parts.len() == 0);
                                assert(p@[0] == '.');
                            }
                        }
                    }
                }
            } else {
                assert(!kept_piece(ps[n as int], n as int));
            }
            assert(views(parts@) == components_upto(ps, ps.len()));
            if i == p.len() {
                assert(p@.subrange(0, i as int) =~= p@);
                break;
            }
            proof {
                let q = p@.subrange(0, i + 1);
                assert(q.drop_last() =~= p@.subrange(0, i as int));
                assert(pieces(q) == ps.push(Seq::<char>::empty()));
                lemma_components_prefix(ps.push(Seq::<char>::empty()), ps, ps.len());
            }
            cur = Vec::new();
        } else {
            let c = p[i];
            proof {
                let q = p@.subrange(0, i + 1);
                assert(q.drop_last() =~= p@.subrange(0, i as int));
                assert(q.last() == c);
                let ps2 = ps.update(ps.len() - 1, ps.last().push(c));
                assert(pieces(q) == ps2);
                lemma_components_prefix(ps2, ps, n);
                if ps.len() == 1 {
                    assert(cur@.push(c) =~= q);
                }
            }
            cur.push(c);
        }
        i += 1;
    }
    Split { absolute, parts }
}

/// Rebuilds a path from its components.
pub fn join_split(s: &Split) -> (r: Text)
    ensures
        r@ == rebuilt(s.absolute, views(s.parts@)),
        s.absolute ==> r.len() > 0 && r@[0] == '/',
{
    let mut out: Text = Vec::new();
    if s.absolute {
        out.push('/');
    }
    let ghost lead = if s.absolute { seq!['/'] } else { Seq::<char>::empty() };
    assert(out@ =~= lead);
    let mut i: usize = 0;
    while i < s.parts.len()
        invariant
            i <= s.parts.len(),
            lead == (if s.absolute { seq!['/'] } else { Seq::<char>::empty() }),
            out@ == lead + join_parts(views(s.parts@).subrange(0, i as int)),
        decreases s.parts.len() - i,
    {
        let ghost before = out@;
        if i > 0 {
            out.push('/');
        }
        push_all(&mut out, s.parts[i].as_slice());
        proof {
            let w = views(s.parts@);
            assert(w.subrange(0, i + 1).drop_last() =~= w.subrange(0, i as int));
            assert(w.subrange(0, i + 1).last() == s.parts[i as int]@);
            if i == 0 {
                assert(join_parts(w.subrange(0, 1)) == w.subrange(0, 1)[0]);
                assert(out@ =~= lead + join_parts(w.subrange(0, i + 1)));
            } else {
                assert(out@ =~= lead + join_parts(w.subrange(0, i + 1)));
            }
        }
        i += 1;
    }
    assert(views(s.parts@).subrange(0, s.parts.len() as int) =~= views(s.parts@));
    out
}

/// The normal form of a path: its components joined again.
pub fn normalize(p: &[char]) -> (r: Text)
    ensures
        r@ == normal_form(p@),
        (p.len() > 0 && p@[0] == '/') ==> r.len() > 0 && r@[0] == '/',
{
    let s = split_path(p);
    join_split(&s)
}

/// Does some component equal `..`?
pub fn has_parent_dir(p: &[char]) -> (r: bool)
    ensures
        r == exists|k: int| 0 <= k < components(p@).len() && is_dot_dot(#[trigger] components(p@)[k]),
{
    let s = split_path(p);
    let mut i: usize = 0;
    while i < s.parts.len()
        invariant
            i <= s.parts.len(),
            views(s.parts@) == components(p@),
            forall|k: int| 0 <= k < i ==> !is_dot_dot(#[trigger] components(p@)[k]),
        decreases s.parts.len() - i,
    {
        let ghost c = s.parts[i as int]@;
        assert(views(s.parts@)[i as int] == c);
        if s.parts[i].len() == 2 && s.parts[i][0] == '.' && s.parts[i][1] == '.' {
            assert(c =~= seq!['.', '.']);
            return true;
        }
        assert(!is_dot_dot(c)) by {
            if is_dot_dot(c) {
                assert(c[0] == '.' && c[1] == '.');
            }
        }
        i += 1;
    }
    false
}

/// `PathBuf::push`: an absolute `rel` replaces `base`; otherwise a separator is
/// inserted unless `base` is empty or already ends with one.
pub fn join(base: &[char], rel: &[char]) -> (r: Text)
    ensures
        r@ == joined(base@, rel@),
        (rel.len() > 0 && rel@[0] == '/') ==> r@ == rel@,
        (base.len() > 0 && base@[0] == '/') ==> r.len() > 0 && r@[0] == '/',
{
    if rel.len() > 0 && rel[0] == '/' {
        let out = concat(&[], rel);
        assert(out@ =~= rel@);
        return out;
    }
    if base.len() == 0 {
        let out = concat(&[], rel);
        assert(out@ =~= rel@);
        return out;
    }
    let mut out = concat(base, &[]);
    assert(out@ =~= base@);
    if base[base.len() - 1] != '/' {
        out.push('/');
    }
    push_all(&mut out, rel);
    out
}

/// `Path::parent` of the normal form: `None` for a root or an empty path.
pub fn parent(p: &[char]) -> (r: Option<Text>)
    ensures
        r matches Some(q) ==> parent_of(p@) == Some(q@),
        r is None ==> parent_of(p@) is None,
        r matches Some(q) ==> ((p.len() > 0 && p@[0] == '/') ==> q.len() > 0 && q@[0] == '/'),
{
    let s = split_path(p);
    if s.parts.len() == 0 {
        return None;
    }
    let mut parts = s.parts;
    parts.pop();
    assert(views(parts@) =~= components(p@).drop_last());
    let rest = Split { absolute: s.absolute, parts };
    Some(join_split(&rest))
}

/// `Path::file_name`: the last component unless it is `.` or `..`.
pub fn file_name(p: &[char]) -> (r: Option<Text>)
    ensures
        r matches Some(n) ==> file_name_of(p@) == Some(n@),
        r is None ==> file_name_of(p@) is None,
        r matches Some(n) ==> n.len() > 0 && !n@.contains('/'),
{
    let s = split_path(p);
    if s.parts.len() == 0 {
        return None;
    }
    let last = s.parts.len() - 1;
    let c = &s.parts[last];
    assert(views(s.parts@).last() == c@);
    let dot_dot = c.len() == 2 && c[0] == '.' && c[1] == '.';
    let dot = c.len() == 1 && c[0] == '.';
    assert(dot_dot == is_dot_dot(c@)) by {
        if is_dot_dot(c@) {
            assert(c@[0] == '.' && c@[1] == '.');
        }
        if dot_dot {
            assert(c@ =~= seq!['.', '.']);
        }
    }
    assert(dot == is_dot(c@)) by {
        if is_dot(c@) {
            assert(c@[0] == '.');
        }
        if dot {
            assert(c@ =~= seq!['.']);
        }
    }
    if dot_dot || dot {
        return None;
    }
    let out = concat(c.as_slice(), &[]);
    assert(out@ =~= c@);
    Some(out)
}

/// `Path::strip_prefix`: the components of `p` after those of `root`, when
/// `root`'s components are a leading part of `p`'s.
pub fn strip_prefix(p: &[char], root: &[char]) -> (r: Option<Vec<Text>>)
    ensures
        r matches Some(rest) ==> stripped(p@, root@) == Some(views(rest@)),
        r is None ==> stripped(p@, root@) is None,
        r matches Some(rest) ==> forall|i: int| 0 <= i < rest.len() ==> component_ok(#[trigger] rest[i]@),
{
    let a = split_path(p);
    let b = split_path(root);
    let ghost ca = components(p@);
    let ghost cb = components(root@);
    assert(ca.len() == a.parts.len());
    assert(cb.len() == b.parts.len());
    if a.absolute != b.absolute || b.parts.len() > a.parts.len() {
        return None;
    }
    let mut i: usize = 0;
    while i < b.parts.len()
        invariant
            b.parts.len() <= a.parts.len(),
            i <= b.parts.len(),
            views(a.parts@) == ca,
            views(b.parts@) == cb,
            ca == components(p@),
            cb == components(root@),
            forall|j: int| 0 <= j < i ==> ca[j] == cb[j],
        decreases b.parts.len() - i,
    {
        assert(ca[i as int] == a.parts[i as int]@);
        assert(cb[i as int] == b.parts[i as int]@);
        if !crate::text::text_eq(a.parts[i].as_slice(), b.parts[i].as_slice()) {
            assert(ca.subrange(0, cb.len() as int)[i as int] != cb[i as int]);
            return None;
        }
        i += 1;
    }
    assert(ca.subrange(0, cb.len() as int) =~= cb);
    let mut rest: Vec<Text> = Vec::new();
    let mut k = b.parts.len();
    while k < a.parts.len()
        invariant
            a.wf(),
            b.parts.len() <= k <= a.parts.len(),
            views(a.parts@) == ca,
            views(rest@) == ca.subrange(b.parts.len() as int, k as int),
            forall|j: int| 0 <= j < rest.len() ==> component_ok(#[trigger] rest[j]@),
        decreases a.parts.len() - k,
    {
        let piece = concat(a.parts[k].as_slice(), &[]);
        assert(piece@ =~= a.parts[k as int]@);
        assert(ca[k as int] == a.parts[k as int]@);
        let ghost old_rest = views(rest@);
        rest.push(piece);
        assert(views(rest@) =~= old_rest.push(piece@));
        assert(views(rest@) =~= ca.subrange(b.parts.len() as int, k + 1));
        k += 1;
    }
    Some(rest)
}

/// `Path::starts_with`: component-wise prefix.
pub fn path_starts_with(p: &[char], root: &[char]) -> (r: bool)
    ensures
        r == stripped(p@, root@) is Some,
{
    strip_prefix(p, root).is_some()
}

/// `Path::extension` of a file name: the text after its last `.`, unless
/// the name is `..`, has no `.`, or has its only `.` in front.
pub open spec fn extension_of(name: Seq<char>) -> Option<Seq<char>> {
    if name == seq!['.', '.'] || !name.contains('.') {
        None
    } else {
        let k = crate::text::index_first(name.reverse(), '.');
        let dot = name.len() - 1 - k;
        if dot == 0 {
            None
        } else {
            Some(name.subrange(dot + 1, name.len() as int))
        }
    }
}


/// `Path::extension`: the extension of the path's file name.
pub fn extension(p: &[char]) -> (r: Option<Text>)
    ensures
        match file_name_of(p@) {
            None => r is None,
            Some(name) => match extension_of(name) {
                None => r is None,
                Some(e) => r matches Some(x) && x@ == e,
            },
        },
{
    let name = match file_name(p) {
        Some(n) => n,
        None => return None,
    };
    if name.len() == 2 && name[0] == '.' && name[1] == '.' {
        assert(name@ =~= seq!['.', '.']);
        return None;
    }
    proof {
        if name@ == seq!['.', '.'] {
            assert(name@[0] == '.' && name@[1] == '.');
        }
    }
    let mut k = name.len();
    while k > 0 && name[k - 1] != '.'
        invariant
            k <= name.len(),
            forall|x: int| k <= x < name.len() ==> name@[x] != '.',
        decreases k,
    {
        k -= 1;
    }
    proof {
        let rev = name@.reverse();
        if k == 0 {
            assert(!name@.contains('.')) by {
                if name@.contains('.') {
                    let x = choose|x: int| 0 <= x < name@.len() && name@[x] == '.';
                }
            }
        } else {
            assert(name@[k - 1] == '.');
            assert(name@.contains('.'));
            let j = (name.len() - k) as int;
            assert(rev[j] == '.');
            assert forall|x: int| 0 <= x < j implies rev[x] != '.' by {
                assert(rev[x] == name@[name.len() - 1 - x]);
            }
            crate::text::lemma_index_first(rev, '.', j);
        }
    }
    if k <= 1 {
        return None;
    }
    let mut out: Vec<char> = Vec::new();
    let mut i = k;
    while i < name.len()
        invariant
            k <= i <= name.len(),
            out@ == name@.subrange(k as int, i as int),
        decreases name.len() - i,
    {
        out.push(name[i]);
        i += 1;
    }
    Some(out)
}

} // verus!
