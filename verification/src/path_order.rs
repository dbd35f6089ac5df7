//! The order of `std::path::Path`: its components compared in turn, a root
//! before `.`, `.` before `..`, `..` before a name, and names in text order.
use vstd::prelude::*;

use crate::paths::{components, is_absolute, split_path, views};
use crate::storage::same_path;
use crate::text::{
    before, lemma_text_before_irreflexive, lemma_text_before_total, lemma_text_before_trans, text_before,
    text_eq, Text,
};

verus! {

/// A component as the order sees it: its kind (1 root, 2 `.`, 3 `..`,
/// 4 name) and, for a name, its text.
pub type Part = (int, Seq<char>);

pub open spec fn part_of(c: Seq<char>) -> Part {
    if c == seq!['.'] {
        (2, Seq::empty())
    } else if c == seq!['.', '.'] {
        (3, Seq::empty())
    } else {
        (4, c)
    }
}

/// The components of a path, root included, as the order sees them.
pub open spec fn path_parts(p: Seq<char>) -> Seq<Part> {
    (if is_absolute(p) {
        seq![(1int, Seq::<char>::empty())]
    } else {
        Seq::<Part>::empty()
    }) + components(p).map_values(|c: Seq<char>| part_of(c))
}

pub open spec fn part_before(x: Part, y: Part) -> bool {
    x.0 < y.0 || (x.0 == y.0 && text_before(x.1, y.1))
}

pub open spec fn parts_before(a: Seq<Part>, b: Seq<Part>) -> bool
    decreases a.len(),
{
    if a.len() == 0 {
        b.len() > 0
    } else if b.len() == 0 {
        false
    } else if a[0] != b[0] {
        part_before(a[0], b[0])
    } else {
        parts_before(a.drop_first(), b.drop_first())
    }
}

/// `a < b` as paths.
pub open spec fn path_before(a: Seq<char>, b: Seq<char>) -> bool {
    parts_before(path_parts(a), path_parts(b))
}

proof fn lemma_part_of_injective(a: Seq<char>, b: Seq<char>)
    requires
        part_of(a) == part_of(b),
    ensures
        a == b,
{
}

/// Paths with the same parts are the same path.
pub proof fn lemma_same_parts(a: Seq<char>, b: Seq<char>)
    requires
        path_parts(a) == path_parts(b),
    ensures
        same_path(a, b),
{
    let ca = components(a);
    let cb = components(b);
    let pa = path_parts(a);
    let pb = path_parts(b);
    assert(pa.len() == (if is_absolute(a) { 1int } else { 0int }) + ca.len());
    assert(pb.len() == (if is_absolute(b) { 1int } else { 0int }) + cb.len());
    if is_absolute(a) != is_absolute(b) {
        if is_absolute(a) {
            assert(pa[0].0 == 1);
            assert(pb.len() > 0);
            assert(pb[0] == part_of(cb[0]));
        } else {
            assert(pb[0].0 == 1);
            assert(pa[0] == part_of(ca[0]));
        }
    } else {
        let off: int = if is_absolute(a) { 1 } else { 0 };
        assert(ca.len() == cb.len());
        assert forall|i: int| 0 <= i < ca.len() implies ca[i] == cb[i] by {
            assert(pa[i + off] == part_of(ca[i]));
            assert(pb[i + off] == part_of(cb[i]));
            lemma_part_of_injective(ca[i], cb[i]);
        }
        assert(ca =~= cb);
    }
}

pub proof fn lemma_parts_irreflexive(a: Seq<Part>)
    ensures
        !parts_before(a, a),
    decreases a.len(),
{
    if a.len() > 0 {
        lemma_parts_irreflexive(a.drop_first());
    }
}

proof fn lemma_part_trans(x: Part, y: Part, z: Part)
    requires
        part_before(x, y),
        part_before(y, z),
    ensures
        part_before(x, z),
{
    if x.0 == y.0 && y.0 == z.0 {
        lemma_text_before_trans(x.1, y.1, z.1);
    }
}

proof fn lemma_part_asym(x: Part, y: Part)
    requires
        part_before(x, y),
    ensures
        !part_before(y, x),
{
    if x.0 == y.0 && text_before(y.1, x.1) {
        lemma_text_before_trans(x.1, y.1, x.1);
        lemma_text_before_irreflexive(x.1);
    }
}

proof fn lemma_part_total(x: Part, y: Part)
    ensures
        x == y || part_before(x, y) || part_before(y, x),
{
    if x.0 == y.0 {
        lemma_text_before_total(x.1, y.1);
    }
}

pub proof fn lemma_parts_trans(a: Seq<Part>, b: Seq<Part>, c: Seq<Part>)
    requires
        parts_before(a, b),
        parts_before(b, c),
    ensures
        parts_before(a, c),
    decreases a.len(),
{
    if a.len() > 0 && b.len() > 0 && c.len() > 0 {
        if a[0] == b[0] && b[0] == c[0] {
            lemma_parts_trans(a.drop_first(), b.drop_first(), c.drop_first());
        } else if a[0] == b[0] {
            assert(part_before(b[0], c[0]));
        } else if b[0] == c[0] {
            assert(part_before(a[0], b[0]));
        } else {
            lemma_part_trans(a[0], b[0], c[0]);
            if a[0] == c[0] {
                lemma_part_asym(a[0], b[0]);
            }
        }
    }
}

pub proof fn lemma_parts_total(a: Seq<Part>, b: Seq<Part>)
    ensures
        a == b || parts_before(a, b) || parts_before(b, a),
    decreases a.len(),
{
    if a.len() > 0 && b.len() > 0 {
        if a[0] == b[0] {
            lemma_parts_total(a.drop_first(), b.drop_first());
            if a.drop_first() == b.drop_first() {
                assert(a =~= seq![a[0]] + a.drop_first());
                assert(b =~= seq![b[0]] + b.drop_first());
            }
        } else {
            lemma_part_total(a[0], b[0]);
        }
    } else if a.len() == 0 && b.len() == 0 {
        assert(a =~= b);
    }
}

/// The order is a strict total order on paths, up to `Path` equality.
pub proof fn lemma_path_order(a: Seq<char>, b: Seq<char>, c: Seq<char>)
    ensures
        !path_before(a, a),
        path_before(a, b) && path_before(b, c) ==> path_before(a, c),
        same_path(a, b) || path_before(a, b) || path_before(b, a),
        path_before(a, b) ==> !same_path(a, b),
{
    lemma_parts_irreflexive(path_parts(a));
    if path_before(a, b) && path_before(b, c) {
        lemma_parts_trans(path_parts(a), path_parts(b), path_parts(c));
    }
    lemma_parts_total(path_parts(a), path_parts(b));
    if path_parts(a) == path_parts(b) {
        lemma_same_parts(a, b);
    }
    if same_path(a, b) {
        assert(path_parts(a) =~= path_parts(b));
    }
}

fn kind_of(c: &[char]) -> (r: u8)
    ensures
        r as int == part_of(c@).0,
{
    if c.len() == 1 && c[0] == '.' {
        assert(c@ =~= seq!['.']);
        2
    } else if c.len() == 2 && c[0] == '.' && c[1] == '.' {
        assert(c@ =~= seq!['.', '.']);
        3
    } else {
        assert(c@ != seq!['.']) by {
            if c@ == seq!['.'] {
                assert(c@[0] == '.');
            }
        }
        assert(c@ != seq!['.', '.']) by {
            if c@ == seq!['.', '.'] {
                assert(c@[0] == '.' && c@[1] == '.');
            }
        }
        4
    }
}

/// The parts of a path's components, without the root.
pub open spec fn component_parts(p: Seq<char>) -> Seq<Part> {
    components(p).map_values(|c: Seq<char>| part_of(c))
}

proof fn lemma_common_first(x: Part, a: Seq<Part>, b: Seq<Part>)
    ensures
        parts_before(seq![x] + a, seq![x] + b) == parts_before(a, b),
{
    assert((seq![x] + a).drop_first() =~= a);
    assert((seq![x] + b).drop_first() =~= b);
}

/// Compares two paths as `Path` does.
pub fn path_lt(a: &[char], b: &[char]) -> (r: bool)
    ensures
        r == path_before(a@, b@),
{
    let x = split_path(a);
    let y = split_path(b);
    let ghost ma = component_parts(a@);
    let ghost mb = component_parts(b@);
    let ghost root = seq![(1int, Seq::<char>::empty())];
    assert(views(x.parts@) == components(a@));
    assert(views(y.parts@) == components(b@));
    assert(ma.len() == x.parts.len());
    assert(mb.len() == y.parts.len());
    if x.absolute != y.absolute {
        proof {
            if x.absolute {
                assert(path_parts(a@) =~= root + ma);
                assert(path_parts(b@) =~= mb);
                if mb.len() > 0 {
                    assert(mb[0] == part_of(components(b@)[0]));
                }
            } else {
                assert(path_parts(a@) =~= ma);
                assert(path_parts(b@) =~= root + mb);
                if ma.len() > 0 {
                    assert(ma[0] == part_of(components(a@)[0]));
                }
            }
        }
        return if x.absolute {
            y.parts.len() > 0
        } else {
            x.parts.len() == 0
        };
    }
    proof {
        if x.absolute {
            assert(path_parts(a@) =~= root + ma);
            assert(path_parts(b@) =~= root + mb);
            lemma_common_first((1int, Seq::<char>::empty()), ma, mb);
        } else {
            assert(path_parts(a@) =~= ma);
            assert(path_parts(b@) =~= mb);
        }
    }
    let n = x.parts.len();
    let m = y.parts.len();
    let mut i: usize = 0;
    assert(ma.subrange(0, n as int) =~= ma);
    assert(mb.subrange(0, m as int) =~= mb);
    loop
        invariant
            i <= n,
            i <= m,
            n == ma.len(),
            m == mb.len(),
            n == x.parts.len(),
            m == y.parts.len(),
            views(x.parts@) == components(a@),
            views(y.parts@) == components(b@),
            ma == component_parts(a@),
            mb == component_parts(b@),
            path_before(a@, b@) == parts_before(ma.subrange(i as int, n as int), mb.subrange(i as int, m as int)),
        decreases n - i,
    {
        if i == n {
            return i < m;
        }
        if i == m {
            return false;
        }
        let tx = x.parts[i].as_slice();
        let ty = y.parts[i].as_slice();
        let kx = kind_of(tx);
        let ky = kind_of(ty);
        proof {
            assert(components(a@)[i as int] == tx@);
            assert(components(b@)[i as int] == ty@);
            assert(ma[i as int] == part_of(tx@));
            assert(mb[i as int] == part_of(ty@));
            assert(ma.subrange(i as int, n as int)[0] == ma[i as int]);
            assert(mb.subrange(i as int, m as int)[0] == mb[i as int]);
            assert(ma.subrange(i as int, n as int).drop_first() =~= ma.subrange(i + 1, n as int));
            assert(mb.subrange(i as int, m as int).drop_first() =~= mb.subrange(i + 1, m as int));
        }
        let same = kx == ky && (kx != 4 || text_eq(tx, ty));
        assert(same == (part_of(tx@) == part_of(ty@)));
        if !same {
            if kx != ky {
                return kx < ky;
            }
            return before(tx, ty);
        }
        i += 1;
    }
}

} // verus!
