//! The revision of an inventory: a SHA-256 digest over sorted facts about
//! its items, so that any replaced or changed item gives another revision.
use vstd::prelude::*;

use vstd::utf8::encode_utf8;

use crate::digests::{lower_hex, lower_hex_text, sha256, sha256_of};
use crate::text::{
    before, chars_of, decimal, decimal_spec, lemma_text_before_irreflexive, lemma_text_before_total,
    lemma_text_before_trans, push_all, push_lit, string_of, text_before, Text,
};

verus! {

pub open spec fn texts(v: Seq<String>) -> Seq<Seq<char>> {
    v.map_values(|s: String| s@)
}

/// In text order, equal texts side by side.
pub open spec fn text_sorted(s: Seq<Seq<char>>) -> bool {
    forall|i: int, j: int| 0 <= i < j < s.len() ==> !text_before(#[trigger] s[j], #[trigger] s[i])
}

/// The facts, one per line.
pub open spec fn fact_lines(s: Seq<Seq<char>>) -> Seq<char>
    decreases s.len(),
{
    if s.len() == 0 {
        Seq::empty()
    } else {
        fact_lines(s.drop_last()) + s.last() + seq!['\n']
    }
}

/// The revision of sorted facts: the lower-case hexadecimal SHA-256 digest
/// of their lines.
pub open spec fn revision_of(sorted: Seq<Seq<char>>) -> Seq<char> {
    lower_hex_text(sha256_of(encode_utf8(fact_lines(sorted))))
}

/// The revision of an inventory described by `facts`, in any order.
pub fn inventory_revision(facts: Vec<String>) -> (r: String)
    ensures
        exists|t: Seq<Seq<char>>| #[trigger] text_sorted(t) && t.to_multiset() == texts(facts@).to_multiset() && r@ == revision_of(t),
{
    let sorted = sort_texts(&facts);
    let mut lines: Vec<char> = Vec::new();
    let mut i: usize = 0;
    while i < sorted.len()
        invariant
            i <= sorted.len(),
            lines@ == fact_lines(texts(sorted@).subrange(0, i as int)),
        decreases sorted.len() - i,
    {
        push_all(&mut lines, chars_of(sorted[i].as_str()).as_slice());
        lines.push('\n');
        assert(texts(sorted@).subrange(0, i + 1).drop_last() =~= texts(sorted@).subrange(0, i as int));
        i += 1;
    }
    assert(texts(sorted@).subrange(0, sorted.len() as int) =~= texts(sorted@));
    let text = string_of(lines.as_slice());
    let digest = sha256(text.as_str().as_bytes());
    let r = lower_hex(digest.as_slice());
    assert(text_sorted(texts(sorted@)));
    r
}

/// Sorts texts into text order.
fn sort_texts(items: &Vec<String>) -> (r: Vec<String>)
    ensures
        text_sorted(texts(r@)),
        texts(r@).to_multiset() == texts(items@).to_multiset(),
{
    broadcast use vstd::seq_lib::group_to_multiset_ensures;

    let ghost ps = texts(items@);
    let mut out: Vec<String> = Vec::new();
    let mut i: usize = 0;
    while i < items.len()
        invariant
            i <= items.len(),
            ps == texts(items@),
            text_sorted(texts(out@)),
            texts(out@).to_multiset() == ps.subrange(0, i as int).to_multiset(),
        decreases items.len() - i,
    {
        let p = chars_of(items[i].as_str());
        let ghost o = texts(out@);
        let mut k: usize = 0;
        while k < out.len() && !before(p.as_slice(), chars_of(out[k].as_str()).as_slice())
            invariant
                k <= out.len(),
                i < items.len(),
                ps == texts(items@),
                o == texts(out@),
                p@ == ps[i as int],
                forall|x: int| 0 <= x < k ==> !text_before(p@, #[trigger] o[x]),
            decreases out.len() - k,
        {
            k += 1;
        }
        proof {
            if k < o.len() {
                assert(text_before(p@, o[k as int]));
            }
        }
        out.insert(k, items[i].clone());
        proof {
            let n = texts(out@);
            assert(n =~= o.insert(k as int, p@));
            assert forall|a: int, b: int| 0 <= a < b < n.len() implies !text_before(#[trigger] n[b], #[trigger] n[a]) by {
                if b < k {
                    assert(n[a] == o[a] && n[b] == o[b]);
                } else if b == k {
                    assert(n[a] == o[a]);
                } else if a == k {
                    assert(n[b] == o[b - 1]);
                    if text_before(o[b - 1], p@) {
                        if b - 1 == k {
                            lemma_text_before_trans(o[b - 1], p@, o[b - 1]);
                            lemma_text_before_irreflexive(o[b - 1]);
                        } else {
                            assert(!text_before(o[b - 1], o[k as int]));
                            lemma_text_before_trans(o[b - 1], p@, o[k as int]);
                        }
                    }
                } else if a < k {
                    assert(n[a] == o[a] && n[b] == o[b - 1]);
                    if b - 1 >= k && text_before(o[b - 1], o[a]) {
                        assert(!text_before(p@, o[a]));
                        lemma_text_before_total(p@, o[a]);
                        if p@ == o[a] {
                            if b - 1 == k {
                                lemma_text_before_trans(o[b - 1], p@, o[b - 1]);
                                lemma_text_before_irreflexive(o[b - 1]);
                            } else {
                                lemma_text_before_trans(o[b - 1], p@, o[k as int]);
                            }
                        } else {
                            lemma_text_before_trans(o[b - 1], o[a], p@);
                            if b - 1 == k {
                                lemma_text_before_trans(o[b - 1], p@, o[b - 1]);
                                lemma_text_before_irreflexive(o[b - 1]);
                            } else {
                                lemma_text_before_trans(o[b - 1], p@, o[k as int]);
                            }
                        }
                    }
                } else {
                    assert(n[a] == o[a - 1] && n[b] == o[b - 1]);
                }
            }
            vstd::seq_lib::to_multiset_insert(o, k as int, p@);
            assert(ps.subrange(0, i + 1) =~= ps.subrange(0, i as int).push(ps[i as int]));
            vstd::seq_lib::to_multiset_build(ps.subrange(0, i as int), ps[i as int]);
        }
        i += 1;
    }
    assert(ps.subrange(0, items.len() as int) =~= ps);
    out
}

/// A decimal number with a leading `-` when negative.
pub open spec fn signed_decimal(v: int) -> Seq<char> {
    if v < 0 {
        seq!['-'] + decimal_spec((-v) as nat)
    } else {
        decimal_spec(v as nat)
    }
}

pub(crate) fn push_signed(out: &mut Vec<char>, v: i64)
    ensures
        final(out)@ == old(out)@ + signed_decimal(v as int),
{
    if v < 0 {
        out.push('-');
        let magnitude: u64 = if v == i64::MIN {
            9223372036854775808u64
        } else {
            (-v) as u64
        };
        push_all(out, decimal(magnitude).as_slice());
    } else {
        push_all(out, decimal(v as u64).as_slice());
    }
}

/// The fact about an existing path: its text, device, inode, mode, size and
/// modification time in seconds and nanoseconds, separated by tabs.
pub open spec fn path_fact_text(path: Seq<char>, device: u64, inode: u64, mode: u32, size: u64, mtime: i64, mtime_nsec: i64) -> Seq<char> {
    "path\t"@ + path + seq!['\t'] + decimal_spec(device as nat) + seq!['\t'] + decimal_spec(inode as nat) + seq!['\t']
        + decimal_spec(mode as nat) + seq!['\t'] + decimal_spec(size as nat) + seq!['\t'] + signed_decimal(mtime as int)
        + seq!['\t'] + signed_decimal(mtime_nsec as int)
}

/// The fact about an existing path, from its metadata.
pub fn path_fact(path: &str, device: u64, inode: u64, mode: u32, size: u64, mtime: i64, mtime_nsec: i64) -> (r: String)
    ensures
        r@ == path_fact_text(path@, device, inode, mode, size, mtime, mtime_nsec),
{
    let mut out = chars_of("path\t");
    push_all(&mut out, chars_of(path).as_slice());
    out.push('\t');
    push_all(&mut out, decimal(device).as_slice());
    out.push('\t');
    push_all(&mut out, decimal(inode).as_slice());
    out.push('\t');
    push_all(&mut out, decimal(mode as u64).as_slice());
    out.push('\t');
    push_all(&mut out, decimal(size).as_slice());
    out.push('\t');
    push_signed(&mut out, mtime);
    out.push('\t');
    push_signed(&mut out, mtime_nsec);
    string_of(out.as_slice())
}

/// The fact about a path that does not exist.
pub fn missing_fact(path: &str) -> (r: String)
    ensures
        r@ == "missing\t"@ + path@,
{
    let mut out = chars_of("missing\t");
    push_all(&mut out, chars_of(path).as_slice());
    string_of(out.as_slice())
}

/// The revision does not depend on the order in which the facts are
/// listed: two sorted arrangements of the same facts are the same, so the
/// revisions that `inventory_revision` gives for any two orders of one list
/// of facts are equal.
pub proof fn lemma_revision_ignores_fact_order(a: Seq<Seq<char>>, b: Seq<Seq<char>>)
    requires
        text_sorted(a),
        text_sorted(b),
        a.to_multiset() == b.to_multiset(),
    ensures
        a == b,
        revision_of(a) == revision_of(b),
    decreases a.len(),
{
    broadcast use vstd::seq_lib::group_to_multiset_ensures;

    a.to_multiset_ensures();
    b.to_multiset_ensures();
    if a.len() == 0 {
        assert(b.len() == 0);
        assert(a =~= b);
    } else {
        assert(b.len() == a.len());
        let x = a.last();
        let y = b.last();
        assert(a.contains(x));
        assert(b.to_multiset().count(x) > 0);
        assert(b.contains(x));
        assert(a.contains(y)) by {
            assert(b.contains(y));
            assert(a.to_multiset().count(y) > 0);
        }
        let i = choose|i: int| 0 <= i < b.len() && b[i] == x;
        let j = choose|j: int| 0 <= j < a.len() && a[j] == y;
        if x != y {
            lemma_text_before_total(x, y);
            if text_before(x, y) {
                if j < a.len() - 1 {
                    assert(!text_before(a[a.len() - 1], a[j]));
                }
            } else {
                if i < b.len() - 1 {
                    assert(!text_before(b[b.len() - 1], b[i]));
                }
            }
        }
        assert(x == y);
        let a1 = a.drop_last();
        let b1 = b.drop_last();
        assert(a =~= a1.push(x));
        assert(b =~= b1.push(x));
        assert(a1.to_multiset() =~= a.to_multiset().remove(x)) by {
            vstd::seq_lib::to_multiset_build(a1, x);
        }
        assert(b1.to_multiset() =~= b.to_multiset().remove(x)) by {
            vstd::seq_lib::to_multiset_build(b1, x);
        }
        assert(text_sorted(a1)) by {
            assert forall|p: int, q: int| 0 <= p < q < a1.len() implies !text_before(#[trigger] a1[q], #[trigger] a1[p]) by {
                assert(a1[q] == a[q] && a1[p] == a[p]);
            }
        }
        assert(text_sorted(b1)) by {
            assert forall|p: int, q: int| 0 <= p < q < b1.len() implies !text_before(#[trigger] b1[q], #[trigger] b1[p]) by {
                assert(b1[q] == b[q] && b1[p] == b[p]);
            }
        }
        lemma_revision_ignores_fact_order(a1, b1);
    }
}

} // verus!
