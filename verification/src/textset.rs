//! Ordered sets of texts, kept sorted by code point order without duplicates.
use vstd::prelude::*;

use crate::text::string_of;

verus! {

/// Lexicographic order on character sequences (the order of `str`).
pub open spec fn text_lt(a: Seq<char>, b: Seq<char>) -> bool
    decreases a.len(),
{
    if a.len() == 0 {
        b.len() > 0
    } else if b.len() == 0 {
        false
    } else if a[0] != b[0] {
        a[0] < b[0]
    } else {
        text_lt(a.drop_first(), b.drop_first())
    }
}

pub proof fn lemma_text_lt_irreflexive(a: Seq<char>)
    ensures
        !text_lt(a, a),
    decreases a.len(),
{
    if a.len() > 0 {
        lemma_text_lt_irreflexive(a.drop_first());
    }
}

pub proof fn lemma_text_lt_transitive(a: Seq<char>, b: Seq<char>, c: Seq<char>)
    requires
        text_lt(a, b),
        text_lt(b, c),
    ensures
        text_lt(a, c),
    decreases a.len(),
{
    if a.len() > 0 && b.len() > 0 && c.len() > 0 {
        if a[0] == b[0] && b[0] == c[0] {
            lemma_text_lt_transitive(a.drop_first(), b.drop_first(), c.drop_first());
        }
    }
}

pub proof fn lemma_text_lt_total(a: Seq<char>, b: Seq<char>)
    ensures
        a == b || text_lt(a, b) || text_lt(b, a),
    decreases a.len(),
{
    if a.len() > 0 && b.len() > 0 && a[0] == b[0] {
        lemma_text_lt_total(a.drop_first(), b.drop_first());
        if a.drop_first() == b.drop_first() {
            assert(a =~= seq![a[0]] + a.drop_first());
            assert(b =~= seq![b[0]] + b.drop_first());
        }
    } else if a.len() == 0 && b.len() == 0 {
        assert(a =~= b);
    }
}

pub proof fn lemma_text_lt_asymmetric(a: Seq<char>, b: Seq<char>)
    requires
        text_lt(a, b),
    ensures
        !text_lt(b, a),
{
    if text_lt(b, a) {
        lemma_text_lt_transitive(a, b, a);
        lemma_text_lt_irreflexive(a);
    }
}

/// Result of comparing two texts.
#[derive(PartialEq, Eq, Structural, Clone, Copy)]
pub enum Order {
    Less,
    Equal,
    Greater,
}

/// Compares two texts in code point order.
pub fn text_order(a: &[char], b: &[char]) -> (r: Order)
    ensures
        r == Order::Less <==> text_lt(a@, b@),
        r == Order::Greater <==> text_lt(b@, a@),
        r == Order::Equal <==> a@ == b@,
{
    let mut i: usize = 0;
    assert(a@.subrange(0, a.len() as int) =~= a@);
    assert(b@.subrange(0, b.len() as int) =~= b@);
    while i < a.len() && i < b.len()
        invariant
            i <= a.len(),
            i <= b.len(),
            a@.subrange(0, i as int) == b@.subrange(0, i as int),
            text_lt(a@, b@) == text_lt(a@.subrange(i as int, a.len() as int), b@.subrange(i as int, b.len() as int)),
            text_lt(b@, a@) == text_lt(b@.subrange(i as int, b.len() as int), a@.subrange(i as int, a.len() as int)),
        decreases a.len() - i,
    {
        if a[i] != b[i] {
            proof {
                assert(a@.subrange(i as int, a.len() as int)[0] == a@[i as int]);
                assert(b@.subrange(i as int, b.len() as int)[0] == b@[i as int]);
                if a@ == b@ {
                    assert(a@[i as int] == b@[i as int]);
                }
            }
            if a[i] < b[i] {
                return Order::Less;
            } else {
                return Order::Greater;
            }
        }
        proof {
            assert(a@.subrange(i as int, a.len() as int).drop_first() =~= a@.subrange(i + 1, a.len() as int));
            assert(b@.subrange(i as int, b.len() as int).drop_first() =~= b@.subrange(i + 1, b.len() as int));
            assert(a@.subrange(0, i + 1) =~= a@.subrange(0, i as int).push(a@[i as int]));
            assert(b@.subrange(0, i + 1) =~= b@.subrange(0, i as int).push(b@[i as int]));
        }
        i += 1;
    }
    if a.len() == b.len() {
        assert(a@ =~= a@.subrange(0, i as int));
        assert(b@ =~= b@.subrange(0, i as int));
        proof {
            lemma_text_lt_irreflexive(a@);
        }
        Order::Equal
    } else if a.len() < b.len() {
        assert(a@ != b@);
        Order::Less
    } else {
        assert(a@ != b@);
        Order::Greater
    }
}

/// Texts in strictly increasing order.
pub open spec fn sorted_texts(s: Seq<Vec<char>>) -> bool {
    forall|i: int, j: int| 0 <= i < j < s.len() ==> text_lt(#[trigger] s[i]@, #[trigger] s[j]@)
}

/// A finite set of texts, stored in increasing order.
#[derive(Clone)]
pub struct TextSet {
    pub items: Vec<Vec<char>>,
}

impl TextSet {
    pub open spec fn wf(&self) -> bool {
        sorted_texts(self.items@)
    }

    /// Membership of a character sequence.
    pub open spec fn has(&self, x: Seq<char>) -> bool {
        exists|i: int| 0 <= i < self.items.len() && #[trigger] self.items[i]@ == x
    }

    pub fn new() -> (r: TextSet)
        ensures
            r.wf(),
            r.items.len() == 0,
            forall|x: Seq<char>| !r.has(x),
    {
        TextSet { items: Vec::new() }
    }

    pub fn len(&self) -> (r: usize)
        ensures
            r == self.items.len(),
    {
        self.items.len()
    }

    /// Is `x` a member?
    pub fn contains(&self, x: &[char]) -> (r: bool)
        ensures
            r == self.has(x@),
    {
        let mut i: usize = 0;
        while i < self.items.len()
            invariant
                i <= self.items.len(),
                forall|j: int| 0 <= j < i ==> self.items[j]@ != x@,
            decreases self.items.len() - i,
        {
            if crate::text::text_eq(self.items[i].as_slice(), x) {
                return true;
            }
            i += 1;
        }
        false
    }

    /// Adds `x`; the result tells whether it was absent.
    pub fn insert(&mut self, x: Vec<char>) -> (r: bool)
        requires
            old(self).wf(),
        ensures
            final(self).wf(),
            r == !old(self).has(x@),
            final(self).has(x@),
            forall|y: Seq<char>| #[trigger] final(self).has(y) <==> (old(self).has(y) || y == x@),
            final(self).items.len() == old(self).items.len() + if r { 1int } else { 0int },
    {
        let mut k: usize = 0;
        let mut stop = false;
        while k < self.items.len() && !stop
            invariant
                self.wf(),
                k <= self.items.len(),
                forall|j: int| 0 <= j < k ==> text_lt(#[trigger] self.items[j]@, x@),
                stop ==> k < self.items.len() && text_lt(x@, self.items[k as int]@),
            decreases self.items.len() - k, if stop { 0int } else { 1int },
        {
            match text_order(self.items[k].as_slice(), x.as_slice()) {
                Order::Less => {
                    k += 1;
                },
                Order::Equal => {
                    return false;
                },
                Order::Greater => {
                    stop = true;
                },
            }
        }
        proof {
            if k < self.items.len() {
                assert(text_lt(x@, self.items[k as int]@));
            }
            assert forall|j: int| 0 <= j < self.items.len() implies #[trigger] self.items[j]@ != x@ by {
                if j < k {
                    lemma_text_lt_irreflexive(x@);
                } else {
                    if j > k {
                        lemma_text_lt_transitive(x@, self.items[k as int]@, self.items[j]@);
                    }
                    lemma_text_lt_irreflexive(x@);
                }
            }
        }
        let ghost old_items = self.items@;
        self.items.insert(k, x);
        proof {
            assert(self.items@ == old_items.insert(k as int, x));
            assert forall|i: int, j: int| 0 <= i < j < self.items.len() implies text_lt(
                #[trigger] self.items[i]@,
                #[trigger] self.items[j]@,
            ) by {
                if j < k {
                    assert(old_items[i]@ == self.items[i]@);
                    assert(old_items[j]@ == self.items[j]@);
                } else if i < k && j == k {
                } else if i < k && j > k {
                    assert(old_items[i]@ == self.items[i]@);
                    assert(old_items[j - 1]@ == self.items[j]@);
                } else if i == k {
                    if j - 1 > k {
                        lemma_text_lt_transitive(x@, old_items[k as int]@, old_items[j - 1]@);
                    }
                } else {
                    assert(old_items[i - 1]@ == self.items[i]@);
                    assert(old_items[j - 1]@ == self.items[j]@);
                }
            }
            assert(self.items[k as int]@ == x@);
            assert forall|y: Seq<char>| #[trigger] self.has(y) <==> (
            exists|i: int| 0 <= i < old_items.len() && #[trigger] old_items[i]@ == y) || y == x@ by {
                if self.has(y) {
                    let i = choose|i: int| 0 <= i < self.items.len() && #[trigger] self.items[i]@ == y;
                    if i < k {
                        assert(old_items[i]@ == y);
                    } else if i > k {
                        assert(old_items[i - 1]@ == y);
                    }
                }
                if exists|i: int| 0 <= i < old_items.len() && #[trigger] old_items[i]@ == y {
                    let i = choose|i: int| 0 <= i < old_items.len() && #[trigger] old_items[i]@ == y;
                    if i < k {
                        assert(self.items[i]@ == y);
                    } else {
                        assert(self.items[i + 1]@ == y);
                    }
                }
            }
        }
        true
    }

    /// The members as strings, in increasing order.
    pub fn to_strings(&self) -> (r: Vec<String>)
        ensures
            r.len() == self.items.len(),
            forall|i: int| 0 <= i < r.len() ==> (#[trigger] r[i])@ == self.items[i]@,
    {
        let mut out: Vec<String> = Vec::new();
        let mut i: usize = 0;
        while i < self.items.len()
            invariant
                i <= self.items.len(),
                out.len() == i,
                forall|j: int| 0 <= j < i ==> (#[trigger] out[j])@ == self.items[j]@,
            decreases self.items.len() - i,
        {
            out.push(string_of(self.items[i].as_slice()));
            i += 1;
        }
        out
    }
}

} // verus!
