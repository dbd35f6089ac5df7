//! Character-sequence utilities used by the parsers and the shell analyzer.
use vstd::prelude::*;

verus! {

/// Characters of a text value.
pub type Text = Vec<char>;

/// Copies the characters of a string slice into a vector.
pub fn chars_of(s: &str) -> (r: Vec<char>)
    ensures
        r@ == s@,
{
    broadcast use vstd::string::group_string_axioms;

    let mut out: Vec<char> = Vec::new();
    for c in it: s.chars()
        invariant
            out@ == it.seq().take(it.index() as int),
            it.seq() == s@,
    {
        out.push(c);
    }
    out
}

/// `String::from_iter` over characters: a `String` holding exactly `t`.
#[verifier::external_body]
pub fn string_of(t: &[char]) -> (r: String)
    ensures
        r@ == t@,
{
    String::from_iter(t.iter())
}

/// Compares a character sequence with a string literal.
pub fn eq_lit(t: &[char], lit: &str) -> (r: bool)
    ensures
        r == (t@ == lit@),
{
    let n = lit.unicode_len();
    if t.len() != n {
        return false;
    }
    let mut i: usize = 0;
    while i < n
        invariant
            n == lit@.len(),
            t@.len() == n,
            i <= n,
            forall|j: int| 0 <= j < i ==> t@[j] == lit@[j],
        decreases n - i,
    {
        if t[i] != lit.get_char(i) {
            return false;
        }
        i += 1;
    }
    assert(t@ =~= lit@);
    true
}

/// Compares two character sequences.
pub fn text_eq(a: &[char], b: &[char]) -> (r: bool)
    ensures
        r == (a@ == b@),
{
    if a.len() != b.len() {
        return false;
    }
    let mut i: usize = 0;
    while i < a.len()
        invariant
            a@.len() == b@.len(),
            i <= a.len(),
            forall|j: int| 0 <= j < i ==> a@[j] == b@[j],
        decreases a.len() - i,
    {
        if a[i] != b[i] {
            return false;
        }
        i += 1;
    }
    assert(a@ =~= b@);
    true
}

pub open spec fn is_prefix(p: Seq<char>, t: Seq<char>) -> bool {
    p.len() <= t.len() && t.subrange(0, p.len() as int) == p
}

pub open spec fn is_suffix(p: Seq<char>, t: Seq<char>) -> bool {
    p.len() <= t.len() && t.subrange(t.len() - p.len(), t.len() as int) == p
}

/// `t` contains `p` as a contiguous part.
pub open spec fn contains_seq(t: Seq<char>, p: Seq<char>) -> bool {
    exists|k: int| 0 <= k && k + p.len() <= t.len() && #[trigger] t.subrange(k, k + p.len()) == p
}

/// Does `t` start with `p`?
pub fn starts_with(t: &[char], p: &[char]) -> (r: bool)
    ensures
        r == is_prefix(p@, t@),
{
    if p.len() > t.len() {
        return false;
    }
    let mut i: usize = 0;
    while i < p.len()
        invariant
            p.len() <= t.len(),
            i <= p.len(),
            forall|j: int| 0 <= j < i ==> t@[j] == p@[j],
        decreases p.len() - i,
    {
        if t[i] != p[i] {
            assert(t@.subrange(0, p.len() as int)[i as int] != p@[i as int]);
            return false;
        }
        i += 1;
    }
    assert(t@.subrange(0, p.len() as int) =~= p@);
    true
}

/// Does `t` start with the literal `lit`?
pub fn starts_with_lit(t: &[char], lit: &str) -> (r: bool)
    ensures
        r == is_prefix(lit@, t@),
{
    let p = chars_of(lit);
    starts_with(t, p.as_slice())
}

/// Does `t` end with `p`?
pub fn ends_with(t: &[char], p: &[char]) -> (r: bool)
    ensures
        r == is_suffix(p@, t@),
{
    if p.len() > t.len() {
        return false;
    }
    let off = t.len() - p.len();
    let mut i: usize = 0;
    while i < p.len()
        invariant
            p.len() <= t.len(),
            off == t.len() - p.len(),
            i <= p.len(),
            forall|j: int| 0 <= j < i ==> t@[off + j] == p@[j],
        decreases p.len() - i,
    {
        if t[off + i] != p[i] {
            assert(t@.subrange(off as int, t.len() as int)[i as int] != p@[i as int]);
            return false;
        }
        i += 1;
    }
    assert(t@.subrange(off as int, t.len() as int) =~= p@);
    true
}

/// Does `t` end with the literal `lit`?
pub fn ends_with_lit(t: &[char], lit: &str) -> (r: bool)
    ensures
        r == is_suffix(lit@, t@),
{
    let p = chars_of(lit);
    ends_with(t, p.as_slice())
}

/// Does `t` contain the character `c`?
pub fn has_char(t: &[char], c: char) -> (r: bool)
    ensures
        r == t@.contains(c),
{
    let mut i: usize = 0;
    while i < t.len()
        invariant
            i <= t.len(),
            forall|j: int| 0 <= j < i ==> t@[j] != c,
        decreases t.len() - i,
    {
        if t[i] == c {
            return true;
        }
        i += 1;
    }
    false
}

/// Index of the first occurrence of `c`.
pub fn find_char(t: &[char], c: char) -> (r: Option<usize>)
    ensures
        r matches Some(k) ==> k < t.len() && t@[k as int] == c && forall|j: int|
            0 <= j < k ==> t@[j] != c,
        r is None ==> !t@.contains(c),
{
    let mut i: usize = 0;
    while i < t.len()
        invariant
            i <= t.len(),
            forall|j: int| 0 <= j < i ==> t@[j] != c,
        decreases t.len() - i,
    {
        if t[i] == c {
            return Some(i);
        }
        i += 1;
    }
    None
}

/// Index of the last occurrence of `c`.
pub fn rfind_char(t: &[char], c: char) -> (r: Option<usize>)
    ensures
        r matches Some(k) ==> k < t.len() && t@[k as int] == c && forall|j: int|
            k < j < t.len() ==> t@[j] != c,
        r is None ==> !t@.contains(c),
{
    let mut i: usize = t.len();
    while i > 0
        invariant
            i <= t.len(),
            forall|j: int| i <= j < t.len() ==> t@[j] != c,
        decreases i,
    {
        if t[i - 1] == c {
            return Some(i - 1);
        }
        i -= 1;
    }
    None
}

/// Does `p` occur in `t`?
pub fn contains_text(t: &[char], p: &[char]) -> (r: bool)
    ensures
        r == contains_seq(t@, p@),
{
    if p.len() > t.len() {
        assert forall|k: int| 0 <= k && k + p.len() <= t.len() implies #[trigger] t@.subrange(
            k,
            k + p.len(),
        ) != p@ by {}
        return false;
    }
    let mut k: usize = 0;
    let last = t.len() - p.len();
    while k <= last
        invariant
            last == t.len() - p.len(),
            p.len() <= t.len(),
            forall|m: int| 0 <= m < k ==> #[trigger] t@.subrange(m, m + p.len()) != p@,
        decreases last + 1 - k,
    {
        let mut i: usize = 0;
        let mut same = true;
        while i < p.len()
            invariant
                k <= last,
                last == t.len() - p.len(),
                i <= p.len(),
                same ==> forall|j: int| 0 <= j < i ==> t@[k + j] == p@[j],
                !same ==> t@.subrange(k as int, k + p.len()) != p@,
            decreases p.len() - i,
        {
            if t[k + i] != p[i] {
                assert(t@.subrange(k as int, k + p.len())[i as int] != p@[i as int]);
                same = false;
            }
            i += 1;
        }
        if same {
            assert(t@.subrange(k as int, k + p.len()) =~= p@);
            return true;
        }
        if k == last {
            return false;
        }
        k += 1;
    }
    false
}

/// Does the literal `lit` occur in `t`?
pub fn contains_lit(t: &[char], lit: &str) -> (r: bool)
    ensures
        r == contains_seq(t@, lit@),
{
    let p = chars_of(lit);
    contains_text(t, p.as_slice())
}

/// The characters `from..to` of `t`.
pub fn slice(t: &[char], from: usize, to: usize) -> (r: Vec<char>)
    requires
        from <= to <= t.len(),
    ensures
        r@ == t@.subrange(from as int, to as int),
{
    let mut out: Vec<char> = Vec::new();
    let mut i = from;
    while i < to
        invariant
            from <= i <= to <= t.len(),
            out@ == t@.subrange(from as int, i as int),
        decreases to - i,
    {
        out.push(t[i]);
        i += 1;
        assert(out@ =~= t@.subrange(from as int, i as int));
    }
    out
}

/// `a` followed by `b`.
pub fn concat(a: &[char], b: &[char]) -> (r: Vec<char>)
    ensures
        r@ == a@ + b@,
{
    let mut out = slice(a, 0, a.len());
    let mut i: usize = 0;
    assert(out@ =~= a@);
    while i < b.len()
        invariant
            i <= b.len(),
            out@ == a@ + b@.subrange(0, i as int),
        decreases b.len() - i,
    {
        out.push(b[i]);
        i += 1;
        assert(out@ =~= a@ + b@.subrange(0, i as int));
    }
    assert(b@.subrange(0, b.len() as int) =~= b@);
    out
}

/// Appends `b` to `out`.
pub fn push_all(out: &mut Vec<char>, b: &[char])
    ensures
        final(out)@ == old(out)@ + b@,
{
    let mut i: usize = 0;
    let ghost start = out@;
    while i < b.len()
        invariant
            i <= b.len(),
            out@ == start + b@.subrange(0, i as int),
        decreases b.len() - i,
    {
        out.push(b[i]);
        i += 1;
        assert(out@ =~= start + b@.subrange(0, i as int));
    }
    assert(b@.subrange(0, b.len() as int) =~= b@);
}

/// Appends the characters of a literal.
pub fn push_lit(out: &mut Vec<char>, lit: &str)
    ensures
        final(out)@ == old(out)@ + lit@,
{
    let p = chars_of(lit);
    push_all(out, p.as_slice());
}

/// Unicode `White_Space`, as `char::is_whitespace` documents it.
pub open spec fn spec_is_whitespace(c: char) -> bool {
    ||| c == ' '
    ||| ('\t' <= c && c <= '\r')
    ||| c == '\u{85}'
    ||| c == '\u{a0}'
    ||| c == '\u{1680}'
    ||| ('\u{2000}' <= c && c <= '\u{200a}')
    ||| c == '\u{2028}'
    ||| c == '\u{2029}'
    ||| c == '\u{202f}'
    ||| c == '\u{205f}'
    ||| c == '\u{3000}'
}

pub fn is_whitespace(c: char) -> (r: bool)
    ensures
        r == spec_is_whitespace(c),
{
    c == ' ' || ('\t' <= c && c <= '\r') || c == '\u{85}' || c == '\u{a0}' || c == '\u{1680}' || (
    '\u{2000}' <= c && c <= '\u{200a}') || c == '\u{2028}' || c == '\u{2029}' || c == '\u{202f}'
        || c == '\u{205f}' || c == '\u{3000}'
}

/// ASCII whitespace as `u8::is_ascii_whitespace` defines it.
pub open spec fn spec_is_ascii_whitespace(c: char) -> bool {
    c == ' ' || c == '\t' || c == '\n' || c == '\u{0c}' || c == '\r'
}

pub fn is_ascii_whitespace(c: char) -> (r: bool)
    ensures
        r == spec_is_ascii_whitespace(c),
{
    c == ' ' || c == '\t' || c == '\n' || c == '\u{0c}' || c == '\r'
}

pub open spec fn spec_is_ascii_digit(c: char) -> bool {
    '0' <= c && c <= '9'
}

pub open spec fn spec_is_ascii_alphanumeric(c: char) -> bool {
    ('0' <= c && c <= '9') || ('a' <= c && c <= 'z') || ('A' <= c && c <= 'Z')
}

pub fn is_ascii_digit(c: char) -> (r: bool)
    ensures
        r == spec_is_ascii_digit(c),
{
    '0' <= c && c <= '9'
}

pub fn is_ascii_alphanumeric(c: char) -> (r: bool)
    ensures
        r == spec_is_ascii_alphanumeric(c),
{
    ('0' <= c && c <= '9') || ('a' <= c && c <= 'z') || ('A' <= c && c <= 'Z')
}

pub open spec fn spec_lower(c: char) -> char {
    if 'A' <= c && c <= 'Z' {
        ((c as u32) + 32) as char
    } else {
        c
    }
}

/// ASCII lower-casing of one character.
pub fn lower(c: char) -> (r: char)
    ensures
        r == spec_lower(c),
{
    if 'A' <= c && c <= 'Z' {
        let u = (c as u32) + 32;
        assert(0x61 <= u <= 0x7a);
        // Lower-case ASCII letters are valid scalar values.
        char_from_ascii(u)
    } else {
        c
    }
}

/// A character from a code point below 0x80.
fn char_from_ascii(u: u32) -> (r: char)
    requires
        u < 0x80,
    ensures
        r == u as char,
{
    let b = u as u8;
    b as char
}

/// `str::to_ascii_lowercase` on characters.
pub fn to_ascii_lowercase(t: &[char]) -> (r: Vec<char>)
    ensures
        r@ == t@.map_values(|c: char| spec_lower(c)),
{
    let mut out: Vec<char> = Vec::new();
    let mut i: usize = 0;
    while i < t.len()
        invariant
            i <= t.len(),
            out@ == t@.subrange(0, i as int).map_values(|c: char| spec_lower(c)),
        decreases t.len() - i,
    {
        out.push(lower(t[i]));
        i += 1;
        assert(out@ =~= t@.subrange(0, i as int).map_values(|c: char| spec_lower(c)));
    }
    assert(t@.subrange(0, t.len() as int) =~= t@);
    out
}

/// `t` without its leading `spec_is_whitespace` characters.
pub open spec fn trim_start_spec(t: Seq<char>) -> Seq<char>
    decreases t.len(),
{
    if t.len() > 0 && spec_is_whitespace(t[0]) {
        trim_start_spec(t.drop_first())
    } else {
        t
    }
}

/// `t` without its trailing `spec_is_whitespace` characters.
pub open spec fn trim_end_spec(t: Seq<char>) -> Seq<char>
    decreases t.len(),
{
    if t.len() > 0 && spec_is_whitespace(t.last()) {
        trim_end_spec(t.drop_last())
    } else {
        t
    }
}

/// `str::trim`: both ends stripped of white space.
pub open spec fn trimmed(t: Seq<char>) -> Seq<char> {
    trim_end_spec(trim_start_spec(t))
}

/// Removes leading and trailing characters that satisfy `spec_is_whitespace`.
pub fn trim(t: &[char]) -> (r: Vec<char>)
    ensures
        r@ == trimmed(t@),
        exists|a: int, b: int|
            0 <= a <= b <= t.len() && r@ == t@.subrange(a, b) && (forall|j: int|
                0 <= j < a ==> spec_is_whitespace(#[trigger] t@[j])) && (forall|j: int|
                b <= j < t.len() ==> spec_is_whitespace(#[trigger] t@[j])) && (a < b ==> (
            !spec_is_whitespace(t@[a]) && !spec_is_whitespace(t@[b - 1]))),
{
    let n = t.len();
    let mut a: usize = 0;
    assert(t@.subrange(0, n as int) =~= t@);
    while a < n && is_whitespace(t[a])
        invariant
            n == t.len(),
            a <= n,
            forall|j: int| 0 <= j < a ==> spec_is_whitespace(#[trigger] t@[j]),
            trim_start_spec(t@) == trim_start_spec(t@.subrange(a as int, n as int)),
        decreases n - a,
    {
        assert(t@.subrange(a as int, n as int).drop_first() =~= t@.subrange(a + 1, n as int));
        a += 1;
    }
    assert(trim_start_spec(t@) == t@.subrange(a as int, n as int));
    let mut b: usize = n;
    while b > a && is_whitespace(t[b - 1])
        invariant
            n == t.len(),
            a <= b <= n,
            forall|j: int| b <= j < n ==> spec_is_whitespace(#[trigger] t@[j]),
            trim_end_spec(t@.subrange(a as int, n as int)) == trim_end_spec(t@.subrange(a as int, b as int)),
        decreases b,
    {
        assert(t@.subrange(a as int, b as int).drop_last() =~= t@.subrange(a as int, b - 1));
        b -= 1;
    }
    assert(trim_end_spec(t@.subrange(a as int, b as int)) == t@.subrange(a as int, b as int));
    slice(t, a, b)
}

/// The pieces of `t` between occurrences of `sep` (`str::split`), empty ones
/// included: always one more than the occurrences.
pub open spec fn split_spec(t: Seq<char>, sep: char) -> Seq<Seq<char>>
    decreases t.len(),
{
    if t.len() == 0 {
        seq![Seq::empty()]
    } else {
        let prev = split_spec(t.drop_last(), sep);
        if t.last() == sep {
            prev.push(Seq::empty())
        } else {
            prev.update(prev.len() - 1, prev.last().push(t.last()))
        }
    }
}

pub proof fn lemma_split_spec_len(t: Seq<char>, sep: char)
    ensures
        split_spec(t, sep).len() >= 1,
    decreases t.len(),
{
    if t.len() > 0 {
        lemma_split_spec_len(t.drop_last(), sep);
    }
}

/// Splits `t` at every occurrence of `sep`, keeping empty pieces.
pub fn split_char(t: &[char], sep: char) -> (r: Vec<Vec<char>>)
    ensures
        r@.map_values(|v: Vec<char>| v@) == split_spec(t@, sep),
        r.len() >= 1,
        forall|i: int| 0 <= i < r.len() ==> !(#[trigger] r[i])@.contains(sep),
{
    let mut out: Vec<Vec<char>> = Vec::new();
    let mut cur: Vec<char> = Vec::new();
    let mut i: usize = 0;
    assert(t@.subrange(0, 0) =~= Seq::<char>::empty());
    while i < t.len()
        invariant
            i <= t.len(),
            !cur@.contains(sep),
            forall|k: int| 0 <= k < out.len() ==> !(#[trigger] out[k])@.contains(sep),
            out@.map_values(|v: Vec<char>| v@).push(cur@) == split_spec(t@.subrange(0, i as int), sep),
        decreases t.len() - i,
    {
        let ghost q = t@.subrange(0, i + 1);
        assert(q.drop_last() =~= t@.subrange(0, i as int));
        let ghost prev = split_spec(t@.subrange(0, i as int), sep);
        let ghost before = out@.map_values(|v: Vec<char>| v@);
        if t[i] == sep {
            out.push(cur);
            cur = Vec::new();
            assert(out@.map_values(|v: Vec<char>| v@) =~= before.push(prev.last()));
            assert(out@.map_values(|v: Vec<char>| v@).push(cur@) =~= prev.push(Seq::<char>::empty()));
        } else {
            let ghost old_cur = cur@;
            cur.push(t[i]);
            assert(before.push(cur@) =~= prev.update(prev.len() - 1, prev.last().push(t@[i as int])));
        }
        i += 1;
    }
    assert(t@.subrange(0, t.len() as int) =~= t@);
    let ghost before = out@.map_values(|v: Vec<char>| v@);
    out.push(cur);
    assert(out@.map_values(|v: Vec<char>| v@) =~= before.push(cur@));
    out
}

/// The pieces found in the first `n` characters, and the piece under way.
pub open spec fn ws_pieces(t: Seq<char>, n: int) -> (Seq<Seq<char>>, Seq<char>)
    decreases n,
{
    if n <= 0 {
        (Seq::empty(), Seq::empty())
    } else {
        let (done, cur) = ws_pieces(t, n - 1);
        if spec_is_ascii_whitespace(t[n - 1]) {
            if cur.len() > 0 {
                (done.push(cur), Seq::empty())
            } else {
                (done, cur)
            }
        } else {
            (done, cur.push(t[n - 1]))
        }
    }
}

/// `str::split_ascii_whitespace`: the maximal runs of characters that are
/// not ASCII whitespace, in order.
pub open spec fn ws_split(t: Seq<char>) -> Seq<Seq<char>> {
    let (done, cur) = ws_pieces(t, t.len() as int);
    if cur.len() > 0 {
        done.push(cur)
    } else {
        done
    }
}

/// Splits on runs of ASCII whitespace, dropping empty pieces.
pub fn split_ascii_whitespace(t: &[char]) -> (r: Vec<Vec<char>>)
    ensures
        r@.map_values(|v: Vec<char>| v@) == ws_split(t@),
        forall|i: int|
            0 <= i < r.len() ==> (#[trigger] r[i])@.len() > 0 && forall|j: int|
                0 <= j < r[i]@.len() ==> !spec_is_ascii_whitespace(#[trigger] r[i]@[j]),
{
    let mut out: Vec<Vec<char>> = Vec::new();
    let mut cur: Vec<char> = Vec::new();
    let mut i: usize = 0;
    while i < t.len()
        invariant
            i <= t.len(),
            (out@.map_values(|v: Vec<char>| v@), cur@) == ws_pieces(t@, i as int),
            forall|j: int| 0 <= j < cur@.len() ==> !spec_is_ascii_whitespace(#[trigger] cur@[j]),
            forall|k: int|
                0 <= k < out.len() ==> (#[trigger] out[k])@.len() > 0 && forall|j: int|
                    0 <= j < out[k]@.len() ==> !spec_is_ascii_whitespace(#[trigger] out[k]@[j]),
        decreases t.len() - i,
    {
        let ghost before = out@.map_values(|v: Vec<char>| v@);
        if is_ascii_whitespace(t[i]) {
            if cur.len() > 0 {
                let ghost c = cur@;
                out.push(cur);
                cur = Vec::new();
                assert(out@.map_values(|v: Vec<char>| v@) =~= before.push(c));
            }
        } else {
            cur.push(t[i]);
        }
        i += 1;
    }
    let ghost before = out@.map_values(|v: Vec<char>| v@);
    if cur.len() > 0 {
        let ghost c = cur@;
        out.push(cur);
        assert(out@.map_values(|v: Vec<char>| v@) =~= before.push(c));
    }
    out
}

/// The character of the decimal digit `d`.
pub open spec fn digit_char(d: int) -> char {
    (48 + d) as char
}

/// Decimal notation of `n`, most significant digit first.
pub open spec fn decimal_spec(n: nat) -> Seq<char>
    decreases n,
{
    if n < 10 {
        seq![digit_char(n as int)]
    } else {
        decimal_spec(n / 10).push(digit_char((n % 10) as int))
    }
}

/// Decimal digits of `n`.
pub fn decimal(n: u64) -> (r: Vec<char>)
    ensures
        r@ == decimal_spec(n as nat),
        r.len() >= 1,
        forall|i: int| 0 <= i < r.len() ==> spec_is_ascii_digit(#[trigger] r@[i]),
    decreases n,
{
    let d = (n % 10) as u32;
    let c = char_from_ascii(48 + d);
    if n < 10 {
        let mut out: Vec<char> = Vec::new();
        out.push(c);
        assert(out@ =~= seq![digit_char(n as int)]);
        out
    } else {
        let mut out = decimal(n / 10);
        out.push(c);
        out
    }
}

pub open spec fn all_ascii_digits(t: Seq<char>) -> bool {
    forall|j: int| 0 <= j < t.len() ==> spec_is_ascii_digit(#[trigger] t[j])
}

/// What `str::parse::<i64>` gives: an optional sign followed by at least
/// one digit, and a value within `i64`.
pub open spec fn parsed_i64(t: Seq<char>) -> Option<i64> {
    let signed = t.len() > 0 && (t[0] == '+' || t[0] == '-');
    let body = if signed {
        t.drop_first()
    } else {
        t
    };
    let v = if signed && t[0] == '-' {
        -digits_value(body)
    } else {
        digits_value(body) as int
    };
    if body.len() == 0 || !all_ascii_digits(body) || v < i64::MIN || v > i64::MAX {
        None
    } else {
        Some(v as i64)
    }
}

/// Value of the decimal digits `t`, if all of them are digits and the value
/// fits in `i64` (the form that `str::parse::<i64>` accepts, with an optional sign).
pub fn parse_i64(t: &[char]) -> (r: Option<i64>)
    ensures
        r == parsed_i64(t@),
        r is Some ==> t.len() > 0,
{
    if t.len() == 0 {
        return None;
    }
    let mut i: usize = 0;
    let mut negative = false;
    if t[0] == '+' || t[0] == '-' {
        negative = t[0] == '-';
        i = 1;
        if t.len() == 1 {
            assert(t@.drop_first().len() == 0);
            return None;
        }
    }
    let start = i;
    let ghost body = t@.subrange(start as int, t.len() as int);
    assert(start == 1 ==> body =~= t@.drop_first());
    assert(start == 0 ==> body =~= t@);
    assert(negative == (start == 1 && t@[0] == '-'));
    let mut value: i64 = 0;
    while i < t.len()
        invariant
            start <= i <= t.len(),
            start <= 1,
            t.len() > 0,
            (start == 1) == (t@.len() > 0 && (t@[0] == '+' || t@[0] == '-')),
            negative == (start == 1 && t@[0] == '-'),
            body == (if start == 1 {
                t@.drop_first()
            } else {
                t@
            }),
            body == t@.subrange(start as int, t.len() as int),
            all_ascii_digits(t@.subrange(start as int, i as int)),
            value == (if negative {
                -digits_value(t@.subrange(start as int, i as int))
            } else {
                digits_value(t@.subrange(start as int, i as int)) as int
            }),
        decreases t.len() - i,
    {
        let c = t[i];
        let ghost pre = t@.subrange(start as int, i as int);
        let ghost next = t@.subrange(start as int, i + 1);
        assert(next.drop_last() =~= pre);
        assert(next.last() == c);
        if !is_ascii_digit(c) {
            assert(!spec_is_ascii_digit(body[i - start]));
            return None;
        }
        let d = ((c as u32) - 0x30) as i128;
        assert(d == c as int - 48);
        assert(all_ascii_digits(next));
        assert(digits_value(next) == digits_value(pre) * 10 + d);
        let wide = value as i128;
        assert(-0x1000_0000_0000_0000_0000 < wide * 10 < 0x1000_0000_0000_0000_0000) by (nonlinear_arith)
            requires
                i64::MIN <= wide <= i64::MAX,
        ;
        let step: i128 = if negative {
            wide * 10 - d
        } else {
            wide * 10 + d
        };
        if step < -9223372036854775808i128 || step > 9223372036854775807i128 {
            proof {
                if all_ascii_digits(body) {
                    assert(t@.subrange(start as int, i + 1) =~= body.subrange(0, i + 1 - start));
                    assert(body.subrange(0, body.len() as int) =~= body);
                    lemma_digits_value_grows(body, i + 1 - start);
                }
            }
            return None;
        }
        value = step as i64;
        i += 1;
    }
    assert(t@.subrange(start as int, t.len() as int) == body);
    Some(value)
}

/// Position of the first `c` in `t`, or `t.len()` when there is none.
pub open spec fn index_first(t: Seq<char>, c: char) -> int
    decreases t.len(),
{
    if t.len() == 0 || t[0] == c {
        0
    } else {
        1 + index_first(t.drop_first(), c)
    }
}

/// The part of `t` after its last `c`; all of `t` when there is none.
pub open spec fn after_last(t: Seq<char>, c: char) -> Seq<char>
    decreases t.len(),
{
    if t.len() == 0 {
        t
    } else if t.last() == c {
        Seq::empty()
    } else {
        after_last(t.drop_last(), c).push(t.last())
    }
}

/// The part of `t` before its last `c`; empty when there is none.
pub open spec fn before_last(t: Seq<char>, c: char) -> Seq<char> {
    if t.contains(c) {
        t.subrange(0, t.len() - after_last(t, c).len() - 1)
    } else {
        Seq::empty()
    }
}

/// Number of occurrences of `c` in `t`.
pub open spec fn count_char(t: Seq<char>, c: char) -> nat
    decreases t.len(),
{
    if t.len() == 0 {
        0
    } else {
        count_char(t.drop_last(), c) + if t.last() == c { 1nat } else { 0nat }
    }
}

/// `t` with every `from` replaced by `to`.
pub open spec fn replace_char(t: Seq<char>, from: char, to: char) -> Seq<char> {
    t.map_values(|x: char| if x == from { to } else { x })
}

/// `char::is_control`: the general category Cc.
pub open spec fn spec_is_control(c: char) -> bool {
    c <= '\u{1f}' || ('\u{7f}' <= c && c <= '\u{9f}')
}

pub fn is_control(c: char) -> (r: bool)
    ensures
        r == spec_is_control(c),
{
    c <= '\u{1f}' || ('\u{7f}' <= c && c <= '\u{9f}')
}

pub proof fn lemma_index_first(t: Seq<char>, c: char, k: int)
    requires
        0 <= k <= t.len(),
        k < t.len() ==> t[k] == c,
        forall|j: int| 0 <= j < k ==> t[j] != c,
    ensures
        index_first(t, c) == k,
    decreases k,
{
    if k > 0 {
        lemma_index_first(t.drop_first(), c, k - 1);
    }
}

pub proof fn lemma_after_last(t: Seq<char>, c: char, k: int)
    requires
        -1 <= k < t.len(),
        k >= 0 ==> t[k] == c,
        forall|j: int| k < j < t.len() ==> t[j] != c,
    ensures
        after_last(t, c) =~= t.subrange(k + 1, t.len() as int),
    decreases t.len(),
{
    if t.len() > 0 && t.last() != c {
        lemma_after_last(t.drop_last(), c, k);
    }
}

/// The position of `c` in `t` found by scanning from the start.
pub fn index_of_first(t: &[char], c: char) -> (r: usize)
    ensures
        r == index_first(t@, c),
        r <= t.len(),
        r < t.len() <==> t@.contains(c),
{
    let mut i: usize = 0;
    while i < t.len()
        invariant
            i <= t.len(),
            forall|j: int| 0 <= j < i ==> t@[j] != c,
        decreases t.len() - i,
    {
        if t[i] == c {
            proof {
                lemma_index_first(t@, c, i as int);
            }
            return i;
        }
        i += 1;
    }
    proof {
        lemma_index_first(t@, c, i as int);
    }
    i
}

/// `rsplit(c).next()`: the characters after the last `c`.
pub fn after_last_of(t: &[char], c: char) -> (r: Vec<char>)
    ensures
        r@ == after_last(t@, c),
        !r@.contains(c),
{
    match rfind_char(t, c) {
        Some(k) => {
            proof {
                lemma_after_last(t@, c, k as int);
            }
            slice(t, k + 1, t.len())
        },
        None => {
            proof {
                lemma_after_last(t@, c, -1);
                assert(t@.subrange(0, t.len() as int) =~= t@);
            }
            slice(t, 0, t.len())
        },
    }
}

/// `rsplit_once(c).map_or("", |(head, _)| head)`: the characters before the last `c`.
pub fn before_last_of(t: &[char], c: char) -> (r: Vec<char>)
    ensures
        r@ == before_last(t@, c),
{
    match rfind_char(t, c) {
        Some(k) => {
            proof {
                lemma_after_last(t@, c, k as int);
                assert(t@[k as int] == c);
            }
            slice(t, 0, k)
        },
        None => Vec::new(),
    }
}

/// Counts the occurrences of `c`.
pub fn count_of(t: &[char], c: char) -> (r: usize)
    ensures
        r == count_char(t@, c),
{
    let mut n: usize = 0;
    let mut i: usize = 0;
    while i < t.len()
        invariant
            i <= t.len(),
            n == count_char(t@.subrange(0, i as int), c),
            n <= i,
        decreases t.len() - i,
    {
        assert(t@.subrange(0, i + 1).drop_last() =~= t@.subrange(0, i as int));
        if t[i] == c {
            n += 1;
        }
        i += 1;
    }
    assert(t@.subrange(0, t.len() as int) =~= t@);
    n
}

/// Replaces every `from` by `to`.
pub fn replace_chars(t: &[char], from: char, to: char) -> (r: Vec<char>)
    ensures
        r@ == replace_char(t@, from, to),
{
    let mut out: Vec<char> = Vec::new();
    let mut i: usize = 0;
    while i < t.len()
        invariant
            i <= t.len(),
            out@ == replace_char(t@.subrange(0, i as int), from, to),
        decreases t.len() - i,
    {
        if t[i] == from {
            out.push(to);
        } else {
            out.push(t[i]);
        }
        i += 1;
        assert(out@ =~= replace_char(t@.subrange(0, i as int), from, to));
    }
    assert(t@.subrange(0, t.len() as int) =~= t@);
    out
}

/// No `c` remains after the last `c`.
pub proof fn lemma_after_last_free(t: Seq<char>, c: char)
    ensures
        !after_last(t, c).contains(c),
    decreases t.len(),
{
    if t.len() > 0 && t.last() != c {
        lemma_after_last_free(t.drop_last(), c);
        if after_last(t, c).contains(c) {
            let k = choose|k: int| 0 <= k < after_last(t, c).len() && after_last(t, c)[k] == c;
            if k < after_last(t.drop_last(), c).len() {
                assert(after_last(t.drop_last(), c)[k] == c);
            }
        }
    }
}


/// Every character is an ASCII digit, and there is at least one.
pub open spec fn all_digits(t: Seq<char>) -> bool {
    t.len() > 0 && forall|i: int| 0 <= i < t.len() ==> spec_is_ascii_digit(#[trigger] t[i])
}

/// The value of a sequence of decimal digits.
pub open spec fn digits_value(t: Seq<char>) -> nat
    decreases t.len(),
{
    if t.len() == 0 {
        0
    } else {
        digits_value(t.drop_last()) * 10 + ((t.last() as int) - 48) as nat
    }
}

/// What `str::parse::<u64>` gives: an optional `+` and decimal digits whose
/// value fits.
pub open spec fn parsed_u64(t: Seq<char>) -> Option<u64> {
    let d = if t.len() > 0 && t[0] == '+' { t.drop_first() } else { t };
    if all_digits(d) && digits_value(d) <= u64::MAX {
        Some(digits_value(d) as u64)
    } else {
        None
    }
}

proof fn lemma_digits_value_grows(t: Seq<char>, i: int)
    requires
        0 <= i <= t.len(),
        forall|j: int| 0 <= j < t.len() ==> spec_is_ascii_digit(#[trigger] t[j]),
    ensures
        digits_value(t.subrange(0, i)) <= digits_value(t),
    decreases t.len() - i,
{
    if i < t.len() {
        lemma_digits_value_grows(t, i + 1);
        assert(t.subrange(0, i + 1).drop_last() =~= t.subrange(0, i));
    } else {
        assert(t.subrange(0, i) =~= t);
    }
}

/// `str::parse::<u64>`.
pub fn parse_u64(t: &[char]) -> (r: Option<u64>)
    ensures
        r == parsed_u64(t@),
{
    let start: usize = if t.len() > 0 && t[0] == '+' { 1 } else { 0 };
    let ghost d = if t@.len() > 0 && t@[0] == '+' { t@.drop_first() } else { t@ };
    assert(d =~= t@.subrange(start as int, t.len() as int));
    if start == t.len() {
        return None;
    }
    let mut value: u64 = 0;
    let mut i: usize = start;
    while i < t.len()
        invariant
            start <= i <= t.len(),
            d == t@.subrange(start as int, t.len() as int),
            d == (if t@.len() > 0 && t@[0] == '+' { t@.drop_first() } else { t@ }),
            forall|j: int| start <= j < i ==> spec_is_ascii_digit(#[trigger] t@[j]),
            value as nat == digits_value(t@.subrange(start as int, i as int)),
        decreases t.len() - i,
    {
        let c = t[i];
        if !is_ascii_digit(c) {
            assert(d[i - start] == t@[i as int]);
            assert(!spec_is_ascii_digit(d[i - start]));
            return None;
        }
        assert(t@.subrange(start as int, i + 1).drop_last() =~= t@.subrange(start as int, i as int));
        let digit = (c as u32 - 48) as u64;
        match value.checked_mul(10) {
            Some(m) => match m.checked_add(digit) {
                Some(v) => {
                    value = v;
                },
                None => {
                    let ghost all_ok = all_digits(d);
                    proof {
                        if all_ok {
                            lemma_digits_value_grows(d, i + 1 - start);
                            assert(d.subrange(0, i + 1 - start) =~= t@.subrange(start as int, i + 1));
                        }
                    }
                    return None;
                },
            },
            None => {
                let ghost all_ok = all_digits(d);
                proof {
                    if all_ok {
                        lemma_digits_value_grows(d, i + 1 - start);
                        assert(d.subrange(0, i + 1 - start) =~= t@.subrange(start as int, i + 1));
                    }
                }
                return None;
            },
        }
        i += 1;
    }
    assert(t@.subrange(start as int, t.len() as int) =~= d);
    Some(value)
}


pub open spec fn spec_upper(c: char) -> char {
    if 'a' <= c && c <= 'z' {
        ((c as u32) - 32) as char
    } else {
        c
    }
}

/// ASCII upper-casing of one character.
pub fn upper(c: char) -> (r: char)
    ensures
        r == spec_upper(c),
{
    if 'a' <= c && c <= 'z' {
        let u = (c as u32) - 32;
        char_from_ascii(u)
    } else {
        c
    }
}

/// `str::to_ascii_uppercase` on characters.
pub fn to_ascii_uppercase(t: &[char]) -> (r: Vec<char>)
    ensures
        r@ == t@.map_values(|c: char| spec_upper(c)),
{
    let mut out: Vec<char> = Vec::new();
    let mut i: usize = 0;
    while i < t.len()
        invariant
            i <= t.len(),
            out@ == t@.subrange(0, i as int).map_values(|c: char| spec_upper(c)),
        decreases t.len() - i,
    {
        out.push(upper(t[i]));
        i += 1;
        assert(out@ =~= t@.subrange(0, i as int).map_values(|c: char| spec_upper(c)));
    }
    assert(t@.subrange(0, t.len() as int) =~= t@);
    out
}

/// `a` sorts before `b`: the order of `String`, which for UTF-8 text is the
/// order of the characters' code points.
pub open spec fn text_before(a: Seq<char>, b: Seq<char>) -> bool
    decreases a.len(),
{
    if a.len() == 0 {
        b.len() > 0
    } else if b.len() == 0 {
        false
    } else if a[0] != b[0] {
        (a[0] as u32) < (b[0] as u32)
    } else {
        text_before(a.drop_first(), b.drop_first())
    }
}

/// Is `a` before `b` in text order?
pub fn before(a: &[char], b: &[char]) -> (r: bool)
    ensures
        r == text_before(a@, b@),
{
    let mut i: usize = 0;
    assert(a@.subrange(0, a.len() as int) =~= a@);
    assert(b@.subrange(0, b.len() as int) =~= b@);
    while i < a.len() && i < b.len() && a[i] == b[i]
        invariant
            i <= a.len(),
            i <= b.len(),
            text_before(a@, b@) == text_before(a@.subrange(i as int, a.len() as int), b@.subrange(i as int, b.len() as int)),
        decreases a.len() - i,
    {
        assert(a@.subrange(i as int, a.len() as int).drop_first() =~= a@.subrange(i + 1, a.len() as int));
        assert(b@.subrange(i as int, b.len() as int).drop_first() =~= b@.subrange(i + 1, b.len() as int));
        i += 1;
    }
    if i == a.len() {
        i < b.len()
    } else if i == b.len() {
        false
    } else {
        proof {
            vstd::utf8::char_u32_cast(a[i as int], a[i as int] as u32);
            vstd::utf8::char_u32_cast(b[i as int], b[i as int] as u32);
        }
        (a[i] as u32) < (b[i] as u32)
    }
}

pub proof fn lemma_text_before_irreflexive(a: Seq<char>)
    ensures
        !text_before(a, a),
    decreases a.len(),
{
    if a.len() > 0 {
        lemma_text_before_irreflexive(a.drop_first());
    }
}

pub proof fn lemma_text_before_trans(a: Seq<char>, b: Seq<char>, c: Seq<char>)
    requires
        text_before(a, b),
        text_before(b, c),
    ensures
        text_before(a, c),
    decreases a.len(),
{
    if a.len() > 0 && b.len() > 0 && c.len() > 0 && a[0] == b[0] && b[0] == c[0] {
        lemma_text_before_trans(a.drop_first(), b.drop_first(), c.drop_first());
    }
}

pub proof fn lemma_text_before_total(a: Seq<char>, b: Seq<char>)
    ensures
        a == b || text_before(a, b) || text_before(b, a),
    decreases a.len(),
{
    if a.len() > 0 && b.len() > 0 && a[0] == b[0] {
        lemma_text_before_total(a.drop_first(), b.drop_first());
        if a.drop_first() == b.drop_first() {
            assert(a =~= seq![a[0]] + a.drop_first());
            assert(b =~= seq![b[0]] + b.drop_first());
        }
    } else if a.len() > 0 && b.len() > 0 {
        vstd::utf8::char_u32_cast(a[0], a[0] as u32);
        vstd::utf8::char_u32_cast(b[0], b[0] as u32);
    } else if a.len() == 0 && b.len() == 0 {
        assert(a =~= b);
    }
}


} // verus!
