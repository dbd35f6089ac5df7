//! Names of archive entries: normalization, depth, parent and file name, and
//! the rule that decides whether a relative entry path is safe to extract.
use vstd::prelude::*;

use crate::text::{
    after_last, after_last_of, before_last, before_last_of, chars_of, contains_seq, count_char,
    count_of, eq_lit, has_char, index_first, index_of_first, is_prefix, push_all, replace_char,
    replace_chars, slice, starts_with_lit, string_of, Text,
};

verus! {

/// Leading `./` and `/` pieces removed.
pub open spec fn strip_lead(t: Seq<char>) -> Seq<char>
    decreases t.len(),
{
    if t.len() >= 2 && t[0] == '.' && t[1] == '/' {
        strip_lead(t.subrange(2, t.len() as int))
    } else if t.len() >= 1 && t[0] == '/' {
        strip_lead(t.drop_first())
    } else {
        t
    }
}

/// Trailing `/` characters removed.
pub open spec fn strip_trailing_slashes(t: Seq<char>) -> Seq<char>
    decreases t.len(),
{
    if t.len() > 0 && t.last() == '/' {
        strip_trailing_slashes(t.drop_last())
    } else {
        t
    }
}

/// The canonical name of an archive entry: `\` read as `/`, leading `./`
/// and `/` pieces and trailing `/` removed.
pub open spec fn normalized_name(t: Seq<char>) -> Seq<char> {
    strip_trailing_slashes(strip_lead(replace_char(t, '\\', '/')))
}

/// Number of components of a name (0 for the empty name).
pub open spec fn depth(t: Seq<char>) -> nat {
    if t.len() == 0 {
        0
    } else {
        count_char(t, '/') + 1
    }
}

/// The name's last component.
pub open spec fn file_name(t: Seq<char>) -> Seq<char> {
    after_last(t, '/')
}

/// The name without its last component; empty at the top level.
pub open spec fn parent(t: Seq<char>) -> Seq<char> {
    before_last(t, '/')
}

/// `name` inside the directory `parent` (the top level when `parent` is empty).
pub open spec fn sibling(parent: Seq<char>, name: Seq<char>) -> Seq<char> {
    if parent.len() == 0 {
        name
    } else {
        parent + seq!['/'] + name
    }
}

/// Metadata that archivers on macOS add and that is never part of a payload.
pub open spec fn ignored_metadata(n: Seq<char>) -> bool {
    ||| n == "__MACOSX"@
    ||| is_prefix("__MACOSX/"@, n)
    ||| file_name(n) == ".DS_Store"@
    ||| is_prefix("._"@, file_name(n))
}

/// Normalizes an entry name.
pub fn normalize(entry: &[char]) -> (r: Text)
    ensures
        r@ == normalized_name(entry@),
{
    let t = replace_chars(entry, '\\', '/');
    let n = t.len();
    let mut a: usize = 0;
    assert(t@.subrange(0, n as int) =~= t@);
    while a < n && (t[a] == '/' || (a + 1 < n && t[a] == '.' && t[a + 1] == '/'))
        invariant
            n == t.len(),
            a <= n,
            strip_lead(t@) == strip_lead(t@.subrange(a as int, n as int)),
        decreases n - a,
    {
        let ghost s = t@.subrange(a as int, n as int);
        if a + 1 < n && t[a] == '.' && t[a + 1] == '/' {
            assert(s.subrange(2, s.len() as int) =~= t@.subrange(a + 2, n as int));
            a += 2;
        } else {
            assert(s.drop_first() =~= t@.subrange(a + 1, n as int));
            a += 1;
        }
    }
    assert(strip_lead(t@) == t@.subrange(a as int, n as int));
    let mut b: usize = n;
    while b > a && t[b - 1] == '/'
        invariant
            n == t.len(),
            a <= b <= n,
            strip_trailing_slashes(t@.subrange(a as int, n as int)) == strip_trailing_slashes(
                t@.subrange(a as int, b as int),
            ),
        decreases b,
    {
        assert(t@.subrange(a as int, b as int).drop_last() =~= t@.subrange(a as int, b - 1));
        b -= 1;
    }
    assert(strip_trailing_slashes(t@.subrange(a as int, b as int)) == t@.subrange(
        a as int,
        b as int,
    ));
    slice(t.as_slice(), a, b)
}

/// Number of components of a name (a name of `usize::MAX` slashes counts as
/// `usize::MAX` components).
pub fn name_depth(entry: &[char]) -> (r: usize)
    ensures
        r == if depth(entry@) <= usize::MAX { depth(entry@) } else { usize::MAX as nat },
{
    if entry.len() == 0 {
        0
    } else {
        let k = count_of(entry, '/');
        if k == usize::MAX {
            k
        } else {
            k + 1
        }
    }
}

pub proof fn lemma_count_char_bound(t: Seq<char>, c: char)
    ensures
        count_char(t, c) <= t.len(),
    decreases t.len(),
{
    if t.len() > 0 {
        lemma_count_char_bound(t.drop_last(), c);
    }
}

/// The last component of a name.
pub fn name_file(entry: &[char]) -> (r: Text)
    ensures
        r@ == file_name(entry@),
        !r@.contains('/'),
{
    after_last_of(entry, '/')
}

/// The parent of a name.
pub fn name_parent(entry: &[char]) -> (r: Text)
    ensures
        r@ == parent(entry@),
{
    before_last_of(entry, '/')
}

/// `name` inside `parent`.
pub fn name_sibling(parent: &[char], name: &[char]) -> (r: Text)
    ensures
        r@ == sibling(parent@, name@),
{
    if parent.len() == 0 {
        slice(name, 0, name.len())
    } else {
        let mut out = slice(parent, 0, parent.len());
        out.push('/');
        push_all(&mut out, name);
        assert(out@ =~= parent@ + seq!['/'] + name@);
        out
    }
}

/// Is the entry macOS archiver metadata?
pub fn is_ignored_metadata_path(n: &[char]) -> (r: bool)
    ensures
        r == ignored_metadata(n@),
{
    let f = name_file(n);
    eq_lit(n, "__MACOSX") || starts_with_lit(n, "__MACOSX/") || eq_lit(f.as_slice(), ".DS_Store")
        || starts_with_lit(f.as_slice(), "._")
}

// ---------------------------------------------------------------------------
// Safe relative paths.

/// Names of the installer's own transaction files, which no archive may use.
pub open spec fn reserved_name(c: Seq<char>) -> bool {
    is_prefix(".pam-install"@, c) || is_prefix(".pam-source"@, c) || is_prefix(".pm-install"@, c)
}

/// What the first offending component of a path is, scanning from the
/// left: `Some(true)` for `..` or a leading `.`, `Some(false)` for a reserved
/// name, `None` when every component is acceptable.
pub open spec fn component_verdict(t: Seq<char>, first: bool) -> Option<bool>
    decreases t.len(),
{
    let k = index_first(t, '/');
    let c = t.subrange(0, k);
    if c == seq!['.', '.'] || (first && c == seq!['.']) {
        Some(true)
    } else if c != seq!['.'] && reserved_name(c) {
        Some(false)
    } else if 0 <= k && k < t.len() {
        component_verdict(t.subrange(k + 1, t.len() as int), false)
    } else {
        None
    }
}

/// Characters that never occur in a safe path.
pub open spec fn forbidden_char(c: char) -> bool {
    c == '\\' || c == '\0' || c == '\t' || c == '\r' || c == '\n'
}

/// Shape problems that make a path unsafe before its components are read.
pub open spec fn path_malformed(v: Seq<char>) -> bool {
    ||| v.len() == 0
    ||| v[0] == '/'
    ||| exists|i: int| 0 <= i < v.len() && forbidden_char(#[trigger] v[i])
    ||| contains_seq(v, seq!['/', '/'])
}

/// `Some(true)`: unsafe; `Some(false)`: reserved; `None`: acceptable.
pub open spec fn path_verdict(v: Seq<char>) -> Option<bool> {
    if path_malformed(v) {
        Some(true)
    } else {
        component_verdict(strip_trailing_slashes(v), true)
    }
}

/// `format!("{value:?}")`: the Debug text of a string slice.
pub uninterp spec fn debug_text(value: Seq<char>) -> Seq<char>;

/// Debug formatting of a `str` (std's `<str as Debug>::fmt`, through `format!`):
/// the quoted, escaped text. Its result is named, not stated.
#[verifier::external_body]
pub(crate) fn debug_quote(value: &str) -> (r: String)
    ensures
        r@ == debug_text(value@),
{
    format!("{value:?}")
}

/// Rejects an entry path that could escape the extraction root or collide
/// with the installer's transaction files.
pub fn validate_path(value: &str) -> (r: Result<(), String>)
    ensures
        r is Ok <==> path_verdict(value@) is None,
        r matches Err(e) ==> (path_verdict(value@) == Some(true) ==> e@ == "unsafe path: "@ + debug_text(
            value@,
        )),
        r matches Err(e) ==> (path_verdict(value@) == Some(false) ==> e@
            == "reserved transaction path: "@ + debug_text(value@)),
{
    let v = chars_of(value);
    let verdict = verdict_of(v.as_slice());
    match verdict {
        None => Ok(()),
        Some(true) => {
            let mut out = chars_of("unsafe path: ");
            push_all(&mut out, chars_of(debug_quote(value).as_str()).as_slice());
            Err(string_of(out.as_slice()))
        },
        Some(false) => {
            let mut out = chars_of("reserved transaction path: ");
            push_all(&mut out, chars_of(debug_quote(value).as_str()).as_slice());
            Err(string_of(out.as_slice()))
        },
    }
}

/// Decides `path_verdict`.
pub fn verdict_of(v: &[char]) -> (r: Option<bool>)
    ensures
        r == path_verdict(v@),
{
    if v.len() == 0 || v[0] == '/' {
        return Some(true);
    }
    let mut i: usize = 0;
    while i < v.len()
        invariant
            i <= v.len(),
            forall|j: int| 0 <= j < i ==> !forbidden_char(#[trigger] v@[j]),
        decreases v.len() - i,
    {
        let c = v[i];
        if c == '\\' || c == '\0' || c == '\t' || c == '\r' || c == '\n' {
            assert(forbidden_char(v@[i as int]));
            return Some(true);
        }
        i += 1;
    }
    let two = vec!['/', '/'];
    assert(two@ =~= seq!['/', '/']);
    if crate::text::contains_text(v, two.as_slice()) {
        return Some(true);
    }
    let n = v.len();
    let mut b: usize = n;
    assert(v@.subrange(0, n as int) =~= v@);
    while b > 0 && v[b - 1] == '/'
        invariant
            n == v.len(),
            b <= n,
            strip_trailing_slashes(v@) == strip_trailing_slashes(v@.subrange(0, b as int)),
        decreases b,
    {
        assert(v@.subrange(0, b as int).drop_last() =~= v@.subrange(0, b - 1));
        b -= 1;
    }
    assert(strip_trailing_slashes(v@.subrange(0, b as int)) == v@.subrange(0, b as int));
    let t = slice(v, 0, b);
    scan_components(t.as_slice(), true)
}

fn scan_components(t: &[char], first: bool) -> (r: Option<bool>)
    ensures
        r == component_verdict(t@, first),
    decreases t.len(),
{
    let k = index_of_first(t, '/');
    let c = slice(t, 0, k);
    let dot_dot = c.len() == 2 && c[0] == '.' && c[1] == '.';
    let dot = c.len() == 1 && c[0] == '.';
    assert(dot_dot == (c@ == seq!['.', '.'])) by {
        if c@ == seq!['.', '.'] {
            assert(c@[0] == '.' && c@[1] == '.');
        }
        if dot_dot {
            assert(c@ =~= seq!['.', '.']);
        }
    }
    assert(dot == (c@ == seq!['.'])) by {
        if dot {
            assert(c@ =~= seq!['.']);
        }
    }
    if dot_dot || (first && dot) {
        return Some(true);
    }
    if !dot && (starts_with_lit(c.as_slice(), ".pam-install") || starts_with_lit(
        c.as_slice(),
        ".pam-source",
    ) || starts_with_lit(c.as_slice(), ".pm-install")) {
        return Some(false);
    }
    if k < t.len() {
        let rest = slice(t, k + 1, t.len());
        scan_components(rest.as_slice(), false)
    } else {
        None
    }
}

} // verus!
