//! Bounded abstract evaluation of Bash launchers. Nothing is executed: every
//! command is interpreted symbolically and each unknown stays unknown.
use vstd::prelude::*;

use crate::findings::{check_runtime_name, Findings, MAX_ITEMS, MAX_MESSAGES};
use crate::paths::{file_name, has_parent_dir, join, normalize, parent, path_starts_with};
use crate::shell_sources::SourceEnvironment;
use crate::syntax::{parse_bash, SyntaxTree};
use crate::text::{chars_of, string_of, eq_lit, text_eq, starts_with, starts_with_lit, ends_with, ends_with_lit, has_char, find_char, rfind_char, contains_lit, slice, concat, push_all, push_lit, is_whitespace, is_ascii_digit, is_ascii_alphanumeric, to_ascii_lowercase, trim, split_char, split_ascii_whitespace, decimal, parse_i64, Text};
use crate::textset::TextSet;

verus! {

pub const MAX_BYTES: usize = 4194304;

pub const MAX_VALUE: usize = 4096;

pub const MAX_STEPS: usize = 200000;

pub const MAX_DEPTH: usize = 64;

/// A value that may be unknown.
pub type Value = Option<Text>;

/// Variables, functions and control facts at one program point.
#[derive(Clone)]
pub struct State {
    pub vars: Vec<(Text, Value)>,
    pub unset: Vec<Text>,
    pub functions: Vec<(Text, Text, Text)>,
    pub cwd: Value,
    pub status: Option<bool>,
    pub stopped: bool,
    pub exited: bool,
}

/// The script being evaluated, with its syntax tree.
pub struct Src {
    pub text: Text,
    pub tree: SyntaxTree,
}

impl Src {
    pub open spec fn wf(&self) -> bool {
        self.tree.wf(self.text.len() as nat)
    }

    pub open spec fn node(&self, i: usize) -> bool {
        i < self.tree.nodes.len()
    }

    fn text_of(&self, i: usize) -> (r: Text)
        requires
            self.wf(),
            self.node(i),
        ensures
            r@ == self.text@.subrange(self.tree.nodes@[i as int].start as int, self.tree.nodes@[i as int].end as int),
    {
        assert(crate::syntax::node_wf(
            self.tree.nodes[i as int],
            i as int,
            self.tree.nodes.len() as int,
            self.text.len() as int,
        ));
        slice(self.text.as_slice(), self.tree.nodes[i].start, self.tree.nodes[i].end)
    }

    /// The characters between the end of node `a` and the start of node `b`.
    fn between(&self, a: usize, b: usize) -> (r: Text)
        requires
            self.wf(),
            self.node(a),
            self.node(b),
        ensures
            r@ == (if self.tree.nodes@[a as int].end <= self.tree.nodes@[b as int].start {
                self.text@.subrange(self.tree.nodes@[a as int].end as int, self.tree.nodes@[b as int].start as int)
            } else {
                Seq::<char>::empty()
            }),
    {
        assert(crate::syntax::node_wf(
            self.tree.nodes[a as int],
            a as int,
            self.tree.nodes.len() as int,
            self.text.len() as int,
        ));
        assert(crate::syntax::node_wf(
            self.tree.nodes[b as int],
            b as int,
            self.tree.nodes.len() as int,
            self.text.len() as int,
        ));
        let from = self.tree.nodes[a].end;
        let to = self.tree.nodes[b].start;
        if from <= to {
            slice(self.text.as_slice(), from, to)
        } else {
            Vec::new()
        }
    }

    fn kind(&self, i: usize, lit: &str) -> (r: bool)
        requires
            self.node(i),
        ensures
            r == (self.tree.nodes@[i as int].kind@ == lit@),
    {
        self.tree.kind_is(i, lit)
    }

    fn named(&self, i: usize) -> (r: Vec<usize>)
        requires
            self.wf(),
            self.node(i),
        ensures
            forall|j: int| 0 <= j < r.len() ==> self.node(#[trigger] r[j]) && i < r[j],
            r@ == crate::syntax::children_spec(self.tree.nodes@, i as int, true),
    {
        self.tree.children(i, true, Ghost(self.text@.len()))
    }

    fn all_children(&self, i: usize) -> (r: Vec<usize>)
        requires
            self.wf(),
            self.node(i),
        ensures
            forall|j: int| 0 <= j < r.len() ==> self.node(#[trigger] r[j]),
            r@ == crate::syntax::children_spec(self.tree.nodes@, i as int, false),
    {
        self.tree.children(i, false, Ghost(self.text@.len()))
    }

    fn field(&self, i: usize, name: &str) -> (r: Option<usize>)
        requires
            self.wf(),
            self.node(i),
        ensures
            r matches Some(c) ==> self.node(c),
            r == crate::syntax::first_in_field(
                self.tree.nodes@,
                crate::syntax::children_spec(self.tree.nodes@, i as int, false),
                name@,
            ),
    {
        self.tree.child_by_field(i, name, Ghost(self.text@.len()))
    }

    fn fields(&self, i: usize, name: &str) -> (r: Vec<usize>)
        requires
            self.wf(),
            self.node(i),
        ensures
            forall|j: int| 0 <= j < r.len() ==> self.node(#[trigger] r[j]),
            r@ == crate::syntax::field_children(self.tree.nodes@, i as int, name@),
    {
        self.tree.children_by_field(i, name, Ghost(self.text@.len()))
    }

    fn nth_named(&self, i: usize, k: usize) -> (r: Option<usize>)
        requires
            self.wf(),
            self.node(i),
        ensures
            r matches Some(c) ==> self.node(c),
            r == (if k < crate::syntax::children_spec(self.tree.nodes@, i as int, true).len() {
                Some(crate::syntax::children_spec(self.tree.nodes@, i as int, true)[k as int])
            } else {
                None::<usize>
            }),
    {
        self.tree.named_child(i, k, Ghost(self.text@.len()))
    }

    fn is_named(&self, i: usize) -> (r: bool)
        requires
            self.node(i),
        ensures
            r == self.tree.nodes@[i as int].named,
    {
        self.tree.nodes[i].named
    }
}

/// Bytes of the UTF-8 encoding of `t`.
pub open spec fn utf8_bytes(t: Seq<char>) -> nat
    decreases t.len(),
{
    if t.len() == 0 {
        0
    } else {
        utf8_bytes(t.drop_last()) + crate::syntax::utf8_width_spec(t.last())
    }
}

/// Bytes of the UTF-8 encoding of `t`, saturating.
pub fn byte_len(t: &[char]) -> (r: usize)
    ensures
        r == (if utf8_bytes(t@) <= usize::MAX {
            utf8_bytes(t@)
        } else {
            usize::MAX as nat
        }),
{
    let mut n: usize = 0;
    let mut i: usize = 0;
    while i < t.len()
        invariant
            i <= t.len(),
            n == (if utf8_bytes(t@.subrange(0, i as int)) <= usize::MAX {
                utf8_bytes(t@.subrange(0, i as int))
            } else {
                usize::MAX as nat
            }),
        decreases t.len() - i,
    {
        let w = crate::syntax::utf8_width(t[i]);
        proof {
            assert(t@.subrange(0, i + 1).drop_last() =~= t@.subrange(0, i as int));
            assert(t@.subrange(0, i + 1).last() == t@[i as int]);
        }
        n = if n > usize::MAX - w {
            usize::MAX
        } else {
            n + w
        };
        i += 1;
    }
    assert(t@.subrange(0, t.len() as int) =~= t@);
    n
}

/// Backslash escapes of a shell word: an escaped newline vanishes; inside
/// double quotes only `$ ` " \` lose their backslash.
pub open spec fn spec_unescape(t: Seq<char>, quoted: bool) -> Seq<char>
    decreases t.len(),
{
    if t.len() == 0 {
        seq![]
    } else if t[0] != '\\' {
        seq![t[0]] + spec_unescape(t.drop_first(), quoted)
    } else if t.len() == 1 {
        seq!['\\']
    } else if t[1] == '\n' {
        spec_unescape(t.subrange(2, t.len() as int), quoted)
    } else if quoted && !(t[1] == '$' || t[1] == '`' || t[1] == '"' || t[1] == '\\') {
        seq!['\\', t[1]] + spec_unescape(t.subrange(2, t.len() as int), quoted)
    } else {
        seq![t[1]] + spec_unescape(t.subrange(2, t.len() as int), quoted)
    }
}

pub fn unescape(t: &[char], quoted: bool) -> (r: Text)
    ensures
        r@ == spec_unescape(t@, quoted),
{
    let mut out: Text = Vec::new();
    let mut i: usize = 0;
    assert(t@.subrange(0, t.len() as int) =~= t@);
    while i < t.len()
        invariant
            i <= t.len(),
            spec_unescape(t@, quoted) == out@ + spec_unescape(t@.subrange(i as int, t.len() as int), quoted),
        decreases t.len() - i,
    {
        let ghost rest = t@.subrange(i as int, t.len() as int);
        let c = t[i];
        if c != '\\' {
            assert(rest.drop_first() =~= t@.subrange(i + 1, t.len() as int));
            out.push(c);
            i += 1;
            assert(spec_unescape(t@, quoted) == out@ + spec_unescape(t@.subrange(i as int, t.len() as int), quoted));
        } else if i + 1 < t.len() {
            let next = t[i + 1];
            assert(rest.subrange(2, rest.len() as int) =~= t@.subrange(i + 2, t.len() as int));
            if next == '\n' {
            } else if quoted && !(next == '$' || next == '`' || next == '"' || next == '\\') {
                out.push('\\');
                out.push(next);
            } else {
                out.push(next);
            }
            i += 2;
            assert(spec_unescape(t@, quoted) =~= out@ + spec_unescape(t@.subrange(i as int, t.len() as int), quoted));
        } else {
            out.push('\\');
            i += 1;
            assert(t@.subrange(i as int, t.len() as int) =~= Seq::<char>::empty());
        }
    }
    assert(t@.subrange(t.len() as int, t.len() as int) =~= Seq::<char>::empty());
    out
}

/// Three-valued `&&` and `||`; any other operator is unknown.
pub fn boolean(a: Option<bool>, b: Option<bool>, op: &[char]) -> (r: Option<bool>)
    ensures
        op@ == seq!['&', '&'] ==> r == (if a == Some(false) || b == Some(false) {
            Some(false)
        } else if a is Some && b is Some {
            Some(a.unwrap() && b.unwrap())
        } else {
            None::<bool>
        }),
        op@ == seq!['|', '|'] ==> r == (if a == Some(true) || b == Some(true) {
            Some(true)
        } else if a is Some && b is Some {
            Some(a.unwrap() || b.unwrap())
        } else {
            None::<bool>
        }),
        op@ != seq!['&', '&'] && op@ != seq!['|', '|'] ==> r is None,
{
    proof {
        reveal_strlit("&&");
        reveal_strlit("||");
        assert("&&"@ =~= seq!['&', '&']);
        assert("||"@ =~= seq!['|', '|']);
    }
    if eq_lit(op, "&&") {
        if a == Some(false) || b == Some(false) {
            Some(false)
        } else {
            match (a, b) {
                (Some(x), Some(y)) => Some(x && y),
                _ => None,
            }
        }
    } else if eq_lit(op, "||") {
        if a == Some(true) || b == Some(true) {
            Some(true)
        } else {
            match (a, b) {
                (Some(x), Some(y)) => Some(x || y),
                _ => None,
            }
        }
    } else {
        None
    }
}

pub open spec fn value_view(v: Value) -> Option<Seq<char>> {
    match v {
        Some(t) => Some(t@),
        None => None,
    }
}

/// The first of the first `n` variables named `key`.
pub open spec fn var_index(vars: Seq<(Text, Value)>, key: Seq<char>, n: int) -> Option<int>
    decreases n,
{
    if n <= 0 {
        None
    } else {
        match var_index(vars, key, n - 1) {
            Some(k) => Some(k),
            None => if vars[n - 1].0@ == key {
                Some(n - 1)
            } else {
                None
            },
        }
    }
}

proof fn lemma_var_index(vars: Seq<(Text, Value)>, key: Seq<char>, n: int)
    ensures
        var_index(vars, key, n) matches Some(k) ==> 0 <= k < n && vars[k].0@ == key && forall|j: int|
            0 <= j < k ==> vars[j].0@ != key,
        var_index(vars, key, n) is None ==> forall|j: int| 0 <= j < n ==> vars[j].0@ != key,
    decreases n,
{
    if n > 0 {
        lemma_var_index(vars, key, n - 1);
    }
}

proof fn lemma_var_index_found(vars: Seq<(Text, Value)>, key: Seq<char>, k: int, n: int)
    requires
        0 <= k < n,
        vars[k].0@ == key,
        forall|j: int| 0 <= j < k ==> vars[j].0@ != key,
    ensures
        var_index(vars, key, n) == Some(k),
    decreases n,
{
    if n > k + 1 {
        lemma_var_index_found(vars, key, k, n - 1);
    } else {
        lemma_var_index(vars, key, k);
    }
}

/// Setting `key` changes the entry of `key` alone.
proof fn lemma_var_lookup_after_set(
    before: Seq<(Text, Value)>,
    after: Seq<(Text, Value)>,
    key: Text,
    value: Value,
    other: Seq<char>,
)
    requires
        match var_index(before, key@, before.len() as int) {
            Some(k) => after == before.update(k, (key, value)),
            None => after == before.push((key, value)),
        },
    ensures
        var_lookup(after, other) == if other == key@ {
            Some(value_view(value))
        } else {
            var_lookup(before, other)
        },
{
    let n = before.len() as int;
    let m = after.len() as int;
    lemma_var_index(before, key@, n);
    lemma_var_index(before, other, n);
    lemma_var_index(after, other, m);
    if other == key@ {
        match var_index(before, key@, n) {
            Some(k) => {
                assert forall|j: int| 0 <= j < k implies after[j].0@ != other by {
                    assert(after[j] == before[j]);
                }
                lemma_var_index_found(after, other, k, m);
            },
            None => {
                assert forall|j: int| 0 <= j < n implies after[j].0@ != other by {
                    assert(after[j] == before[j]);
                }
                lemma_var_index_found(after, other, n, m);
            },
        }
    } else {
        match var_index(before, other, n) {
            Some(q) => {
                assert(after[q] == before[q]);
                assert forall|j: int| 0 <= j < q implies after[j].0@ != other by {
                    if after[j] != before[j] {
                        assert(after[j].0@ == key@);
                    }
                }
                lemma_var_index_found(after, other, q, m);
            },
            None => {
                if var_index(after, other, m) is Some {
                    let q = var_index(after, other, m)->0;
                    if q < n && after[q] == before[q] {
                        assert(before[q].0@ != other);
                    } else {
                        assert(after[q].0@ == key@);
                    }
                }
            },
        }
    }
}

/// Without an entry named `key`, `key` has no entry.
proof fn lemma_var_lookup_absent(vars: Seq<(Text, Value)>, key: Seq<char>)
    requires
        forall|j: int| 0 <= j < vars.len() ==> (#[trigger] vars[j]).0@ != key,
    ensures
        var_lookup(vars, key) is None,
{
    lemma_var_index(vars, key, vars.len() as int);
}

/// The kind of node `i`.
pub open spec fn node_kind(cx: &Src, i: int) -> Seq<char> {
    cx.tree.nodes@[i].kind@
}

/// The source text of node `i`.
pub open spec fn node_text(cx: &Src, i: int) -> Seq<char> {
    cx.text@.subrange(cx.tree.nodes@[i].start as int, cx.tree.nodes@[i].end as int)
}

/// `${name}` with a plain variable name.
pub open spec fn plain_braced_reference(t: Seq<char>) -> bool {
    let rest = t.subrange("${"@.len() as int, t.len() as int);
    &&& crate::text::is_prefix("${"@, t)
    &&& crate::text::is_suffix("}"@, rest)
    &&& {
        let name = rest.subrange(0, rest.len() - "}"@.len());
        name.len() > 0 && forall|j: int| 0 <= j < name.len() ==> name_char(#[trigger] name[j])
    }
}

/// Whether the word at `node` expands without side effects, and the steps
/// left after deciding it: literal text, a single-valued variable reference,
/// or a string or concatenation made of such words. Each word examined takes
/// one step; an exhausted budget or a too deep word answers `false`.
pub open spec fn passive_word_run(cx: &Src, node: int, steps: nat, depth: int) -> (bool, nat)
    decreases steps, 0int, 0int,
{
    if steps == 0 || depth > MAX_DEPTH {
        (false, steps)
    } else {
        let s = (steps - 1) as nat;
        let k = node_kind(cx, node);
        if k == "word"@ || k == "number"@ || k == "raw_string"@ || k == "string_content"@ {
            (true, s)
        } else if k == "simple_expansion"@ {
            (!(node_text(cx, node) == "$@"@ || node_text(cx, node) == "$*"@), s)
        } else if k == "expansion"@ {
            (plain_braced_reference(node_text(cx, node)), s)
        } else if k == "string"@ || k == "concatenation"@ {
            passive_words_run(cx, crate::syntax::children_spec(cx.tree.nodes@, node, true), 0, s, depth + 1)
        } else {
            (false, s)
        }
    }
}

/// `passive_word_run` over `kids` from position `i`, stopping at the first
/// word that is not passive.
pub open spec fn passive_words_run(cx: &Src, kids: Seq<usize>, i: int, steps: nat, depth: int) -> (bool, nat)
    decreases steps, 1int, kids.len() - i,
{
    if i < 0 || i >= kids.len() {
        (true, steps)
    } else {
        let (b, after) = passive_word_run(cx, kids[i] as int, steps, depth);
        if !b {
            (false, after)
        } else {
            passive_words_run(cx, kids, i + 1, if after <= steps { after } else { steps }, depth)
        }
    }
}

/// `t` with its whitespace removed.
pub open spec fn without_whitespace(t: Seq<char>) -> Seq<char> {
    t.filter(|c: char| !crate::text::spec_is_whitespace(c))
}

/// A redirection that only discards output.
pub open spec fn discarding_redirect(t: Seq<char>) -> bool {
    let c = without_whitespace(t);
    c == ">/dev/null"@ || c == "1>/dev/null"@ || c == "2>/dev/null"@
}

/// Commands that only wait or probe.
pub open spec fn waiting_command(c: Seq<char>) -> bool {
    c == "sleep"@ || c == "kill"@ || c == "true"@ || c == "false"@ || c == ":"@
}

/// The nodes of `s` other than `name`, in order.
pub open spec fn other_than(s: Seq<usize>, name: usize) -> Seq<usize> {
    s.filter(|x: usize| x != name)
}

/// `kill -0 PID`: the signal probe with a literal process id.
pub open spec fn kill_probe_arguments(cx: &Src, args: Seq<usize>) -> bool {
    &&& args.len() == 2
    &&& node_kind(cx, args[0] as int) == "word"@ || node_kind(cx, args[0] as int) == "number"@
    &&& node_text(cx, args[0] as int) == "-0"@
    &&& node_kind(cx, args[1] as int) == "number"@ || node_kind(cx, args[1] as int) == "string"@
        || node_kind(cx, args[1] as int) == "raw_string"@
}

/// Whether the statement at `node` only waits or probes a process, and the
/// steps left after deciding it; each statement examined takes one step, and
/// an exhausted budget or a too deep statement answers `false`.
pub open spec fn passive_wait_run(cx: &Src, node: int, state: &State, steps: nat, depth: int) -> (bool, nat)
    decreases steps, 0int, 0int,
{
    if steps == 0 || depth > MAX_DEPTH {
        (false, steps)
    } else {
        let s = (steps - 1) as nat;
        let k = node_kind(cx, node);
        if k == "comment"@ {
            (true, s)
        } else if k == "while_statement"@ || k == "do_group"@ || k == "compound_statement"@ || k == "list"@
            || k == "negated_command"@ || k == "redirected_statement"@ {
            passive_waits_run(cx, crate::syntax::children_spec(cx.tree.nodes@, node, true), 0, state, s, depth + 1)
        } else if k == "file_redirect"@ {
            (discarding_redirect(node_text(cx, node)), s)
        } else if k == "command"@ {
            match crate::syntax::first_in_field(
                cx.tree.nodes@,
                crate::syntax::children_spec(cx.tree.nodes@, node, false),
                "name"@,
            ) {
                None => (false, s),
                Some(name) => {
                    let c = node_text(cx, name as int);
                    let args = other_than(crate::syntax::children_spec(cx.tree.nodes@, node, true), name);
                    if !waiting_command(c) || function_lookup(state.functions@, c) is Some {
                        (false, s)
                    } else if c == "kill"@ && !kill_probe_arguments(cx, args) {
                        (false, s)
                    } else {
                        passive_words_run(cx, args, 0, s, depth + 1)
                    }
                },
            }
        } else {
            (false, s)
        }
    }
}

/// `passive_wait_run` over `kids` from position `i`, stopping at the first
/// statement that is not passive.
pub open spec fn passive_waits_run(cx: &Src, kids: Seq<usize>, i: int, state: &State, steps: nat, depth: int) -> (bool, nat)
    decreases steps, 1int, kids.len() - i,
{
    if i < 0 || i >= kids.len() {
        (true, steps)
    } else {
        let (b, after) = passive_wait_run(cx, kids[i] as int, state, steps, depth);
        if !b {
            (false, after)
        } else {
            passive_waits_run(cx, kids, i + 1, state, if after <= steps { after } else { steps }, depth)
        }
    }
}

/// A `case` pattern `prefix*suffix` whose star is at `k` matches `value` when
/// `value` starts with `prefix`, ends with `suffix`, and is long enough for both.
pub open spec fn single_star_match(raw: Seq<char>, value: Seq<char>, k: int) -> bool {
    let prefix = raw.subrange(0, k);
    let suffix = raw.subrange(k + 1, raw.len() as int);
    &&& value.len() >= prefix.len() + suffix.len()
    &&& crate::text::is_prefix(prefix, value)
    &&& crate::text::is_suffix(suffix, value)
}

/// A pattern with one `*`, at `k`, and no other glob or escape character.
pub open spec fn single_star_pattern(raw: Seq<char>, k: int) -> bool {
    &&& 0 <= k < raw.len()
    &&& raw[k] == '*'
    &&& forall|j: int| 0 <= j < raw.len() && j != k ==> raw[j] != '*'
    &&& !raw.contains('?')
    &&& !raw.contains('[')
    &&& !raw.contains('\\')
}

/// Some child of `node` stands in the field `field`.
pub open spec fn has_field_child(cx: &Src, node: int, field: Seq<char>) -> bool {
    let cs = crate::syntax::children_spec(cx.tree.nodes@, node, false);
    exists|j: int| 0 <= j < cs.len() && crate::syntax::in_field(cx.tree.nodes@, #[trigger] cs[j], field)
}

/// The value of `HOME` in `state`, when known.
pub open spec fn home_value(state: &State) -> Option<Seq<char>> {
    match var_lookup(state.vars@, "HOME"@) {
        Some(v) => v,
        None => None,
    }
}

/// The value of a word node that needs no nested evaluation, when `node` is
/// one (`None`: another kind of node): a plain word, number or name is its
/// text with escapes removed (unknown when a plain word holds a glob character
/// or a brace), `~` and `~/...` expand `HOME`, a single-quoted string is its
/// inside, and `$NAME` is the variable's value (`$?` the last status as `0` or
/// `1`, `$PWD` the working directory).
pub open spec fn literal_word_value(cx: &Src, node: int, state: &State) -> Option<Option<Seq<char>>> {
    let k = node_kind(cx, node);
    let t = node_text(cx, node);
    if k == "word"@ || k == "string_content"@ || k == "number"@ || k == "variable_name"@ {
        if k == "word"@ && ((exists|j: int| 0 <= j < t.len() && spec_glob_char(#[trigger] t[j])) || t.contains('{')) {
            Some(None)
        } else if t == "~"@ {
            Some(home_value(state))
        } else if crate::text::is_prefix("~/"@, t) {
            Some(
                match home_value(state) {
                    Some(h) => Some(h + seq!['/'] + t.subrange("~/"@.len() as int, t.len() as int)),
                    None => None,
                },
            )
        } else {
            Some(Some(spec_unescape(t, k == "string_content"@)))
        }
    } else if k == "raw_string"@ {
        Some(
            if t.len() >= 2 && t[0] == '\'' && t[t.len() - 1] == '\'' {
                Some(t.subrange(1, t.len() - 1))
            } else {
                None
            },
        )
    } else if k == "simple_expansion"@ {
        let u = crate::text::trim_start_spec(t);
        Some(
            if !crate::text::is_prefix("$"@, u) {
                None
            } else {
                let name = u.subrange("$"@.len() as int, u.len() as int);
                if name == "?"@ {
                    match state.status {
                        Some(true) => Some("0"@),
                        Some(false) => Some("1"@),
                        None => None,
                    }
                } else if name == "PWD"@ {
                    value_view(state.cwd)
                } else {
                    match var_lookup(state.vars@, name) {
                        Some(v) => v,
                        None => None,
                    }
                }
            },
        )
    } else {
        None
    }
}

/// The commands whose operands are written, moved or removed.
pub open spec fn destructive_command(n: Seq<char>) -> bool {
    n == "cp"@ || n == "mv"@ || n == "rm"@ || n == "mkdir"@ || n == "rmdir"@ || n == "touch"@ || n == "install"@
        || n == "ln"@
}

/// Argument `i` is a word naming a destructive command.
pub open spec fn destructive_arg(args: Seq<Value>, i: int) -> bool {
    value_view(args[i]) matches Some(w) && destructive_word(w)
}

/// Argument `i` is the first that names a destructive command.
pub open spec fn first_destructive(args: Seq<Value>, i: int) -> bool {
    &&& 0 <= i < args.len()
    &&& destructive_arg(args, i)
    &&& forall|j: int| 0 <= j < i ==> !destructive_arg(args, j)
}

/// The known arguments among `args[from..to]` that are not options.
pub open spec fn operands_in(args: Seq<Value>, from: int, to: int) -> Seq<Seq<char>>
    decreases to - from,
{
    if to <= from {
        Seq::empty()
    } else {
        let prev = operands_in(args, from, to - 1);
        match value_view(args[to - 1]) {
            Some(w) => if w.len() > 0 && w[0] == '-' {
                prev
            } else {
                prev.push(w)
            },
            None => prev,
        }
    }
}

/// The operands that the command `cmd` writes, moves or removes: `cp`,
/// `install` and `ln` write only their destination, the last operand; the
/// others act on every operand.
pub open spec fn written_operands(cmd: Seq<char>, ops: Seq<Seq<char>>) -> Seq<Seq<char>> {
    if (cmd == "cp"@ || cmd == "install"@ || cmd == "ln"@) && ops.len() > 0 {
        seq![ops.last()]
    } else {
        ops
    }
}

/// The commands that replace or remove what their targets held.
pub open spec fn replacing_command(cmd: Seq<char>) -> bool {
    cmd == "cp"@ || cmd == "mv"@ || cmd == "rm"@ || cmd == "rmdir"@ || cmd == "install"@ || cmd == "ln"@
}

/// The command named by a word.
pub open spec fn command_of(w: Value) -> Seq<char> {
    match value_view(w) {
        Some(v) => match crate::paths::file_name_of(v) {
            Some(n) => n,
            None => Seq::empty(),
        },
        None => Seq::empty(),
    }
}

/// `x` may be what the operand `t` resolves to: its normalized absolute
/// form, or, for a path through `..`, whatever the environment resolves.
pub open spec fn resolves_to(t: Seq<char>, cwd: Option<Seq<char>>, x: Seq<char>) -> bool {
    based_path(t, cwd) matches Some(b) && (crate::shell_sources::has_dot_dot_component(b) || x == crate::paths::normal_form(b))
}

/// A word whose file name is one of the destructive commands.
pub open spec fn destructive_word(v: Seq<char>) -> bool {
    crate::paths::file_name_of(v) matches Some(n) && destructive_command(n)
}

/// `node` is the simple command `cd DIR`: a command name holding the plain
/// word `cd`, then one plain word whose value is `dir` in every state, and no
/// assignment.
pub open spec fn simple_cd(cx: &Src, node: int, dir: Seq<char>) -> bool {
    let nodes = cx.tree.nodes@;
    let kids = crate::syntax::children_spec(nodes, node, true);
    let name_kids = crate::syntax::children_spec(nodes, kids[0] as int, true);
    &&& kids.len() == 2
    &&& node_kind(cx, kids[0] as int) == "command_name"@
    &&& name_kids.len() > 0
    &&& node_kind(cx, name_kids[0] as int) == "word"@
    &&& forall|s: State| #[trigger] literal_word_value(cx, name_kids[0] as int, &s) == Some(Some("cd"@))
    &&& node_kind(cx, kids[1] as int) == "word"@
    &&& forall|s: State| #[trigger] literal_word_value(cx, kids[1] as int, &s) == Some(Some(dir))
    &&& match crate::syntax::first_in_field(nodes, crate::syntax::children_spec(nodes, node, false), "name"@) {
        Some(n) => node_text(cx, n as int) != "sleep"@ && node_text(cx, n as int) != "kill"@,
        None => true,
    }
}

/// The command's name is its part `m`, after only prefix assignments, and is
/// a plain word whose value is `n` in every state.
pub open spec fn prefixed_name(cx: &Src, node: int, m: int, n: Seq<char>) -> bool {
    let nodes = cx.tree.nodes@;
    let kids = crate::syntax::children_spec(nodes, node, true);
    let name_kids = crate::syntax::children_spec(nodes, kids[m] as int, true);
    &&& 0 <= m < kids.len()
    &&& forall|j: int| 0 <= j < m ==> node_kind(cx, #[trigger] kids[j] as int) == "variable_assignment"@
    &&& node_kind(cx, kids[m] as int) == "command_name"@
    &&& name_kids.len() > 0
    &&& node_kind(cx, name_kids[0] as int) == "word"@
    &&& forall|s: State| #[trigger] literal_word_value(cx, name_kids[0] as int, &s) == Some(Some(n))
}

/// The variables of `v`, each with an unknown value.
pub open spec fn forgotten(v: Seq<(Text, Value)>) -> Seq<(Seq<char>, Option<Seq<char>>)> {
    vars_view(v).map_values(|e: (Seq<char>, Option<Seq<char>>)| (e.0, None::<Seq<char>>))
}

/// The name and value nodes of an assignment `NAME=VALUE`.
pub open spec fn assignment_parts(cx: &Src, node: int) -> Option<(usize, usize)> {
    let nodes = cx.tree.nodes@;
    let cs = crate::syntax::children_spec(nodes, node, false);
    match (crate::syntax::first_in_field(nodes, cs, "name"@), crate::syntax::first_in_field(nodes, cs, "value"@)) {
        (Some(n), Some(v)) => Some((n, v)),
        _ => None,
    }
}

/// The text between nodes `n` and `v` (an operator), trimmed.
pub open spec fn operator_between(cx: &Src, n: int, v: int) -> Seq<char> {
    let nodes = cx.tree.nodes@;
    crate::text::trimmed(
        if nodes[n].end <= nodes[v].start {
            cx.text@.subrange(nodes[n].end as int, nodes[v].start as int)
        } else {
            Seq::<char>::empty()
        },
    )
}

/// The value a plain assignment stores: the word's value, or unknown when it
/// is unknown or longer than `MAX_VALUE` bytes.
pub open spec fn stored_value(x: Option<Seq<char>>) -> Option<Seq<char>> {
    match x {
        Some(t) => if utf8_bytes(t) <= MAX_VALUE {
            Some(t)
        } else {
            None
        },
        None => None,
    }
}

/// The value of the parameter `key`: the working directory for `PWD`,
/// otherwise the variable's known value.
pub open spec fn parameter_value(key: Seq<char>, state: &State) -> Option<Seq<char>> {
    if key == "PWD"@ {
        value_view(state.cwd)
    } else {
        match var_lookup(state.vars@, key) {
            Some(v) => v,
            None => None,
        }
    }
}

/// The parameter that a `${...}` node names, when it names a plain one.
pub open spec fn expansion_key(cx: &Src, node: int) -> Option<Seq<char>> {
    let kids = crate::syntax::children_spec(cx.tree.nodes@, node, true);
    if kids.len() > 0 && node_kind(cx, kids[0] as int) != "subscript"@ {
        Some(node_text(cx, kids[0] as int))
    } else {
        None
    }
}

/// The operator node of a `${...}` node, if any.
pub open spec fn expansion_operator(cx: &Src, node: int) -> Option<usize> {
    crate::syntax::first_in_field(cx.tree.nodes@, crate::syntax::children_spec(cx.tree.nodes@, node, false), "operator"@)
}

/// `t` without its leading ASCII digits.
pub open spec fn after_digits(t: Seq<char>) -> Seq<char>
    decreases t.len(),
{
    if t.len() > 0 && crate::text::spec_is_ascii_digit(t[0]) {
        after_digits(t.drop_first())
    } else {
        t
    }
}

/// `node` is an output redirection (`> FILE`, `N> FILE`, `>> FILE`, not a
/// descriptor duplication) with exactly one destination, a plain word.
pub open spec fn plain_output_redirect(cx: &Src, node: int) -> bool {
    let t = node_text(cx, node);
    let rest = after_digits(crate::text::trim_start_spec(t));
    let targets = crate::syntax::field_children(cx.tree.nodes@, node, "destination"@);
    &&& !(crate::text::contains_seq(t, ">&"@) || crate::text::contains_seq(t, "<&"@))
    &&& !(rest.len() > 0 && rest[0] == '<')
    &&& targets.len() == 1
    &&& node_kind(cx, targets[0] as int) == "word"@
}

/// The left and right operand nodes of a binary test.
pub open spec fn binary_parts(cx: &Src, node: int) -> Option<(usize, usize)> {
    let nodes = cx.tree.nodes@;
    let cs = crate::syntax::children_spec(nodes, node, false);
    match (crate::syntax::first_in_field(nodes, cs, "left"@), crate::syntax::first_in_field(nodes, cs, "right"@)) {
        (Some(l), Some(r)) => Some((l, r)),
        _ => None,
    }
}

/// The outcome of the string test `a OP b` on operand values, when `OP` is a
/// string comparison: unknown when an operand is unknown.
pub open spec fn string_test(op: Seq<char>, a: Option<Seq<char>>, b: Option<Seq<char>>) -> Option<bool> {
    match (a, b) {
        (Some(x), Some(y)) => if op == "="@ || op == "=="@ {
            Some(x == y)
        } else {
            Some(x != y)
        },
        _ => None,
    }
}

/// The outcome of the string test at binary node `node`, when its operator
/// is a string comparison and both operands are words that need no nested
/// evaluation (`None`: not such a test).
pub open spec fn decided_string_test(cx: &Src, node: int, state: &State) -> Option<Option<bool>> {
    if node_kind(cx, node) != "binary_expression"@ {
        None
    } else {
        match binary_parts(cx, node) {
            Some((l, rt)) => {
                let op = operator_between(cx, l as int, rt as int);
                if op == "="@ || op == "=="@ || op == "!="@ {
                    match (literal_word_value(cx, l as int, state), literal_word_value(cx, rt as int, state)) {
                        (Some(a), Some(b)) => Some(string_test(op, a, b)),
                        _ => None,
                    }
                } else {
                    None
                }
            },
            None => None,
        }
    }
}

/// The pieces of a list of preload entries: each `:`-separated part split
/// on whitespace, in order.
pub open spec fn pieces_of(parts: Seq<Seq<char>>) -> Seq<Seq<char>>
    decreases parts.len(),
{
    if parts.len() == 0 {
        Seq::empty()
    } else {
        pieces_of(parts.drop_last()) + crate::text::ws_split(parts.last())
    }
}

/// The libraries that an `LD_PRELOAD` value names.
pub open spec fn preload_pieces(value: Seq<char>) -> Seq<Seq<char>> {
    pieces_of(crate::text::split_spec(value, ':'))
}

proof fn lemma_pieces_prefix(parts: Seq<Seq<char>>, i: int)
    requires
        0 <= i <= parts.len(),
    ensures
        pieces_of(parts.subrange(0, i)).len() <= pieces_of(parts).len(),
    decreases parts.len(),
{
    if i < parts.len() {
        assert(parts.drop_last().subrange(0, i) =~= parts.subrange(0, i));
        lemma_pieces_prefix(parts.drop_last(), i);
    } else {
        assert(parts.subrange(0, i) =~= parts);
    }
}

/// The directory an `LD_LIBRARY_PATH` entry names: an empty entry is the
/// current directory.
pub open spec fn library_entry(part: Seq<char>) -> Seq<char> {
    if part.len() == 0 {
        "."@
    } else {
        part
    }
}

/// The library directory `w` is in `f`, by the absolute, normalized path it
/// resolves to (also a path reference), when it is a plain local path that
/// resolves without `..`.
pub open spec fn library_recorded(f: Findings, w: Seq<char>, cwd: Option<Seq<char>>) -> bool {
    !(crate::text::contains_seq(w, "://"@) || crate::text::is_prefix("rgbi:"@, w)) && !(utf8_bytes(w) > MAX_VALUE
        || w.contains('\0')) ==> match based_path(w, cwd) {
        Some(b) => !crate::shell_sources::has_dot_dot_component(b) ==> {
            &&& f.library_paths.has(crate::paths::normal_form(b))
            &&& f.paths.has(crate::paths::normal_form(b))
        },
        None => true,
    }
}

/// The preload library `w` is in `f`: a name with a `/` by the absolute,
/// normalized path it resolves to (also a path reference), when it is a
/// plain local path that resolves without `..`; a bare name as written.
pub open spec fn preload_recorded(f: Findings, w: Seq<char>, cwd: Option<Seq<char>>) -> bool {
    if w.contains('/') {
        !(crate::text::contains_seq(w, "://"@) || crate::text::is_prefix("rgbi:"@, w)) && !(utf8_bytes(w) > MAX_VALUE
            || w.contains('\0')) ==> match based_path(w, cwd) {
            Some(b) => !crate::shell_sources::has_dot_dot_component(b) ==> {
                &&& f.preload_libraries.has(crate::paths::normal_form(b))
                &&& f.paths.has(crate::paths::normal_form(b))
            },
            None => true,
        }
    } else {
        f.preload_libraries.has(w)
    }
}

/// A program whose only statement is a command.
pub open spec fn single_command_program(cx: &Src, node: int) -> bool {
    let kids = crate::syntax::children_spec(cx.tree.nodes@, node, true);
    &&& node_kind(cx, node) == "program"@
    &&& kids.len() == 1
    &&& node_kind(cx, kids[0] as int) == "command"@
}

/// An absolute directory without `..` components.
pub open spec fn plain_absolute(dir: Seq<char>) -> bool {
    dir.len() > 0 && dir[0] == '/' && !crate::shell_sources::has_dot_dot_component(dir)
}

/// The only statement of a command substitution, when it is a command.
pub open spec fn substitution_command(cx: &Src, node: int) -> Option<int> {
    let kids = crate::syntax::children_spec(cx.tree.nodes@, node, true);
    if kids.len() == 1 && node_kind(cx, kids[0] as int) == "command"@ {
        Some(kids[0] as int)
    } else {
        None
    }
}

/// The value of a command's name, when it is a literal word.
pub open spec fn command_name_value(cx: &Src, command: int, state: &State) -> Option<Option<Seq<char>>> {
    let nodes = cx.tree.nodes@;
    let words = crate::syntax::children_spec(nodes, command, true);
    if words.len() > 0 && node_kind(cx, words[0] as int) == "command_name"@ && crate::syntax::children_spec(
        nodes,
        words[0] as int,
        true,
    ).len() > 0 {
        literal_word_value(cx, crate::syntax::children_spec(nodes, words[0] as int, true)[0] as int, state)
    } else {
        None
    }
}

/// The commands whose output a substitution models.
pub open spec fn modeled_command(n: Seq<char>) -> bool {
    n == "pwd"@ || n == "dirname"@ || n == "basename"@ || n == "readlink"@ || n == "cat"@
}

/// A list `A op B` whose first part `A` is a test command with an operand.
pub open spec fn short_circuit_test(cx: &Src, node: int) -> bool {
    let nodes = cx.tree.nodes@;
    let kids = crate::syntax::children_spec(nodes, node, true);
    &&& kids.len() >= 2
    &&& node_kind(cx, kids[0] as int) == "test_command"@
    &&& crate::syntax::children_spec(nodes, kids[0] as int, true).len() > 0
}

/// The test inside the first part of a list.
pub open spec fn list_test(cx: &Src, node: int) -> int {
    let nodes = cx.tree.nodes@;
    crate::syntax::children_spec(nodes, crate::syntax::children_spec(nodes, node, true)[0] as int, true)[0] as int
}

/// The second part of the list is skipped once its first part has status `t`:
/// `&&` after a failure, `||` after a success.
pub open spec fn short_circuited(cx: &Src, node: int, t: Option<bool>) -> bool {
    let kids = crate::syntax::children_spec(cx.tree.nodes@, node, true);
    let op = operator_between(cx, kids[0] as int, kids[1] as int);
    (op == "&&"@ && t == Some(false)) || (op == "||"@ && t == Some(true))
}

/// The operator and operand of a unary test node, when it has an operand
/// after its start.
pub open spec fn unary_parts(cx: &Src, node: int) -> Option<(Seq<char>, usize)> {
    let nodes = cx.tree.nodes@;
    let kids = crate::syntax::children_spec(nodes, node, true);
    if kids.len() == 0 || nodes[kids.last() as int].start < nodes[node].start {
        None
    } else {
        Some((crate::text::trimmed(cx.text@.subrange(nodes[node].start as int, nodes[kids.last() as int].start as int)), kids.last()))
    }
}

/// A file test operator.
pub open spec fn file_test(op: Seq<char>) -> bool {
    op == "-d"@ || op == "-f"@ || op == "-e"@ || op == "-x"@ || op == "-L"@ || op == "-h"@
}

/// What a plain assignment `NAME=VALUE` at `node` does to the state, when
/// its value is a word that needs no nested evaluation and there is room for
/// the variable: the variable holds the value (unknown when it is unknown or
/// too long) and is no longer listed as unset.
pub open spec fn assigned(cx: &Src, node: int, before: &State, after: &State) -> bool {
    match assignment_parts(cx, node) {
        Some((n, v)) => node_kind(cx, n as int) == "variable_name"@ && operator_between(cx, n as int, v as int) == "="@ && (
        before.vars.len() < MAX_ITEMS || var_lookup(before.vars@, node_text(cx, n as int)) is Some) ==> match literal_word_value(
            cx,
            v as int,
            before,
        ) {
            Some(x) => {
                &&& var_lookup(after.vars@, node_text(cx, n as int)) == Some(stored_value(x))
                &&& !texts_view(after.unset@).contains(node_text(cx, n as int))
                &&& stored_value(x) is Some ==> after.status == Some(true)
            },
            None => true,
        },
        None => true,
    }
}

/// Options and names that `unset` accepts.
pub open spec fn unset_word_ok(w: Value) -> bool {
    match w {
        None => false,
        Some(n) => unset_flag(n@) || (n@.len() > 0 && forall|j: int| 0 <= j < n@.len() ==> name_char(#[trigger] n@[j])),
    }
}

/// The options of `unset` that name nothing.
pub open spec fn unset_flag(n: Seq<char>) -> bool {
    n == "-v"@ || n == "-f"@ || n == "--"@
}

/// Whether the names before position `i` leave `unset` removing functions.
pub open spec fn unset_function_mode(names: Seq<Value>, i: int) -> bool
    decreases i,
{
    if i <= 0 {
        false
    } else {
        match names[i - 1] {
            Some(n) => if n@ == "-v"@ {
                false
            } else if n@ == "-f"@ {
                true
            } else {
                unset_function_mode(names, i - 1)
            },
            None => unset_function_mode(names, i - 1),
        }
    }
}

/// No function named `name` is defined.
pub open spec fn no_function(fs: Seq<(Text, Text, Text)>, name: Seq<char>) -> bool {
    forall|f: (Seq<char>, Seq<char>, Seq<char>)| #[trigger] functions_view(fs).contains(f) ==> f.0 != name
}

/// The entry of the variable `key`: absent, or set with a known or unknown
/// value.
pub open spec fn var_lookup(vars: Seq<(Text, Value)>, key: Seq<char>) -> Option<Option<Seq<char>>> {
    match var_index(vars, key, vars.len() as int) {
        Some(k) => Some(value_view(vars[k].1)),
        None => None,
    }
}

pub open spec fn entry_view(e: Option<Value>) -> Option<Option<Seq<char>>> {
    match e {
        Some(v) => Some(value_view(v)),
        None => None,
    }
}

fn copy_value(v: &Value) -> (r: Value)
    ensures
        value_view(r) == value_view(*v),
{
    match v {
        Some(t) => Some(slice(t.as_slice(), 0, t.len())),
        None => None,
    }
}

fn copy_text(t: &Text) -> (r: Text)
    ensures
        r@ == t@,
{
    assert(t@.subrange(0, t.len() as int) =~= t@);
    slice(t.as_slice(), 0, t.len())
}

/// A copy of `state` with the same facts.
pub fn copy_state(state: &State) -> (r: State)
    ensures
        vars_view(r.vars@) == vars_view(state.vars@),
        texts_view(r.unset@) == texts_view(state.unset@),
        functions_view(r.functions@) == functions_view(state.functions@),
        value_view(r.cwd) == value_view(state.cwd),
        r.status == state.status,
        r.stopped == state.stopped,
        r.exited == state.exited,
{
    let mut vars: Vec<(Text, Value)> = Vec::new();
    let mut i: usize = 0;
    while i < state.vars.len()
        invariant
            i <= state.vars.len(),
            vars.len() == i,
            forall|j: int| 0 <= j < i ==> (#[trigger] vars@[j]).0@ == state.vars@[j].0@ && value_view(vars@[j].1) == value_view(state.vars@[j].1),
        decreases state.vars.len() - i,
    {
        vars.push((copy_text(&state.vars[i].0), copy_value(&state.vars[i].1)));
        i += 1;
    }
    assert(vars_view(vars@) =~= vars_view(state.vars@));
    let mut unset: Vec<Text> = Vec::new();
    let mut i: usize = 0;
    while i < state.unset.len()
        invariant
            i <= state.unset.len(),
            unset.len() == i,
            forall|j: int| 0 <= j < i ==> (#[trigger] unset@[j])@ == state.unset@[j]@,
        decreases state.unset.len() - i,
    {
        unset.push(copy_text(&state.unset[i]));
        i += 1;
    }
    assert(texts_view(unset@) =~= texts_view(state.unset@));
    let mut functions: Vec<(Text, Text, Text)> = Vec::new();
    let mut i: usize = 0;
    while i < state.functions.len()
        invariant
            i <= state.functions.len(),
            functions.len() == i,
            forall|j: int| 0 <= j < i ==> function_view(#[trigger] functions@[j]) == function_view(state.functions@[j]),
        decreases state.functions.len() - i,
    {
        let f = &state.functions[i];
        functions.push((copy_text(&f.0), copy_text(&f.1), copy_text(&f.2)));
        i += 1;
    }
    assert(functions_view(functions@) =~= functions_view(state.functions@));
    State {
        vars,
        unset,
        functions,
        cwd: copy_value(&state.cwd),
        status: state.status,
        stopped: state.stopped,
        exited: state.exited,
    }
}

/// Looks up a variable: `None` when absent, `Some(value)` otherwise.
pub fn var_entry(state: &State, key: &[char]) -> (r: Option<Value>)
    ensures
        entry_view(r) == var_lookup(state.vars@, key@),
{
    let mut i: usize = 0;
    while i < state.vars.len()
        invariant
            i <= state.vars.len(),
            forall|j: int| 0 <= j < i ==> state.vars@[j].0@ != key@,
        decreases state.vars.len() - i,
    {
        if text_eq(state.vars[i].0.as_slice(), key) {
            proof {
                lemma_var_index_found(state.vars@, key@, i as int, state.vars@.len() as int);
            }
            return Some(copy_value(&state.vars[i].1));
        }
        i += 1;
    }
    proof {
        lemma_var_index(state.vars@, key@, state.vars@.len() as int);
        if var_index(state.vars@, key@, state.vars@.len() as int) is Some {
            let k = var_index(state.vars@, key@, state.vars@.len() as int)->0;
            assert(state.vars@[k].0@ != key@);
        }
    }
    None
}

/// The known value of a variable, if it is set and known.
pub fn var_get(state: &State, key: &[char]) -> (r: Value)
    ensures
        value_view(r) == (match var_lookup(state.vars@, key@) {
            Some(v) => v,
            None => None,
        }),
{
    match var_entry(state, key) {
        Some(v) => v,
        None => None,
    }
}

/// Sets `key` to `value`: the first variable of that name is replaced,
/// or the variable is added at the end.
pub fn var_set(state: &mut State, key: Text, value: Value)
    ensures
        final(state).functions == old(state).functions,
        final(state).unset == old(state).unset,
        final(state).stopped == old(state).stopped,
        final(state).exited == old(state).exited,
        final(state).cwd == old(state).cwd,
        final(state).status == old(state).status,
        match var_index(old(state).vars@, key@, old(state).vars@.len() as int) {
            Some(k) => final(state).vars@ == old(state).vars@.update(k, (key, value)),
            None => final(state).vars@ == old(state).vars@.push((key, value)),
        },
{
    let ghost before = state.vars@;
    let mut i: usize = 0;
    while i < state.vars.len()
        invariant
            i <= state.vars.len(),
            state.vars@ == before,
            before == old(state).vars@,
            forall|j: int| 0 <= j < i ==> before[j].0@ != key@,
            state.functions == old(state).functions,
            state.unset == old(state).unset,
            state.stopped == old(state).stopped,
            state.exited == old(state).exited,
            state.cwd == old(state).cwd,
            state.status == old(state).status,
        decreases state.vars.len() - i,
    {
        if text_eq(state.vars[i].0.as_slice(), key.as_slice()) {
            proof {
                lemma_var_index_found(before, key@, i as int, before.len() as int);
            }
            state.vars.set(i, (key, value));
            return;
        }
        i += 1;
    }
    proof {
        lemma_var_index(before, key@, before.len() as int);
        if var_index(before, key@, before.len() as int) is Some {
            let k = var_index(before, key@, before.len() as int)->0;
            assert(before[k].0@ != key@);
        }
    }
    state.vars.push((key, value));
}

pub open spec fn vars_view(vars: Seq<(Text, Value)>) -> Seq<(Seq<char>, Option<Seq<char>>)> {
    vars.map_values(|e: (Text, Value)| (e.0@, value_view(e.1)))
}

/// Removes every variable named `key`.
pub fn var_remove(state: &mut State, key: &[char])
    ensures
        final(state).functions == old(state).functions,
        final(state).stopped == old(state).stopped,
        final(state).exited == old(state).exited,
        final(state).unset == old(state).unset,
        final(state).cwd == old(state).cwd,
        final(state).status == old(state).status,
        vars_view(final(state).vars@) == vars_view(old(state).vars@).filter(
            |e: (Seq<char>, Option<Seq<char>>)| e.0 != key@,
        ),
{
    let ghost all = vars_view(state.vars@);
    let mut out: Vec<(Text, Value)> = Vec::new();
    let mut i: usize = 0;
    while i < state.vars.len()
        invariant
            i <= state.vars.len(),
            all == vars_view(state.vars@),
            state.vars@ == old(state).vars@,
            vars_view(out@) == all.subrange(0, i as int).filter(|e: (Seq<char>, Option<Seq<char>>)| e.0 != key@),
        decreases state.vars.len() - i,
    {
        proof {
            assert(all.subrange(0, i + 1).drop_last() =~= all.subrange(0, i as int));
            all.subrange(0, i as int).lemma_filter_push(all[i as int], |e: (Seq<char>, Option<Seq<char>>)| e.0 != key@);
            assert(all.subrange(0, i + 1) =~= all.subrange(0, i as int).push(all[i as int]));
        }
        if !text_eq(state.vars[i].0.as_slice(), key) {
            let ghost prev = out@;
            let entry = (slice(state.vars[i].0.as_slice(), 0, state.vars[i].0.len()), copy_value(&state.vars[i].1));
            assert(all[i as int] == (entry.0@, value_view(entry.1)));
            out.push(entry);
            assert(out@ == prev.push(entry));
            assert(vars_view(out@) =~= vars_view(prev).push(all[i as int]));
        }
        i += 1;
    }
    assert(all.subrange(0, all.len() as int) =~= all);
    state.vars = out;
}

/// Forgets the value of every variable.
pub fn forget_values(state: &mut State)
    ensures
        final(state).functions == old(state).functions,
        final(state).stopped == old(state).stopped,
        final(state).exited == old(state).exited,
        final(state).cwd == old(state).cwd,
        final(state).status == old(state).status,
        final(state).unset == old(state).unset,
        vars_view(final(state).vars@) == vars_view(old(state).vars@).map_values(
            |e: (Seq<char>, Option<Seq<char>>)| (e.0, None::<Seq<char>>),
        ),
{
    let ghost all = vars_view(state.vars@);
    let mut out: Vec<(Text, Value)> = Vec::new();
    let mut i: usize = 0;
    while i < state.vars.len()
        invariant
            i <= state.vars.len(),
            all == vars_view(state.vars@),
            state.vars@ == old(state).vars@,
            vars_view(out@) == all.subrange(0, i as int).map_values(
                |e: (Seq<char>, Option<Seq<char>>)| (e.0, None::<Seq<char>>),
            ),
        decreases state.vars.len() - i,
    {
        let ghost prev = out@;
        let entry: (Text, Value) = (slice(state.vars[i].0.as_slice(), 0, state.vars[i].0.len()), None);
        assert(all[i as int].0 == entry.0@);
        out.push(entry);
        assert(out@ == prev.push(entry));
        assert(all.subrange(0, i + 1) =~= all.subrange(0, i as int).push(all[i as int]));
        assert(vars_view(out@) =~= vars_view(prev).push((entry.0@, None::<Seq<char>>)));
        assert(all.subrange(0, i + 1).map_values(|e: (Seq<char>, Option<Seq<char>>)| (e.0, None::<Seq<char>>))
            =~= all.subrange(0, i as int).map_values(|e: (Seq<char>, Option<Seq<char>>)| (e.0, None::<Seq<char>>)).push(
            (all[i as int].0, None::<Seq<char>>),
        ));
        assert(vars_view(out@) =~= all.subrange(0, i + 1).map_values(
            |e: (Seq<char>, Option<Seq<char>>)| (e.0, None::<Seq<char>>),
        ));
        i += 1;
    }
    assert(all.subrange(0, all.len() as int) =~= all);
    state.vars = out;
}

pub open spec fn texts_view(list: Seq<Text>) -> Seq<Seq<char>> {
    list.map_values(|t: Text| t@)
}

fn text_list_has(list: &Vec<Text>, key: &[char]) -> (r: bool)
    ensures
        r == texts_view(list@).contains(key@),
{
    let mut i: usize = 0;
    while i < list.len()
        invariant
            i <= list.len(),
            forall|j: int| 0 <= j < i ==> list@[j]@ != key@,
        decreases list.len() - i,
    {
        if text_eq(list[i].as_slice(), key) {
            assert(texts_view(list@)[i as int] == key@);
            return true;
        }
        i += 1;
    }
    proof {
        if texts_view(list@).contains(key@) {
            let j = choose|j: int| 0 <= j < texts_view(list@).len() && texts_view(list@)[j] == key@;
            assert(list@[j]@ == key@);
        }
    }
    false
}

fn text_list_remove(list: &mut Vec<Text>, key: &[char])
    ensures
        texts_view(final(list)@) == texts_view(old(list)@).filter(|t: Seq<char>| t != key@),
{
    let ghost all = texts_view(list@);
    let mut out: Vec<Text> = Vec::new();
    let mut i: usize = 0;
    while i < list.len()
        invariant
            i <= list.len(),
            all == texts_view(list@),
            list@ == old(list)@,
            texts_view(out@) == all.subrange(0, i as int).filter(|t: Seq<char>| t != key@),
        decreases list.len() - i,
    {
        proof {
            assert(all.subrange(0, i + 1).drop_last() =~= all.subrange(0, i as int));
            all.subrange(0, i as int).lemma_filter_push(all[i as int], |t: Seq<char>| t != key@);
            assert(all.subrange(0, i + 1) =~= all.subrange(0, i as int).push(all[i as int]));
        }
        if !text_eq(list[i].as_slice(), key) {
            let ghost prev = out@;
            let t = slice(list[i].as_slice(), 0, list[i].len());
            assert(all[i as int] == t@);
            out.push(t);
            assert(out@ == prev.push(t));
            assert(texts_view(out@) =~= texts_view(prev).push(all[i as int]));
        }
        i += 1;
    }
    assert(all.subrange(0, all.len() as int) =~= all);
    *list = out;
}

fn text_list_insert(list: &mut Vec<Text>, key: &[char])
    ensures
        texts_view(old(list)@).contains(key@) ==> final(list)@ == old(list)@,
        !texts_view(old(list)@).contains(key@) ==> texts_view(final(list)@) == texts_view(old(list)@).push(key@),
{
    if !text_list_has(list, key) {
        let ghost prev = list@;
        let t = slice(key, 0, key.len());
        assert(t@ =~= key@);
        list.push(t);
        assert(list@ == prev.push(t));
        assert(texts_view(list@) =~= texts_view(prev).push(key@));
    }
}

pub open spec fn function_view(f: (Text, Text, Text)) -> (Seq<char>, Seq<char>, Seq<char>) {
    (f.0@, f.1@, f.2@)
}

pub open spec fn functions_view(fs: Seq<(Text, Text, Text)>) -> Seq<(Seq<char>, Seq<char>, Seq<char>)> {
    fs.map_values(|f: (Text, Text, Text)| function_view(f))
}

/// The body and file of the first function named `name`.
pub open spec fn function_lookup(fs: Seq<(Text, Text, Text)>, name: Seq<char>) -> Option<(Seq<char>, Seq<char>)>
    decreases fs.len(),
{
    if fs.len() == 0 {
        None
    } else if fs[0].0@ == name {
        Some((fs[0].1@, fs[0].2@))
    } else {
        function_lookup(fs.drop_first(), name)
    }
}

fn function_get(state: &State, name: &[char]) -> (r: Option<(Text, Text)>)
    ensures
        (match r {
            Some(p) => Some((p.0@, p.1@)),
            None => None,
        }) == function_lookup(state.functions@, name@),
{
    let mut i: usize = 0;
    assert(state.functions@.subrange(0, state.functions@.len() as int) =~= state.functions@);
    while i < state.functions.len()
        invariant
            i <= state.functions.len(),
            function_lookup(state.functions@, name@) == function_lookup(
                state.functions@.subrange(i as int, state.functions@.len() as int),
                name@,
            ),
        decreases state.functions.len() - i,
    {
        let ghost rest = state.functions@.subrange(i as int, state.functions@.len() as int);
        assert(rest[0] == state.functions@[i as int]);
        if text_eq(state.functions[i].0.as_slice(), name) {
            let body = slice(state.functions[i].1.as_slice(), 0, state.functions[i].1.len());
            let file = slice(state.functions[i].2.as_slice(), 0, state.functions[i].2.len());
            return Some((body, file));
        }
        assert(rest.drop_first() =~= state.functions@.subrange(i + 1, state.functions@.len() as int));
        i += 1;
    }
    None
}

fn function_remove(state: &mut State, name: &[char])
    ensures
        final(state).vars == old(state).vars,
        final(state).unset == old(state).unset,
        final(state).cwd == old(state).cwd,
        final(state).status == old(state).status,
        final(state).stopped == old(state).stopped,
        final(state).exited == old(state).exited,
        functions_view(final(state).functions@) == functions_view(old(state).functions@).filter(
            |f: (Seq<char>, Seq<char>, Seq<char>)| f.0 != name@,
        ),
{
    let ghost all = functions_view(state.functions@);
    let mut out: Vec<(Text, Text, Text)> = Vec::new();
    let mut i: usize = 0;
    while i < state.functions.len()
        invariant
            i <= state.functions.len(),
            all == functions_view(state.functions@),
            state.functions@ == old(state).functions@,
            functions_view(out@) == all.subrange(0, i as int).filter(|f: (Seq<char>, Seq<char>, Seq<char>)| f.0 != name@),
        decreases state.functions.len() - i,
    {
        proof {
            assert(all.subrange(0, i + 1).drop_last() =~= all.subrange(0, i as int));
            all.subrange(0, i as int).lemma_filter_push(all[i as int], |f: (Seq<char>, Seq<char>, Seq<char>)| f.0 != name@);
            assert(all.subrange(0, i + 1) =~= all.subrange(0, i as int).push(all[i as int]));
        }
        if !text_eq(state.functions[i].0.as_slice(), name) {
            let ghost prev = out@;
            let f = &state.functions[i];
            let entry = (slice(f.0.as_slice(), 0, f.0.len()), slice(f.1.as_slice(), 0, f.1.len()), slice(f.2.as_slice(), 0, f.2.len()));
            assert(all[i as int] == function_view(entry));
            out.push(entry);
            assert(out@ == prev.push(entry));
            assert(functions_view(out@) =~= functions_view(prev).push(all[i as int]));
        }
        i += 1;
    }
    assert(all.subrange(0, all.len() as int) =~= all);
    state.functions = out;
}

/// Defines the function `name`, replacing any earlier definition.
fn function_set(state: &mut State, name: Text, body: Text, file: Text)
    ensures
        final(state).vars == old(state).vars,
        final(state).unset == old(state).unset,
        final(state).cwd == old(state).cwd,
        final(state).status == old(state).status,
        final(state).stopped == old(state).stopped,
        final(state).exited == old(state).exited,
        functions_view(final(state).functions@) == functions_view(old(state).functions@).filter(
            |f: (Seq<char>, Seq<char>, Seq<char>)| f.0 != name@,
        ).push((name@, body@, file@)),
{
    function_remove(state, name.as_slice());
    let ghost prev = state.functions@;
    let ghost entry = (name@, body@, file@);
    state.functions.push((name, body, file));
    assert(functions_view(state.functions@) =~= functions_view(prev).push(entry));
}

fn same_function(a: &(Text, Text, Text), b: &(Text, Text, Text)) -> (r: bool)
    ensures
        r == (function_view(*a) == function_view(*b)),
{
    text_eq(a.0.as_slice(), b.0.as_slice()) && text_eq(a.1.as_slice(), b.1.as_slice()) && text_eq(
        a.2.as_slice(),
        b.2.as_slice(),
    )
}

fn value_eq(a: &Value, b: &Value) -> (r: bool)
    ensures
        r == (value_view(*a) == value_view(*b)),
{
    match (a, b) {
        (Some(x), Some(y)) => text_eq(x.as_slice(), y.as_slice()),
        (None, None) => true,
        _ => false,
    }
}

fn entry_eq(a: &Option<Value>, b: &Option<Value>) -> (r: bool)
    ensures
        r == (entry_view(*a) == entry_view(*b)),
{
    match (a, b) {
        (Some(x), Some(y)) => value_eq(x, y),
        (None, None) => true,
        _ => false,
    }
}

pub open spec fn spec_glob_char(c: char) -> bool {
    c == '*' || c == '?' || c == '['
}

fn glob_char(c: char) -> (r: bool)
    ensures
        r == spec_glob_char(c),
{
    c == '*' || c == '?' || c == '['
}

fn has_glob(t: &[char]) -> (r: bool)
    ensures
        r == exists|j: int| 0 <= j < t@.len() && spec_glob_char(#[trigger] t@[j]),
{
    let mut i: usize = 0;
    while i < t.len()
        invariant
            i <= t.len(),
            forall|j: int| 0 <= j < i ==> !spec_glob_char(#[trigger] t@[j]),
        decreases t.len() - i,
    {
        if glob_char(t[i]) {
            return true;
        }
        i += 1;
    }
    false
}

fn all_digits(t: &[char]) -> (r: bool)
    ensures
        r == forall|j: int| 0 <= j < t@.len() ==> crate::text::spec_is_ascii_digit(#[trigger] t@[j]),
{
    let mut i: usize = 0;
    while i < t.len()
        invariant
            i <= t.len(),
            forall|j: int| 0 <= j < i ==> crate::text::spec_is_ascii_digit(#[trigger] t@[j]),
        decreases t.len() - i,
    {
        if !is_ascii_digit(t[i]) {
            return false;
        }
        i += 1;
    }
    true
}

pub open spec fn name_char(c: char) -> bool {
    crate::text::spec_is_ascii_alphanumeric(c) || c == '_'
}

fn all_name_chars(t: &[char]) -> (r: bool)
    ensures
        r == forall|j: int| 0 <= j < t@.len() ==> name_char(#[trigger] t@[j]),
{
    let mut i: usize = 0;
    while i < t.len()
        invariant
            i <= t.len(),
            forall|j: int| 0 <= j < i ==> name_char(#[trigger] t@[j]),
        decreases t.len() - i,
    {
        if !(is_ascii_alphanumeric(t[i]) || t[i] == '_') {
            return false;
        }
        i += 1;
    }
    true
}

fn trim_start(t: &[char]) -> (r: Text)
    ensures
        r@ == crate::text::trim_start_spec(t@),
{
    let mut a: usize = 0;
    assert(t@.subrange(0, t.len() as int) =~= t@);
    while a < t.len() && is_whitespace(t[a])
        invariant
            a <= t.len(),
            crate::text::trim_start_spec(t@) == crate::text::trim_start_spec(t@.subrange(a as int, t.len() as int)),
        decreases t.len() - a,
    {
        assert(t@.subrange(a as int, t.len() as int).drop_first() =~= t@.subrange(a + 1, t.len() as int));
        a += 1;
    }
    slice(t, a, t.len())
}

fn strip_prefix_lit(t: &[char], lit: &str) -> (r: Option<Text>)
    ensures
        match r {
            Some(rest) => crate::text::is_prefix(lit@, t@) && rest@ == t@.subrange(lit@.len() as int, t@.len() as int),
            None => !crate::text::is_prefix(lit@, t@),
        },
{
    let p = chars_of(lit);
    if starts_with(t, p.as_slice()) {
        Some(slice(t, p.len(), t.len()))
    } else {
        None
    }
}

fn strip_suffix_text(t: &[char], p: &[char]) -> (r: Option<Text>)
    ensures
        match r {
            Some(rest) => crate::text::is_suffix(p@, t@) && rest@ == t@.subrange(0, t@.len() - p@.len()),
            None => !crate::text::is_suffix(p@, t@),
        },
{
    if ends_with(t, p) {
        Some(slice(t, 0, t.len() - p.len()))
    } else {
        None
    }
}

/// `t` without its trailing newlines.
pub open spec fn trim_newlines_spec(t: Seq<char>) -> Seq<char>
    decreases t.len(),
{
    if t.len() > 0 && t.last() == '\n' {
        trim_newlines_spec(t.drop_last())
    } else {
        t
    }
}

fn trim_end_newlines(t: &[char]) -> (r: Text)
    ensures
        r@ == trim_newlines_spec(t@),
{
    let mut b = t.len();
    assert(t@.subrange(0, t.len() as int) =~= t@);
    while b > 0 && t[b - 1] == '\n'
        invariant
            b <= t.len(),
            trim_newlines_spec(t@) == trim_newlines_spec(t@.subrange(0, b as int)),
        decreases b,
    {
        assert(t@.subrange(0, b as int).drop_last() =~= t@.subrange(0, b - 1));
        b -= 1;
    }
    slice(t, 0, b)
}

fn lit(s: &str) -> (r: Text)
    ensures
        r@ == s@,
{
    chars_of(s)
}

fn is_one_of(t: &[char], a: &str, b: &str) -> (r: bool)
    ensures
        r == (t@ == a@ || t@ == b@),
{
    eq_lit(t, a) || eq_lit(t, b)
}

/// The ASCII-lowercase text is `runtime` or ends with `_runtime`.
pub open spec fn spec_runtime_key(key: Seq<char>) -> bool {
    let lower = key.map_values(|c: char| crate::text::spec_lower(c));
    lower == "runtime"@ || crate::text::is_suffix("_runtime"@, lower)
}

/// The ASCII-lowercase text ends with `_runtime` or is `runtime`.
fn runtime_key(key: &[char]) -> (r: bool)
    ensures
        r == spec_runtime_key(key@),
{
    let lower = to_ascii_lowercase(key);
    eq_lit(lower.as_slice(), "runtime") || ends_with_lit(lower.as_slice(), "_runtime")
}

/// The words separated by single spaces.
pub open spec fn joined_words(parts: Seq<Seq<char>>) -> Seq<char>
    decreases parts.len(),
{
    if parts.len() == 0 {
        Seq::empty()
    } else if parts.len() == 1 {
        parts[0]
    } else {
        joined_words(parts.drop_last()) + seq![' '] + parts.last()
    }
}

fn word_list_join(parts: &Vec<Text>) -> (r: Text)
    ensures
        r@ == joined_words(texts_view(parts@)),
{
    let mut out: Text = Vec::new();
    let mut i: usize = 0;
    while i < parts.len()
        invariant
            i <= parts.len(),
            out@ == joined_words(texts_view(parts@).subrange(0, i as int)),
        decreases parts.len() - i,
    {
        if i > 0 {
            out.push(' ');
        }
        push_all(&mut out, parts[i].as_slice());
        proof {
            let next = texts_view(parts@).subrange(0, i + 1);
            assert(next.drop_last() =~= texts_view(parts@).subrange(0, i as int));
            assert(next.last() == parts@[i as int]@);
            if i == 0 {
                assert(out@ =~= parts@[0]@);
            }
        }
        i += 1;
    }
    assert(texts_view(parts@).subrange(0, parts.len() as int) =~= texts_view(parts@));
    out
}

/// The word at `node` looks like a path: a literal part of it holds a `/`.
pub open spec fn path_template_spec(nodes: Seq<crate::syntax::SyntaxNode>, text: Seq<char>, node: int) -> bool
    decreases nodes.len() - node, 1int, 0int,
{
    if node < 0 || node >= nodes.len() {
        false
    } else {
        let k = nodes[node].kind@;
        if k == "word"@ || k == "string_content"@ || k == "raw_string"@ {
            text.subrange(nodes[node].start as int, nodes[node].end as int).contains('/')
        } else if k == "string"@ || k == "concatenation"@ || k == "expansion"@ {
            any_template(nodes, text, node, crate::syntax::children_spec(nodes, node, true), 0)
        } else {
            false
        }
    }
}

/// One of `kids` from the `k`-th on looks like a path.
pub open spec fn any_template(nodes: Seq<crate::syntax::SyntaxNode>, text: Seq<char>, node: int, kids: Seq<usize>, k: int) -> bool
    decreases nodes.len() - node, 0int, kids.len() - k,
{
    if k < 0 || k >= kids.len() || node < 0 || node >= nodes.len() {
        false
    } else {
        (node < kids[k] < nodes.len() && path_template_spec(nodes, text, kids[k] as int)) || any_template(
            nodes,
            text,
            node,
            kids,
            k + 1,
        )
    }
}

/// The entry a variable has after two branches join: set when either
/// branch set it, with the value both agree on, and unknown otherwise.
pub open spec fn merged_entry(x: Option<Option<Seq<char>>>, y: Option<Option<Seq<char>>>) -> Option<Option<Seq<char>>> {
    if x is None && y is None {
        None
    } else if x == y {
        x
    } else {
        Some(None)
    }
}

/// `value` made absolute against the working directory `cwd`; none when
/// it is relative and the working directory is unknown.
pub open spec fn based_path(value: Seq<char>, cwd: Option<Seq<char>>) -> Option<Seq<char>> {
    if value.len() > 0 && value[0] == '/' {
        Some(value)
    } else {
        match cwd {
            Some(c) => Some(crate::paths::joined(c, value)),
            None => None,
        }
    }
}

/// `t` without its leading slashes.
pub open spec fn without_leading_slashes(t: Seq<char>) -> Seq<char>
    decreases t.len(),
{
    if t.len() > 0 && t[0] == '/' {
        without_leading_slashes(t.drop_first())
    } else {
        t
    }
}

/// The runtime name a declaration gives: the value without its leading
/// slashes and without a `.squashfs` suffix.
pub open spec fn declared_runtime(value: Seq<char>) -> Seq<char> {
    let n = without_leading_slashes(value);
    if crate::text::is_suffix(".squashfs"@, n) {
        n.subrange(0, n.len() - 9)
    } else {
        n
    }
}

/// The state of the analyzer while it walks one launcher and the sources it reads.
pub struct Engine<'a, E: SourceEnvironment> {
    pub file: Text,
    pub environment: &'a E,
    pub result: Findings,
    pub steps: usize,
    pub bytes: usize,
    pub stack: Vec<Text>,
    pub locals: Vec<Vec<(Text, Option<Value>)>>,
    pub traps: Vec<Text>,
    pub changed_trees: TextSet,
}

impl<'a, E: SourceEnvironment> Engine<'a, E> {
    pub open spec fn wf(&self) -> bool {
        self.result.wf() && self.changed_trees.wf()
    }

    /// `self` and `other` differ at most in their diagnostics.
    pub open spec fn same_but_diagnostics(&self, other: &Self) -> bool {
        &&& self.file == other.file
        &&& self.steps == other.steps
        &&& self.bytes == other.bytes
        &&& self.stack == other.stack
        &&& self.locals == other.locals
        &&& self.traps == other.traps
        &&& self.changed_trees == other.changed_trees
        &&& self.result.paths == other.result.paths
        &&& self.result.declared_paths == other.result.declared_paths
        &&& self.result.working_directories == other.result.working_directories
        &&& self.result.library_paths == other.result.library_paths
        &&& self.result.preload_libraries == other.result.preload_libraries
        &&& self.result.input_configs == other.result.input_configs
        &&& self.result.output_paths == other.result.output_paths
        &&& self.result.sources == other.result.sources
        &&& self.result.runtime_names == other.result.runtime_names
        &&& self.result.notes == other.result.notes
        &&& self.result.runtime_names == other.result.runtime_names
    }

    /// Every path reference of `before`, of each category, is still recorded.
    pub open spec fn kept_references(&self, before: &Self) -> bool {
        &&& forall|x: Seq<char>| #[trigger] before.result.paths.has(x) ==> self.result.paths.has(x)
        &&& forall|x: Seq<char>| #[trigger] before.result.working_directories.has(x) ==> self.result.working_directories.has(x)
        &&& forall|x: Seq<char>| #[trigger] before.result.library_paths.has(x) ==> self.result.library_paths.has(x)
        &&& forall|x: Seq<char>| #[trigger] before.result.preload_libraries.has(x) ==> self.result.preload_libraries.has(x)
        &&& forall|x: Seq<char>| #[trigger] before.result.input_configs.has(x) ==> self.result.input_configs.has(x)
        &&& forall|x: Seq<char>| #[trigger] before.result.output_paths.has(x) ==> self.result.output_paths.has(x)
    }

    /// The conditions under which a simple `cd DIR` command is known to record
    /// its directory: enough steps and depth to evaluate its two words, no
    /// destructive word, room for another path, and a `DIR` that is neither
    /// an option, a URL, too long nor holds a NUL.
    pub open spec fn cd_law_applies(&self, cx: &Src, node: int, depth: int, dir: Seq<char>) -> bool {
        &&& self.steps > 2
        &&& depth + 2 < MAX_DEPTH
        &&& simple_cd(cx, node, dir)
        &&& !destructive_word("cd"@)
        &&& !destructive_word(dir)
        &&& self.result.paths.items.len() < MAX_ITEMS
        &&& self.result.output_paths.items.len() < MAX_ITEMS
        &&& dir != "--"@
        &&& !(crate::text::contains_seq(dir, "://"@) || crate::text::is_prefix("rgbi:"@, dir))
        &&& !(utf8_bytes(dir) > MAX_VALUE || dir.contains('\0'))
    }

    /// `self` differs from `before` only in its diagnostics, to which a report
    /// was added if there was room.
    pub open spec fn reported(&self, before: &Self) -> bool {
        &&& self.same_but_diagnostics(before)
        &&& before.result.diagnostics.items.len() < MAX_MESSAGES ==> self.result.diagnostics.items.len() > 0
    }

    fn message(&self, s: &[char]) -> (r: Text)
        ensures
            r@ == self.file@ + ": "@ + s@,
    {
        let mut m = slice(self.file.as_slice(), 0, self.file.len());
        push_lit(&mut m, ": ");
        push_all(&mut m, s);
        m
    }

    /// Records a blocker.
    pub fn issue(&mut self, s: &str)
        requires
            old(self).wf(),
        ensures
            final(self).wf(),
            final(self).same_but_diagnostics(&*old(self)),
            final(self).steps == old(self).steps,
            final(self).result.paths == old(self).result.paths,
            old(self).result.diagnostics.items.len() < MAX_MESSAGES ==> final(self).result.diagnostics.items.len() > 0,
            final(self).result.diagnostics.items.len() >= old(self).result.diagnostics.items.len(),
            old(self).result.diagnostics.items.len() < MAX_MESSAGES ==> forall|x: Seq<char>|
                #[trigger] final(self).result.diagnostics.has(x) <==> (old(self).result.diagnostics.has(x) || x
                    == old(self).file@ + ": "@ + s@),
            old(self).result.diagnostics.items.len() >= MAX_MESSAGES ==> final(self).result.diagnostics == old(
                self,
            ).result.diagnostics,
            old(self).result.diagnostics.items.len() < MAX_MESSAGES ==> final(self).result.diagnostics.items.len() == old(
                self,
            ).result.diagnostics.items.len() + if old(self).result.diagnostics.has(old(self).file@ + ": "@ + s@) {
                0int
            } else {
                1int
            },
    {
        let t = chars_of(s);
        self.issue_text(t.as_slice());
    }

    pub fn issue_text(&mut self, s: &[char])
        requires
            old(self).wf(),
        ensures
            final(self).wf(),
            final(self).same_but_diagnostics(&*old(self)),
            final(self).steps == old(self).steps,
            final(self).result.paths == old(self).result.paths,
            old(self).result.diagnostics.items.len() < MAX_MESSAGES ==> final(self).result.diagnostics.items.len() > 0,
            final(self).result.diagnostics.items.len() >= old(self).result.diagnostics.items.len(),
            old(self).result.diagnostics.items.len() < MAX_MESSAGES ==> forall|x: Seq<char>|
                #[trigger] final(self).result.diagnostics.has(x) <==> (old(self).result.diagnostics.has(x) || x
                    == old(self).file@ + ": "@ + s@),
            old(self).result.diagnostics.items.len() >= MAX_MESSAGES ==> final(self).result.diagnostics == old(
                self,
            ).result.diagnostics,
            old(self).result.diagnostics.items.len() < MAX_MESSAGES ==> final(self).result.diagnostics.items.len() == old(
                self,
            ).result.diagnostics.items.len() + if old(self).result.diagnostics.has(old(self).file@ + ": "@ + s@) {
                0int
            } else {
                1int
            },
    {
        if self.result.diagnostics.len() < MAX_MESSAGES {
            let m = self.message(s);
            self.result.diagnostics.insert(m);
        }
    }

    /// Records a limitation that does not block.
    pub fn note(&mut self, s: &str)
        requires
            old(self).wf(),
        ensures
            final(self).wf(),
            final(self).steps == old(self).steps,
            final(self).result.paths == old(self).result.paths,
            final(self).result.diagnostics == old(self).result.diagnostics,
            old(self).result.notes.items.len() < MAX_MESSAGES ==> forall|x: Seq<char>| #[trigger] final(self).result.notes.has(x)
                <==> (old(self).result.notes.has(x) || x == old(self).file@ + ": "@ + s@),
            old(self).result.notes.items.len() >= MAX_MESSAGES ==> final(self).result.notes == old(self).result.notes,
    {
        if self.result.notes.len() < MAX_MESSAGES {
            let t = chars_of(s);
            let m = self.message(t.as_slice());
            self.result.notes.insert(m);
        }
    }

    pub fn poison(&mut self, state: &mut State, reason: &str)
        requires
            old(self).wf(),
        ensures
            final(self).wf(),
            final(self).steps == old(self).steps,
            final(self).result.paths == old(self).result.paths,
            final(self).reported(&*old(self)),
            old(self).result.diagnostics.items.len() < MAX_MESSAGES ==> final(self).result.diagnostics.items.len() > 0,
            final(state).stopped == old(state).stopped,
            final(state).exited == old(state).exited,
            final(state).functions == old(state).functions,
            vars_view(final(state).vars@) == vars_view(old(state).vars@).map_values(
                |e: (Seq<char>, Option<Seq<char>>)| (e.0, None::<Seq<char>>),
            ),
            final(state).cwd is None,
            final(state).status is None,
            final(state).unset.len() == 0,
    {
        self.issue(reason);
        forget_values(state);
        state.cwd = None;
        state.status = None;
        state.unset = Vec::new();
    }

    pub fn unset_names(&mut self, names: &Vec<Value>, state: &mut State)
        requires
            old(self).wf(),
        ensures
            final(self).wf(),
            final(self).steps == old(self).steps,
            (forall|k: int| 0 <= k < names.len() ==> unset_word_ok(#[trigger] names@[k])) ==> {
                &&& final(state).status == Some(true)
                &&& final(state).cwd == old(state).cwd
                &&& final(state).stopped == old(state).stopped
                &&& final(state).exited == old(state).exited
                &&& forall|k: int|
                    0 <= k < names.len() && !unset_flag(#[trigger] names@[k]->0@) && !unset_function_mode(names@, k) ==> {
                        &&& var_lookup(final(state).vars@, names@[k]->0@) == Some(Some(Seq::<char>::empty()))
                        &&& texts_view(final(state).unset@).contains(names@[k]->0@)
                    }
                &&& forall|k: int|
                    0 <= k < names.len() && !unset_flag(#[trigger] names@[k]->0@) && unset_function_mode(names@, k)
                        ==> no_function(final(state).functions@, names@[k]->0@)
            },
            !(forall|k: int| 0 <= k < names.len() ==> unset_word_ok(#[trigger] names@[k])) ==> {
                &&& final(state).status is None
                &&& final(state).cwd is None
            },
    {
        broadcast use vstd::seq_lib::group_filter_ensures;

        let mut function = false;
        let mut i: usize = 0;
        while i < names.len()
            invariant
                self.wf(),
                self.steps == old(self).steps,
                i <= names.len(),
                function == unset_function_mode(names@, i as int),
                forall|k: int| 0 <= k < i ==> unset_word_ok(#[trigger] names@[k]),
                state.status == old(state).status,
                state.cwd == old(state).cwd,
                state.stopped == old(state).stopped,
                state.exited == old(state).exited,
                forall|k: int|
                    0 <= k < i && !unset_flag(#[trigger] names@[k]->0@) && !unset_function_mode(names@, k) ==> {
                        &&& var_lookup(state.vars@, names@[k]->0@) == Some(Some(Seq::<char>::empty()))
                        &&& texts_view(state.unset@).contains(names@[k]->0@)
                    },
                forall|k: int|
                    0 <= k < i && !unset_flag(#[trigger] names@[k]->0@) && unset_function_mode(names@, k)
                        ==> no_function(state.functions@, names@[k]->0@),
            decreases names.len() - i,
        {
            proof {
                reveal_strlit("-v");
                reveal_strlit("-f");
                reveal_strlit("--");
            }
            match &names[i] {
                None => {
                    self.poison(state, "unresolved unset name");
                    return;
                },
                Some(name) => {
                    if eq_lit(name.as_slice(), "-v") {
                        function = false;
                    } else if eq_lit(name.as_slice(), "-f") {
                        function = true;
                    } else if eq_lit(name.as_slice(), "--") {
                    } else if name.len() == 0 || !all_name_chars(name.as_slice()) {
                        self.poison(state, "unsupported unset target");
                        return;
                    } else if function {
                        let ghost before = *state;
                        function_remove(state, name.as_slice());
                        proof {
                            assert forall|k: int|
                                0 <= k <= i && !unset_flag(#[trigger] names@[k]->0@) && unset_function_mode(names@, k)
                                    implies no_function(state.functions@, names@[k]->0@) by {
                                assert forall|f: (Seq<char>, Seq<char>, Seq<char>)| #[trigger] functions_view(
                                    state.functions@,
                                ).contains(f) implies f.0 != names@[k]->0@ by {
                                    let fv = functions_view(before.functions@);
                                    fv.lemma_filter_contains_rev(
                                        |g: (Seq<char>, Seq<char>, Seq<char>)| g.0 != name@,
                                        f,
                                    );
                                    let q = functions_view(state.functions@).index_of(f);
                                    fv.lemma_filter_pred(|g: (Seq<char>, Seq<char>, Seq<char>)| g.0 != name@, q);
                                }
                            }
                        }
                    } else {
                        let ghost before = *state;
                        let key = slice(name.as_slice(), 0, name.len());
                        let empty: Value = Some(Vec::new());
                        let ghost kv = key;
                        let ghost ev = empty;
                        var_set(state, key, empty);
                        proof {
                            assert(kv@ == name@);
                            assert(value_view(ev) == Some(Seq::<char>::empty()));
                            assert forall|k: int|
                                0 <= k < i && !unset_flag(#[trigger] names@[k]->0@) && !unset_function_mode(names@, k)
                                    implies var_lookup(state.vars@, names@[k]->0@) == Some(Some(Seq::<char>::empty())) by {
                                lemma_var_lookup_after_set(before.vars@, state.vars@, kv, ev, names@[k]->0@);
                            }
                        }
                        let ghost listed = texts_view(state.unset@);
                        text_list_insert(&mut state.unset, name.as_slice());
                        proof {
                            let after = texts_view(state.unset@);
                            if !listed.contains(name@) {
                                assert(after[listed.len() as int] == name@);
                                assert forall|x: Seq<char>| listed.contains(x) implies after.contains(x) by {
                                    let q = listed.index_of(x);
                                    assert(after[q] == x);
                                }
                            }
                            assert(after.contains(name@));
                            lemma_var_lookup_after_set(before.vars@, state.vars@, kv, ev, name@);
                            assert forall|k: int|
                                0 <= k <= i && !unset_flag(#[trigger] names@[k]->0@) && !unset_function_mode(names@, k)
                                    implies var_lookup(state.vars@, names@[k]->0@) == Some(Some(Seq::<char>::empty()))
                                    && texts_view(state.unset@).contains(names@[k]->0@) by {
                                if k < i {
                                    assert(listed.contains(names@[k]->0@));
                                }
                            }
                        }
                    }
                },
            }
            i += 1;
        }
        state.status = Some(true);
    }

    /// Was `path` written, or removed or replaced as part of a tree, by the script?
    pub fn changed(&self, path: &[char]) -> (r: bool)
        ensures
            r == (self.result.output_paths.has(path@) || exists|i: int|
                0 <= i < self.changed_trees.items.len() && crate::paths::stripped(
                    path@,
                    (#[trigger] self.changed_trees.items@[i])@,
                ) is Some),
    {
        if self.result.output_paths.contains(path) {
            return true;
        }
        let mut i: usize = 0;
        while i < self.changed_trees.items.len()
            invariant
                i <= self.changed_trees.items.len(),
                !self.result.output_paths.has(path@),
                forall|j: int| 0 <= j < i ==> crate::paths::stripped(path@, (#[trigger] self.changed_trees.items@[j])@) is None,
            decreases self.changed_trees.items.len() - i,
        {
            if path_starts_with(path, self.changed_trees.items[i].as_slice()) {
                return true;
            }
            i += 1;
        }
        false
    }

    /// Does the word look like it names a path (holds a `/` in literal text)?
    pub fn path_template(&self, cx: &Src, node: usize) -> (r: bool)
        requires
            cx.wf(),
            cx.node(node),
        ensures
            r == path_template_spec(cx.tree.nodes@, cx.text@, node as int),
        decreases cx.tree.nodes.len() - node,
    {
        if cx.kind(node, "word") || cx.kind(node, "string_content") || cx.kind(node, "raw_string") {
            let t = cx.text_of(node);
            return has_char(t.as_slice(), '/');
        }
        if cx.kind(node, "string") || cx.kind(node, "concatenation") || cx.kind(node, "expansion") {
            let kids = cx.named(node);
            let mut i: usize = 0;
            while i < kids.len()
                invariant
                    cx.wf(),
                    cx.node(node),
                    i <= kids.len(),
                    kids@ == crate::syntax::children_spec(cx.tree.nodes@, node as int, true),
                    path_template_spec(cx.tree.nodes@, cx.text@, node as int) == any_template(
                        cx.tree.nodes@,
                        cx.text@,
                        node as int,
                        kids@,
                        0,
                    ),
                    forall|j: int| 0 <= j < kids.len() ==> cx.node(#[trigger] kids[j]) && node < kids[j],
                    any_template(cx.tree.nodes@, cx.text@, node as int, kids@, 0) == any_template(
                        cx.tree.nodes@,
                        cx.text@,
                        node as int,
                        kids@,
                        i as int,
                    ),
                decreases kids.len() - i,
            {
                if self.path_template(cx, kids[i]) {
                    return true;
                }
                i += 1;
            }
        }
        false
    }

    pub fn budget(&mut self, d: usize) -> (r: bool)
        requires
            old(self).wf(),
        ensures
            final(self).wf(),
            r == (old(self).steps > 0 && d <= MAX_DEPTH),
            final(self).file == old(self).file,
            r ==> final(self).steps == old(self).steps - 1,
            r ==> final(self).result == old(self).result,
            r ==> final(self).steps < old(self).steps && d <= MAX_DEPTH,
            !r ==> final(self).steps == old(self).steps,
            !r ==> final(self).same_but_diagnostics(&*old(self)),
            !r ==> final(self).result.paths == old(self).result.paths,
            !r && old(self).result.diagnostics.items.len() < MAX_MESSAGES ==> final(self).result.diagnostics.items.len() > 0,
    {
        if self.steps == 0 || d > MAX_DEPTH {
            self.issue("analysis budget exhausted");
            false
        } else {
            self.steps = self.steps - 1;
            true
        }
    }

    /// Resolves a path against the working directory and normalizes it; a path
    /// with `..` is only resolved through the environment.
    pub fn absolute(&mut self, value: &[char], state: &State) -> (r: Value)
        requires
            old(self).wf(),
        ensures
            final(self).wf(),
            final(self).steps == old(self).steps,
            final(self).same_but_diagnostics(&*old(self)),
            utf8_bytes(value@) > MAX_VALUE || value@.contains('\0') ==> r is None,
            !(utf8_bytes(value@) > MAX_VALUE || value@.contains('\0')) ==> {
                &&& *final(self) == *old(self)
                &&& match based_path(value@, value_view(state.cwd)) {
                    None => r is None,
                    Some(p) => !crate::shell_sources::has_dot_dot_component(p) ==> value_view(r) == Some(
                        crate::paths::normal_form(p),
                    ),
                }
            },
    {
        if byte_len(value) > MAX_VALUE || has_char(value, '\0') {
            self.issue("path size/encoding limit");
            return None;
        }
        let path = if value.len() > 0 && value[0] == '/' {
            assert(value@.subrange(0, value.len() as int) =~= value@);
            slice(value, 0, value.len())
        } else {
            match &state.cwd {
                Some(cwd) => join(cwd.as_slice(), value),
                None => return None,
            }
        };
        assert(based_path(value@, value_view(state.cwd)) == Some(path@));
        if has_parent_dir(path.as_slice()) {
            let s = string_of(path.as_slice());
            return match self.environment.canonicalize(s.as_str()) {
                Some(c) => Some(chars_of(c.as_str())),
                None => None,
            };
        }
        Some(normalize(path.as_slice()))
    }

    /// Records a file reference of category `kind` and returns its absolute form.
    pub fn record(&mut self, value: &[char], state: &State, kind: &str) -> (r: Value)
        requires
            old(self).wf(),
        ensures
            final(self).wf(),
            final(self).steps == old(self).steps,
            old(self).result.paths.items.len() >= MAX_ITEMS || old(self).result.output_paths.items.len() >= MAX_ITEMS ==> r is None,
            crate::text::contains_seq(value@, "://"@) || crate::text::is_prefix("rgbi:"@, value@) ==> r is None,
            old(self).result.paths.items.len() < MAX_ITEMS && old(self).result.output_paths.items.len() < MAX_ITEMS && (
            crate::text::contains_seq(value@, "://"@) || crate::text::is_prefix("rgbi:"@, value@)) ==> *final(self)
                == *old(self),
            kind@ == "argument"@ && !(crate::text::is_prefix("/"@, value@) || crate::text::is_prefix("./"@, value@)
                || crate::text::is_prefix("../"@, value@)) ==> r is None,
            r matches Some(p) ==> if kind@ == "output"@ {
                final(self).result.output_paths.has(p@)
            } else {
                &&& final(self).result.paths.has(p@)
                &&& kind@ == "library"@ ==> final(self).result.library_paths.has(p@)
                &&& kind@ == "preload"@ ==> final(self).result.preload_libraries.has(p@)
                &&& kind@ == "input"@ ==> final(self).result.input_configs.has(p@)
                &&& kind@ == "cwd"@ ==> final(self).result.working_directories.has(p@)
            },
            r matches Some(p) ==> match based_path(value@, value_view(state.cwd)) {
                None => false,
                Some(b) => !crate::shell_sources::has_dot_dot_component(b) ==> p@ == crate::paths::normal_form(b),
            },
            final(self).kept_references(&*old(self)),
            old(self).result.paths.items.len() < MAX_ITEMS && old(self).result.output_paths.items.len() < MAX_ITEMS
                && !(crate::text::contains_seq(value@, "://"@) || crate::text::is_prefix("rgbi:"@, value@))
                && kind@ != "argument"@ && !(utf8_bytes(value@) > MAX_VALUE || value@.contains('\0')) ==> match based_path(
                value@,
                value_view(state.cwd),
            ) {
                Some(b) => !crate::shell_sources::has_dot_dot_component(b) ==> r is Some,
                None => true,
            },
            kind@ != "argument"@ ==> {
                &&& final(self).result.paths.items.len() <= old(self).result.paths.items.len() + 1
                &&& final(self).result.preload_libraries.items.len() <= old(self).result.preload_libraries.items.len() + 1
                &&& kind@ != "output"@ ==> final(self).result.output_paths == old(self).result.output_paths
            },
            kind@ != "argument"@ ==> final(self).changed_trees == old(self).changed_trees,
            kind@ == "output"@ ==> {
                &&& final(self).result.paths == old(self).result.paths
                &&& final(self).result.output_paths.items.len() <= old(self).result.output_paths.items.len() + 1
                &&& forall|x: Seq<char>|
                    #[trigger] final(self).result.output_paths.has(x) ==> old(self).result.output_paths.has(x) || (
                    r matches Some(p) && p@ == x)
            },
        decreases value.len(),
    {
        proof {
            reveal_strlit("output");
            reveal_strlit("argument");
            assert("output"@.len() != "argument"@.len());
        }
        if self.result.paths.len() >= MAX_ITEMS || self.result.output_paths.len() >= MAX_ITEMS {
            self.issue("path count limit");
            return None;
        }
        if contains_lit(value, "://") || starts_with_lit(value, "rgbi:") {
            return None;
        }
        let argument = eq_lit(chars_of(kind).as_slice(), "argument");
        if argument && has_char(value, ':') {
            let parts = split_char(value, ':');
            let mut i: usize = 0;
            while i < parts.len()
                invariant
                    self.wf(),
                    self.steps == old(self).steps,
                    self.kept_references(&*old(self)),
                    value@.contains(':'),
                    forall|k: int| 0 <= k < parts.len() ==> !(#[trigger] parts[k])@.contains(':'),
                decreases parts.len() - i,
            {
                if parts[i].len() > 0 && parts[i][0] == '/' {
                    if parts[i].len() < value.len() {
                        self.record(parts[i].as_slice(), state, kind);
                    }
                }
                i += 1;
            }
        }
        if argument && !(starts_with_lit(value, "/") || starts_with_lit(value, "./")
            || starts_with_lit(value, "../")) {
            return None;
        }
        let path = match self.absolute(value, state) {
            Some(p) => p,
            None => {
                self.issue("unresolved path base or symlink parent");
                return None;
            },
        };
        let k = chars_of(kind);
        let n = path.len();
        proof {
            reveal_strlit("library");
            reveal_strlit("preload");
            reveal_strlit("input");
            reveal_strlit("output");
            reveal_strlit("cwd");
            assert("library"@[0] != "preload"@[0]);
            assert("library"@ != "preload"@);
            assert("input"@.len() != "library"@.len() && "input"@.len() != "output"@.len() && "input"@.len()
                != "cwd"@.len() && "input"@.len() != "preload"@.len());
            assert("output"@.len() != "library"@.len() && "output"@.len() != "cwd"@.len());
            assert("cwd"@.len() != "library"@.len() && "cwd"@.len() != "preload"@.len());
        }
        if eq_lit(k.as_slice(), "library") {
            self.result.library_paths.insert(slice(path.as_slice(), 0, n));
        } else if eq_lit(k.as_slice(), "preload") {
            self.result.preload_libraries.insert(slice(path.as_slice(), 0, n));
        } else if eq_lit(k.as_slice(), "input") {
            self.result.input_configs.insert(slice(path.as_slice(), 0, n));
        } else if eq_lit(k.as_slice(), "output") {
            self.result.output_paths.insert(slice(path.as_slice(), 0, n));
            assert(path@.subrange(0, n as int) == path@);
            return Some(path);
        } else if eq_lit(k.as_slice(), "cwd") {
            self.result.working_directories.insert(slice(path.as_slice(), 0, n));
        }
        let copy = slice(path.as_slice(), 0, n);
        assert(copy@ == path@);
        self.result.paths.insert(copy);
        assert(self.result.paths.has(path@));
        assert(kind@ != "output"@);
        assert(kind@ == "library"@ ==> self.result.library_paths.has(path@));
        assert(kind@ == "preload"@ ==> self.result.preload_libraries.has(path@));
        assert(kind@ == "input"@ ==> self.result.input_configs.has(path@));
        assert(kind@ == "cwd"@ ==> self.result.working_directories.has(path@));
        Some(path)
    }

    /// Search lists and input files named by well-known variables.
    pub fn list_paths(&mut self, name: &[char], value: &[char], state: &State)
        requires
            old(self).wf(),
        ensures
            final(self).wf(),
            final(self).steps == old(self).steps,
            final(self).kept_references(&*old(self)),
            !(name@ == "LD_LIBRARY_PATH"@ || name@ == "LD_PRELOAD"@ || name@ == "SDL_GAMECONTROLLERCONFIG_FILE"@
                || name@ == "GPTOKEYB_CONFIG"@) ==> *final(self) == *old(self),
            (name@ == "SDL_GAMECONTROLLERCONFIG_FILE"@ || name@ == "GPTOKEYB_CONFIG"@) && old(
                self,
            ).result.paths.items.len() < MAX_ITEMS && old(self).result.output_paths.items.len() < MAX_ITEMS
                && !(crate::text::contains_seq(value@, "://"@) || crate::text::is_prefix("rgbi:"@, value@))
                && !(utf8_bytes(value@) > MAX_VALUE || value@.contains('\0')) ==> match based_path(
                value@,
                value_view(state.cwd),
            ) {
                Some(b) => !crate::shell_sources::has_dot_dot_component(b) ==> {
                    &&& final(self).result.input_configs.has(crate::paths::normal_form(b))
                    &&& final(self).result.paths.has(crate::paths::normal_form(b))
                },
                None => true,
            },
            name@ == "LD_LIBRARY_PATH"@ && old(self).result.paths.items.len() + crate::text::split_spec(value@, ':').len()
                < MAX_ITEMS && old(self).result.output_paths.items.len() < MAX_ITEMS ==> forall|i: int|
                0 <= i < crate::text::split_spec(value@, ':').len() ==> library_recorded(
                    final(self).result,
                    library_entry(#[trigger] crate::text::split_spec(value@, ':')[i]),
                    value_view(state.cwd),
                ),
            name@ == "LD_PRELOAD"@ && old(self).result.paths.items.len() + preload_pieces(value@).len() < MAX_ITEMS
                && old(self).result.preload_libraries.items.len() + preload_pieces(value@).len() < MAX_ITEMS
                && old(self).result.output_paths.items.len() < MAX_ITEMS ==> forall|w: Seq<char>|
                #[trigger] preload_pieces(value@).contains(w) ==> preload_recorded(final(self).result, w, value_view(state.cwd)),
    {
        proof {
            reveal_strlit("LD_LIBRARY_PATH");
            reveal_strlit("LD_PRELOAD");
            reveal_strlit("SDL_GAMECONTROLLERCONFIG_FILE");
            reveal_strlit("GPTOKEYB_CONFIG");
            reveal_strlit("input");
            reveal_strlit("argument");
            assert("LD_LIBRARY_PATH"@[0] != "GPTOKEYB_CONFIG"@[0]);
            assert("LD_PRELOAD"@.len() != "SDL_GAMECONTROLLERCONFIG_FILE"@.len());
            assert("LD_PRELOAD"@.len() != "GPTOKEYB_CONFIG"@.len());
            reveal_strlit("output");
            assert("input"@.len() != "argument"@.len() && "input"@.len() != "output"@.len());
        }
        if eq_lit(name, "LD_LIBRARY_PATH") {
            let parts = split_char(value, ':');
            let ghost sp = crate::text::split_spec(value@, ':');
            let ghost cwd = value_view(state.cwd);
            let ghost law = old(self).result.paths.items.len() + sp.len() < MAX_ITEMS
                && old(self).result.output_paths.items.len() < MAX_ITEMS;
            proof {
                reveal_strlit("library");
                assert("library"@.len() != "argument"@.len() && "library"@.len() != "output"@.len());
            }
            let mut i: usize = 0;
            while i < parts.len()
                invariant
                    self.wf(),
                    self.steps == old(self).steps,
                    self.kept_references(&*old(self)),
                    i <= parts.len(),
                    parts@.map_values(|v: Vec<char>| v@) == sp,
                    cwd == value_view(state.cwd),
                    law == (old(self).result.paths.items.len() + sp.len() < MAX_ITEMS
                        && old(self).result.output_paths.items.len() < MAX_ITEMS),
                    "library"@ != "argument"@ && "library"@ != "output"@,
                    law ==> {
                        &&& self.result.paths.items.len() <= old(self).result.paths.items.len() + i
                        &&& self.result.output_paths == old(self).result.output_paths
                        &&& forall|j: int| 0 <= j < i ==> library_recorded(self.result, library_entry(#[trigger] sp[j]), cwd)
                    },
                decreases parts.len() - i,
            {
                let ghost before = self.result;
                proof {
                    assert(parts@.map_values(|v: Vec<char>| v@).len() == parts.len());
                    assert(parts@[i as int]@ == sp[i as int]);
                }
                if parts[i].len() == 0 {
                    let dot = lit(".");
                    self.record(dot.as_slice(), state, "library");
                } else {
                    self.record(parts[i].as_slice(), state, "library");
                }
                proof {
                    if law {
                        assert(library_recorded(self.result, library_entry(sp[i as int]), cwd));
                        assert forall|j: int| 0 <= j < i + 1 implies library_recorded(
                            self.result,
                            library_entry(#[trigger] sp[j]),
                            cwd,
                        ) by {
                            if j < i {
                                assert(library_recorded(before, library_entry(sp[j]), cwd));
                            }
                        }
                    }
                }
                i += 1;
            }
        } else if eq_lit(name, "LD_PRELOAD") {
            let pieces = split_char(value, ':');
            let ghost parts = crate::text::split_spec(value@, ':');
            let ghost total = preload_pieces(value@).len();
            let ghost law = old(self).result.paths.items.len() + total < MAX_ITEMS
                && old(self).result.preload_libraries.items.len() + total < MAX_ITEMS
                && old(self).result.output_paths.items.len() < MAX_ITEMS;
            let ghost cwd = value_view(state.cwd);
            assert(parts.subrange(0, 0) =~= Seq::<Seq<char>>::empty());
            let mut i: usize = 0;
            while i < pieces.len()
                invariant
                    self.wf(),
                    self.steps == old(self).steps,
                    self.kept_references(&*old(self)),
                    name@ == "LD_PRELOAD"@,
                    name@ != "SDL_GAMECONTROLLERCONFIG_FILE"@ && name@ != "GPTOKEYB_CONFIG"@ && name@ != "LD_LIBRARY_PATH"@,
                    i <= pieces.len(),
                    pieces@.map_values(|v: Vec<char>| v@) == parts,
                    parts == crate::text::split_spec(value@, ':'),
                    total == pieces_of(parts).len(),
                    total == preload_pieces(value@).len(),
                    cwd == value_view(state.cwd),
                    law == (old(self).result.paths.items.len() + total < MAX_ITEMS
                        && old(self).result.preload_libraries.items.len() + total < MAX_ITEMS
                        && old(self).result.output_paths.items.len() < MAX_ITEMS),
                    law ==> {
                        &&& self.result.paths.items.len() <= old(self).result.paths.items.len() + pieces_of(
                            parts.subrange(0, i as int),
                        ).len()
                        &&& self.result.preload_libraries.items.len() <= old(self).result.preload_libraries.items.len()
                            + pieces_of(parts.subrange(0, i as int)).len()
                        &&& self.result.output_paths == old(self).result.output_paths
                        &&& forall|j: int|
                            0 <= j < pieces_of(parts.subrange(0, i as int)).len() ==> preload_recorded(
                                self.result,
                                #[trigger] pieces_of(parts.subrange(0, i as int))[j],
                                cwd,
                            )
                    },
                decreases pieces.len() - i,
            {
                let words = split_ascii_whitespace(pieces[i].as_slice());
                let ghost base = pieces_of(parts.subrange(0, i as int));
                let ghost wsv = crate::text::ws_split(parts[i as int]);
                proof {
                    assert(pieces@[i as int]@ == parts[i as int]);
                    assert(parts.subrange(0, i + 1).drop_last() =~= parts.subrange(0, i as int));
                    assert(pieces_of(parts.subrange(0, i + 1)) == base + wsv);
                    lemma_pieces_prefix(parts, i + 1);
                }
                let mut k: usize = 0;
                while k < words.len()
                    invariant
                        self.wf(),
                        self.steps == old(self).steps,
                        self.kept_references(&*old(self)),
                        name@ == "LD_PRELOAD"@,
                        name@ != "SDL_GAMECONTROLLERCONFIG_FILE"@ && name@ != "GPTOKEYB_CONFIG"@ && name@ != "LD_LIBRARY_PATH"@,
                        k <= words.len(),
                        words@.map_values(|v: Vec<char>| v@) == wsv,
                        base.len() + wsv.len() <= total,
                        total == preload_pieces(value@).len(),
                        cwd == value_view(state.cwd),
                        law == (old(self).result.paths.items.len() + total < MAX_ITEMS
                            && old(self).result.preload_libraries.items.len() + total < MAX_ITEMS
                            && old(self).result.output_paths.items.len() < MAX_ITEMS),
                        law ==> {
                            &&& self.result.paths.items.len() <= old(self).result.paths.items.len() + base.len() + k
                            &&& self.result.preload_libraries.items.len() <= old(self).result.preload_libraries.items.len()
                                + base.len() + k
                            &&& self.result.output_paths == old(self).result.output_paths
                            &&& forall|j: int| 0 <= j < base.len() ==> preload_recorded(self.result, #[trigger] base[j], cwd)
                            &&& forall|j: int| 0 <= j < k ==> preload_recorded(self.result, #[trigger] wsv[j], cwd)
                        },
                    decreases words.len() - k,
                {
                    let part = words[k].as_slice();
                    let ghost before = self.result;
                    proof {
                        assert(part@ == wsv[k as int]);
                        reveal_strlit("preload");
                        reveal_strlit("argument");
                        reveal_strlit("output");
                        assert("preload"@.len() != "argument"@.len() && "preload"@.len() != "output"@.len());
                    }
                    proof {
                        assert(words@.map_values(|v: Vec<char>| v@).len() == words.len());
                        assert(part@.subrange(0, part.len() as int) =~= part@);
                    }
                    if has_char(part, '/') {
                        self.record(part, state, "preload");
                    } else {
                        if self.result.preload_libraries.len() >= MAX_ITEMS {
                            proof {
                                if law {
                                    assert(self.result.preload_libraries.items.len() < MAX_ITEMS);
                                }
                            }
                            self.issue("preload count limit");
                            return;
                        }
                        self.result.preload_libraries.insert(slice(part, 0, part.len()));
                    }
                    proof {
                        if law {
                            assert(preload_recorded(self.result, wsv[k as int], cwd));
                            assert forall|j: int| 0 <= j < base.len() implies preload_recorded(
                                self.result,
                                #[trigger] base[j],
                                cwd,
                            ) by {
                                assert(preload_recorded(before, base[j], cwd));
                            }
                            assert forall|j: int| 0 <= j < k + 1 implies preload_recorded(
                                self.result,
                                #[trigger] wsv[j],
                                cwd,
                            ) by {
                                if j < k {
                                    assert(preload_recorded(before, wsv[j], cwd));
                                }
                            }
                        }
                    }
                    k += 1;
                }
                proof {
                    if law {
                        let nb = pieces_of(parts.subrange(0, i + 1));
                        assert forall|j: int| 0 <= j < nb.len() implies preload_recorded(self.result, #[trigger] nb[j], cwd) by {
                            if j < base.len() {
                                assert(nb[j] == base[j]);
                            } else {
                                assert(nb[j] == wsv[j - base.len()]);
                            }
                        }
                    }
                }
                i += 1;
            }
            proof {
                assert(parts.subrange(0, pieces.len() as int) =~= parts);
                if law {
                    assert forall|w: Seq<char>| #[trigger] preload_pieces(value@).contains(w) implies preload_recorded(
                        self.result,
                        w,
                        cwd,
                    ) by {
                        let j = choose|j: int| 0 <= j < preload_pieces(value@).len() && preload_pieces(value@)[j] == w;
                        assert(pieces_of(parts.subrange(0, i as int))[j] == w);
                    }
                }
            }
        } else if eq_lit(name, "SDL_GAMECONTROLLERCONFIG_FILE") || eq_lit(name, "GPTOKEYB_CONFIG") {
            self.record(value, state, "input");
        }
    }

    /// Records a declared runtime image name.
    pub fn runtime_name(&mut self, value: &[char])
        requires
            old(self).wf(),
        ensures
            final(self).wf(),
            final(self).steps == old(self).steps,
            final(self).result.paths == old(self).result.paths,
            ({
                let n = declared_runtime(value@);
                let names = old(self).result.runtime_names@.map_values(|t: Text| t@);
                if !crate::findings::valid_runtime_name(n) || names.contains(n) {
                    final(self).result == old(self).result
                } else if old(self).result.runtime_names.len() < MAX_ITEMS {
                    final(self).result.runtime_names@.map_values(|t: Text| t@) == names.push(n)
                        && final(self).result.diagnostics == old(self).result.diagnostics
                } else {
                    final(self).result.runtime_names == old(self).result.runtime_names && (old(
                        self,
                    ).result.diagnostics.items.len() < MAX_MESSAGES ==> final(self).result.diagnostics.items.len() > 0)
                }
            }),
    {
        let mut a: usize = 0;
        assert(value@.subrange(0, value.len() as int) =~= value@);
        while a < value.len() && value[a] == '/'
            invariant
                a <= value.len(),
                without_leading_slashes(value@) == without_leading_slashes(value@.subrange(a as int, value.len() as int)),
            decreases value.len() - a,
        {
            assert(value@.subrange(a as int, value.len() as int).drop_first() =~= value@.subrange(a + 1, value.len() as int));
            a += 1;
        }
        let name0 = slice(value, a, value.len());
        assert(without_leading_slashes(name0@) == name0@);
        let suffix = lit(".squashfs");
        let name = match strip_suffix_text(name0.as_slice(), suffix.as_slice()) {
            Some(n) => n,
            None => name0,
        };
        proof {
            reveal_strlit(".squashfs");
            assert(without_leading_slashes(name0@) == name0@);
        }
        assert(name@ == declared_runtime(value@));
        if !check_runtime_name(name.as_slice()) {
            return;
        }
        let mut i: usize = 0;
        while i < self.result.runtime_names.len()
            invariant
                self.wf(),
                self.steps == old(self).steps,
                *self == *old(self),
                name@ == declared_runtime(value@),
                forall|j: int| 0 <= j < i ==> self.result.runtime_names[j]@ != name@,
            decreases self.result.runtime_names.len() - i,
        {
            if text_eq(self.result.runtime_names[i].as_slice(), name.as_slice()) {
                assert(self.result.runtime_names@.map_values(|t: Text| t@)[i as int] == name@);
                return;
            }
            i += 1;
        }
        let ghost nv = self.result.runtime_names@.map_values(|t: Text| t@);
        assert(!nv.contains(name@)) by {
            if nv.contains(name@) {
                let j = choose|j: int| 0 <= j < nv.len() && #[trigger] nv[j] == name@;
                assert(self.result.runtime_names[j]@ == name@);
            }
        }
        if self.result.runtime_names.len() < MAX_ITEMS {
            let ghost old_names = self.result.runtime_names@;
            let ghost nv = name@;
            self.result.runtime_names.push(name);
            assert(self.result.runtime_names@.map_values(|t: Text| t@) =~= old_names.map_values(|t: Text| t@).push(nv));
            assert forall|i: int, j: int|
                0 <= i < j < self.result.runtime_names.len() implies #[trigger] self.result.runtime_names[i]@
                != #[trigger] self.result.runtime_names[j]@ by {
                if j < old_names.len() {
                    assert(self.result.runtime_names[i] == old_names[i]);
                    assert(self.result.runtime_names[j] == old_names[j]);
                }
            }
        } else {
            self.issue("runtime count limit");
        }
    }

    /// The value of a word, or `None` when it depends on something unknown.
    pub fn word(&mut self, cx: &Src, node: usize, state: &State, depth: usize) -> (r: Value)
        requires
            old(self).wf(),
            cx.wf(),
            cx.node(node),
            depth <= 80,
        ensures
            final(self).wf(),
            final(self).steps <= old(self).steps,
            old(self).steps == 0 || depth > MAX_DEPTH ==> final(self).reported(&*old(self)) && r is None,
            old(self).steps > 0 && depth <= MAX_DEPTH ==> match literal_word_value(cx, node as int, state) {
                Some(v) => value_view(r) == v && final(self).steps == old(self).steps - 1 && final(self).result
                    == old(self).result,
                None => true,
            },
            old(self).steps > 1 && depth < MAX_DEPTH && node_kind(cx, node as int) == "command_name"@
                && crate::syntax::children_spec(cx.tree.nodes@, node as int, true).len() > 0 ==> match literal_word_value(
                cx,
                crate::syntax::children_spec(cx.tree.nodes@, node as int, true)[0] as int,
                state,
            ) {
                Some(v) => value_view(r) == v && final(self).steps == old(self).steps - 2 && final(self).result
                    == old(self).result,
                None => true,
            },
            old(self).steps == 1 && depth < MAX_DEPTH && node_kind(cx, node as int) == "command_name"@ ==> r is None,
            (node_kind(cx, node as int) == "string"@ || node_kind(cx, node as int) == "concatenation"@) && (exists|j: int|
                0 <= j < crate::syntax::children_spec(cx.tree.nodes@, node as int, true).len() && literal_word_value(
                    cx,
                    #[trigger] crate::syntax::children_spec(cx.tree.nodes@, node as int, true)[j] as int,
                    state,
                ) == Some(None::<Seq<char>>)) ==> r is None,
            node_kind(cx, node as int) == "expansion"@ ==> match expansion_key(cx, node as int) {
                Some(key) => {
                    &&& parameter_value(key, state) is None ==> r is None
                    &&& old(self).steps > 0 && depth <= MAX_DEPTH && expansion_operator(cx, node as int) is None
                        ==> value_view(r) == parameter_value(key, state)
                },
                None => true,
            },
        decreases old(self).steps, 0int,
    {
        if !self.budget(depth) {
            return None;
        }
        proof {
            reveal_strlit("word");
            reveal_strlit("string_content");
            reveal_strlit("number");
            reveal_strlit("variable_name");
            reveal_strlit("raw_string");
            reveal_strlit("command_name");
            reveal_strlit("simple_expansion");
            reveal_strlit("expansion");
            reveal_strlit("string");
            reveal_strlit("concatenation");
            assert("command_name"@.len() == 12 && "simple_expansion"@.len() == 16 && "expansion"@.len() == 9);
            assert("string"@.len() == 6 && "concatenation"@.len() == 13);
            assert("string"@[0] != "number"@[0] && "concatenation"@[0] != "variable_name"@[0]);
            assert("word"@.len() == 4 && "string_content"@.len() == 14 && "number"@.len() == 6);
            assert("variable_name"@.len() == 13 && "raw_string"@.len() == 10);
        }
        if cx.kind(node, "word") || cx.kind(node, "string_content") || cx.kind(node, "number")
            || cx.kind(node, "variable_name") {
            let text = cx.text_of(node);
            if cx.kind(node, "word") && (has_glob(text.as_slice()) || has_char(text.as_slice(), '{')) {
                return None;
            }
            if eq_lit(text.as_slice(), "~") {
                return var_get(state, lit("HOME").as_slice());
            }
            if let Some(rest) = strip_prefix_lit(text.as_slice(), "~/") {
                return match var_get(state, lit("HOME").as_slice()) {
                    Some(home) => {
                        let mut v = home;
                        v.push('/');
                        push_all(&mut v, rest.as_slice());
                        assert(v@ =~= home@ + seq!['/'] + rest@);
                        Some(v)
                    },
                    None => None,
                };
            }
            return Some(unescape(text.as_slice(), cx.kind(node, "string_content")));
        }
        if cx.kind(node, "raw_string") {
            let text = cx.text_of(node);
            if text.len() >= 2 && text[0] == '\'' && text[text.len() - 1] == '\'' {
                return Some(slice(text.as_slice(), 1, text.len() - 1));
            }
            return None;
        }
        if cx.kind(node, "simple_expansion") {
            let text = cx.text_of(node);
            let trimmed = trim_start(text.as_slice());
            let name = match strip_prefix_lit(trimmed.as_slice(), "$") {
                Some(n) => n,
                None => return None,
            };
            if eq_lit(name.as_slice(), "?") {
                return match state.status {
                    Some(true) => Some(lit("0")),
                    Some(false) => Some(lit("1")),
                    None => None,
                };
            }
            if eq_lit(name.as_slice(), "PWD") {
                return copy_value(&state.cwd);
            }
            return var_get(state, name.as_slice());
        }
        if cx.kind(node, "expansion") {
            return self.expansion(cx, node, state, depth);
        }
        if cx.kind(node, "string") || cx.kind(node, "concatenation") {
            return self.composite(cx, node, state, depth);
        }
        if cx.kind(node, "command_name") {
            return match cx.nth_named(node, 0) {
                Some(c) => self.word(cx, c, state, depth + 1),
                None => None,
            };
        }
        if cx.kind(node, "command_substitution") {
            return self.substitution(cx, node, state, depth);
        }
        if cx.kind(node, "arithmetic_expansion") {
            self.issue("arithmetic expansion is not modeled");
            return None;
        }
        None
    }

    /// `${NAME}` and the `:- - + :+ % %%` operators.
    pub fn expansion(&mut self, cx: &Src, node: usize, state: &State, depth: usize) -> (r: Value)
        requires
            old(self).wf(),
            cx.wf(),
            cx.node(node),
            depth <= MAX_DEPTH,
        ensures
            final(self).wf(),
            final(self).steps <= old(self).steps,
            expansion_key(cx, node as int) matches Some(key) ==> {
                &&& parameter_value(key, state) is None ==> r is None
                &&& expansion_operator(cx, node as int) is None ==> value_view(r) == parameter_value(key, state)
                &&& (expansion_operator(cx, node as int) matches Some(o) && crate::syntax::children_spec(cx.tree.nodes@, node as int, true).len() > 1 && (node_text(cx, o as int) == ":-"@ || node_text(
                    cx,
                    o as int,
                ) == "-"@) && !texts_view(state.unset@).contains(key) && (parameter_value(key, state) matches Some(v) && (
                node_text(cx, o as int) == "-"@ || v.len() > 0))) ==> value_view(r) == parameter_value(key, state)
                &&& (expansion_operator(cx, node as int) matches Some(o) && crate::syntax::children_spec(cx.tree.nodes@, node as int, true).len() > 1 && (node_text(cx, o as int) == "+"@ || node_text(
                    cx,
                    o as int,
                ) == ":+"@) && (parameter_value(key, state) matches Some(v) && (texts_view(state.unset@).contains(key) || (
                node_text(cx, o as int) == ":+"@ && v.len() == 0)))) ==> value_view(r) == Some(Seq::<char>::empty())
            },
        decreases old(self).steps, 2int,
    {
        proof {
            reveal_strlit("subscript");
            reveal_strlit(":-");
            reveal_strlit("-");
            reveal_strlit("+");
            reveal_strlit(":+");
            reveal_strlit("%");
            reveal_strlit("%%");
            assert(":-"@.len() == 2 && "-"@.len() == 1 && "+"@.len() == 1 && ":+"@.len() == 2);
            assert("%"@.len() == 1 && "%%"@.len() == 2 && "-"@[0] != "+"@[0] && ":-"@[1] != ":+"@[1]);
            assert("-"@[0] != "%"@[0] && "+"@[0] != "%"@[0] && ":-"@[0] != "%%"@[0] && ":+"@[0] != "%%"@[0]);
        }
        let name = match cx.nth_named(node, 0) {
            Some(n) => n,
            None => return None,
        };
        let key = if cx.kind(name, "subscript") {
            let base = match cx.field(name, "name") {
                Some(b) => b,
                None => return None,
            };
            let index = match cx.field(name, "index") {
                Some(b) => b,
                None => return None,
            };
            if eq_lit(cx.text_of(base).as_slice(), "BASH_SOURCE") && eq_lit(cx.text_of(index).as_slice(), "0") {
                lit("BASH_SOURCE")
            } else {
                return None;
            }
        } else {
            cx.text_of(name)
        };
        let value = if eq_lit(key.as_slice(), "PWD") {
            copy_value(&state.cwd)
        } else {
            var_get(state, key.as_slice())
        };
        let op = match cx.field(node, "operator") {
            Some(o) => cx.text_of(o),
            None => return value,
        };
        let is_unset = text_list_has(&state.unset, key.as_slice());
        if is_one_of(op.as_slice(), ":-", "-") {
            let operand = match cx.nth_named(node, 1) {
                Some(o) => o,
                None => return None,
            };
            match value {
                None => {
                    let _ = self.word(cx, operand, state, depth + 1);
                    None
                },
                Some(v) => {
                    if !is_unset && (eq_lit(op.as_slice(), "-") || v.len() > 0) {
                        Some(v)
                    } else {
                        self.word(cx, operand, state, depth + 1)
                    }
                },
            }
        } else if is_one_of(op.as_slice(), "+", ":+") {
            let operand = match cx.nth_named(node, 1) {
                Some(o) => o,
                None => return None,
            };
            match value {
                None => {
                    let _ = self.word(cx, operand, state, depth + 1);
                    None
                },
                Some(v) => {
                    if is_unset || (eq_lit(op.as_slice(), ":+") && v.len() == 0) {
                        Some(Vec::new())
                    } else {
                        self.word(cx, operand, state, depth + 1)
                    }
                },
            }
        } else if is_one_of(op.as_slice(), "%", "%%") {
            let operand = match cx.nth_named(node, 1) {
                Some(o) => o,
                None => return None,
            };
            let raw = cx.text_of(operand);
            let pattern = if eq_lit(raw.as_slice(), "/*") {
                raw
            } else {
                match self.word(cx, operand, state, depth + 1) {
                    Some(p) => p,
                    None => return None,
                }
            };
            let v = match value {
                Some(v) => v,
                None => return None,
            };
            if eq_lit(pattern.as_slice(), "/*") {
                let cut = if eq_lit(op.as_slice(), "%%") {
                    find_char(v.as_slice(), '/')
                } else {
                    rfind_char(v.as_slice(), '/')
                };
                return match cut {
                    Some(k) => Some(slice(v.as_slice(), 0, k)),
                    None => Some(v),
                };
            }
            if pattern.len() > 0 && pattern[0] == '*' {
                return None;
            }
            match strip_suffix_text(v.as_slice(), pattern.as_slice()) {
                Some(t) => Some(t),
                None => Some(v),
            }
        } else {
            self.issue("parameter expansion operator unsupported");
            None
        }
    }

    /// Double-quoted strings and concatenations: literal text between the
    /// parts is kept, each part is evaluated.
    pub fn composite(&mut self, cx: &Src, node: usize, state: &State, depth: usize) -> (r: Value)
        requires
            old(self).wf(),
            cx.wf(),
            cx.node(node),
            depth <= MAX_DEPTH,
        ensures
            final(self).wf(),
            final(self).steps <= old(self).steps,
            (exists|j: int|
                0 <= j < crate::syntax::children_spec(cx.tree.nodes@, node as int, true).len() && literal_word_value(
                    cx,
                    #[trigger] crate::syntax::children_spec(cx.tree.nodes@, node as int, true)[j] as int,
                    state,
                ) == Some(None::<Seq<char>>)) ==> r is None,
        decreases old(self).steps, 2int,
    {
        assert(crate::syntax::node_wf(
            cx.tree.nodes[node as int],
            node as int,
            cx.tree.nodes.len() as int,
            cx.text.len() as int,
        ));
        let quoted = cx.kind(node, "string");
        let mut out: Text = Vec::new();
        let mut known = true;
        let start = cx.tree.nodes[node].start;
        let end = cx.tree.nodes[node].end;
        let mut offset = if quoted && start < end {
            start + 1
        } else {
            start
        };
        let kids = cx.named(node);
        let mut i: usize = 0;
        while i < kids.len()
            invariant
                self.wf(),
                self.steps <= old(self).steps,
                cx.wf(),
                depth <= MAX_DEPTH,
                forall|j: int| 0 <= j < kids.len() ==> cx.node(#[trigger] kids[j]),
                offset <= cx.text.len(),
                i <= kids.len(),
                kids@ == crate::syntax::children_spec(cx.tree.nodes@, node as int, true),
                (exists|j: int| 0 <= j < i && literal_word_value(cx, #[trigger] kids@[j] as int, state) == Some(None::<Seq<char>>))
                    ==> !known,
            decreases kids.len() - i,
        {
            let child = kids[i];
            assert(crate::syntax::node_wf(
                cx.tree.nodes[child as int],
                child as int,
                cx.tree.nodes.len() as int,
                cx.text.len() as int,
            ));
            let cs = cx.tree.nodes[child].start;
            if offset <= cs {
                let gap = slice(cx.text.as_slice(), offset, cs);
                push_all(&mut out, unescape(gap.as_slice(), quoted).as_slice());
            }
            if quoted && (cx.kind(child, "simple_expansion") || cx.kind(child, "expansion")
                || cx.kind(child, "command_substitution")) {
                let t = cx.text_of(child);
                let mut k: usize = 0;
                while k < t.len() && is_whitespace(t[k])
                    decreases t.len() - k,
                {
                    out.push(t[k]);
                    k += 1;
                }
            }
            let part = self.word(cx, child, state, depth + 1);
            if part.is_none() {
                known = false;
            }
            proof {
                if literal_word_value(cx, child as int, state) == Some(None::<Seq<char>>) {
                    assert(!known);
                }
            }
            let part = match part {
                Some(p) => p,
                None => Vec::new(),
            };
            let used = byte_len(out.as_slice());
            let extra = byte_len(part.as_slice());
            if used > MAX_VALUE || extra > MAX_VALUE || used + extra > MAX_VALUE {
                self.issue("expansion size limit");
                return None;
            }
            push_all(&mut out, part.as_slice());
            offset = cx.tree.nodes[child].end;
            i += 1;
        }
        let stop = if quoted && end > 0 && end - 1 >= offset {
            end - 1
        } else if end >= offset {
            end
        } else {
            offset
        };
        let tail = slice(cx.text.as_slice(), offset, stop);
        push_all(&mut out, unescape(tail.as_slice(), quoted).as_slice());
        if known {
            Some(out)
        } else {
            None
        }
    }

    /// `$(...)`: asks the environment for the output of its text; what the
    /// value then is, `substituted` decides from that answer.
    pub fn substitution(&mut self, cx: &Src, node: usize, state: &State, depth: usize) -> (r: Value)
        requires
            old(self).wf(),
            cx.wf(),
            cx.node(node),
            depth <= MAX_DEPTH,
        ensures
            final(self).wf(),
            final(self).steps <= old(self).steps,
        decreases old(self).steps, 2int,
    {
        let raw = cx.text_of(node);
        let raw_string = string_of(raw.as_slice());
        let answer = self.environment.command_output(raw_string.as_str());
        self.substituted(cx, node, state, depth, answer)
    }

    /// The value of `$(...)` once the environment has answered for its text
    /// (`answer`): the recorded output when there is one and it is not too
    /// long; otherwise the value of `pwd`, `dirname`, `basename`,
    /// `readlink -f` or `cat` as the only command, and unknown for any other
    /// command.
    pub fn substituted(&mut self, cx: &Src, node: usize, state: &State, depth: usize, answer: Option<String>) -> (r: Value)
        requires
            old(self).wf(),
            cx.wf(),
            cx.node(node),
            depth <= MAX_DEPTH,
        ensures
            final(self).wf(),
            final(self).steps <= old(self).steps,
            answer matches Some(v) ==> value_view(r) == (if (vstd::utf8::encode_utf8(v@).len() as usize) <= MAX_VALUE {
                Some(v@)
            } else {
                None::<Seq<char>>
            }),
            answer is None && substitution_command(cx, node as int) is None ==> r is None,
            answer is None && depth + 1 < MAX_DEPTH ==> match substitution_command(cx, node as int) {
                Some(c) => match command_name_value(cx, c, state) {
                    Some(Some(n)) => !modeled_command(n) ==> r is None,
                    _ => true,
                },
                None => true,
            },
        decreases old(self).steps, 1int,
    {
        match answer {
            Some(value) => {
                if value.as_str().len() <= MAX_VALUE {
                    return Some(chars_of(value.as_str()));
                }
                return None;
            },
            None => {},
        }
        let mut child = state.clone();
        let kids = cx.named(node);
        let mut i: usize = 0;
        while i < kids.len()
            invariant
                self.wf(),
                self.steps <= old(self).steps,
                cx.wf(),
                depth <= MAX_DEPTH,
                forall|j: int| 0 <= j < kids.len() ==> cx.node(#[trigger] kids[j]),
            decreases kids.len() - i,
        {
            self.statement(cx, kids[i], &mut child, depth + 1);
            i += 1;
        }
        if kids.len() != 1 {
            return None;
        }
        let command = kids[0];
        if !cx.kind(command, "command") {
            return None;
        }
        let words = cx.named(command);
        let ghost name = command_name_value(cx, command as int, state);
        assert(substitution_command(cx, node as int) == Some(command as int));
        let mut args: Vec<Text> = Vec::new();
        let mut k: usize = 0;
        while k < words.len()
            invariant
                self.wf(),
                self.steps <= old(self).steps,
                cx.wf(),
                depth <= MAX_DEPTH,
                forall|j: int| 0 <= j < words.len() ==> cx.node(#[trigger] words[j]),
                k <= words.len(),
                args.len() == k,
                words@ == crate::syntax::children_spec(cx.tree.nodes@, command as int, true),
                name == command_name_value(cx, command as int, state),
                answer is None,
                depth + 1 < MAX_DEPTH && k >= 1 ==> match name {
                    Some(Some(n)) => args@[0]@ == n,
                    _ => true,
                },
            decreases words.len() - k,
        {
            match self.word(cx, words[k], state, depth + 1) {
                Some(v) => args.push(v),
                None => return None,
            }
            k += 1;
        }
        if args.len() == 1 && eq_lit(args[0].as_slice(), "pwd") {
            return state.cwd.clone();
        }
        if args.len() == 2 && eq_lit(args[0].as_slice(), "dirname") {
            return match parent(args[1].as_slice()) {
                Some(p) => {
                    if p.len() == 0 {
                        Some(lit("."))
                    } else {
                        Some(p)
                    }
                },
                None => Some(lit(".")),
            };
        }
        if args.len() == 2 && eq_lit(args[0].as_slice(), "basename") {
            return file_name(args[1].as_slice());
        }
        if args.len() == 3 && eq_lit(args[0].as_slice(), "readlink") && eq_lit(args[1].as_slice(), "-f") {
            let p = string_of(args[2].as_slice());
            return match self.environment.canonicalize(p.as_str()) {
                Some(c) => Some(chars_of(c.as_str())),
                None => None,
            };
        }
        if args.len() == 2 && eq_lit(args[0].as_slice(), "cat") {
            let p = string_of(args[1].as_slice());
            return match self.environment.read(p.as_str()) {
                Ok(v) => {
                    if v.as_str().len() <= MAX_VALUE {
                        Some(trim_end_newlines(chars_of(v.as_str()).as_slice()))
                    } else {
                        None
                    }
                },
                Err(_) => None,
            };
        }
        None
    }

    /// Evaluates a shell `case` pattern against a known value.
    pub fn case_match(&mut self, cx: &Src, node: usize, value: &[char], state: &State, depth: usize) -> (r: Option<bool>)
        requires
            old(self).wf(),
            cx.wf(),
            cx.node(node),
            depth <= 78,
        ensures
            final(self).wf(),
            final(self).steps <= old(self).steps,
            node_kind(cx, node as int) == "word"@ && node_text(cx, node as int) == "*"@ ==> r == Some(true),
            forall|k: int|
                node_kind(cx, node as int) == "word"@ && #[trigger] single_star_pattern(node_text(cx, node as int), k)
                    ==> r == Some(single_star_match(node_text(cx, node as int), value@, k)),
        decreases old(self).steps, 1int,
    {
        proof {
            reveal_strlit("word");
            reveal_strlit("concatenation");
            reveal_strlit("*");
            assert("word"@.len() != "concatenation"@.len());
        }
        if cx.kind(node, "word") {
            let raw = cx.text_of(node);
            if !has_char(raw.as_slice(), '\\') {
                if eq_lit(raw.as_slice(), "*") {
                    proof {
                        assert forall|q: int| #[trigger] single_star_pattern(raw@, q) implies single_star_match(
                            raw@,
                            value@,
                            q,
                        ) by {
                            assert(value@.subrange(0, 0) =~= raw@.subrange(0, q));
                            assert(value@.subrange(value@.len() as int, value@.len() as int) =~= raw@.subrange(
                                q + 1,
                                raw@.len() as int,
                            ));
                        }
                    }
                    return Some(true);
                }
                if let Some(k) = find_char(raw.as_slice(), '*') {
                    let prefix = slice(raw.as_slice(), 0, k);
                    let suffix = slice(raw.as_slice(), k + 1, raw.len());
                    proof {
                        if !suffix@.contains('*') {
                            assert forall|j: int| 0 <= j < raw@.len() && j != k implies raw@[j] != '*' by {
                                if j > k {
                                    assert(suffix@[j - k - 1] == raw@[j]);
                                }
                            }
                        }
                        assert forall|q: int| #[trigger] single_star_pattern(raw@, q) implies q == k as int
                            && !suffix@.contains('*') by {
                            if q != k {
                                assert(raw@[k as int] == '*');
                            }
                            if suffix@.contains('*') {
                                let m = suffix@.index_of('*');
                                assert(raw@[k + 1 + m] == '*');
                            }
                        }
                    }
                    if !has_char(suffix.as_slice(), '*') && !has_char(raw.as_slice(), '?') && !has_char(raw.as_slice(), '[') {
                        return Some(value.len() >= prefix.len() + suffix.len() && starts_with(value, prefix.as_slice())
                            && ends_with(value, suffix.as_slice()));
                    }
                }
            }
        }
        if cx.kind(node, "concatenation") {
            let parts = cx.named(node);
            if parts.len() > 0 && cx.kind(parts[parts.len() - 1], "word") && eq_lit(
                cx.text_of(parts[parts.len() - 1]).as_slice(),
                "*",
            ) {
                let mut prefix: Text = Vec::new();
                let mut i: usize = 0;
                while i < parts.len() - 1
                    invariant
                        parts.len() > 0,
                        node_kind(cx, node as int) != "word"@,
                        self.wf(),
                        self.steps <= old(self).steps,
                        cx.wf(),
                        depth <= 78,
                        forall|j: int| 0 <= j < parts.len() ==> cx.node(#[trigger] parts[j]),
                    decreases parts.len() - i,
                {
                    match self.word(cx, parts[i], state, depth + 1) {
                        Some(v) => push_all(&mut prefix, v.as_slice()),
                        None => return None,
                    }
                    i += 1;
                }
                return Some(starts_with(value, prefix.as_slice()));
            }
        }
        let p = match self.word(cx, node, state, depth + 1) {
            Some(p) => p,
            None => return None,
        };
        if !(cx.kind(node, "string") || cx.kind(node, "raw_string")) && has_glob(p.as_slice()) {
            return None;
        }
        Some(text_eq(p.as_slice(), value))
    }

    /// Joins the facts of two alternative paths: what differs becomes unknown.
    pub fn merge(&mut self, target: &mut State, a: State, b: State)
        requires
            old(self).wf(),
        ensures
            final(self).wf(),
            final(self).steps == old(self).steps,
            final(self).result.paths == old(self).result.paths,
            forall|key: Seq<char>| #[trigger] var_lookup(final(target).vars@, key) == merged_entry(
                var_lookup(a.vars@, key),
                var_lookup(b.vars@, key),
            ),
            forall|x: Seq<char>| #[trigger] texts_view(final(target).unset@).contains(x) <==> (texts_view(a.unset@).contains(x)
                && texts_view(b.unset@).contains(x)),
            value_view(final(target).cwd) == (if value_view(a.cwd) == value_view(b.cwd) {
                value_view(a.cwd)
            } else {
                None
            }),
            functions_view(final(target).functions@) == functions_view(a.functions@).filter(
                |f: (Seq<char>, Seq<char>, Seq<char>)| functions_view(b.functions@).contains(f),
            ),
            final(target).status == (if a.status == b.status {
                a.status
            } else {
                None
            }),
            final(target).stopped == (a.stopped && b.stopped),
            final(target).exited == (a.exited && b.exited),
    {
        let mut keys: Vec<Text> = Vec::new();
        let mut i: usize = 0;
        while i < a.vars.len()
            invariant
                i <= a.vars.len(),
                texts_view(keys@) == a.vars@.subrange(0, i as int).map_values(|e: (Text, Value)| e.0@),
            decreases a.vars.len() - i,
        {
            let ghost prev = keys@;
            let k = slice(a.vars[i].0.as_slice(), 0, a.vars[i].0.len());
            assert(k@ =~= a.vars@[i as int].0@);
            keys.push(k);
            proof {
                assert(keys@ == prev.push(k));
                assert(texts_view(keys@) =~= texts_view(prev).push(k@));
                assert(a.vars@.subrange(0, i + 1) =~= a.vars@.subrange(0, i as int).push(a.vars@[i as int]));
                assert(texts_view(keys@) =~= a.vars@.subrange(0, i + 1).map_values(|e: (Text, Value)| e.0@));
            }
            i += 1;
        }
        let mut i: usize = 0;
        while i < b.vars.len()
            invariant
                i <= b.vars.len(),
                texts_view(keys@) == a.vars@.map_values(|e: (Text, Value)| e.0@) + b.vars@.subrange(0, i as int).map_values(
                    |e: (Text, Value)| e.0@,
                ),
            decreases b.vars.len() - i,
        {
            proof {
                if i == 0 {
                    assert(a.vars@.subrange(0, a.vars@.len() as int) =~= a.vars@);
                }
            }
            let ghost prev = keys@;
            let k = slice(b.vars[i].0.as_slice(), 0, b.vars[i].0.len());
            assert(k@ =~= b.vars@[i as int].0@);
            keys.push(k);
            proof {
                assert(keys@ == prev.push(k));
                assert(texts_view(keys@) =~= texts_view(prev).push(k@));
                assert(b.vars@.subrange(0, i + 1) =~= b.vars@.subrange(0, i as int).push(b.vars@[i as int]));
                assert(texts_view(keys@) =~= a.vars@.map_values(|e: (Text, Value)| e.0@) + b.vars@.subrange(0, i + 1).map_values(
                    |e: (Text, Value)| e.0@,
                ));
            }
            i += 1;
        }
        proof {
            if b.vars.len() == 0 && a.vars.len() == 0 {
            }
            assert(b.vars@.subrange(0, b.vars@.len() as int) =~= b.vars@);
            assert(a.vars@.subrange(0, a.vars@.len() as int) =~= a.vars@);
        }
        let ghost all_keys = texts_view(keys@);
        proof {
            assert forall|key: Seq<char>| all_keys.contains(key) <==> (var_lookup(a.vars@, key) is Some || var_lookup(b.vars@, key) is Some) by {
                lemma_var_index(a.vars@, key, a.vars@.len() as int);
                lemma_var_index(b.vars@, key, b.vars@.len() as int);
                let ka = a.vars@.map_values(|e: (Text, Value)| e.0@);
                let kb = b.vars@.map_values(|e: (Text, Value)| e.0@);
                assert(all_keys == ka + kb);
                if all_keys.contains(key) {
                    let j = choose|j: int| 0 <= j < all_keys.len() && #[trigger] all_keys[j] == key;
                    if j < ka.len() {
                        assert(a.vars@[j].0@ == key);
                    } else {
                        assert(b.vars@[j - ka.len()].0@ == key);
                    }
                }
                if var_lookup(a.vars@, key) is Some {
                    let k = var_index(a.vars@, key, a.vars@.len() as int)->0;
                    assert(all_keys[k] == key);
                }
                if var_lookup(b.vars@, key) is Some {
                    let k = var_index(b.vars@, key, b.vars@.len() as int)->0;
                    assert(all_keys[ka.len() + k] == key);
                }
            }
        }
        let mut vars: Vec<(Text, Value)> = Vec::new();
        let mut i: usize = 0;
        while i < keys.len()
            invariant
                i <= keys.len(),
                all_keys == texts_view(keys@),
                forall|key: Seq<char>| all_keys.contains(key) <==> (var_lookup(a.vars@, key) is Some || var_lookup(
                    b.vars@,
                    key,
                ) is Some),
                self.wf(),
                self.steps == old(self).steps,
                *self == *old(self),
                forall|key: Seq<char>| #[trigger] var_lookup(vars@, key) == (if all_keys.subrange(0, i as int).contains(key) {
                    merged_entry(var_lookup(a.vars@, key), var_lookup(b.vars@, key))
                } else {
                    None
                }),
            decreases keys.len() - i,
        {
            let key = slice(keys[i].as_slice(), 0, keys[i].len());
            assert(key@ =~= all_keys[i as int]);
            let seen = {
                let mut found = false;
                let mut k: usize = 0;
                while k < vars.len()
                    invariant
                        k <= vars.len(),
                        found == exists|j: int| 0 <= j < k && (#[trigger] vars@[j]).0@ == key@,
                    decreases vars.len() - k,
                {
                    if text_eq(vars[k].0.as_slice(), key.as_slice()) {
                        found = true;
                    }
                    k += 1;
                }
                found
            };
            proof {
                lemma_var_index(vars@, key@, vars@.len() as int);
                assert(all_keys.subrange(0, i + 1) =~= all_keys.subrange(0, i as int).push(key@));
            }
            if !seen {
                let av = var_entry(&a, key.as_slice());
                let bv = var_entry(&b, key.as_slice());
                let v = if entry_eq(&av, &bv) {
                    match av {
                        Some(x) => x,
                        None => None,
                    }
                } else {
                    None
                };
                let ghost prev = vars@;
                let ghost kv = key@;
                vars.push((key, v));
                proof {
                    assert(all_keys[i as int] == kv);
                    assert(all_keys.contains(kv));
                    assert(entry_view(av) == var_lookup(a.vars@, kv));
                    assert(entry_view(bv) == var_lookup(b.vars@, kv));
                    assert(var_lookup(prev, kv) is None);
                    assert forall|key2: Seq<char>| #[trigger] var_lookup(vars@, key2) == (if all_keys.subrange(0, i + 1).contains(key2) {
                        merged_entry(var_lookup(a.vars@, key2), var_lookup(b.vars@, key2))
                    } else {
                        None
                    }) by {
                        lemma_var_index(prev, key2, prev.len() as int);
                        lemma_var_index(vars@, key2, vars@.len() as int);
                        let sub = all_keys.subrange(0, i as int);
                        let sub1 = all_keys.subrange(0, i + 1);
                        if var_index(prev, key2, prev.len() as int) is Some {
                            let k = var_index(prev, key2, prev.len() as int)->0;
                            lemma_var_index_found(vars@, key2, k, vars@.len() as int);
                            assert(vars@[k] == prev[k]);
                            assert(var_lookup(prev, key2) is Some);
                            assert(sub.contains(key2));
                            let j = choose|j: int| 0 <= j < sub.len() && #[trigger] sub[j] == key2;
                            assert(sub1[j] == key2);
                        } else if key2 == kv {
                            lemma_var_index_found(vars@, key2, prev.len() as int, vars@.len() as int);
                            assert(sub1[i as int] == kv);
                            assert(sub1.contains(kv));
                            assert(var_lookup(vars@, kv) == Some(value_view(v)));
                        } else {
                            assert(forall|j: int| 0 <= j < vars@.len() ==> vars@[j].0@ != key2);
                            if all_keys.subrange(0, i + 1).contains(key2) {
                                let j = choose|j: int| 0 <= j < i + 1 && #[trigger] all_keys.subrange(0, i + 1)[j] == key2;
                                assert(all_keys.subrange(0, i as int)[j] == key2);
                            }
                        }
                    }
                }
            } else {
                proof {
                    let k = var_index(vars@, key@, vars@.len() as int)->0;
                    assert(var_lookup(vars@, key@) is Some);
                    assert forall|key2: Seq<char>| #[trigger] var_lookup(vars@, key2) == (if all_keys.subrange(0, i + 1).contains(key2) {
                        merged_entry(var_lookup(a.vars@, key2), var_lookup(b.vars@, key2))
                    } else {
                        None
                    }) by {
                        if key2 != key@ && all_keys.subrange(0, i + 1).contains(key2) {
                            let j = choose|j: int| 0 <= j < i + 1 && #[trigger] all_keys.subrange(0, i + 1)[j] == key2;
                            assert(all_keys.subrange(0, i as int)[j] == key2);
                        }
                    }
                }
            }
            i += 1;
        }
        proof {
            assert(all_keys.subrange(0, all_keys.len() as int) =~= all_keys);
            assert forall|key: Seq<char>| #[trigger] var_lookup(vars@, key) == merged_entry(var_lookup(a.vars@, key), var_lookup(b.vars@, key)) by {
            }
        }
        target.vars = vars;
        let mut unset: Vec<Text> = Vec::new();
        let mut k: usize = 0;
        while k < a.unset.len()
            invariant
                k <= a.unset.len(),
                forall|x: Seq<char>| #[trigger] texts_view(unset@).contains(x) <==> (texts_view(a.unset@.subrange(0, k as int)).contains(x)
                    && texts_view(b.unset@).contains(x)),
            decreases a.unset.len() - k,
        {
            let ghost before = texts_view(unset@);
            if text_list_has(&b.unset, a.unset[k].as_slice()) {
                text_list_insert(&mut unset, a.unset[k].as_slice());
            }
            proof {
                let pre = texts_view(a.unset@.subrange(0, k as int));
                let post = texts_view(a.unset@.subrange(0, k + 1));
                assert(post =~= pre.push(a.unset@[k as int]@));
                assert forall|x: Seq<char>| #[trigger] texts_view(unset@).contains(x) <==> (post.contains(x) && texts_view(b.unset@).contains(x)) by {
                    if post.contains(x) && !pre.contains(x) {
                        let j = choose|j: int| 0 <= j < post.len() && #[trigger] post[j] == x;
                        assert(j == k);
                    }
                    if pre.contains(x) {
                        let j = choose|j: int| 0 <= j < pre.len() && #[trigger] pre[j] == x;
                        assert(post[j] == x);
                    }
                    if texts_view(unset@).contains(x) && !before.contains(x) {
                        assert(texts_view(unset@) == before.push(a.unset@[k as int]@));
                        let j = choose|j: int| 0 <= j < texts_view(unset@).len() && #[trigger] texts_view(unset@)[j] == x;
                        assert(post[k as int] == x);
                    }
                    if before.contains(x) {
                        let j = choose|j: int| 0 <= j < before.len() && #[trigger] before[j] == x;
                        assert(texts_view(unset@)[j] == x);
                    }
                    if x == a.unset@[k as int]@ && texts_view(b.unset@).contains(x) && !before.contains(x) {
                        assert(texts_view(unset@)[before.len() as int] == x);
                    }
                }
            }
            k += 1;
        }
        assert(a.unset@.subrange(0, a.unset@.len() as int) =~= a.unset@);
        target.unset = unset;
        target.cwd = if value_eq(&a.cwd, &b.cwd) {
            copy_value(&a.cwd)
        } else {
            None
        };
        let ghost fa = functions_view(a.functions@);
        let ghost fb = functions_view(b.functions@);
        let mut functions: Vec<(Text, Text, Text)> = Vec::new();
        let mut differ = a.functions.len() != b.functions.len();
        let mut f: usize = 0;
        while f < a.functions.len()
            invariant
                f <= a.functions.len(),
                fa == functions_view(a.functions@),
                fb == functions_view(b.functions@),
                functions_view(functions@) == fa.subrange(0, f as int).filter(
                    |g: (Seq<char>, Seq<char>, Seq<char>)| fb.contains(g),
                ),
            decreases a.functions.len() - f,
        {
            let mut same = false;
            let mut g: usize = 0;
            while g < b.functions.len()
                invariant
                    f < a.functions.len(),
                    g <= b.functions.len(),
                    fb == functions_view(b.functions@),
                    same == exists|j: int| 0 <= j < g && #[trigger] fb[j] == function_view(a.functions@[f as int]),
                decreases b.functions.len() - g,
            {
                assert(fb[g as int] == function_view(b.functions@[g as int]));
                if same_function(&a.functions[f], &b.functions[g]) {
                    same = true;
                }
                g += 1;
            }
            proof {
                assert(fa[f as int] == function_view(a.functions@[f as int]));
                assert(same == fb.contains(fa[f as int]));
                assert(fa.subrange(0, f + 1).drop_last() =~= fa.subrange(0, f as int));
                fa.subrange(0, f as int).lemma_filter_push(fa[f as int], |g: (Seq<char>, Seq<char>, Seq<char>)| fb.contains(g));
                assert(fa.subrange(0, f + 1) =~= fa.subrange(0, f as int).push(fa[f as int]));
            }
            if same {
                let e = &a.functions[f];
                let entry = (slice(e.0.as_slice(), 0, e.0.len()), slice(e.1.as_slice(), 0, e.1.len()), slice(e.2.as_slice(), 0, e.2.len()));
                let ghost prev = functions@;
                assert(function_view(entry) == fa[f as int]);
                functions.push(entry);
                assert(functions@ == prev.push(entry));
                assert(functions_view(functions@) =~= functions_view(prev).push(fa[f as int]));
            } else {
                differ = true;
            }
            f += 1;
        }
        assert(fa.subrange(0, fa.len() as int) =~= fa);
        if differ {
            self.issue("conditional function definitions differ");
        }
        target.functions = functions;
        target.status = if a.status == b.status {
            a.status
        } else {
            None
        };
        target.stopped = a.stopped && b.stopped;
        target.exited = a.exited && b.exited;
    }

    /// The truth of a condition, or `None` when it is unknown.
    pub fn condition(&mut self, cx: &Src, node: usize, state: &mut State, depth: usize) -> (r: Option<bool>)
        requires
            old(self).wf(),
            cx.wf(),
            cx.node(node),
            depth <= 80,
        ensures
            final(self).wf(),
            final(self).steps <= old(self).steps,
            old(self).steps == 0 || depth > MAX_DEPTH ==> final(self).reported(&*old(self)) && r is None && *final(state) == *old(state),
            old(self).steps > 2 && depth < MAX_DEPTH && node_kind(cx, node as int) == "binary_expression"@ ==> match binary_parts(
                cx,
                node as int,
            ) {
                Some((l, rt)) => {
                    let op = operator_between(cx, l as int, rt as int);
                    (op == "="@ || op == "=="@ || op == "!="@) ==> match (
                        literal_word_value(cx, l as int, &*old(state)),
                        literal_word_value(cx, rt as int, &*old(state)),
                    ) {
                        (Some(a), Some(b)) => r == string_test(op, a, b),
                        _ => true,
                    }
                },
                None => true,
            },
            old(self).steps > 3 && depth + 1 < MAX_DEPTH && node_kind(cx, node as int) == "test_command"@
                && crate::syntax::children_spec(cx.tree.nodes@, node as int, true).len() > 0 ==> match decided_string_test(
                cx,
                crate::syntax::children_spec(cx.tree.nodes@, node as int, true)[0] as int,
                &*old(state),
            ) {
                Some(t) => r == t,
                None => true,
            },
        decreases old(self).steps, 0int,
    {
        if !self.budget(depth) {
            return None;
        }
        proof {
            reveal_strlit("test_command");
            reveal_strlit("unary_expression");
            reveal_strlit("binary_expression");
            reveal_strlit("&&");
            reveal_strlit("||");
            reveal_strlit("=");
            reveal_strlit("==");
            reveal_strlit("!=");
            assert("test_command"@.len() == 12 && "unary_expression"@.len() == 16 && "binary_expression"@.len() == 17);
            assert("&&"@[0] != "=="@[0] && "||"@[0] != "=="@[0] && "&&"@[0] != "!="@[0] && "||"@[0] != "!="@[0]);
            assert("&&"@.len() == 2 && "="@.len() == 1);
        }
        if cx.kind(node, "test_command") {
            return match cx.nth_named(node, 0) {
                Some(c) => self.condition(cx, c, state, depth + 1),
                None => None,
            };
        }
        if cx.kind(node, "unary_expression") {
            return self.unary(cx, node, state, depth);
        }
        if cx.kind(node, "binary_expression") {
            let left = match cx.field(node, "left") {
                Some(n) => n,
                None => return None,
            };
            let right = match cx.field(node, "right") {
                Some(n) => n,
                None => return None,
            };
            let op = trim(cx.between(left, right).as_slice());
            if eq_lit(op.as_slice(), "&&") || eq_lit(op.as_slice(), "||") {
                return self.logical(cx, left, right, op.as_slice(), state, depth + 1);
            }
            let a = match self.word(cx, left, state, depth + 1) {
                Some(v) => v,
                None => return None,
            };
            let b = match self.word(cx, right, state, depth + 1) {
                Some(v) => v,
                None => return None,
            };
            if is_one_of(op.as_slice(), "=", "==") {
                return Some(text_eq(a.as_slice(), b.as_slice()));
            }
            if eq_lit(op.as_slice(), "!=") {
                return Some(!text_eq(a.as_slice(), b.as_slice()));
            }
            if is_one_of(op.as_slice(), "-eq", "-ne") {
                let x = match parse_i64(a.as_slice()) {
                    Some(x) => x,
                    None => return None,
                };
                let y = match parse_i64(b.as_slice()) {
                    Some(y) => y,
                    None => return None,
                };
                return Some((x == y) == eq_lit(op.as_slice(), "-eq"));
            }
            return None;
        }
        if cx.kind(node, "negated_command") {
            return match cx.nth_named(node, 0) {
                Some(c) => match self.condition(cx, c, state, depth + 1) {
                    Some(v) => Some(!v),
                    None => None,
                },
                None => None,
            };
        }
        if cx.kind(node, "word") || cx.kind(node, "string") || cx.kind(node, "raw_string") || cx.kind(
            node,
            "simple_expansion",
        ) || cx.kind(node, "expansion") {
            return match self.word(cx, node, state, depth + 1) {
                Some(v) => Some(v.len() > 0),
                None => None,
            };
        }
        if cx.kind(node, "list") {
            let a = match cx.nth_named(node, 0) {
                Some(n) => n,
                None => return None,
            };
            let b = match cx.nth_named(node, 1) {
                Some(n) => n,
                None => return None,
            };
            let op = trim(cx.between(a, b).as_slice());
            return self.logical(cx, a, b, op.as_slice(), state, depth + 1);
        }
        self.statement(cx, node, state, depth + 1);
        state.status
    }

    /// `[ -z X ]`, `[ -d PATH ]`, `! COND` and the other unary tests.
    pub fn unary(&mut self, cx: &Src, node: usize, state: &mut State, depth: usize) -> (r: Option<bool>)
        requires
            old(self).wf(),
            cx.wf(),
            cx.node(node),
            depth <= MAX_DEPTH,
        ensures
            final(self).wf(),
            final(self).steps <= old(self).steps,
            old(self).steps > 0 && depth < MAX_DEPTH ==> match unary_parts(cx, node as int) {
                Some((op, operand)) => op != "!"@ ==> match literal_word_value(cx, operand as int, &*old(state)) {
                    Some(None) => r is None,
                    Some(Some(v)) => {
                        &&& op == "-z"@ ==> r == Some(v.len() == 0)
                        &&& op == "-n"@ ==> r == Some(v.len() > 0)
                        &&& file_test(op) && v.len() == 0 ==> r == Some(false)
                        &&& !(op == "-z"@ || op == "-n"@ || file_test(op)) ==> r is None
                    },
                    None => true,
                },
                None => r is None,
            },
        decreases old(self).steps, 2int,
    {
        let children = cx.named(node);
        if children.len() == 0 {
            return None;
        }
        let operand = children[children.len() - 1];
        assert(crate::syntax::node_wf(
            cx.tree.nodes[node as int],
            node as int,
            cx.tree.nodes.len() as int,
            cx.text.len() as int,
        ));
        assert(crate::syntax::node_wf(
            cx.tree.nodes[operand as int],
            operand as int,
            cx.tree.nodes.len() as int,
            cx.text.len() as int,
        ));
        let ns = cx.tree.nodes[node].start;
        let os = cx.tree.nodes[operand].start;
        if os < ns {
            return None;
        }
        let op = trim(slice(cx.text.as_slice(), ns, os).as_slice());
        proof {
            reveal_strlit("!");
            reveal_strlit("-z");
            reveal_strlit("-n");
            reveal_strlit("-d");
            reveal_strlit("-f");
            reveal_strlit("-e");
            reveal_strlit("-x");
            reveal_strlit("-L");
            reveal_strlit("-h");
            assert("!"@.len() == 1 && "-z"@.len() == 2 && "-z"@[1] != "-n"@[1]);
            assert("-z"@[1] != "-d"@[1] && "-z"@[1] != "-f"@[1] && "-z"@[1] != "-e"@[1] && "-z"@[1] != "-x"@[1]);
            assert("-z"@[1] != "-L"@[1] && "-z"@[1] != "-h"@[1] && "-n"@[1] != "-d"@[1] && "-n"@[1] != "-f"@[1]);
            assert("-n"@[1] != "-e"@[1] && "-n"@[1] != "-x"@[1] && "-n"@[1] != "-L"@[1] && "-n"@[1] != "-h"@[1]);
        }
        if eq_lit(op.as_slice(), "!") {
            return match self.condition(cx, operand, state, depth + 1) {
                Some(v) => Some(!v),
                None => None,
            };
        }
        let value = match self.word(cx, operand, state, depth + 1) {
            Some(v) => v,
            None => return None,
        };
        if eq_lit(op.as_slice(), "-z") {
            return Some(value.len() == 0);
        }
        if eq_lit(op.as_slice(), "-n") {
            return Some(value.len() > 0);
        }
        if is_one_of(op.as_slice(), "-d", "-f") || is_one_of(op.as_slice(), "-e", "-x") || is_one_of(
            op.as_slice(),
            "-L",
            "-h",
        ) {
            if value.len() == 0 {
                return Some(false);
            }
            let path = match self.absolute(value.as_slice(), state) {
                Some(p) => p,
                None => return None,
            };
            if self.changed(path.as_slice()) {
                return None;
            }
            let p = string_of(path.as_slice());
            let o = string_of(op.as_slice());
            return self.environment.test(p.as_str(), o.as_str());
        }
        None
    }

    /// Short-circuit `&&` / `||`: the right side is only evaluated on the
    /// paths where it runs.
    pub fn logical(&mut self, cx: &Src, a: usize, b: usize, op: &[char], state: &mut State, depth: usize) -> (r: Option<bool>)
        requires
            old(self).wf(),
            cx.wf(),
            cx.node(a),
            cx.node(b),
            depth <= 78,
        ensures
            final(self).wf(),
            final(self).steps <= old(self).steps,
            old(self).steps == 0 ==> r is None && final(self).steps == 0 && final(self).result.paths == old(
                self,
            ).result.paths,
        decreases old(self).steps, 1int,
    {
        let av = self.condition(cx, a, state, depth + 1);
        if (eq_lit(op, "&&") && av == Some(false)) || (eq_lit(op, "||") && av == Some(true)) {
            return av;
        }
        if av.is_some() {
            let bv = self.condition(cx, b, state, depth + 1);
            return boolean(av, bv, op);
        }
        let original = state.clone();
        let mut branch = state.clone();
        let bv = self.condition(cx, b, &mut branch, depth + 1);
        self.merge(state, original, branch);
        boolean(av, bv, op)
    }

    pub fn branch(&mut self, cx: &Src, node: usize, state: &mut State, depth: usize)
        requires
            old(self).wf(),
            cx.wf(),
            cx.node(node),
            depth <= 78,
        ensures
            final(self).wf(),
            final(self).steps <= old(self).steps,
            old(self).steps == 0 || depth > MAX_DEPTH ==> final(self).reported(&*old(self)) && *final(state) == *old(state),
        decreases old(self).steps, 1int,
    {
        let tail: Vec<usize> = Vec::new();
        self.branch_tail(cx, node, &tail, state, depth);
    }

    /// An `if`/`elif` chain; `tail` holds the remaining alternatives.
    pub fn branch_tail(&mut self, cx: &Src, node: usize, tail: &Vec<usize>, state: &mut State, depth: usize)
        requires
            old(self).wf(),
            cx.wf(),
            cx.node(node),
            forall|j: int| 0 <= j < tail.len() ==> cx.node(#[trigger] tail[j]),
            depth <= 80,
        ensures
            final(self).wf(),
            final(self).steps <= old(self).steps,
            old(self).steps == 0 || depth > MAX_DEPTH ==> final(self).reported(&*old(self)) && *final(state) == *old(state),
        decreases old(self).steps, 0int,
    {
        if !self.budget(depth) {
            return;
        }
        let children = cx.all_children(node);
        let mut then: usize = children.len();
        let mut k: usize = 0;
        while k < children.len()
            invariant
                then <= children.len(),
                forall|j: int| 0 <= j < children.len() ==> cx.node(#[trigger] children[j]),
            decreases children.len() - k,
        {
            if then == children.len() && cx.kind(children[k], "then") {
                then = k;
            }
            k += 1;
        }
        if then == children.len() {
            self.issue("unsupported conditional");
            return;
        }
        let mut condition: Option<bool> = None;
        let mut c: usize = 0;
        while c < then
            invariant
                self.wf(),
                self.steps < old(self).steps,
                cx.wf(),
                depth <= MAX_DEPTH,
                then < children.len(),
                forall|j: int| 0 <= j < children.len() ==> cx.node(#[trigger] children[j]),
            decreases then - c,
        {
            if cx.is_named(children[c]) {
                condition = self.condition(cx, children[c], state, depth + 1);
                state.status = condition;
            }
            c += 1;
        }
        let mut yes = state.clone();
        let mut no = state.clone();
        let mut alternatives: Vec<usize> = Vec::new();
        let mut k: usize = then + 1;
        while k < children.len()
            invariant
                forall|j: int| 0 <= j < children.len() ==> cx.node(#[trigger] children[j]),
                forall|j: int| 0 <= j < alternatives.len() ==> cx.node(#[trigger] alternatives[j]),
            decreases children.len() - k,
        {
            if cx.kind(children[k], "elif_clause") || cx.kind(children[k], "else_clause") {
                alternatives.push(children[k]);
            }
            k += 1;
        }
        let mut t: usize = 0;
        while t < tail.len()
            invariant
                forall|j: int| 0 <= j < tail.len() ==> cx.node(#[trigger] tail[j]),
                forall|j: int| 0 <= j < alternatives.len() ==> cx.node(#[trigger] alternatives[j]),
            decreases tail.len() - t,
        {
            alternatives.push(tail[t]);
            t += 1;
        }
        let mut k: usize = then + 1;
        while k < children.len()
            invariant
                self.wf(),
                self.steps < old(self).steps,
                cx.wf(),
                depth <= MAX_DEPTH,
                forall|j: int| 0 <= j < children.len() ==> cx.node(#[trigger] children[j]),
            decreases children.len() - k,
        {
            if cx.kind(children[k], "elif_clause") || cx.kind(children[k], "else_clause") {
                break;
            }
            if cx.is_named(children[k]) && condition != Some(false) && !yes.stopped {
                self.statement(cx, children[k], &mut yes, depth + 1);
            }
            k += 1;
        }
        if condition != Some(true) && alternatives.len() > 0 {
            let other = alternatives[0];
            if cx.kind(other, "elif_clause") {
                let mut rest: Vec<usize> = Vec::new();
                let mut r: usize = 1;
                while r < alternatives.len()
                    invariant
                        forall|j: int| 0 <= j < alternatives.len() ==> cx.node(#[trigger] alternatives[j]),
                        forall|j: int| 0 <= j < rest.len() ==> cx.node(#[trigger] rest[j]),
                    decreases alternatives.len() - r,
                {
                    rest.push(alternatives[r]);
                    r += 1;
                }
                self.branch_tail(cx, other, &rest, &mut no, depth + 1);
            } else {
                let body = cx.named(other);
                let mut b: usize = 0;
                while b < body.len()
                    invariant
                        self.wf(),
                        self.steps < old(self).steps,
                        cx.wf(),
                        depth <= MAX_DEPTH,
                        forall|j: int| 0 <= j < body.len() ==> cx.node(#[trigger] body[j]),
                    decreases body.len() - b,
                {
                    if !no.stopped {
                        self.statement(cx, body[b], &mut no, depth + 1);
                    }
                    b += 1;
                }
            }
        }
        match condition {
            Some(true) => {
                *state = yes;
            },
            Some(false) => {
                *state = no;
            },
            None => {
                self.merge(state, yes, no);
            },
        }
    }

    /// `NAME=value`, `NAME+=value` and the side facts an assignment declares.
    pub fn assign(&mut self, cx: &Src, node: usize, state: &mut State, depth: usize)
        requires
            old(self).wf(),
            cx.wf(),
            cx.node(node),
            depth <= 75,
        ensures
            final(self).wf(),
            final(self).steps <= old(self).steps,
            old(self).steps > 0 && depth < MAX_DEPTH ==> assigned(cx, node as int, &*old(state), &*final(state)),
        decreases old(self).steps, 2int,
    {
        let ghost before = *state;
        proof {
            reveal_strlit("+=");
            reveal_strlit("=");
            assert("+="@.len() == 2 && "="@.len() == 1);
        }
        let name = match cx.field(node, "name") {
            Some(n) => n,
            None => {
                self.issue("assignment name");
                return;
            },
        };
        if !cx.kind(name, "variable_name") {
            if let Some(base) = cx.field(name, "name") {
                var_set(state, cx.text_of(base), None);
            }
            self.issue("array assignment not modeled");
            return;
        }
        let key = cx.text_of(name);
        if eq_lit(key.as_slice(), "IFS") {
            self.issue("custom field splitting requires explicit modeling");
        }
        let value_node = cx.field(node, "value");
        let mut value: Value = match value_node {
            Some(n) => self.word(cx, n, state, depth + 1),
            None => Some(Vec::new()),
        };
        if let Some(n) = value_node {
            let op = trim(cx.between(name, n).as_slice());
            if eq_lit(op.as_slice(), "+=") {
                value = match (var_get(state, key.as_slice()), value) {
                    (Some(a), Some(b)) => {
                        let joined = concat(a.as_slice(), b.as_slice());
                        if byte_len(joined.as_slice()) <= MAX_VALUE {
                            Some(joined)
                        } else {
                            None
                        }
                    },
                    _ => None,
                };
            } else if !eq_lit(op.as_slice(), "=") {
                value = None;
            }
        }
        if state.vars.len() >= MAX_ITEMS && var_entry(state, key.as_slice()).is_none() {
            self.issue("variable budget exhausted");
            self.steps = 0;
            return;
        }
        let too_long = match &value {
            Some(v) => byte_len(v.as_slice()) > MAX_VALUE,
            None => false,
        };
        if too_long {
            self.issue("variable budget exhausted");
            value = None;
        }
        match &value {
            Some(v) => {
                self.list_paths(key.as_slice(), v.as_slice(), state);
                if runtime_key(key.as_slice()) {
                    self.runtime_name(v.as_slice());
                }
            },
            None => {
                if eq_lit(key.as_slice(), "LD_LIBRARY_PATH") || eq_lit(key.as_slice(), "LD_PRELOAD")
                    || eq_lit(key.as_slice(), "SDL_GAMECONTROLLERCONFIG_FILE") || eq_lit(
                    key.as_slice(),
                    "GPTOKEYB_CONFIG",
                ) {
                    let mut m = lit("unresolved path variable ");
                    push_all(&mut m, key.as_slice());
                    self.issue_text(m.as_slice());
                }
                if runtime_key(key.as_slice()) {
                    self.issue("unresolved runtime declaration");
                }
            },
        }
        match &value {
            Some(v) => {
                if !contains_lit(v.as_slice(), "://") {
                    let mut candidates: Vec<Text> = Vec::new();
                    candidates.push(v.clone());
                    let parts = split_char(v.as_slice(), ':');
                    let mut k: usize = 0;
                    while k < parts.len()
                        decreases parts.len() - k,
                    {
                        candidates.push(parts[k].clone());
                        k += 1;
                    }
                    let mut c: usize = 0;
                    while c < candidates.len()
                        invariant
                            self.wf(),
                            self.steps <= old(self).steps,
                        decreases candidates.len() - c,
                    {
                        let part = candidates[c].as_slice();
                        if starts_with_lit(part, "/") || starts_with_lit(part, "./") {
                            if let Some(path) = self.absolute(part, state) {
                                if self.result.declared_paths.len() < MAX_ITEMS {
                                    self.result.declared_paths.insert(path);
                                } else {
                                    self.issue("declaration count limit");
                                }
                            }
                        }
                        c += 1;
                    }
                }
            },
            None => {
                let template = match value_node {
                    Some(n) => self.path_template(cx, n),
                    None => false,
                };
                if template {
                    self.issue("unresolved declared path");
                }
            },
        }
        let unknown_substitution = value.is_none() && contains_lit(cx.text_of(node).as_slice(), "$(");
        text_list_remove(&mut state.unset, key.as_slice());
        proof {
            broadcast use vstd::seq_lib::group_filter_ensures, vstd::prelude::Seq::lemma_filter_contains_rev;

            if texts_view(state.unset@).contains(key@) {
                let q = texts_view(state.unset@).index_of(key@);
                assert(texts_view(state.unset@)[q] == key@);
            }
        }
        let ghost kv = key;
        let ghost vv = value;
        let ghost vars_before = state.vars@;
        var_set(state, key, value);
        proof {
            lemma_var_lookup_after_set(vars_before, state.vars@, kv, vv, kv@);
        }
        state.status = if unknown_substitution {
            None
        } else {
            Some(true)
        };
    }

    /// `source FILE`: reads the file from the environment and evaluates it in
    /// the current state.
    pub fn source_file(&mut self, path: &[char], state: &mut State, depth: usize)
        requires
            old(self).wf(),
            depth <= 78,
        ensures
            final(self).wf(),
            final(self).steps <= old(self).steps,
            utf8_bytes(path@) > MAX_VALUE || path@.contains('\0') || based_path(path@, value_view(old(state).cwd)) is None
                ==> final(self).reported(&*old(self)) && *final(state) == *old(state),
            !(utf8_bytes(path@) > MAX_VALUE || path@.contains('\0')) ==> match based_path(path@, value_view(old(state).cwd)) {
                Some(b) => !crate::shell_sources::has_dot_dot_component(b) && (texts_view(old(self).stack@).contains(
                    crate::paths::normal_form(b),
                ) || old(self).stack.len() >= 16) ==> final(self).reported(&*old(self)),
                None => true,
            },
        decreases old(self).steps, 1int,
    {
        let path = match self.absolute(path, state) {
            Some(p) => p,
            None => {
                self.issue("unresolved source path");
                return;
            },
        };
        if self.changed(path.as_slice()) {
            self.poison(state, "source was modified by analyzed script");
            return;
        }
        if text_list_has(&self.stack, path.as_slice()) || self.stack.len() >= 16
            || self.result.sources.len() >= MAX_ITEMS {
            self.issue("source cycle/depth limit");
            return;
        }
        let p = string_of(path.as_slice());
        match self.environment.read(p.as_str()) {
            Ok(source) => {
                self.result.sources.insert(path.clone());
                self.stack.push(path.clone());
                let stopped = state.stopped;
                state.stopped = false;
                self.run(&source, path.as_slice(), state, depth + 1);
                state.stopped = stopped || state.exited;
                self.stack.pop();
            },
            Err(reason) => {
                let r = chars_of(reason.as_str());
                self.issue_text(r.as_slice());
                forget_values(state);
                state.cwd = None;
            },
        }
    }

    /// Parses and evaluates `source` as the contents of `file`.
    pub fn run(&mut self, source: &String, file: &[char], state: &mut State, depth: usize)
        requires
            old(self).wf(),
            depth <= 80,
        ensures
            final(self).wf(),
            final(self).steps <= old(self).steps,
            final(self).file == old(self).file,
            var_lookup(final(state).vars@, "BASH_SOURCE"@) == var_lookup(old(state).vars@, "BASH_SOURCE"@),
            old(self).bytes + (vstd::utf8::encode_utf8(source@).len() as usize) > MAX_BYTES ==> {
                &&& final(self).result.paths == old(self).result.paths
                &&& final(self).result.working_directories == old(self).result.working_directories
                &&& final(self).result.library_paths == old(self).result.library_paths
                &&& final(self).result.output_paths == old(self).result.output_paths
                &&& final(self).result.sources == old(self).result.sources
                &&& final(self).result.runtime_names == old(self).result.runtime_names
                &&& final(self).traps == old(self).traps
                &&& final(self).steps == old(self).steps
                &&& *final(state) == *old(state)
                &&& old(self).result.diagnostics.items.len() < MAX_MESSAGES ==> final(self).result.diagnostics.items.len() > 0
            },
        decreases old(self).steps, 0int,
    {
        let n = source.as_str().len();
        self.bytes = if self.bytes > usize::MAX - n {
            usize::MAX
        } else {
            self.bytes + n
        };
        if self.bytes > MAX_BYTES {
            self.issue("source byte/depth limit");
            return;
        }
        if !self.budget(depth) {
            self.issue("source byte/depth limit");
            return;
        }
        let text = chars_of(source.as_str());
        if text.len() > 0x0800_0000 {
            self.issue("parse limit");
            return;
        }
        let tree = match parse_bash(source.as_str(), &text) {
            Some(t) => t,
            None => {
                self.issue("parse limit");
                return;
            },
        };
        let cx = Src { text, tree };
        self.run_tree(&cx, file, state, depth);
    }

    /// Evaluates the parsed script `cx` as the contents of `file`: its root
    /// statement, with `BASH_SOURCE` naming `file` meanwhile. A script whose
    /// only statement is a plain `cd DIR` to an absolute `DIR` records `DIR` as
    /// a working directory and moves there.
    pub fn run_tree(&mut self, cx: &Src, file: &[char], state: &mut State, depth: usize)
        requires
            old(self).wf(),
            cx.wf(),
            cx.node(0),
            depth <= MAX_DEPTH,
        ensures
            final(self).wf(),
            final(self).steps <= old(self).steps,
            final(self).file == old(self).file,
            var_lookup(final(state).vars@, "BASH_SOURCE"@) == var_lookup(old(state).vars@, "BASH_SOURCE"@),
            forall|dir: Seq<char>|
                !old(state).stopped && single_command_program(cx, 0) && old(self).steps > 4 && plain_absolute(dir)
                    && #[trigger] old(self).cd_law_applies(
                    cx,
                    crate::syntax::children_spec(cx.tree.nodes@, 0, true)[0] as int,
                    depth + 3,
                    dir,
                ) ==> {
                    &&& final(self).result.working_directories.has(crate::paths::normal_form(dir))
                    &&& value_view(final(state).cwd) == Some(crate::paths::normal_form(dir))
                },
        decreases old(self).steps, 1int,
    {
        let ghost start = *self;
        let mut old_file = slice(file, 0, file.len());
        std::mem::swap(&mut old_file, &mut self.file);
        if cx.tree.has_error {
            self.issue("invalid or unsupported Shell syntax");
        }
        proof {
            assert forall|dir: Seq<char>| #[trigger] start.cd_law_applies(
                cx,
                crate::syntax::children_spec(cx.tree.nodes@, 0, true)[0] as int,
                depth + 3,
                dir,
            ) implies self.cd_law_applies(
                cx,
                crate::syntax::children_spec(cx.tree.nodes@, 0, true)[0] as int,
                depth + 1 + 2,
                dir,
            ) by {}
        }
        let key = lit("BASH_SOURCE");
        let old_bash = var_entry(state, key.as_slice());
        var_set(state, key.clone(), Some(slice(file, 0, file.len())));
        self.statement(cx, 0, state, depth + 1);
        match old_bash {
            Some(v) => {
                let ghost before = state.vars@;
                let ghost kv = key;
                let ghost vv = v;
                var_set(state, key, v);
                proof {
                    lemma_var_lookup_after_set(before, state.vars@, kv, vv, "BASH_SOURCE"@);
                }
            },
            None => {
                let ks = key.as_slice();
                var_remove(state, ks);
                proof {
                    broadcast use vstd::seq_lib::group_filter_ensures;

                    assert forall|j: int| 0 <= j < state.vars@.len() implies (#[trigger] state.vars@[j]).0@ != ks@ by {
                        assert(vars_view(state.vars@)[j].0 == state.vars@[j].0@);
                    }
                    lemma_var_lookup_absent(state.vars@, ks@);
                }
            },
        }
        self.file = old_file;
    }

    /// A simple command: prefix assignments, words, redirection of its name to
    /// builtins, functions, or path references.
    pub fn command(&mut self, cx: &Src, node: usize, state: &mut State, depth: usize)
        requires
            old(self).wf(),
            cx.wf(),
            cx.node(node),
            depth <= 70,
        ensures
            final(self).wf(),
            final(self).steps <= old(self).steps,
            forall|dir: Seq<char>|
                #[trigger] old(self).cd_law_applies(cx, node as int, depth as int, dir) ==> match based_path(
                    dir,
                    value_view(old(state).cwd),
                ) {
                    Some(b) => !crate::shell_sources::has_dot_dot_component(b) ==> {
                        &&& final(self).result.working_directories.has(crate::paths::normal_form(b))
                        &&& value_view(final(state).cwd) == Some(crate::paths::normal_form(b))
                    },
                    None => true,
                },
            forall|m: int, n: Seq<char>|
                #[trigger] prefixed_name(cx, node as int, m, n) && depth + 1 < MAX_DEPTH && !builtin_name(n)
                    && function_lookup(old(state).functions@, n) is None ==> {
                    ||| final(state).vars == old(state).vars && final(state).unset == old(state).unset
                        && final(state).cwd == old(state).cwd
                    ||| vars_view(final(state).vars@) == forgotten(old(state).vars@) && final(state).cwd is None
                },
        decreases old(self).steps, 3int,
    {
        proof {
            reveal_strlit("variable_assignment");
            reveal_strlit("command_name");
            reveal_strlit("word");
            reveal_strlit("string");
            reveal_strlit("raw_string");
            reveal_strlit("simple_expansion");
            reveal_strlit("expansion");
            reveal_strlit("command_substitution");
            assert("variable_assignment"@.len() == 19 && "command_name"@.len() == 12 && "word"@.len() == 4);
            assert("string"@.len() == 6 && "raw_string"@.len() == 10 && "simple_expansion"@.len() == 16);
            assert("expansion"@.len() == 9 && "command_substitution"@.len() == 20);
        }
        let ghost dir = choose|d: Seq<char>| self.cd_law_applies(cx, node as int, depth as int, d);
        let ghost cd_case = self.cd_law_applies(cx, node as int, depth as int, dir);
        let ghost start = *self;
        let ghost (pm, pn) = choose|m: int, n: Seq<char>| prefixed_name(cx, node as int, m, n);
        let ghost pcase = prefixed_name(cx, node as int, pm, pn) && depth + 1 < MAX_DEPTH && !builtin_name(pn)
            && function_lookup(old(state).functions@, pn) is None;
        proof {
            assert forall|m: int, n: Seq<char>| #[trigger] prefixed_name(cx, node as int, m, n) implies m == pm && n == pn by {
                let kids = crate::syntax::children_spec(cx.tree.nodes@, node as int, true);
                if m < pm {
                    assert(node_kind(cx, kids[m] as int) == "variable_assignment"@);
                } else if pm < m {
                    assert(node_kind(cx, kids[pm] as int) == "variable_assignment"@);
                }
                let c = crate::syntax::children_spec(cx.tree.nodes@, kids[m] as int, true)[0];
                assert(literal_word_value(cx, c as int, &*old(state)) == Some(Some(n)));
                assert(literal_word_value(cx, c as int, &*old(state)) == Some(Some(pn)));
            }
        }
        let waits = match cx.field(node, "name") {
            Some(name) => {
                let t = cx.text_of(name);
                is_one_of(t.as_slice(), "sleep", "kill")
            },
            None => false,
        };
        if waits && self.passive_wait(cx, node, state, depth + 1) {
            self.note("path-independent process wait/probe not executed");
            state.status = None;
            return;
        }
        let ghost kids0 = crate::syntax::children_spec(cx.tree.nodes@, node as int, true);
        let ghost name_child = crate::syntax::children_spec(cx.tree.nodes@, kids0[0] as int, true)[0];
        let mut local = copy_state(state);
        assert(cd_case ==> *state == *old(state) && *self == start);
        let kids = cx.named(node);
        let mut words: Vec<usize> = Vec::new();
        let mut i: usize = 0;
        while i < kids.len()
            invariant
                self.wf(),
                self.steps <= old(self).steps,
                cx.wf(),
                depth <= 70,
                forall|j: int| 0 <= j < kids.len() ==> cx.node(#[trigger] kids[j]),
                forall|j: int| 0 <= j < words.len() ==> cx.node(#[trigger] words[j]),
                i <= kids.len(),
                kids@ == kids0,
                cd_case == start.cd_law_applies(cx, node as int, depth as int, dir),
                kids0 == crate::syntax::children_spec(cx.tree.nodes@, node as int, true),
                name_child == crate::syntax::children_spec(cx.tree.nodes@, kids0[0] as int, true)[0],
                cd_case ==> words@ == kids@.subrange(0, i as int) && *self == start && value_view(local.cwd)
                    == value_view(old(state).cwd),
                "variable_assignment"@ != "command_name"@ && "variable_assignment"@ != "word"@,
                pcase == (prefixed_name(cx, node as int, pm, pn) && depth + 1 < MAX_DEPTH && !builtin_name(pn)
                    && function_lookup(old(state).functions@, pn) is None),
                pcase && i <= pm ==> words@.len() == 0,
                pcase && i > pm ==> words@.len() >= 1 && words@[0] == kids0[pm],
            decreases kids.len() - i,
        {
            if cx.kind(kids[i], "variable_assignment") {
                self.assign(cx, kids[i], &mut local, depth + 1);
            } else {
                words.push(kids[i]);
            }
            i += 1;
        }
        let mut args: Vec<Value> = Vec::new();
        let mut k: usize = 0;
        while k < words.len()
            invariant
                self.wf(),
                self.steps <= old(self).steps,
                cx.wf(),
                depth <= 70,
                forall|j: int| 0 <= j < words.len() ==> cx.node(#[trigger] words[j]),
                args.len() == k,
                k <= words.len(),
                cd_case == start.cd_law_applies(cx, node as int, depth as int, dir),
                kids0 == crate::syntax::children_spec(cx.tree.nodes@, node as int, true),
                name_child == crate::syntax::children_spec(cx.tree.nodes@, kids0[0] as int, true)[0],
                cd_case ==> words@ == kids0 && self.result == start.result && value_view(local.cwd) == value_view(
                    old(state).cwd,
                ),
                cd_case ==> self.steps == start.steps - (if k == 0 {
                    0int
                } else if k == 1 {
                    2int
                } else {
                    3int
                }),
                cd_case && k >= 1 ==> value_view(args@[0]) == Some("cd"@),
                cd_case && k >= 2 ==> value_view(args@[1]) == Some(dir),
                pcase == (prefixed_name(cx, node as int, pm, pn) && depth + 1 < MAX_DEPTH && !builtin_name(pn)
                    && function_lookup(old(state).functions@, pn) is None),
                pcase ==> words@.len() >= 1 && words@[0] == kids0[pm],
                pcase && k >= 1 ==> args@[0] is None || value_view(args@[0]) == Some(pn),
            decreases words.len() - k,
        {
            proof {
                if pcase && k == 0 {
                    let c = crate::syntax::children_spec(cx.tree.nodes@, kids0[pm] as int, true)[0];
                    assert(literal_word_value(cx, c as int, &local) == Some(Some(pn)));
                }
                if cd_case {
                    assert(simple_cd(cx, node as int, dir));
                    let nk = crate::syntax::children_spec(cx.tree.nodes@, kids0[0] as int, true);
                    assert(nk[0] == name_child);
                    assert(forall|s0: State| #[trigger] literal_word_value(cx, nk[0] as int, &s0) == Some(Some("cd"@)));
                    assert(literal_word_value(cx, name_child as int, &local) == Some(Some("cd"@)));
                    assert(literal_word_value(cx, kids0[1] as int, &local) == Some(Some(dir)));
                }
            }
            let v = self.word(cx, words[k], &local, depth + 1);
            args.push(v);
            k += 1;
        }
        let mut k: usize = 0;
        while k < words.len()
            invariant
                self.wf(),
                self.steps <= old(self).steps,
                cx.wf(),
                forall|j: int| 0 <= j < words.len() ==> cx.node(#[trigger] words[j]),
                args.len() == words.len(),
                cd_case == start.cd_law_applies(cx, node as int, depth as int, dir),
                kids0 == crate::syntax::children_spec(cx.tree.nodes@, node as int, true),
                name_child == crate::syntax::children_spec(cx.tree.nodes@, kids0[0] as int, true)[0],
                cd_case ==> words@ == kids0 && self.result.paths == start.result.paths && self.result.output_paths
                    == start.result.output_paths && value_view(local.cwd) == value_view(old(state).cwd),
                cd_case ==> value_view(args@[0]) == Some("cd"@) && value_view(args@[1]) == Some(dir),
                cd_case ==> args.len() == 2,
            decreases words.len() - k,
        {
            let w = words[k];
            if !(cx.kind(w, "string") || cx.kind(w, "raw_string")) && !cx.kind(w, "command_name") {
                let splits = match &args[k] {
                    Some(v) => {
                        let mut any = false;
                        let mut c: usize = 0;
                        while c < v.len()
                            decreases v.len() - c,
                        {
                            if is_whitespace(v[c]) || glob_char(v[c]) {
                                any = true;
                            }
                            c += 1;
                        }
                        any
                    },
                    None => false,
                };
                if splits {
                    self.issue("unquoted field splitting or globbing");
                }
            }
            k += 1;
        }
        // An unquoted command expansion participates in field splitting too.
        if words.len() > 0 {
            if let Some(first) = cx.nth_named(words[0], 0) {
                if cx.kind(first, "simple_expansion") || cx.kind(first, "expansion") || cx.kind(
                    first,
                    "command_substitution",
                ) {
                    let replaced = match &args[0] {
                        Some(value) => Some(split_ascii_whitespace(value.as_slice())),
                        None => None,
                    };
                    if let Some(tokens) = replaced {
                        let mut next: Vec<Value> = Vec::new();
                        let mut t: usize = 0;
                        while t < tokens.len()
                            decreases tokens.len() - t,
                        {
                            next.push(Some(tokens[t].clone()));
                            t += 1;
                        }
                        let mut r: usize = 1;
                        while r < args.len()
                            decreases args.len() - r,
                        {
                            next.push(args[r].clone());
                            r += 1;
                        }
                        args = next;
                    }
                }
            }
        }
        let name: Value = if args.len() > 0 {
            copy_value(&args[0])
        } else {
            None
        };
        let raw = cx.text_of(node);
        let previous_status = state.status;
        let raw_string = string_of(raw.as_slice());
        state.status = self.environment.command_status(raw_string.as_str());
        let name = match name {
            Some(n) => n,
            None => {
                self.poison(state, "unresolved command name");
                return;
            },
        };
        let ghost before_destructive = *self;
        self.destructive(&args, &local);
        proof {
            if cd_case {
                assert(*self == before_destructive);
                assert(name@ == "cd"@);
            }
        }
        if self.builtin(name.as_slice(), &args, &local, state, previous_status, depth + 1) {
            proof {
                assert forall|d: Seq<char>| #[trigger] old(self).cd_law_applies(cx, node as int, depth as int, d) implies d == dir by {
                    assert(literal_word_value(cx, kids0[1] as int, &*old(state)) == Some(Some(d)));
                    assert(literal_word_value(cx, kids0[1] as int, &*old(state)) == Some(Some(dir)));
                }
            }
            return;
        }
        if let Some((body, file)) = function_get(state, name.as_slice()) {
            self.call_function(&body, file.as_slice(), &args, state, depth + 1);
            return;
        }
        self.arguments(name.as_slice(), &args, &local, raw.as_slice(), cx.tree.nodes[node].row);
    }

    /// Targets of file-changing commands are outputs; trees they remove or
    /// replace can no longer be trusted as sources.
    pub fn destructive(&mut self, args: &Vec<Value>, local: &State)
        requires
            old(self).wf(),
        ensures
            final(self).wf(),
            final(self).steps == old(self).steps,
            (forall|k: int| 0 <= k < args.len() ==> (#[trigger] args@[k] matches Some(a) ==> !destructive_word(a@)))
                ==> *final(self) == *old(self),
            forall|idx: int|
                #[trigger] first_destructive(args@, idx) ==> {
                    let targets = written_operands(command_of(args@[idx]), operands_in(args@, idx + 1, args.len() as int));
                    &&& forall|x: Seq<char>|
                        #[trigger] final(self).result.output_paths.has(x) ==> old(self).result.output_paths.has(x) || exists|t: int|
                            0 <= t < targets.len() && resolves_to(#[trigger] targets[t], value_view(local.cwd), x)
                    &&& forall|x: Seq<char>|
                        #[trigger] final(self).changed_trees.has(x) ==> old(self).changed_trees.has(x) || exists|t: int|
                            0 <= t < targets.len() && resolves_to(#[trigger] targets[t], value_view(local.cwd), x)
                    &&& old(self).result.output_paths.items.len() + targets.len() < MAX_ITEMS
                        && old(self).result.paths.items.len() < MAX_ITEMS ==> forall|t: int|
                        0 <= t < targets.len() && !(crate::text::contains_seq(#[trigger] targets[t], "://"@)
                            || crate::text::is_prefix("rgbi:"@, targets[t])) && !(utf8_bytes(targets[t]) > MAX_VALUE
                            || targets[t].contains('\0')) ==> match based_path(targets[t], value_view(local.cwd)) {
                            Some(b) => !crate::shell_sources::has_dot_dot_component(b) ==> {
                                &&& final(self).result.output_paths.has(crate::paths::normal_form(b))
                                &&& replacing_command(command_of(args@[idx])) && old(self).changed_trees.items.len()
                                    + targets.len() < MAX_ITEMS ==> final(self).changed_trees.has(crate::paths::normal_form(b))
                            },
                            None => true,
                        }
                },
    {
        let mut index: usize = 0;
        let mut found: Option<Text> = None;
        while index < args.len() && found.is_none()
            invariant
                index <= args.len(),
                found.is_some() ==> index < args.len(),
                (forall|k: int| 0 <= k < args.len() ==> (#[trigger] args@[k] matches Some(a) ==> !destructive_word(a@)))
                    ==> found is None,
                found is None ==> forall|j: int| 0 <= j < index ==> !destructive_arg(args@, j),
                found matches Some(n) ==> first_destructive(args@, index as int) && command_of(args@[index as int]) == n@,
            decreases args.len() - index, if found.is_none() { 1int } else { 0int },
        {
            if let Some(a) = &args[index] {
                if let Some(n) = file_name(a.as_slice()) {
                    let nn = n.as_slice();
                    if eq_lit(nn, "cp") || eq_lit(nn, "mv") || eq_lit(nn, "rm") || eq_lit(nn, "mkdir")
                        || eq_lit(nn, "rmdir") || eq_lit(nn, "touch") || eq_lit(nn, "install")
                        || eq_lit(nn, "ln") {
                        assert(destructive_arg(args@, index as int));
                        found = Some(n);
                        continue;
                    }
                    assert(!destructive_arg(args@, index as int));
                }
            }
            index += 1;
        }
        let kind = match found {
            Some(k) => k,
            None => return,
        };
        let ghost cwd = value_view(local.cwd);
        let mut operands: Vec<Text> = Vec::new();
        let mut i = index + 1;
        while i < args.len()
            invariant
                index + 1 <= i <= args.len() || i == index + 1,
                index < args.len(),
                operands@.map_values(|t: Text| t@) == operands_in(args@, index + 1, i as int),
            decreases args.len() - i,
        {
            let ghost prev = operands@;
            if let Some(a) = &args[i] {
                if !(a.len() > 0 && a[0] == '-') {
                    let c = slice(a.as_slice(), 0, a.len());
                    assert(a@.subrange(0, a.len() as int) =~= a@);
                    operands.push(c);
                    assert(operands@.map_values(|t: Text| t@) =~= prev.map_values(|t: Text| t@).push(a@));
                }
            }
            i += 1;
        }
        let ghost ops = operands@.map_values(|t: Text| t@);
        let k = kind.as_slice();
        let last_only = eq_lit(k, "cp") || eq_lit(k, "install") || eq_lit(k, "ln");
        let start = if last_only && operands.len() > 0 {
            operands.len() - 1
        } else {
            0
        };
        let ghost targets = written_operands(k@, ops);
        proof {
            if last_only && operands.len() > 0 {
                assert(targets =~= ops.subrange(start as int, ops.len() as int));
            } else {
                assert(targets =~= ops.subrange(0, ops.len() as int));
            }
        }
        let replaces = eq_lit(k, "cp") || eq_lit(k, "mv") || eq_lit(k, "rm") || eq_lit(k, "rmdir")
            || eq_lit(k, "install") || eq_lit(k, "ln");
        let ghost first = *self;
        let mut j = start;
        while j < operands.len()
            invariant
                self.wf(),
                self.steps == old(self).steps,
                first == *old(self),
                start <= j <= operands.len(),
                ops == operands@.map_values(|t: Text| t@),
                targets == ops.subrange(start as int, ops.len() as int),
                cwd == value_view(local.cwd),
                forall|x: Seq<char>|
                    #[trigger] self.result.output_paths.has(x) ==> old(self).result.output_paths.has(x) || exists|t: int|
                        0 <= t < j - start && resolves_to(#[trigger] targets[t], cwd, x),
                forall|x: Seq<char>|
                    #[trigger] self.changed_trees.has(x) ==> old(self).changed_trees.has(x) || exists|t: int|
                        0 <= t < j - start && resolves_to(#[trigger] targets[t], cwd, x),
                self.result.paths == old(self).result.paths,
                self.result.output_paths.items.len() <= old(self).result.output_paths.items.len() + (j - start),
                forall|x: Seq<char>| #[trigger] old(self).result.output_paths.has(x) ==> self.result.output_paths.has(x),
                forall|t: int|
                    0 <= t < j - start && !(crate::text::contains_seq(#[trigger] targets[t], "://"@)
                        || crate::text::is_prefix("rgbi:"@, targets[t])) && !(utf8_bytes(targets[t]) > MAX_VALUE
                        || targets[t].contains('\0')) && old(self).result.output_paths.items.len() + targets.len() < MAX_ITEMS
                        && old(self).result.paths.items.len() < MAX_ITEMS ==> match based_path(targets[t], cwd) {
                        Some(b) => !crate::shell_sources::has_dot_dot_component(b) ==> {
                            &&& self.result.output_paths.has(crate::paths::normal_form(b))
                            &&& replacing_command(k@) && old(self).changed_trees.items.len() + targets.len() < MAX_ITEMS
                                ==> self.changed_trees.has(crate::paths::normal_form(b))
                        },
                        None => true,
                    },
                self.changed_trees.items.len() <= old(self).changed_trees.items.len() + (j - start),
                forall|x: Seq<char>| #[trigger] old(self).changed_trees.has(x) ==> self.changed_trees.has(x),
                replaces == replacing_command(k@),
            decreases operands.len() - j,
        {
            let ghost before = *self;
            let ghost tj = operands@[j as int]@;
            assert(targets[j - start] == tj);
            proof {
                reveal_strlit("output");
                reveal_strlit("argument");
                assert("output"@.len() != "argument"@.len());
            }
            let recorded = self.record(operands[j].as_slice(), local, "output");
            let ghost rec = recorded;
            proof {
                if let Some(p) = rec {
                    assert(resolves_to(tj, cwd, p@));
                }
            }
            if let Some(path) = recorded {
                if replaces && self.changed_trees.len() < MAX_ITEMS {
                    self.changed_trees.insert(path);
                }
            }
            proof {
                assert forall|x: Seq<char>| #[trigger] self.result.output_paths.has(x) implies old(self).result.output_paths.has(
                    x,
                ) || exists|t: int| 0 <= t < j + 1 - start && resolves_to(#[trigger] targets[t], cwd, x) by {
                    if !before.result.output_paths.has(x) {
                        assert(resolves_to(targets[j - start], cwd, x));
                    }
                }
                assert forall|x: Seq<char>| #[trigger] self.changed_trees.has(x) implies old(self).changed_trees.has(x)
                    || exists|t: int| 0 <= t < j + 1 - start && resolves_to(#[trigger] targets[t], cwd, x) by {
                    if !before.changed_trees.has(x) {
                        assert(resolves_to(targets[j - start], cwd, x));
                    }
                }
            }
            j += 1;
        }
        proof {
            assert forall|idx: int| #[trigger] first_destructive(args@, idx) implies idx == index by {
                if idx < index {
                    assert(!destructive_arg(args@, idx));
                } else if idx > index {
                    assert(!destructive_arg(args@, index as int));
                }
            }
        }
    }

    /// Builtins whose effect on the analysis is modeled; `true` when the
    /// command was one of them.
    pub fn builtin(&mut self, name: &[char], args: &Vec<Value>, local: &State, state: &mut State, previous_status: Option<bool>, depth: usize) -> (r: bool)
        requires
            old(self).wf(),
            depth <= 75,
        ensures
            final(self).wf(),
            final(self).steps <= old(self).steps,
            (name@ == "cd"@ || name@ == "pushd"@) && args.len() > 1 && old(self).result.paths.items.len() < MAX_ITEMS
                && old(self).result.output_paths.items.len() < MAX_ITEMS ==> match args@[1] {
                Some(v) => v@ != "--"@ && !(crate::text::contains_seq(v@, "://"@) || crate::text::is_prefix("rgbi:"@, v@))
                    && !(utf8_bytes(v@) > MAX_VALUE || v@.contains('\0')) ==> match based_path(v@, value_view(local.cwd)) {
                    Some(b) => !crate::shell_sources::has_dot_dot_component(b) ==> {
                        &&& r
                        &&& final(self).result.working_directories.has(crate::paths::normal_form(b))
                        &&& value_view(final(state).cwd) == Some(crate::paths::normal_form(b))
                        &&& final(state).status == Some(true)
                    },
                    None => true,
                },
                None => true,
            },
            (name@ == "cd"@ || name@ == "pushd"@) && (args.len() <= 1 || args@[1] is None) ==> {
                &&& r
                &&& final(state).cwd is None
                &&& final(state).status == Some(true)
                &&& old(self).result.diagnostics.items.len() < MAX_MESSAGES ==> final(self).result.diagnostics.items.len() > 0
            },
            !builtin_name(name@) ==> !r && *final(state) == *old(state),
        decreases old(self).steps, 2int,
    {
        proof {
            reveal_strlit("cd");
            reveal_strlit("pushd");
            reveal_strlit("source");
            reveal_strlit(".");
            reveal_strlit("cwd");
            reveal_strlit("argument");
            reveal_strlit("output");
            assert("cwd"@.len() != "argument"@.len() && "cwd"@.len() != "output"@.len());
            assert("cd"@.len() == 2 && "pushd"@.len() == 5 && "source"@.len() == 6 && "."@.len() == 1);
        }
        if is_one_of(name, "source", ".") {
            let path = if args.len() > 1 {
                args[1].clone()
            } else {
                None
            };
            match path {
                Some(p) => {
                    if args.len() > 2 {
                        self.issue("source positional arguments unsupported");
                    }
                    self.source_file(p.as_slice(), state, depth + 1);
                },
                None => {
                    self.issue("unresolved source path");
                    forget_values(state);
                },
            }
            return true;
        }
        if is_one_of(name, "cd", "pushd") {
            let target = if args.len() > 1 && value_is(&args[1], "--") {
                if args.len() > 2 {
                    copy_value(&args[2])
                } else {
                    None
                }
            } else if args.len() > 1 {
                copy_value(&args[1])
            } else {
                None
            };
            state.cwd = match target {
                Some(v) => self.record(v.as_slice(), local, "cwd"),
                None => None,
            };
            if state.cwd.is_none() {
                self.issue("unresolved working directory");
            }
            state.status = Some(true);
            return true;
        }
        if is_one_of(name, "return", "exit") {
            state.stopped = true;
            if eq_lit(name, "exit") {
                state.exited = true;
            }
            if args.len() > 1 {
                state.status = match &args[1] {
                    Some(code) => match parse_i64(code.as_slice()) {
                        Some(v) => {
                            if v < -2147483648 || v > 2147483647 {
                                None
                            } else {
                                Some(v == 0)
                            }
                        },
                        None => None,
                    },
                    None => None,
                };
            } else {
                state.status = previous_status;
            }
            return true;
        }
        if is_one_of(name, "true", ":") {
            state.status = Some(true);
            return true;
        }
        if eq_lit(name, "false") {
            state.status = Some(false);
            return true;
        }
        if eq_lit(name, "command") && args.len() > 1 && value_is(&args[1], "-v") {
            return true;
        }
        if eq_lit(name, "unset") {
            let mut rest: Vec<Value> = Vec::new();
            let mut i: usize = 1;
            while i < args.len()
                decreases args.len() - i,
            {
                rest.push(args[i].clone());
                i += 1;
            }
            self.unset_names(&rest, state);
            return true;
        }
        if eq_lit(name, "eval") {
            let mut parts: Vec<Text> = Vec::new();
            let mut known = true;
            let mut i: usize = 1;
            while i < args.len()
                decreases args.len() - i,
            {
                match &args[i] {
                    Some(v) => parts.push(v.clone()),
                    None => {
                        known = false;
                    },
                }
                i += 1;
            }
            if known {
                let code = string_of(word_list_join(&parts).as_slice());
                let file = self.file.clone();
                self.run(&code, file.as_slice(), state, depth + 1);
            } else {
                self.poison(state, "unresolved eval code");
            }
            return true;
        }
        if dynamic_builtin(name) {
            self.issue("dynamic Shell state unsupported");
            forget_values(state);
            return true;
        }
        if is_one_of(name, "echo", "printf") {
            if args.len() > 1 && value_is(&args[1], "-v") {
                self.issue("printf assignment unsupported");
            }
            return true;
        }
        if eq_lit(name, "trap") {
            let mut asynchronous = false;
            let mut i: usize = 2;
            while i < args.len()
                decreases args.len() - i,
            {
                if !(value_is(&args[i], "EXIT") || value_is(&args[i], "0")) {
                    asynchronous = true;
                }
                i += 1;
            }
            if asynchronous {
                self.issue("asynchronous trap state unsupported");
            }
            let handler = if args.len() > 1 {
                args[1].clone()
            } else {
                None
            };
            match handler {
                Some(h) => {
                    if self.traps.len() < 32 {
                        self.traps.push(h);
                    } else {
                        self.issue("trap count limit");
                    }
                },
                None => self.issue("unresolved trap handler"),
            }
            return true;
        }
        if eq_lit(name, "tee") {
            let mut i: usize = 1;
            while i < args.len()
                invariant
                    self.wf(),
                    self.steps <= old(self).steps,
                decreases args.len() - i,
            {
                match &args[i] {
                    Some(path) => {
                        if !(path.len() > 0 && path[0] == '-') {
                            self.record(path.as_slice(), local, "output");
                        }
                    },
                    None => self.issue("unresolved output path"),
                }
                i += 1;
            }
            return true;
        }
        false
    }

    /// Calls a shell function with positional parameters, restoring them and
    /// the function's locals afterwards.
    pub fn call_function(&mut self, body: &Text, file: &[char], args: &Vec<Value>, state: &mut State, depth: usize)
        requires
            old(self).wf(),
            depth <= 75,
        ensures
            final(self).wf(),
            final(self).steps <= old(self).steps,
            depth >= MAX_DEPTH ==> final(self).reported(&*old(self)) && *final(state) == *old(state),
        decreases old(self).steps, 2int,
    {
        if depth >= MAX_DEPTH {
            self.issue("function recursion limit");
            return;
        }
        let mut saved: Vec<(Text, Value)> = Vec::new();
        let mut i: usize = 0;
        while i < state.vars.len()
            decreases state.vars.len() - i,
        {
            if all_digits(state.vars[i].0.as_slice()) {
                saved.push((state.vars[i].0.clone(), state.vars[i].1.clone()));
            }
            i += 1;
        }
        let old_unset = state.unset.clone();
        let mut n: u64 = 1;
        while n <= 9
            decreases 10 - n,
        {
            var_set(state, decimal(n), Some(Vec::new()));
            n += 1;
        }
        let mut a: usize = 1;
        while a < args.len()
            decreases args.len() - a,
        {
            var_set(state, decimal(a as u64), args[a].clone());
            a += 1;
        }
        self.locals.push(Vec::new());
        let stopped = state.stopped;
        state.stopped = false;
        let code = string_of(body.as_slice());
        self.run(&code, file, state, depth + 1);
        state.stopped = stopped || state.exited;
        let scope = match self.locals.pop() {
            Some(s) => s,
            None => Vec::new(),
        };
        let mut k: usize = 0;
        while k < scope.len()
            decreases scope.len() - k,
        {
            let key = scope[k].0.clone();
            if text_list_has(&old_unset, key.as_slice()) {
                text_list_insert(&mut state.unset, key.as_slice());
            } else {
                text_list_remove(&mut state.unset, key.as_slice());
            }
            match &scope[k].1 {
                Some(v) => var_set(state, key, v.clone()),
                None => var_remove(state, key.as_slice()),
            }
            k += 1;
        }
        let mut kept: Vec<(Text, Value)> = Vec::new();
        let mut r: usize = 0;
        while r < state.vars.len()
            decreases state.vars.len() - r,
        {
            if !all_digits(state.vars[r].0.as_slice()) {
                kept.push((state.vars[r].0.clone(), state.vars[r].1.clone()));
            }
            r += 1;
        }
        state.vars = kept;
        let mut s: usize = 0;
        while s < saved.len()
            decreases saved.len() - s,
        {
            var_set(state, saved[s].0.clone(), saved[s].1.clone());
            s += 1;
        }
    }

    /// The command name and arguments of an external command are references.
    pub fn arguments(&mut self, name: &[char], args: &Vec<Value>, local: &State, raw: &[char], row: usize)
        requires
            old(self).wf(),
        ensures
            final(self).wf(),
            final(self).steps == old(self).steps,
    {
        if has_whitespace(name) {
            let tokens = split_ascii_whitespace(name);
            let mut t: usize = 0;
            while t < tokens.len()
                invariant
                    self.wf(),
                    self.steps == old(self).steps,
                decreases tokens.len() - t,
            {
                let token = tokens[t].as_slice();
                match find_char(token, '=') {
                    Some(e) => {
                        let key = slice(token, 0, e);
                        let v = slice(token, e + 1, token.len());
                        self.list_paths(key.as_slice(), v.as_slice(), local);
                    },
                    None => {
                        self.record(token, local, "argument");
                    },
                }
                t += 1;
            }
        } else {
            self.record(name, local, "argument");
        }
        let gptokeyb = contains_lit(raw, "GPTOKEYB") || contains_lit(name, "gptokeyb");
        let mut i: usize = 1;
        while i < args.len()
            invariant
                self.wf(),
                self.steps == old(self).steps,
                i >= 1,
            decreases args.len() - i,
        {
            let input = value_is(&args[i - 1], "-c") && gptokeyb;
            match &args[i] {
                Some(arg) => {
                    let mut skip = false;
                    let mut path = arg.clone();
                    if let Some(e) = find_char(arg.as_slice(), '=') {
                        let key = slice(arg.as_slice(), 0, e);
                        let v = slice(arg.as_slice(), e + 1, arg.len());
                        if is_one_of(key.as_slice(), "LD_LIBRARY_PATH", "LD_PRELOAD") {
                            self.list_paths(key.as_slice(), v.as_slice(), local);
                            skip = true;
                        } else if starts_with_lit(key.as_slice(), "--") {
                            path = v;
                        }
                    }
                    if !skip {
                        self.record(path.as_slice(), local, if input { "input" } else { "argument" });
                    }
                },
                None => {
                    let mut m = lit("unresolved command argument at line ");
                    let line = if row < usize::MAX { row + 1 } else { row };
                    push_all(&mut m, decimal(line as u64).as_slice());
                    push_lit(&mut m, " (");
                    push_all(&mut m, name);
                    push_lit(&mut m, ")");
                    self.issue_text(m.as_slice());
                },
            }
            i += 1;
        }
    }

    /// `> FILE`, `< FILE`, `>& FD` and process substitutions.
    pub fn redirect(&mut self, cx: &Src, node: usize, state: &mut State, depth: usize)
        requires
            old(self).wf(),
            cx.wf(),
            cx.node(node),
            depth <= 75,
        ensures
            final(self).wf(),
            final(self).steps <= old(self).steps,
            plain_output_redirect(cx, node as int) && old(self).steps > 0 && depth < MAX_DEPTH
                && old(self).result.paths.items.len() < MAX_ITEMS && old(self).result.output_paths.items.len() < MAX_ITEMS
                ==> match literal_word_value(
                cx,
                crate::syntax::field_children(cx.tree.nodes@, node as int, "destination"@)[0] as int,
                &*old(state),
            ) {
                Some(Some(v)) => !(crate::text::contains_seq(v, "://"@) || crate::text::is_prefix("rgbi:"@, v)) && !(
                utf8_bytes(v) > MAX_VALUE || v.contains('\0')) ==> match based_path(v, value_view(old(state).cwd)) {
                    Some(b) => !crate::shell_sources::has_dot_dot_component(b) ==> final(self).result.output_paths.has(
                        crate::paths::normal_form(b),
                    ),
                    None => true,
                },
                Some(None) => old(self).result.diagnostics.items.len() < MAX_MESSAGES
                    ==> final(self).result.diagnostics.items.len() > 0,
                None => true,
            },
        decreases old(self).steps, 2int,
    {
        let text = cx.text_of(node);
        let duplicate = contains_lit(text.as_slice(), ">&") || contains_lit(text.as_slice(), "<&");
        let trimmed = trim_start(text.as_slice());
        let mut a: usize = 0;
        assert(trimmed@.subrange(0, trimmed.len() as int) =~= trimmed@);
        while a < trimmed.len() && is_ascii_digit(trimmed[a])
            invariant
                a <= trimmed.len(),
                after_digits(trimmed@) == after_digits(trimmed@.subrange(a as int, trimmed.len() as int)),
            decreases trimmed.len() - a,
        {
            assert(trimmed@.subrange(a as int, trimmed.len() as int).drop_first() =~= trimmed@.subrange(a + 1, trimmed.len() as int));
            a += 1;
        }
        proof {
            let rest = trimmed@.subrange(a as int, trimmed.len() as int);
            if a < trimmed.len() {
                assert(rest[0] == trimmed@[a as int]);
            }
        }
        let input = a < trimmed.len() && trimmed[a] == '<';
        let targets = cx.fields(node, "destination");
        proof {
            reveal_strlit("process_substitution");
            reveal_strlit("word");
            reveal_strlit("output");
            reveal_strlit("read");
            reveal_strlit("argument");
            assert("process_substitution"@.len() == 20 && "word"@.len() == 4);
            assert("output"@.len() == 6 && "argument"@.len() == 8);
        }
        let ghost law = plain_output_redirect(cx, node as int) && old(self).steps > 0 && depth < MAX_DEPTH
            && old(self).result.paths.items.len() < MAX_ITEMS && old(self).result.output_paths.items.len() < MAX_ITEMS;
        let mut i: usize = 0;
        while i < targets.len()
            invariant
                self.wf(),
                self.steps <= old(self).steps,
                cx.wf(),
                depth <= 75,
                forall|j: int| 0 <= j < targets.len() ==> cx.node(#[trigger] targets[j]),
                law == (plain_output_redirect(cx, node as int) && old(self).steps > 0 && depth < MAX_DEPTH
                    && old(self).result.paths.items.len() < MAX_ITEMS && old(self).result.output_paths.items.len() < MAX_ITEMS),
                law ==> !input && !duplicate && targets@ == crate::syntax::field_children(cx.tree.nodes@, node as int, "destination"@),
                law ==> node_kind(cx, targets@[0] as int) == "word"@ && targets.len() == 1,
                law && i == 0 ==> *self == *old(self) && *state == *old(state),
                law && i == 1 ==> match literal_word_value(cx, targets@[0] as int, &*old(state)) {
                    Some(Some(v)) => !(crate::text::contains_seq(v, "://"@) || crate::text::is_prefix("rgbi:"@, v)) && !(
                    utf8_bytes(v) > MAX_VALUE || v.contains('\0')) ==> match based_path(v, value_view(old(state).cwd)) {
                        Some(b) => !crate::shell_sources::has_dot_dot_component(b) ==> self.result.output_paths.has(
                            crate::paths::normal_form(b),
                        ),
                        None => true,
                    },
                    Some(None) => old(self).result.diagnostics.items.len() < MAX_MESSAGES ==> self.result.diagnostics.items.len() > 0,
                    None => true,
                },
                i <= targets.len(),
            decreases targets.len() - i,
        {
            let target = targets[i];
            proof {
                reveal_strlit("process_substitution");
                reveal_strlit("word");
                assert("process_substitution"@.len() == 20 && "word"@.len() == 4);
            }
            if cx.kind(target, "process_substitution") {
                let mut child = state.clone();
                let commands = cx.named(target);
                let mut c: usize = 0;
                while c < commands.len()
                    invariant
                        self.wf(),
                        self.steps <= old(self).steps,
                        cx.wf(),
                        depth <= 75,
                        forall|j: int| 0 <= j < commands.len() ==> cx.node(#[trigger] commands[j]),
                    decreases commands.len() - c,
                {
                    self.statement(cx, commands[c], &mut child, depth + 1);
                    c += 1;
                }
            } else {
                proof {
                    reveal_strlit("output");
                    reveal_strlit("argument");
                    assert("output"@.len() == 6 && "argument"@.len() == 8);
                }
                let part = self.word(cx, target, state, depth + 1);
                proof {
                    if law && literal_word_value(cx, target as int, &*old(state)) is Some {
                        assert(value_view(part) == literal_word_value(cx, target as int, &*old(state))->0);
                        assert(self.result == old(self).result);
                    }
                }
                match part {
                    Some(v) => {
                        let descriptor = eq_lit(v.as_slice(), "-") || (v.len() > 0 && all_digits(v.as_slice()));
                        if !(duplicate && descriptor) {
                            let kind = if input {
                                "read"
                            } else {
                                "output"
                            };
                            let ghost pre = *self;
                            let rr = self.record(v.as_slice(), state, kind);
                            proof {
                                if law {
                                    assert(kind@ == "output"@);
                                    assert(pre.result.paths.items.len() < MAX_ITEMS);
                                    if !(crate::text::contains_seq(v@, "://"@) || crate::text::is_prefix("rgbi:"@, v@)) && !(
                                    utf8_bytes(v@) > MAX_VALUE || v@.contains('\0')) {
                                        if let Some(b) = based_path(v@, value_view(state.cwd)) {
                                            if !crate::shell_sources::has_dot_dot_component(b) {
                                                assert(rr is Some);
                                                assert(self.result.output_paths.has(crate::paths::normal_form(b)));
                                            }
                                        }
                                    }
                                }
                            }
                        }
                    },
                    None => self.issue("unresolved redirection path"),
                }
            }
            i += 1;
        }
    }
}

fn value_is(v: &Value, s: &str) -> (r: bool)
    ensures
        r == (value_view(*v) == Some(s@)),
{
    match v {
        Some(t) => eq_lit(t.as_slice(), s),
        None => false,
    }
}

fn has_whitespace(t: &[char]) -> (r: bool)
    ensures
        r == exists|j: int| 0 <= j < t@.len() && crate::text::spec_is_whitespace(#[trigger] t@[j]),
{
    let mut i: usize = 0;
    while i < t.len()
        invariant
            i <= t.len(),
            forall|j: int| 0 <= j < i ==> !crate::text::spec_is_whitespace(#[trigger] t@[j]),
        decreases t.len() - i,
    {
        if is_whitespace(t[i]) {
            return true;
        }
        i += 1;
    }
    false
}

/// The command names that the analysis evaluates as builtins.
pub open spec fn builtin_name(n: Seq<char>) -> bool {
    ||| n == "source"@ || n == "."@ || n == "cd"@ || n == "pushd"@ || n == "return"@ || n == "exit"@
    ||| n == "true"@ || n == ":"@ || n == "false"@ || n == "unset"@ || n == "eval"@
    ||| spec_dynamic_builtin(n)
    ||| n == "echo"@ || n == "printf"@ || n == "trap"@ || n == "tee"@
}

/// Builtins that change shell state in ways the analysis does not model.
pub open spec fn spec_dynamic_builtin(n: Seq<char>) -> bool {
    ||| n == "alias"@ || n == "unalias"@ || n == "read"@ || n == "mapfile"@
    ||| n == "readarray"@ || n == "getopts"@ || n == "popd"@ || n == "set"@
    ||| n == "shopt"@ || n == "enable"@ || n == "builtin"@ || n == "let"@
    ||| n == "shift"@ || n == "break"@ || n == "continue"@ || n == "command"@
}

/// Builtins that change shell state in ways the analysis does not model.
fn dynamic_builtin(name: &[char]) -> (r: bool)
    ensures
        r == spec_dynamic_builtin(name@),
{
    is_one_of(name, "alias", "unalias") || is_one_of(name, "read", "mapfile") || is_one_of(
        name,
        "readarray",
        "getopts",
    ) || is_one_of(name, "popd", "set") || is_one_of(name, "shopt", "enable") || is_one_of(
        name,
        "builtin",
        "let",
    ) || is_one_of(name, "shift", "break") || is_one_of(name, "continue", "command")
}


impl<'a, E: SourceEnvironment> Engine<'a, E> {
    /// Proves structurally that a statement only waits or probes a process
    /// and cannot change paths or shell state.
    pub fn passive_wait(&mut self, cx: &Src, node: usize, state: &State, depth: usize) -> (r: bool)
        requires
            old(self).wf(),
            cx.wf(),
            cx.node(node),
            depth <= 80,
        ensures
            final(self).wf(),
            final(self).steps <= old(self).steps,
            old(self).steps == 0 || depth > MAX_DEPTH ==> final(self).reported(&*old(self)) && !r,
            r == passive_wait_run(cx, node as int, state, old(self).steps as nat, depth as int).0,
            final(self).steps == passive_wait_run(cx, node as int, state, old(self).steps as nat, depth as int).1,
        decreases old(self).steps, 0int,
    {
        if !self.budget(depth) {
            return false;
        }
        if cx.kind(node, "comment") {
            return true;
        }
        if cx.kind(node, "while_statement") || cx.kind(node, "do_group") || cx.kind(node, "compound_statement")
            || cx.kind(node, "list") || cx.kind(node, "negated_command") || cx.kind(
            node,
            "redirected_statement",
        ) {
            let kids = cx.named(node);
            let ghost s0 = self.steps as nat;
            let mut i: usize = 0;
            while i < kids.len()
                invariant
                    self.wf(),
                    self.steps < old(self).steps,
                    cx.wf(),
                    depth <= MAX_DEPTH,
                    forall|j: int| 0 <= j < kids.len() ==> cx.node(#[trigger] kids[j]),
                    i <= kids.len(),
                    self.steps <= s0,
                    passive_wait_run(cx, node as int, state, old(self).steps as nat, depth as int)
                        == passive_waits_run(cx, kids@, 0, state, s0, depth + 1),
                    passive_waits_run(cx, kids@, 0, state, s0, depth + 1) == passive_waits_run(
                        cx,
                        kids@,
                        i as int,
                        state,
                        self.steps as nat,
                        depth + 1,
                    ),
                decreases kids.len() - i,
            {
                let ghost st = self.steps as nat;
                if !self.passive_wait(cx, kids[i], state, depth + 1) {
                    assert(passive_waits_run(cx, kids@, i as int, state, st, depth + 1) == (false, self.steps as nat));
                    return false;
                }
                i += 1;
            }
            return true;
        }
        if cx.kind(node, "file_redirect") {
            let text = cx.text_of(node);
            let mut compact: Text = Vec::new();
            let mut i: usize = 0;
            while i < text.len()
                invariant
                    i <= text.len(),
                    compact@ == without_whitespace(text@.subrange(0, i as int)),
                decreases text.len() - i,
            {
                proof {
                    assert(text@.subrange(0, i + 1).drop_last() =~= text@.subrange(0, i as int));
                    reveal(Seq::filter);
                }
                if !is_whitespace(text[i]) {
                    compact.push(text[i]);
                }
                i += 1;
            }
            assert(text@.subrange(0, text.len() as int) =~= text@);
            let c = compact.as_slice();
            return eq_lit(c, ">/dev/null") || eq_lit(c, "1>/dev/null") || eq_lit(c, "2>/dev/null");
        }
        if cx.kind(node, "command") {
            let name = match cx.field(node, "name") {
                Some(n) => n,
                None => return false,
            };
            let command = cx.text_of(name);
            let c = command.as_slice();
            if !(eq_lit(c, "sleep") || eq_lit(c, "kill") || eq_lit(c, "true") || eq_lit(c, "false")
                || eq_lit(c, ":")) || function_get(state, c).is_some() {
                return false;
            }
            let kids = cx.named(node);
            let mut args: Vec<usize> = Vec::new();
            let mut i: usize = 0;
            while i < kids.len()
                invariant
                    i <= kids.len(),
                    forall|j: int| 0 <= j < kids.len() ==> cx.node(#[trigger] kids[j]),
                    forall|j: int| 0 <= j < args.len() ==> cx.node(#[trigger] args[j]),
                    args@ == other_than(kids@.subrange(0, i as int), name),
                decreases kids.len() - i,
            {
                proof {
                    assert(kids@.subrange(0, i + 1).drop_last() =~= kids@.subrange(0, i as int));
                    reveal(Seq::filter);
                }
                if kids[i] != name {
                    args.push(kids[i]);
                }
                i += 1;
            }
            assert(kids@.subrange(0, kids.len() as int) =~= kids@);
            if eq_lit(c, "kill") {
                if args.len() != 2 {
                    return false;
                }
                let first = args[0];
                if !((cx.kind(first, "word") || cx.kind(first, "number")) && eq_lit(
                    cx.text_of(first).as_slice(),
                    "-0",
                )) {
                    return false;
                }
                if !(cx.kind(args[1], "number") || cx.kind(args[1], "string") || cx.kind(
                    args[1],
                    "raw_string",
                )) {
                    return false;
                }
            }
            let ghost s0 = self.steps as nat;
            let mut k: usize = 0;
            while k < args.len()
                invariant
                    self.wf(),
                    self.steps < old(self).steps,
                    cx.wf(),
                    depth <= MAX_DEPTH,
                    forall|j: int| 0 <= j < args.len() ==> cx.node(#[trigger] args[j]),
                    k <= args.len(),
                    self.steps <= s0,
                    passive_wait_run(cx, node as int, state, old(self).steps as nat, depth as int)
                        == passive_words_run(cx, args@, 0, s0, depth + 1),
                    passive_words_run(cx, args@, 0, s0, depth + 1) == passive_words_run(
                        cx,
                        args@,
                        k as int,
                        self.steps as nat,
                        depth + 1,
                    ),
                decreases args.len() - k,
            {
                let ghost st = self.steps as nat;
                if !self.passive_word(cx, args[k], depth + 1) {
                    assert(passive_words_run(cx, args@, k as int, st, depth + 1) == (false, self.steps as nat));
                    return false;
                }
                k += 1;
            }
            return true;
        }
        false
    }

    pub fn passive_word(&mut self, cx: &Src, node: usize, depth: usize) -> (r: bool)
        requires
            old(self).wf(),
            cx.wf(),
            cx.node(node),
            depth <= 80,
        ensures
            final(self).wf(),
            final(self).steps <= old(self).steps,
            r == passive_word_run(cx, node as int, old(self).steps as nat, depth as int).0,
            final(self).steps == passive_word_run(cx, node as int, old(self).steps as nat, depth as int).1,
        decreases old(self).steps, 0int,
    {
        if !self.budget(depth) {
            return false;
        }
        if cx.kind(node, "word") || cx.kind(node, "number") || cx.kind(node, "raw_string") || cx.kind(
            node,
            "string_content",
        ) {
            return true;
        }
        if cx.kind(node, "simple_expansion") {
            let t = cx.text_of(node);
            return !is_one_of(t.as_slice(), "$@", "$*");
        }
        if cx.kind(node, "expansion") {
            let t = cx.text_of(node);
            return match strip_prefix_lit(t.as_slice(), "${") {
                Some(rest) => match strip_suffix_text(rest.as_slice(), lit("}").as_slice()) {
                    Some(name) => name.len() > 0 && all_name_chars(name.as_slice()),
                    None => false,
                },
                None => false,
            };
        }
        if cx.kind(node, "string") || cx.kind(node, "concatenation") {
            let kids = cx.named(node);
            let ghost s0 = self.steps as nat;
            let mut i: usize = 0;
            while i < kids.len()
                invariant
                    self.wf(),
                    self.steps < old(self).steps,
                    cx.wf(),
                    depth <= MAX_DEPTH,
                    forall|j: int| 0 <= j < kids.len() ==> cx.node(#[trigger] kids[j]),
                    i <= kids.len(),
                    self.steps <= s0,
                    passive_word_run(cx, node as int, old(self).steps as nat, depth as int) == passive_words_run(
                        cx,
                        kids@,
                        0,
                        s0,
                        depth + 1,
                    ),
                    passive_words_run(cx, kids@, 0, s0, depth + 1) == passive_words_run(
                        cx,
                        kids@,
                        i as int,
                        self.steps as nat,
                        depth + 1,
                    ),
                decreases kids.len() - i,
            {
                let ghost st = self.steps as nat;
                if !self.passive_word(cx, kids[i], depth + 1) {
                    assert(passive_words_run(cx, kids@, i as int, st, depth + 1) == (false, self.steps as nat));
                    return false;
                }
                i += 1;
            }
            return true;
        }
        false
    }

    /// Evaluates one statement.
    pub fn statement(&mut self, cx: &Src, node: usize, state: &mut State, depth: usize)
        requires
            old(self).wf(),
            cx.wf(),
            cx.node(node),
            depth <= 80,
        ensures
            final(self).wf(),
            final(self).steps <= old(self).steps,
            old(state).stopped ==> *final(self) == *old(self) && *final(state) == *old(state),
            !old(state).stopped && (old(self).steps == 0 || depth > MAX_DEPTH) ==> final(self).reported(&*old(self))
                && *final(state) == *old(state),
            forall|dir: Seq<char>|
                !old(state).stopped && node_kind(cx, node as int) == "command"@ && old(self).steps > 3
                    && #[trigger] old(self).cd_law_applies(cx, node as int, depth + 1, dir) ==> match based_path(
                    dir,
                    value_view(old(state).cwd),
                ) {
                    Some(b) => !crate::shell_sources::has_dot_dot_component(b) ==> {
                        &&& final(self).result.working_directories.has(crate::paths::normal_form(b))
                        &&& value_view(final(state).cwd) == Some(crate::paths::normal_form(b))
                    },
                    None => true,
                },
            !old(state).stopped && node_kind(cx, node as int) == "variable_assignment"@ && old(self).steps > 1 && depth
                + 1 < MAX_DEPTH ==> assigned(cx, node as int, &*old(state), &*final(state)),
            forall|m: int, n: Seq<char>|
                node_kind(cx, node as int) == "command"@ && #[trigger] prefixed_name(cx, node as int, m, n) && depth + 2
                    < MAX_DEPTH && !builtin_name(n) && function_lookup(old(state).functions@, n) is None ==> {
                    ||| final(state).vars == old(state).vars && final(state).unset == old(state).unset
                        && final(state).cwd == old(state).cwd
                    ||| vars_view(final(state).vars@) == forgotten(old(state).vars@) && final(state).cwd is None
                },
            forall|dir: Seq<char>|
                !old(state).stopped && single_command_program(cx, node as int) && old(self).steps > 4 && plain_absolute(dir)
                    && #[trigger] old(self).cd_law_applies(
                    cx,
                    crate::syntax::children_spec(cx.tree.nodes@, node as int, true)[0] as int,
                    depth + 2,
                    dir,
                ) ==> {
                    &&& final(self).result.working_directories.has(crate::paths::normal_form(dir))
                    &&& value_view(final(state).cwd) == Some(crate::paths::normal_form(dir))
                },
            !old(state).stopped && node_kind(cx, node as int) == "declaration_command"@ && old(self).steps > 1 && depth
                + 2 < MAX_DEPTH && crate::syntax::children_spec(cx.tree.nodes@, node as int, true).len() == 1 && node_kind(
                cx,
                crate::syntax::children_spec(cx.tree.nodes@, node as int, true)[0] as int,
            ) == "variable_assignment"@ ==> assigned(
                cx,
                crate::syntax::children_spec(cx.tree.nodes@, node as int, true)[0] as int,
                &*old(state),
                &*final(state),
            ),
            !old(state).stopped && node_kind(cx, node as int) == "list"@ && old(self).steps > 5 && depth + 4 < MAX_DEPTH
                && short_circuit_test(cx, node as int) ==> match decided_string_test(
                cx,
                list_test(cx, node as int),
                &*old(state),
            ) {
                Some(t) => short_circuited(cx, node as int, t) ==> final(state).status == t,
                None => true,
            },
            !old(state).stopped && node_kind(cx, node as int) == "file_redirect"@ && old(self).steps > 1 && depth + 1
                < MAX_DEPTH && plain_output_redirect(cx, node as int) && old(self).result.paths.items.len() < MAX_ITEMS
                && old(self).result.output_paths.items.len() < MAX_ITEMS ==> match literal_word_value(
                cx,
                crate::syntax::field_children(cx.tree.nodes@, node as int, "destination"@)[0] as int,
                &*old(state),
            ) {
                Some(Some(v)) => !(crate::text::contains_seq(v, "://"@) || crate::text::is_prefix("rgbi:"@, v)) && !(
                utf8_bytes(v) > MAX_VALUE || v.contains('\0')) ==> match based_path(v, value_view(old(state).cwd)) {
                    Some(b) => !crate::shell_sources::has_dot_dot_component(b) ==> final(self).result.output_paths.has(
                        crate::paths::normal_form(b),
                    ),
                    None => true,
                },
                Some(None) => old(self).result.diagnostics.items.len() < MAX_MESSAGES
                    ==> final(self).result.diagnostics.items.len() > 0,
                None => true,
            },
            !old(state).stopped && node_kind(cx, node as int) == "test_command"@ && old(self).steps > 4 && depth + 2
                < MAX_DEPTH && crate::syntax::children_spec(cx.tree.nodes@, node as int, true).len() > 0 ==> match decided_string_test(
                cx,
                crate::syntax::children_spec(cx.tree.nodes@, node as int, true)[0] as int,
                &*old(state),
            ) {
                Some(t) => final(state).status == t,
                None => true,
            },
        decreases old(self).steps, 0int,
    {
        let ghost first = *self;
        if state.stopped || !self.budget(depth) {
            return;
        }
        proof {
            reveal_strlit("command");
            reveal_strlit("comment");
            reveal_strlit("program");
            reveal_strlit("compound_statement");
            reveal_strlit("else_clause");
            reveal_strlit("do_group");
            reveal_strlit("variable_assignment");
            assert("command"@[4] != "comment"@[4] && "command"@[0] != "program"@[0]);
            assert("command"@.len() == 7 && "compound_statement"@.len() == 18 && "else_clause"@.len() == 11);
            assert("do_group"@.len() == 8 && "variable_assignment"@.len() == 19);
            reveal_strlit("file_redirect");
            assert("file_redirect"@.len() == 13);
            reveal_strlit("test_command");
            reveal_strlit("if_statement");
            reveal_strlit("elif_clause");
            assert("test_command"@.len() == 12 && "if_statement"@.len() == 12 && "elif_clause"@.len() == 11);
            assert("test_command"@[0] != "if_statement"@[0]);
            reveal_strlit("declaration_command");
            reveal_strlit("negated_command");
            reveal_strlit("function_definition");
            reveal_strlit("list");
            assert("list"@.len() == 4);
            assert("declaration_command"@.len() == 19 && "negated_command"@.len() == 15);
            assert("declaration_command"@[0] != "variable_assignment"@[0]);
            assert("declaration_command"@[0] != "function_definition"@[0]);
            assert forall|dir: Seq<char>| #[trigger] first.cd_law_applies(cx, node as int, depth + 1, dir) && first.steps > 3
                implies self.cd_law_applies(cx, node as int, depth + 1, dir) by {}
        }
        if cx.kind(node, "comment") {
            return;
        }
        if cx.kind(node, "program") || cx.kind(node, "compound_statement") || cx.kind(node, "else_clause")
            || cx.kind(node, "do_group") {
            let kids = cx.named(node);
            let ghost one = single_command_program(cx, node as int) && first.steps > 4;
            let ghost entry = *self;
            proof {
                if one {
                    assert(self.steps == first.steps - 1 && self.result == first.result);
                    assert forall|dir: Seq<char>| #[trigger] first.cd_law_applies(cx, kids@[0] as int, depth + 2, dir)
                        implies self.cd_law_applies(cx, kids@[0] as int, depth + 2, dir) by {}
                }
            }
            let mut i: usize = 0;
            while i < kids.len()
                invariant
                    self.wf(),
                    self.steps < old(self).steps,
                    cx.wf(),
                    depth <= MAX_DEPTH,
                    forall|j: int| 0 <= j < kids.len() ==> cx.node(#[trigger] kids[j]),
                    i <= kids.len(),
                    kids@ == crate::syntax::children_spec(cx.tree.nodes@, node as int, true),
                    one ==> single_command_program(cx, node as int) && entry.steps > 3,
                    one && i == 0 ==> *self == entry && *state == *old(state),
                    one ==> forall|dir: Seq<char>| #[trigger] first.cd_law_applies(cx, kids@[0] as int, depth + 2, dir)
                        ==> entry.cd_law_applies(cx, kids@[0] as int, depth + 2, dir),
                    one && i >= 1 ==> forall|dir: Seq<char>|
                        !old(state).stopped && plain_absolute(dir) && #[trigger] first.cd_law_applies(
                            cx,
                            kids@[0] as int,
                            depth + 2,
                            dir,
                        ) ==> {
                            &&& self.result.working_directories.has(crate::paths::normal_form(dir))
                            &&& value_view(state.cwd) == Some(crate::paths::normal_form(dir))
                        },
                decreases kids.len() - i,
            {
                let ghost i0 = i;
                let ghost pre = *state;
                self.statement(cx, kids[i], state, depth + 1);
                proof {
                    if one && i0 == 0 {
                        assert forall|dir: Seq<char>|
                            !old(state).stopped && plain_absolute(dir) && #[trigger] first.cd_law_applies(
                                cx,
                                kids@[0] as int,
                                depth + 2,
                                dir,
                            ) implies {
                            &&& self.result.working_directories.has(crate::paths::normal_form(dir))
                            &&& value_view(state.cwd) == Some(crate::paths::normal_form(dir))
                        } by {
                            assert(entry.cd_law_applies(cx, kids@[0] as int, depth + 1 + 1, dir));
                            assert(based_path(dir, value_view(pre.cwd)) == Some(dir));
                        }
                    }
                }
                i += 1;
            }
            return;
        }
        if cx.kind(node, "variable_assignment") {
            self.assign(cx, node, state, depth + 1);
            return;
        }
        if cx.kind(node, "command") {
            self.command(cx, node, state, depth + 1);
            return;
        }
        if cx.kind(node, "file_redirect") {
            self.redirect(cx, node, state, depth + 1);
            return;
        }
        if cx.kind(node, "if_statement") || cx.kind(node, "elif_clause") {
            self.branch(cx, node, state, depth + 1);
            return;
        }
        if cx.kind(node, "test_command") || cx.kind(node, "negated_command") {
            state.status = self.condition(cx, node, state, depth + 1);
            return;
        }
        if cx.kind(node, "function_definition") {
            if let (Some(name), Some(body)) = (cx.field(node, "name"), cx.field(node, "body")) {
                if state.functions.len() >= MAX_ITEMS {
                    self.issue("function count limit");
                    return;
                }
                function_set(state, cx.text_of(name), cx.text_of(body), self.file.clone());
            }
            return;
        }
        if cx.kind(node, "declaration_command") {
            self.declaration(cx, node, state, depth + 1);
            return;
        }
        if cx.kind(node, "list") {
            self.list(cx, node, state, depth + 1);
            return;
        }
        if cx.kind(node, "redirected_statement") {
            let kids = cx.named(node);
            let mut i: usize = 0;
            while i < kids.len()
                invariant
                    self.wf(),
                    self.steps < old(self).steps,
                    cx.wf(),
                    depth <= MAX_DEPTH,
                    forall|j: int| 0 <= j < kids.len() ==> cx.node(#[trigger] kids[j]),
                decreases kids.len() - i,
            {
                let n = kids[i];
                if cx.kind(n, "file_redirect") {
                    self.redirect(cx, n, state, depth + 1);
                } else if cx.kind(n, "heredoc_redirect") || cx.kind(n, "herestring_redirect") {
                    self.note("redirect data not executed");
                } else {
                    self.statement(cx, n, state, depth + 1);
                }
                i += 1;
            }
            return;
        }
        if cx.kind(node, "pipeline") || cx.kind(node, "subshell") {
            let kids = cx.named(node);
            let mut i: usize = 0;
            while i < kids.len()
                invariant
                    self.wf(),
                    self.steps < old(self).steps,
                    cx.wf(),
                    depth <= MAX_DEPTH,
                    forall|j: int| 0 <= j < kids.len() ==> cx.node(#[trigger] kids[j]),
                decreases kids.len() - i,
            {
                let mut child = state.clone();
                self.statement(cx, kids[i], &mut child, depth + 1);
                i += 1;
            }
            state.status = None;
            return;
        }
        if cx.kind(node, "for_statement") {
            self.for_loop(cx, node, state, depth + 1);
            return;
        }
        if cx.kind(node, "case_statement") {
            self.case(cx, node, state, depth + 1);
            return;
        }
        if cx.kind(node, "while_statement") {
            if self.passive_wait(cx, node, state, depth + 1) {
                self.note("path-independent wait loop not executed");
                state.status = None;
            } else {
                self.poison(state, "unbounded loop requires runtime input");
            }
            return;
        }
        if cx.kind(node, "unset_command") {
            let kids = cx.named(node);
            let mut names: Vec<Value> = Vec::new();
            let mut i: usize = 0;
            while i < kids.len()
                invariant
                    self.wf(),
                    self.steps < old(self).steps,
                    cx.wf(),
                    depth <= MAX_DEPTH,
                    forall|j: int| 0 <= j < kids.len() ==> cx.node(#[trigger] kids[j]),
                decreases kids.len() - i,
            {
                let v = self.word(cx, kids[i], state, depth + 1);
                names.push(v);
                i += 1;
            }
            self.unset_names(&names, state);
            return;
        }
        if cx.kind(node, "word") || cx.kind(node, "string") || cx.kind(node, "raw_string") || cx.kind(
            node,
            "variable_name",
        ) || cx.kind(node, "number") {
            return;
        }
        let mut m = lit("unsupported statement ");
        push_all(&mut m, cx.tree.nodes[node].kind.as_slice());
        self.issue_text(m.as_slice());
    }

    /// `local`, `export`, `declare` and friends.
    pub fn declaration(&mut self, cx: &Src, node: usize, state: &mut State, depth: usize)
        requires
            old(self).wf(),
            cx.wf(),
            cx.node(node),
            depth <= 70,
        ensures
            final(self).wf(),
            final(self).steps <= old(self).steps,
            crate::syntax::children_spec(cx.tree.nodes@, node as int, true).len() == 1 && node_kind(
                cx,
                crate::syntax::children_spec(cx.tree.nodes@, node as int, true)[0] as int,
            ) == "variable_assignment"@ && old(self).steps > 0 && depth + 1 < MAX_DEPTH ==> assigned(
                cx,
                crate::syntax::children_spec(cx.tree.nodes@, node as int, true)[0] as int,
                &*old(state),
                &*final(state),
            ),
        decreases old(self).steps, 3int,
    {
        let text = cx.text_of(node);
        let t = text.as_slice();
        let words = split_ascii_whitespace(t);
        let flagged = words.len() > 1 && words[1].len() > 0 && words[1][0] == '-';
        if starts_with_lit(t, "readonly ") || starts_with_lit(t, "declare ") || starts_with_lit(t, "typeset ")
            || flagged {
            self.issue("declaration attributes are not modeled");
        }
        let is_local = starts_with_lit(t, "local ");
        let kids = cx.named(node);
        let ghost one = kids.len() == 1 && node_kind(cx, kids@[0] as int) == "variable_assignment"@;
        let mut i: usize = 0;
        while i < kids.len()
            invariant
                self.wf(),
                self.steps <= old(self).steps,
                cx.wf(),
                depth <= 70,
                forall|j: int| 0 <= j < kids.len() ==> cx.node(#[trigger] kids[j]),
                i <= kids.len(),
                one == (kids.len() == 1 && node_kind(cx, kids@[0] as int) == "variable_assignment"@),
                one && i == 0 ==> self.steps == old(self).steps && *state == *old(state),
                one && i >= 1 && old(self).steps > 0 && depth + 1 < MAX_DEPTH ==> assigned(
                    cx,
                    kids@[0] as int,
                    &*old(state),
                    &*state,
                ),
            decreases kids.len() - i,
        {
            let n = kids[i];
            if cx.kind(n, "variable_assignment") {
                if is_local {
                    if let Some(name) = cx.field(n, "name") {
                        let key = cx.text_of(name);
                        let current = var_entry(state, key.as_slice());
                        if self.locals.len() > 0 {
                            let last = self.locals.len() - 1;
                            let mut scope: Vec<(Text, Option<Value>)> = Vec::new();
                            std::mem::swap(&mut scope, &mut self.locals[last]);
                            let mut present = false;
                            let mut k: usize = 0;
                            while k < scope.len()
                                decreases scope.len() - k,
                            {
                                if text_eq(scope[k].0.as_slice(), key.as_slice()) {
                                    present = true;
                                }
                                k += 1;
                            }
                            if !present {
                                scope.push((key, current));
                            }
                            self.locals.set(last, scope);
                        }
                    }
                }
                self.assign(cx, n, state, depth + 1);
            }
            i += 1;
        }
    }

    /// `A && B`, `A || B`, `A ; B`.
    pub fn list(&mut self, cx: &Src, node: usize, state: &mut State, depth: usize)
        requires
            old(self).wf(),
            cx.wf(),
            cx.node(node),
            depth <= 75,
        ensures
            final(self).wf(),
            final(self).steps <= old(self).steps,
            !old(state).stopped && old(self).steps > 4 && depth + 3 < MAX_DEPTH && short_circuit_test(cx, node as int)
                ==> match decided_string_test(cx, list_test(cx, node as int), &*old(state)) {
                Some(t) => short_circuited(cx, node as int, t) ==> final(state).status == t,
                None => true,
            },
        decreases old(self).steps, 2int,
    {
        proof {
            reveal_strlit("&&");
            reveal_strlit("||");
            assert("&&"@[0] != "||"@[0]);
        }
        let a = match cx.nth_named(node, 0) {
            Some(n) => n,
            None => return,
        };
        let b = match cx.nth_named(node, 1) {
            Some(n) => n,
            None => return,
        };
        let op = trim(cx.between(a, b).as_slice());
        self.statement(cx, a, state, depth + 1);
        let run = if eq_lit(op.as_slice(), "&&") {
            state.status
        } else if eq_lit(op.as_slice(), "||") {
            match state.status {
                Some(v) => Some(!v),
                None => None,
            }
        } else {
            Some(true)
        };
        match run {
            Some(true) => self.statement(cx, b, state, depth + 1),
            Some(false) => {},
            None => {
                let original = state.clone();
                let mut branch = state.clone();
                self.statement(cx, b, &mut branch, depth + 1);
                self.merge(state, original, branch);
            },
        }
    }

    /// `for NAME in WORDS; do BODY; done` over known, small word lists.
    pub fn for_loop(&mut self, cx: &Src, node: usize, state: &mut State, depth: usize)
        requires
            old(self).wf(),
            cx.wf(),
            cx.node(node),
            depth <= 75,
        ensures
            final(self).wf(),
            final(self).steps <= old(self).steps,
            !has_field_child(cx, node as int, "value"@) ==> {
                &&& final(self).result.paths == old(self).result.paths
                &&& old(self).result.diagnostics.items.len() < MAX_MESSAGES ==> final(self).result.diagnostics.items.len() > 0
                &&& final(state).cwd is None
                &&& final(state).status is None
                &&& final(state).unset.len() == 0
            },
        decreases old(self).steps, 2int,
    {
        let nodes = cx.fields(node, "value");
        if nodes.len() == 0 {
            self.poison(state, "implicit positional loop unsupported");
            return;
        }
        proof {
            broadcast use vstd::seq_lib::group_filter_ensures, vstd::prelude::Seq::lemma_filter_contains_rev;

            let cs = crate::syntax::children_spec(cx.tree.nodes@, node as int, false);
            assert(nodes@.contains(nodes@[0]));
            assert(cs.contains(nodes@[0]));
            let q = cs.index_of(nodes@[0]);
            assert(crate::syntax::in_field(cx.tree.nodes@, cs[q], "value"@));
            assert(has_field_child(cx, node as int, "value"@));
        }
        let mut values: Vec<Text> = Vec::new();
        let mut i: usize = 0;
        while i < nodes.len()
            invariant
                has_field_child(cx, node as int, "value"@),
                self.wf(),
                self.steps <= old(self).steps,
                cx.wf(),
                depth <= 75,
                forall|j: int| 0 <= j < nodes.len() ==> cx.node(#[trigger] nodes[j]),
            decreases nodes.len() - i,
        {
            let n = nodes[i];
            let v = match self.word(cx, n, state, depth + 1) {
                Some(v) => v,
                None => {
                    self.poison(state, "unresolved loop values");
                    return;
                },
            };
            if cx.kind(n, "string") || cx.kind(n, "raw_string") {
                values.push(v);
            } else if has_glob(v.as_slice()) {
                self.poison(state, "loop glob requires filesystem snapshot");
                return;
            } else {
                let pieces = split_ascii_whitespace(v.as_slice());
                let mut k: usize = 0;
                while k < pieces.len()
                    decreases pieces.len() - k,
                {
                    values.push(pieces[k].clone());
                    k += 1;
                }
            }
            i += 1;
        }
        if values.len() > 64 {
            self.poison(state, "loop iteration limit");
            return;
        }
        if let (Some(var), Some(body)) = (cx.field(node, "variable"), cx.field(node, "body")) {
            let key = cx.text_of(var);
            let mut k: usize = 0;
            while k < values.len()
                invariant
                    self.wf(),
                    self.steps <= old(self).steps,
                    cx.wf(),
                    cx.node(body),
                    depth <= 75,
                decreases values.len() - k,
            {
                var_set(state, key.clone(), Some(values[k].clone()));
                self.statement(cx, body, state, depth + 1);
                if state.stopped {
                    break;
                }
                k += 1;
            }
        }
    }

    /// `case WORD in PATTERNS) BODY ;; esac`: every item that may match is
    /// evaluated and the possible outcomes are merged.
    pub fn case(&mut self, cx: &Src, node: usize, state: &mut State, depth: usize)
        requires
            old(self).wf(),
            cx.wf(),
            cx.node(node),
            depth <= 75,
        ensures
            final(self).wf(),
            final(self).steps <= old(self).steps,
        decreases old(self).steps, 2int,
    {
        let value = match cx.field(node, "value") {
            Some(n) => self.word(cx, n, state, depth + 1),
            None => None,
        };
        let original = state.clone();
        let mut states: Vec<State> = Vec::new();
        let mut possible = true;
        let items = cx.named(node);
        let mut i: usize = 0;
        while i < items.len() && possible
            invariant
                self.wf(),
                self.steps <= old(self).steps,
                cx.wf(),
                depth <= 75,
                forall|j: int| 0 <= j < items.len() ==> cx.node(#[trigger] items[j]),
            decreases items.len() - i,
        {
            let item = items[i];
            if cx.kind(item, "case_item") {
                let patterns = cx.fields(item, "value");
                let mut matched: Option<bool> = Some(false);
                let mut p: usize = 0;
                while p < patterns.len()
                    invariant
                        self.wf(),
                        self.steps <= old(self).steps,
                        cx.wf(),
                        depth <= 75,
                        forall|j: int| 0 <= j < patterns.len() ==> cx.node(#[trigger] patterns[j]),
                    decreases patterns.len() - p,
                {
                    let pattern = patterns[p];
                    let wildcard = cx.kind(pattern, "word") && eq_lit(
                        trim(cx.text_of(pattern).as_slice()).as_slice(),
                        "*",
                    );
                    let m = if wildcard {
                        Some(true)
                    } else {
                        match &value {
                            Some(v) => self.case_match(cx, pattern, v.as_slice(), state, depth + 1),
                            None => None,
                        }
                    };
                    matched = boolean(matched, m, lit("||").as_slice());
                    p += 1;
                }
                if matched != Some(false) {
                    let mut branch = original.clone();
                    let body = cx.named(item);
                    let mut b: usize = 0;
                    while b < body.len()
                        invariant
                            self.wf(),
                            self.steps <= old(self).steps,
                            cx.wf(),
                            depth <= 75,
                            forall|j: int| 0 <= j < body.len() ==> cx.node(#[trigger] body[j]),
                        decreases body.len() - b,
                    {
                        let mut is_pattern = false;
                        let mut q: usize = 0;
                        while q < patterns.len()
                            invariant
                                b < body.len(),
                            decreases patterns.len() - q,
                        {
                            if patterns[q] == body[b] {
                                is_pattern = true;
                            }
                            q += 1;
                        }
                        if !is_pattern {
                            self.statement(cx, body[b], &mut branch, depth + 1);
                        }
                        b += 1;
                    }
                    if cx.field(item, "fallthrough").is_some() {
                        self.poison(&mut branch, "case fallthrough unsupported");
                    }
                    states.push(branch);
                }
                possible = matched != Some(true);
            }
            i += 1;
        }
        if possible {
            states.push(original);
        }
        if let Some(first) = states.pop() {
            *state = first;
            while states.len() > 0
                invariant
                    self.wf(),
                    self.steps <= old(self).steps,
                decreases states.len(),
            {
                let branch = states.pop().unwrap();
                let current = state.clone();
                self.merge(state, current, branch);
            }
        }
    }
}

} // verus!

verus! {

/// A variable whose name or value is longer than `MAX_VALUE` bytes.
pub open spec fn input_entry_too_large(v: (String, String)) -> bool {
    (vstd::utf8::encode_utf8(v.0@).len() as usize) > MAX_VALUE || (vstd::utf8::encode_utf8(v.1@).len() as usize)
        > MAX_VALUE
}

/// The input variables are beyond what an analysis accepts: more than
/// `MAX_ITEMS` of them, or one too long.
pub open spec fn input_too_large(vars: Seq<(String, String)>) -> bool {
    vars.len() > MAX_ITEMS || exists|j: int| 0 <= j < vars.len() && input_entry_too_large(#[trigger] vars[j])
}

/// Analyzes `source`, the text of script `script`, with the given input
/// variables, against `environment`. Too many or too long input variables, or
/// a script longer than `MAX_BYTES` bytes, leave the analysis uncertain and
/// without any path reference.
pub fn analyze<E: SourceEnvironment>(
    source: &str,
    vars: &Vec<(String, String)>,
    script: &str,
    environment: &E,
) -> (r: Findings)
    ensures
        r.wf(),
        input_too_large(vars@) ==> {
            &&& r.diagnostics.items.len() == 1
            &&& r.diagnostics.has(script@ + ": "@ + "input variable limit"@)
            &&& r.paths.items.len() == 0 && r.declared_paths.items.len() == 0 && r.working_directories.items.len() == 0
            &&& r.library_paths.items.len() == 0 && r.preload_libraries.items.len() == 0 && r.input_configs.items.len() == 0
            &&& r.output_paths.items.len() == 0 && r.sources.items.len() == 0 && r.runtime_names.len() == 0
            &&& r.notes.items.len() == 0
        },
        !input_too_large(vars@) && (vstd::utf8::encode_utf8(source@).len() as usize) > MAX_BYTES ==> {
            &&& r.diagnostics.items.len() > 0
            &&& r.paths.items.len() == 0 && r.working_directories.items.len() == 0 && r.library_paths.items.len() == 0
            &&& r.output_paths.items.len() == 0 && r.sources.items.len() == 0 && r.runtime_names.len() == 0
        },
{
    let file = chars_of(script);
    assert(file@.subrange(0, file.len() as int) == file@);
    let mut engine = Engine {
        file: slice(file.as_slice(), 0, file.len()),
        environment,
        result: Findings::new(),
        steps: MAX_STEPS,
        bytes: 0,
        stack: Vec::new(),
        locals: Vec::new(),
        traps: Vec::new(),
        changed_trees: TextSet::new(),
    };
    let mut too_large = vars.len() > MAX_ITEMS;
    let mut i: usize = 0;
    while i < vars.len()
        invariant
            i <= vars.len(),
            too_large == (vars.len() > MAX_ITEMS || exists|j: int| 0 <= j < i && input_entry_too_large(#[trigger] vars@[j])),
        decreases vars.len() - i,
    {
        let key = vars[i].0.as_str();
        let value = vars[i].1.as_str();
        if key.len() > MAX_VALUE || value.len() > MAX_VALUE {
            too_large = true;
        }
        i += 1;
    }
    if too_large {
        proof {
            reveal_strlit("input variable limit");
        }
        let ghost before = engine.result;
        assert(engine.file@ == script@);
        assert(before.diagnostics.items.len() == 0);
        let ghost m = engine.file@ + ": "@ + "input variable limit"@;
        engine.issue("input variable limit");
        assert(engine.result.diagnostics.has(m));
        return engine.result;
    }
    let mut state = State {
        vars: Vec::new(),
        unset: Vec::new(),
        functions: Vec::new(),
        cwd: parent(file.as_slice()),
        status: None,
        stopped: false,
        exited: false,
    };
    let mut k: usize = 0;
    while k < vars.len()
        decreases vars.len() - k,
    {
        var_set(&mut state, chars_of(vars[k].0.as_str()), Some(chars_of(vars[k].1.as_str())));
        k += 1;
    }
    var_set(&mut state, chars_of("0"), Some(file.clone()));
    let code = String::from_str(source);
    let ghost oversize = (vstd::utf8::encode_utf8(source@).len() as usize) > MAX_BYTES;
    assert(engine.traps@.len() == 0 && engine.bytes == 0);
    engine.run(&code, file.as_slice(), &mut state, 0);
    let ghost after_run = engine.result;
    // Trap handlers are potential references too: inspect each once, never
    // dispatching traps that a handler registers.
    let mut handlers: Vec<Text> = Vec::new();
    std::mem::swap(&mut handlers, &mut engine.traps);
    let mut h: usize = 0;
    while h < handlers.len()
        invariant
            engine.wf(),
            oversize ==> handlers.len() == 0 && engine.result == after_run,
        decreases handlers.len() - h,
    {
        let mut child = state.clone();
        child.stopped = false;
        child.exited = false;
        let handler = string_of(handlers[h].as_slice());
        engine.run(&handler, file.as_slice(), &mut child, 0);
        h += 1;
    }
    engine.result
}

} // verus!
