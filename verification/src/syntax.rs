//! Bash syntax trees, flattened into plain values.
//!
//! The grammar itself belongs to `tree-sitter-bash`; this module only walks the
//! tree that the parser produced and records each node with character offsets
//! into the analysed source, so that the analyzer never holds a parser object.
use vstd::prelude::*;

use crate::text::{chars_of, eq_lit};

verus! {

#[verifier::external_type_specification]
#[verifier::external_body]
pub struct ExParser(tree_sitter::Parser);

#[verifier::external_type_specification]
#[verifier::external_body]
pub struct ExTree(tree_sitter::Tree);

#[verifier::external_type_specification]
#[verifier::external_body]
pub struct ExTreeCursor<'a>(tree_sitter::TreeCursor<'a>);

#[verifier::external_type_specification]
#[verifier::external_body]
pub struct ExNode<'a>(tree_sitter::Node<'a>);

/// `tree_sitter::Parser::new`: a parser without a language.
#[verifier::external_body]
fn new_parser() -> tree_sitter::Parser {
    tree_sitter::Parser::new()
}

/// `tree_sitter::Parser::set_language` with the grammar of `tree-sitter-bash`;
/// the result tells whether the grammar's ABI version was accepted.
#[verifier::external_body]
fn set_bash_language(parser: &mut tree_sitter::Parser) -> bool {
    parser.set_language(&tree_sitter_bash::LANGUAGE.into()).is_ok()
}

/// `tree_sitter::Parser::set_timeout_micros`: bounds the time of later parses.
#[verifier::external_body]
fn set_parse_timeout(parser: &mut tree_sitter::Parser, micros: u64) {
    #[allow(deprecated)]
    parser.set_timeout_micros(micros)
}

/// `tree_sitter::Parser::parse` of a complete text; `None` when the parse was
/// abandoned (time limit or no language).
#[verifier::external_body]
fn parse_text(parser: &mut tree_sitter::Parser, source: &str) -> Option<tree_sitter::Tree> {
    parser.parse(source, None)
}

/// `tree_sitter::Tree::walk`: a cursor positioned on the root node.
#[verifier::external_body]
fn tree_walk(tree: &tree_sitter::Tree) -> tree_sitter::TreeCursor<'_> {
    tree.walk()
}

/// `tree_sitter::TreeCursor::goto_first_child`.
#[verifier::external_body]
fn cursor_first_child(cursor: &mut tree_sitter::TreeCursor<'_>) -> bool {
    cursor.goto_first_child()
}

/// `tree_sitter::TreeCursor::goto_next_sibling`.
#[verifier::external_body]
fn cursor_next_sibling(cursor: &mut tree_sitter::TreeCursor<'_>) -> bool {
    cursor.goto_next_sibling()
}

/// `tree_sitter::TreeCursor::goto_parent`.
#[verifier::external_body]
fn cursor_parent(cursor: &mut tree_sitter::TreeCursor<'_>) -> bool {
    cursor.goto_parent()
}

/// `tree_sitter::TreeCursor::field_name`: the grammar field under which the
/// current node hangs from its parent.
#[verifier::external_body]
fn cursor_field_name(cursor: &tree_sitter::TreeCursor<'_>) -> Option<&'static str> {
    cursor.field_name()
}

/// `tree_sitter::TreeCursor::node`.
#[verifier::external_body]
fn cursor_node<'a>(cursor: &tree_sitter::TreeCursor<'a>) -> tree_sitter::Node<'a> {
    cursor.node()
}

/// `tree_sitter::Node::kind`: the grammar name of the node.
#[verifier::external_body]
fn node_kind(node: &tree_sitter::Node<'_>) -> &'static str {
    node.kind()
}

/// `tree_sitter::Node::is_named`.
#[verifier::external_body]
fn node_is_named(node: &tree_sitter::Node<'_>) -> bool {
    node.is_named()
}

/// `tree_sitter::Node::has_error`: the subtree contains a syntax error.
#[verifier::external_body]
fn node_has_error(node: &tree_sitter::Node<'_>) -> bool {
    node.has_error()
}

/// `tree_sitter::Node::start_byte`.
#[verifier::external_body]
fn node_start_byte(node: &tree_sitter::Node<'_>) -> usize {
    node.start_byte()
}

/// `tree_sitter::Node::end_byte`.
#[verifier::external_body]
fn node_end_byte(node: &tree_sitter::Node<'_>) -> usize {
    node.end_byte()
}

/// `tree_sitter::Node::start_position`, its row.
#[verifier::external_body]
fn node_start_row(node: &tree_sitter::Node<'_>) -> usize {
    node.start_position().row
}

/// One node of a parsed script; offsets are character indices.
#[derive(Clone)]
pub struct SyntaxNode {
    pub kind: Vec<char>,
    pub field: Option<Vec<char>>,
    pub named: bool,
    pub start: usize,
    pub end: usize,
    pub row: usize,
    pub first_child: Option<usize>,
    pub next_sibling: Option<usize>,
}

/// A parsed script: `nodes[0]` is the root, nodes are in preorder.
pub struct SyntaxTree {
    pub nodes: Vec<SyntaxNode>,
    pub has_error: bool,
}

pub open spec fn node_wf(n: SyntaxNode, i: int, count: int, len: int) -> bool {
    &&& n.start <= n.end <= len
    &&& (n.first_child matches Some(c) ==> i < c < count)
    &&& (n.next_sibling matches Some(s) ==> i < s < count)
}

impl SyntaxTree {
    /// Offsets lie inside a source of `len` characters and every child and
    /// sibling link points forward in the node list.
    pub open spec fn wf(&self, len: nat) -> bool {
        &&& self.nodes.len() > 0
        &&& forall|i: int|
            0 <= i < self.nodes.len() ==> #[trigger] node_wf(
                self.nodes[i],
                i,
                self.nodes.len() as int,
                len as int,
            )
    }

    pub fn kind_is(&self, i: usize, lit: &str) -> (r: bool)
        requires
            i < self.nodes.len(),
        ensures
            r == (self.nodes[i as int].kind@ == lit@),
    {
        eq_lit(self.nodes[i].kind.as_slice(), lit)
    }

    /// All children, or only the named ones, in source order.
    pub fn children(&self, i: usize, named_only: bool, len: Ghost<nat>) -> (r: Vec<usize>)
        requires
            self.wf(len@),
            i < self.nodes.len(),
        ensures
            r@ == children_spec(self.nodes@, i as int, named_only),
            forall|j: int| 0 <= j < r.len() ==> i < #[trigger] r[j] < self.nodes.len(),
    {
        let mut out: Vec<usize> = Vec::new();
        let mut cur = self.nodes[i].first_child;
        let n = self.nodes.len();
        assert(node_wf(self.nodes[i as int], i as int, n as int, len@ as int));
        while cur.is_some()
            invariant
                self.wf(len@),
                n == self.nodes.len(),
                i < n,
                cur matches Some(c) ==> i < c < n,
                forall|j: int| 0 <= j < out.len() ==> i < #[trigger] out[j] < n,
                children_spec(self.nodes@, i as int, named_only) == out@ + match cur {
                    Some(c) => chain_from(self.nodes@, c as int, named_only),
                    None => Seq::<usize>::empty(),
                },
            decreases
                match cur {
                    Some(c) => n - c,
                    None => 0,
                },
        {
            let c = cur.unwrap();
            assert(node_wf(self.nodes[c as int], c as int, n as int, len@ as int));
            let ghost rest = match self.nodes[c as int].next_sibling {
                Some(s) => chain_from(self.nodes@, s as int, named_only),
                None => Seq::<usize>::empty(),
            };
            let ghost before = out@;
            if !named_only || self.nodes[c].named {
                out.push(c);
                assert(before + (seq![c] + rest) =~= out@ + rest);
            } else {
                assert(out@ + rest == before + rest);
            }
            cur = self.nodes[c].next_sibling;
        }
        assert(out@ + Seq::<usize>::empty() =~= out@);
        out
    }

    /// The first child that hangs from `i` under grammar field `field`.
    pub fn child_by_field(&self, i: usize, field: &str, len: Ghost<nat>) -> (r: Option<usize>)
        requires
            self.wf(len@),
            i < self.nodes.len(),
        ensures
            r == first_in_field(self.nodes@, children_spec(self.nodes@, i as int, false), field@),
            r matches Some(c) ==> i < c < self.nodes.len(),
    {
        let all = self.children(i, false, len);
        let mut k: usize = 0;
        assert(all@.subrange(0, all.len() as int) =~= all@);
        while k < all.len()
            invariant
                k <= all.len(),
                all@ == children_spec(self.nodes@, i as int, false),
                first_in_field(self.nodes@, all@, field@) == first_in_field(self.nodes@, all@.subrange(k as int, all.len() as int), field@),
                forall|j: int| 0 <= j < all.len() ==> i < #[trigger] all[j] < self.nodes.len(),
            decreases all.len() - k,
        {
            let c = all[k];
            let ghost rest = all@.subrange(k as int, all.len() as int);
            assert(rest[0] == c);
            assert(rest.drop_first() =~= all@.subrange(k + 1, all.len() as int));
            match &self.nodes[c].field {
                Some(f) => {
                    if eq_lit(f.as_slice(), field) {
                        return Some(c);
                    }
                },
                None => {},
            }
            k += 1;
        }
        None
    }

    /// Every child that hangs from `i` under grammar field `field`.
    pub fn children_by_field(&self, i: usize, field: &str, len: Ghost<nat>) -> (r: Vec<usize>)
        requires
            self.wf(len@),
            i < self.nodes.len(),
        ensures
            r@ == field_children(self.nodes@, i as int, field@),
            forall|j: int| 0 <= j < r.len() ==> i < #[trigger] r[j] < self.nodes.len(),
    {
        let all = self.children(i, false, len);
        let mut out: Vec<usize> = Vec::new();
        let mut k: usize = 0;
        while k < all.len()
            invariant
                k <= all.len(),
                all@ == children_spec(self.nodes@, i as int, false),
                out@ == all@.subrange(0, k as int).filter(|c: usize| in_field(self.nodes@, c, field@)),
                forall|j: int| 0 <= j < all.len() ==> i < #[trigger] all[j] < self.nodes.len(),
                forall|j: int| 0 <= j < out.len() ==> i < #[trigger] out[j] < self.nodes.len(),
            decreases all.len() - k,
        {
            let c = all[k];
            proof {
                assert(all@.subrange(0, k + 1).drop_last() =~= all@.subrange(0, k as int));
                all@.subrange(0, k as int).lemma_filter_push(c, |c: usize| in_field(self.nodes@, c, field@));
                assert(all@.subrange(0, k + 1) =~= all@.subrange(0, k as int).push(c));
            }
            let hit = match &self.nodes[c].field {
                Some(f) => eq_lit(f.as_slice(), field),
                None => false,
            };
            if hit {
                out.push(c);
            }
            k += 1;
        }
        assert(all@.subrange(0, all.len() as int) =~= all@);
        out
    }

    /// The `k`-th named child.
    pub fn named_child(&self, i: usize, k: usize, len: Ghost<nat>) -> (r: Option<usize>)
        requires
            self.wf(len@),
            i < self.nodes.len(),
        ensures
            r == (if k < children_spec(self.nodes@, i as int, true).len() {
                Some(children_spec(self.nodes@, i as int, true)[k as int])
            } else {
                None::<usize>
            }),
            r matches Some(c) ==> i < c < self.nodes.len(),
    {
        let all = self.children(i, true, len);
        if k < all.len() {
            Some(all[k])
        } else {
            None
        }
    }
}

/// The siblings from node `c` on (only the named ones, if asked), in order.
pub open spec fn chain_from(nodes: Seq<SyntaxNode>, c: int, named_only: bool) -> Seq<usize>
    decreases nodes.len() - c,
{
    if c < 0 || c >= nodes.len() {
        Seq::empty()
    } else {
        let rest = match nodes[c].next_sibling {
            Some(s) => if c < s && s < nodes.len() {
                chain_from(nodes, s as int, named_only)
            } else {
                Seq::empty()
            },
            None => Seq::empty(),
        };
        if !named_only || nodes[c].named {
            seq![c as usize] + rest
        } else {
            rest
        }
    }
}

/// The children of node `i` (only the named ones, if asked), in order.
pub open spec fn children_spec(nodes: Seq<SyntaxNode>, i: int, named_only: bool) -> Seq<usize> {
    match nodes[i].first_child {
        Some(c) => chain_from(nodes, c as int, named_only),
        None => Seq::empty(),
    }
}

/// Node `c` hangs from its parent under grammar field `field`.
pub open spec fn in_field(nodes: Seq<SyntaxNode>, c: usize, field: Seq<char>) -> bool {
    nodes[c as int].field matches Some(f) && f@ == field
}

/// The first of `cs` that hangs under grammar field `field`.
/// The children of node `i` that stand in the field `field`, in order.
pub open spec fn field_children(nodes: Seq<SyntaxNode>, i: int, field: Seq<char>) -> Seq<usize> {
    children_spec(nodes, i, false).filter(|c: usize| in_field(nodes, c, field))
}

pub open spec fn first_in_field(nodes: Seq<SyntaxNode>, cs: Seq<usize>, field: Seq<char>) -> Option<usize>
    decreases cs.len(),
{
    if cs.len() == 0 {
        None
    } else if in_field(nodes, cs[0], field) {
        Some(cs[0])
    } else {
        first_in_field(nodes, cs.drop_first(), field)
    }
}

/// Number of bytes that `c` occupies in UTF-8.
pub open spec fn utf8_width_spec(c: char) -> nat {
    if (c as u32) < 0x80 {
        1
    } else if (c as u32) < 0x800 {
        2
    } else if (c as u32) < 0x10000 {
        3
    } else {
        4
    }
}

/// Number of bytes that `c` occupies in UTF-8.
pub fn utf8_width(c: char) -> (r: usize)
    ensures
        r == utf8_width_spec(c),
        1 <= r <= 4,
{
    let u = c as u32;
    if u < 0x80 {
        1
    } else if u < 0x800 {
        2
    } else if u < 0x10000 {
        3
    } else {
        4
    }
}

/// For each byte offset of the UTF-8 encoding of `text`, the index of the
/// character starting there; offsets inside a character map to `text.len() + 1`.
pub fn byte_to_char_table(text: &Vec<char>) -> (r: Vec<usize>)
    requires
        text.len() <= 0x0800_0000,
    ensures
        r.len() >= 1,
        forall|b: int| 0 <= b < r.len() ==> #[trigger] r[b] <= text.len() + 1,
        r[r.len() - 1] == text.len(),
        r.len() <= 4 * text.len() + 1,
{
    let mut table: Vec<usize> = Vec::new();
    let mut k: usize = 0;
    let n = text.len();
    while k < n
        invariant
            n == text.len(),
            n <= 0x0800_0000,
            k <= n,
            table.len() <= 4 * k,
            forall|b: int| 0 <= b < table.len() ==> #[trigger] table[b] <= n + 1,
        decreases n - k,
    {
        let w = utf8_width(text[k]);
        table.push(k);
        let mut extra: usize = 1;
        while extra < w
            invariant
                n == text.len(),
                k < n,
                n <= 0x0800_0000,
                1 <= extra <= w <= 4,
                table.len() <= 4 * k + extra,
                forall|b: int| 0 <= b < table.len() ==> #[trigger] table[b] <= n + 1,
            decreases w - extra,
        {
            table.push(n + 1);
            extra += 1;
        }
        k += 1;
    }
    table.push(n);
    table
}

fn char_offset(table: &Vec<usize>, byte: usize, n: usize) -> (r: Option<usize>)
    ensures
        r == (if byte < table.len() && table@[byte as int] <= n {
            Some(table@[byte as int])
        } else {
            None::<usize>
        }),
        r matches Some(c) ==> c <= n,
{
    if byte < table.len() && table[byte] <= n {
        Some(table[byte])
    } else {
        None
    }
}

/// Parses a Bash script. `text` must hold the characters of `source`. The
/// result is `None` when the parser gives up or reports offsets that do not
/// fall on character boundaries of the script.
pub fn parse_bash(source: &str, text: &Vec<char>) -> (r: Option<SyntaxTree>)
    requires
        text.len() <= 0x0800_0000,
    ensures
        r matches Some(t) ==> t.wf(text.len() as nat),
{
    let mut parser = new_parser();
    if !set_bash_language(&mut parser) {
        return None;
    }
    set_parse_timeout(&mut parser, 100_000);
    let tree = match parse_text(&mut parser, source) {
        Some(t) => t,
        None => return None,
    };
    let table = byte_to_char_table(text);
    let n = text.len();
    let limit: usize = 4 * table.len() + 64;
    let mut cursor = tree_walk(&tree);
    let mut nodes: Vec<SyntaxNode> = Vec::new();
    // Ancestors of the current cursor position, innermost last, with the
    // index of their most recently recorded child.
    let mut stack: Vec<usize> = Vec::new();
    let mut last_child: Vec<Option<usize>> = Vec::new();
    let mut has_error = false;
    loop
        invariant
            n == text.len(),
            limit == 4 * table.len() + 64,
            table.len() <= 4 * n + 1,
            nodes.len() <= limit,
            last_child.len() == nodes.len(),
            forall|i: int|
                0 <= i < nodes.len() ==> #[trigger] node_wf(
                    nodes[i],
                    i,
                    nodes.len() as int,
                    n as int,
                ),
            forall|j: int| 0 <= j < stack.len() ==> #[trigger] stack[j] < nodes.len(),
            forall|j: int|
                0 <= j < last_child.len() ==> (#[trigger] last_child[j] matches Some(c) ==> j < c
                    < nodes.len()),
        decreases limit - nodes.len(),
    {
        if nodes.len() >= limit {
            return None;
        }
        let node = cursor_node(&cursor);
        let start = match char_offset(&table, node_start_byte(&node), n) {
            Some(v) => v,
            None => return None,
        };
        let end = match char_offset(&table, node_end_byte(&node), n) {
            Some(v) => v,
            None => return None,
        };
        if start > end {
            return None;
        }
        let field = match cursor_field_name(&cursor) {
            Some(f) => Some(chars_of(f)),
            None => None,
        };
        if nodes.len() == 0 {
            has_error = node_has_error(&node);
        }
        let index = nodes.len();
        let ghost old_nodes = nodes@;
        nodes.push(
            SyntaxNode {
                kind: chars_of(node_kind(&node)),
                field,
                named: node_is_named(&node),
                start,
                end,
                row: node_start_row(&node),
                first_child: None,
                next_sibling: None,
            },
        );
        last_child.push(None);
        assert forall|i: int| 0 <= i < nodes.len() implies #[trigger] node_wf(
            nodes[i],
            i,
            nodes.len() as int,
            n as int,
        ) by {
            if i < index {
                assert(node_wf(old_nodes[i], i, index as int, n as int));
            }
        }
        let ghost before = nodes@;
        let ghost cnt = nodes.len() as int;
        if stack.len() > 0 {
            let parent = stack[stack.len() - 1];
            match last_child[parent] {
                Some(prev) => {
                    assert(prev < index);
                    nodes[prev].next_sibling = Some(index);
                },
                None => {
                    if parent < index {
                        nodes[parent].first_child = Some(index);
                    }
                },
            }
            last_child.set(parent, Some(index));
        }
        assert forall|i: int| 0 <= i < nodes.len() implies #[trigger] node_wf(
            nodes[i],
            i,
            nodes.len() as int,
            n as int,
        ) by {
            assert(node_wf(before[i], i, cnt, n as int));
        }
        if cursor_first_child(&mut cursor) {
            stack.push(index);
        } else {
            loop
                invariant
                    forall|j: int| 0 <= j < stack.len() ==> #[trigger] stack[j] < nodes.len(),
                    nodes.len() > 0,
                    n == text.len(),
                    forall|i: int|
                        0 <= i < nodes.len() ==> #[trigger] node_wf(
                            nodes[i],
                            i,
                            nodes.len() as int,
                            n as int,
                        ),
                decreases stack.len(),
            {
                if cursor_next_sibling(&mut cursor) {
                    break;
                }
                if stack.len() == 0 || !cursor_parent(&mut cursor) {
                    if nodes.len() == 0 {
                        return None;
                    }
                    return Some(SyntaxTree { nodes, has_error });
                }
                stack.pop();
            }
        }
    }
}

} // verus!
