//! Java syntax trees as plain data: the nodes in preorder, each with its depth.
//!
//! A run of sibling nodes with all they hold is a range of positions; the
//! children of a node are the rest of its own range.

use vstd::prelude::*;

use crate::text::{byte_offset, chars_of, lemma_utf8_length, normalize, normalized, same, utf8_length};

verus! {

/// The longest source that is parsed, in bytes: its bytes and rows can be
/// counted in 32 bits.
pub const MAX_SOURCE: u32 = 0xffff_fffe;

/// A source that can be parsed is not too long.
pub open spec fn fits(source: Seq<char>) -> bool {
    utf8_length(source) <= MAX_SOURCE
}

pub fn source_fits(source: &str) -> (r: bool)
    ensures
        r == fits(source@),
{
    let chars = chars_of(source);
    assert(chars@.take(chars@.len() as int) =~= chars@);
    byte_offset(chars.as_slice(), chars.len()) <= MAX_SOURCE as u128
}

/// A node of a syntax tree.
#[derive(Debug)]
pub struct SyntaxNode {
    pub kind: String,
    /// The role of the node in its parent, if it has one.
    pub field: String,
    pub named: bool,
    pub depth: u32,
    pub text: String,
    pub start_row: u32,
    pub start_column: u32,
    pub end_row: u32,
    pub end_column: u32,
}

#[verifier::ext_equal]
pub struct NodeView {
    pub kind: Seq<char>,
    pub field: Seq<char>,
    pub named: bool,
    pub depth: u32,
    pub text: Seq<char>,
    pub start_row: u32,
    pub start_column: u32,
    pub end_row: u32,
    pub end_column: u32,
}

impl View for SyntaxNode {
    type V = NodeView;

    open spec fn view(&self) -> NodeView {
        NodeView {
            kind: self.kind@,
            field: self.field@,
            named: self.named,
            depth: self.depth,
            text: self.text@,
            start_row: self.start_row,
            start_column: self.start_column,
            end_row: self.end_row,
            end_column: self.end_column,
        }
    }
}

/// The syntax tree of the parser.
#[verifier::external_type_specification]
#[verifier::external_body]
pub struct ExTree(tree_sitter::Tree);

/// The nodes of a tree in preorder, with their texts in the given source.
pub uninterp spec fn tree_nodes(tree: tree_sitter::Tree, source: Seq<char>) -> Seq<NodeView>;

/// The nodes of the Java syntax tree of a source, if it can be parsed.
pub uninterp spec fn java_nodes(source: Seq<char>) -> Option<Seq<NodeView>>;

/// Parses Java (`tree_sitter::Parser::parse` with the grammar of
/// `tree_sitter_java`). The tree depends on the source alone.
#[verifier::external_body]
fn parse_tree(source: &str) -> (r: Option<tree_sitter::Tree>)
    requires
        fits(source@),
    ensures
        match r {
            Some(tree) => java_nodes(source@) == Some(tree_nodes(tree, source@)),
            None => java_nodes(source@) is None,
        },
{
    let mut parser = tree_sitter::Parser::new();
    parser.set_language(&tree_sitter_java::LANGUAGE.into()).ok()?;
    parser.parse(source, None)
}

/// The number of nodes of a tree (`tree_sitter::Node::descendant_count` of
/// its root).
#[verifier::external_body]
fn node_count(tree: &tree_sitter::Tree, source: &str) -> (r: usize)
    ensures
        r == tree_nodes(*tree, source@).len(),
{
    tree.root_node().descendant_count()
}

/// A node by its position in preorder
/// (`tree_sitter::TreeCursor::goto_descendant`), with its kind, its field
/// name, its depth, its text and its place. Rows are counted by line breaks,
/// so there are no more of them than characters.
#[verifier::external_body]
fn node_at(tree: &tree_sitter::Tree, source: &str, index: usize) -> (r: SyntaxNode)
    requires
        fits(source@),
        java_nodes(source@) == Some(tree_nodes(*tree, source@)),
        index < tree_nodes(*tree, source@).len(),
    ensures
        r@ == tree_nodes(*tree, source@)[index as int],
        r.start_row <= source@.len() && r.end_row <= source@.len(),
{
    let mut cursor = tree.walk();
    cursor.goto_descendant(index);
    let node = cursor.node();
    SyntaxNode {
        kind: node.kind().to_string(),
        field: cursor.field_name().unwrap_or_default().to_string(),
        named: node.is_named(),
        depth: cursor.depth(),
        text: node.utf8_text(source.as_bytes()).unwrap_or_default().to_string(),
        start_row: node.start_position().row as u32, start_column: node.start_position().column as u32,
        end_row: node.end_position().row as u32, end_column: node.end_position().column as u32,
    }
}

/// A parsed source.
#[derive(Debug)]
pub struct SyntaxTree {
    pub nodes: Vec<SyntaxNode>,
}

impl View for SyntaxTree {
    type V = Seq<NodeView>;

    open spec fn view(&self) -> Seq<NodeView> {
        self.nodes@.map_values(|n: SyntaxNode| n@)
    }
}

/// The rows of a tree can be counted from one.
pub open spec fn rows_fit(t: Seq<NodeView>) -> bool {
    forall|i: int|
        0 <= i < t.len() ==> (#[trigger] t[i]).start_row < u32::MAX && t[i].end_row < u32::MAX
}

/// The position behind a node and all it holds: the first one, before `hi`,
/// that is not deeper.
pub open spec fn level_end(t: Seq<NodeView>, depth: u32, from: int, hi: int) -> int
    decreases hi - from,
{
    if from >= hi {
        hi
    } else if t[from].depth <= depth {
        from
    } else {
        level_end(t, depth, from + 1, hi)
    }
}

/// The end of the node at `lo` within a range.
pub open spec fn node_end(t: Seq<NodeView>, lo: int, hi: int) -> int {
    let end = level_end(t, t[lo].depth, lo + 1, hi);
    if lo < end <= hi {
        end
    } else {
        hi
    }
}

/// The first sibling in a range that has the role, with its end.
pub open spec fn sibling_in_role(t: Seq<NodeView>, lo: int, hi: int, field: Seq<char>) -> Option<(int, int)>
    decreases hi - lo,
{
    if lo >= hi {
        None
    } else if t[lo].field == field {
        Some((lo, node_end(t, lo, hi)))
    } else {
        sibling_in_role(t, node_end(t, lo, hi), hi, field)
    }
}

/// The child of the node `lo..hi` that has the role.
pub open spec fn child_in_role(t: Seq<NodeView>, lo: int, hi: int, field: Seq<char>) -> Option<(int, int)> {
    match sibling_in_role(t, lo + 1, hi, field) {
        Some((a, b)) => if lo < a < b <= hi {
            Some((a, b))
        } else {
            None
        },
        None => None,
    }
}

/// The first named sibling in a range, with its end.
pub open spec fn named_sibling(t: Seq<NodeView>, lo: int, hi: int) -> Option<(int, int)>
    decreases hi - lo,
{
    if lo >= hi {
        None
    } else if t[lo].named {
        Some((lo, node_end(t, lo, hi)))
    } else {
        named_sibling(t, node_end(t, lo, hi), hi)
    }
}

/// The first named child of the node `lo..hi`.
pub open spec fn first_named(t: Seq<NodeView>, lo: int, hi: int) -> Option<(int, int)> {
    match named_sibling(t, lo + 1, hi) {
        Some((a, b)) => if lo < a < b <= hi {
            Some((a, b))
        } else {
            None
        },
        None => None,
    }
}

/// The text of the child in a role; empty when there is none.
pub open spec fn text_in_role(t: Seq<NodeView>, lo: int, hi: int, field: Seq<char>) -> Seq<char> {
    match child_in_role(t, lo, hi, field) {
        Some((a, _)) => t[a].text,
        None => Seq::empty(),
    }
}

pub open spec fn span_of(r: Option<(usize, usize)>) -> Option<(int, int)> {
    match r {
        Some((a, b)) => Some((a as int, b as int)),
        None => None,
    }
}

pub proof fn lemma_level_end(t: Seq<NodeView>, depth: u32, from: int, hi: int)
    requires
        from <= hi,
    ensures
        from <= level_end(t, depth, from, hi) <= hi,
    decreases hi - from,
{
    if from < hi && t[from].depth > depth {
        lemma_level_end(t, depth, from + 1, hi);
    }
}

/// The role's node lies in the range.
pub proof fn lemma_sibling_in_role(t: Seq<NodeView>, lo: int, hi: int, field: Seq<char>)
    ensures
        sibling_in_role(t, lo, hi, field) matches Some((a, b)) ==> lo <= a < b <= hi && t[a].field == field && b
            == node_end(t, a, hi),
    decreases hi - lo,
{
    if lo < hi && t[lo].field != field {
        lemma_sibling_in_role(t, node_end(t, lo, hi), hi, field);
    }
}

pub proof fn lemma_named_sibling(t: Seq<NodeView>, lo: int, hi: int)
    ensures
        named_sibling(t, lo, hi) matches Some((a, b)) ==> lo <= a < b <= hi && t[a].named && b == node_end(t, a, hi),
    decreases hi - lo,
{
    if lo < hi && !t[lo].named {
        lemma_named_sibling(t, node_end(t, lo, hi), hi);
    }
}

/// Parses a Java source.
pub fn parse_java(source: &str) -> (r: Option<SyntaxTree>)
    requires
        fits(source@),
    ensures
        match r {
            Some(tree) => java_nodes(source@) == Some(tree@) && rows_fit(tree@),
            None => java_nodes(source@) is None,
        },
{
    let tree = match parse_tree(source) {
        Some(tree) => tree,
        None => {
            return None;
        },
    };
    let ghost all = tree_nodes(tree, source@);
    proof {
        lemma_utf8_length(source@);
    }
    let n: usize = node_count(&tree, source);
    let mut r = SyntaxTree { nodes: Vec::new() };
    let mut i: usize = 0;
    while i < n
        invariant
            fits(source@),
            source@.len() <= utf8_length(source@),
            all == tree_nodes(tree, source@),
            java_nodes(source@) == Some(all),
            i <= n == all.len(),
            r@ == all.take(i as int),
            rows_fit(r@),
        decreases n - i,
    {
        let ghost before = r@;
        let node = node_at(&tree, source, i);
        r.nodes.push(node);
        i = i + 1;
        assert(r@ =~= before.push(node@));
        assert(r@ =~= all.take(i as int));
    }
    assert(all.take(i as int) =~= all);
    Some(r)
}

impl SyntaxTree {
    pub fn is_kind(&self, i: usize, kind: &str) -> (r: bool)
        requires
            i < self@.len(),
        ensures
            r == (self@[i as int].kind == kind@),
    {
        same(self.nodes[i].kind.as_str(), kind)
    }

    pub fn has_role(&self, i: usize, field: &str) -> (r: bool)
        requires
            i < self@.len(),
        ensures
            r == (self@[i as int].field == field@),
    {
        same(self.nodes[i].field.as_str(), field)
    }

    pub fn is_named(&self, i: usize) -> (r: bool)
        requires
            i < self@.len(),
        ensures
            r == self@[i as int].named,
    {
        self.nodes[i].named
    }

    pub fn text(&self, i: usize) -> (r: &str)
        requires
            i < self@.len(),
        ensures
            r@ == self@[i as int].text,
    {
        self.nodes[i].text.as_str()
    }

    /// The text of a node with its white space collapsed.
    pub fn collapsed(&self, i: usize) -> (r: String)
        requires
            i < self@.len(),
        ensures
            r@ == normalized(self@[i as int].text),
    {
        normalize(chars_of(self.nodes[i].text.as_str()).as_slice())
    }

    /// The end of the node at `lo`.
    pub fn end_of(&self, lo: usize, hi: usize) -> (r: usize)
        requires
            lo < hi <= self@.len(),
        ensures
            r == node_end(self@, lo as int, hi as int),
            lo < r <= hi,
    {
        let depth: u32 = self.nodes[lo].depth;
        let mut i: usize = lo + 1;
        let ghost t = self@;
        assert(t[lo as int] == self.nodes@[lo as int]@);
        proof {
            lemma_level_end(t, depth, lo + 1, hi as int);
        }
        while i < hi
            invariant
                lo < i <= hi <= self@.len(),
                t == self@,
                lo < level_end(t, depth, lo + 1, hi as int) <= hi,
                depth == t[lo as int].depth,
                level_end(t, depth, lo + 1, hi as int) == level_end(t, depth, i as int, hi as int),
            decreases hi - i,
        {
            assert(t[i as int] == self.nodes@[i as int]@);
            if self.nodes[i].depth <= depth {
                return i;
            }
            i = i + 1;
        }
        hi
    }

    /// The child of the node `lo..hi` in a role.
    pub fn child(&self, lo: usize, hi: usize, field: &str) -> (r: Option<(usize, usize)>)
        requires
            lo < hi <= self@.len(),
        ensures
            span_of(r) == child_in_role(self@, lo as int, hi as int, field@),
            r matches Some((a, b)) ==> lo < a < b <= hi,
    {
        let ghost t = self@;
        let ghost all = sibling_in_role(t, lo + 1, hi as int, field@);
        let mut i: usize = lo + 1;
        while i < hi
            invariant
                lo < i <= hi <= self@.len(),
                t == self@,
                all == sibling_in_role(t, lo + 1, hi as int, field@),
                all == sibling_in_role(t, i as int, hi as int, field@),
            decreases hi - i,
        {
            let end: usize = self.end_of(i, hi);
            if self.has_role(i, field) {
                return Some((i, end));
            }
            i = end;
        }
        None
    }

    /// The first named child of the node `lo..hi`.
    pub fn first_named_child(&self, lo: usize, hi: usize) -> (r: Option<(usize, usize)>)
        requires
            lo < hi <= self@.len(),
        ensures
            span_of(r) == first_named(self@, lo as int, hi as int),
            r matches Some((a, b)) ==> lo < a < b <= hi,
    {
        let ghost t = self@;
        let ghost all = named_sibling(t, lo + 1, hi as int);
        let mut i: usize = lo + 1;
        while i < hi
            invariant
                lo < i <= hi <= self@.len(),
                t == self@,
                all == named_sibling(t, lo + 1, hi as int),
                all == named_sibling(t, i as int, hi as int),
            decreases hi - i,
        {
            let end: usize = self.end_of(i, hi);
            if self.is_named(i) {
                return Some((i, end));
            }
            i = end;
        }
        None
    }

    /// The text of the child in a role; empty when there is none.
    pub fn role_text(&self, lo: usize, hi: usize, field: &str) -> (r: String)
        requires
            lo < hi <= self@.len(),
        ensures
            r@ == text_in_role(self@, lo as int, hi as int, field@),
    {
        match self.child(lo, hi, field) {
            Some((a, _)) => self.text(a).to_owned(),
            None => String::new(),
        }
    }
}

} // verus!
