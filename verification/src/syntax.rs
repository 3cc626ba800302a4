//! Parsing source text with tree-sitter grammars, and reading the leaf
//! tokens of the resulting syntax trees for highlighting.

use vstd::prelude::*;
use vstd::utf8::encode_utf8;
use crate::highlight::{
    classified, lemma_classified_ok, lemma_sorted_spans, sorted_by_start, spans_of_leaves, spans_ok, starts_sorted,
    tokens_ordered, HlSpan, LeafToken,
};
use crate::sources::Lang;
use crate::tree::SyntaxNode;
use crate::edits::{whole_buffer_edit_range, EditRange};

verus! {

/// A tree-sitter syntax tree, carried through unread.
#[verifier::external_type_specification]
#[verifier::external_body]
pub struct ExTree(tree_sitter::Tree);

/// A description of a text edit, carried through unread.
#[verifier::external_type_specification]
#[verifier::external_body]
pub struct ExInputEdit(tree_sitter::InputEdit);

/// A tree-sitter node, carried through unread.
#[verifier::external_type_specification]
#[verifier::external_body]
pub struct ExNode<'tree>(tree_sitter::Node<'tree>);

// ---------------------------------------------------------------- parsing

/// A new `Parser` given the grammar of `lang` (`Parser::set_language`),
/// then `Parser::parse` of `source`, reusing the unchanged parts of an
/// edited earlier tree when one is given.
///
/// Claimed of the outside code: a tree is always returned. Every grammar
/// here has ABI version 14, which `set_language` accepts (it accepts 13 to
/// 14), and a new parser has no timeout and no cancellation flag, the only
/// other causes of `None` that `Parser::parse` documents. The tree is not
/// described.
#[verifier::external_body]
fn fresh_parse(source: &str, lang: Lang, old_tree: Option<&tree_sitter::Tree>) -> (r: Option<tree_sitter::Tree>)
    ensures
        r is Some,
{
    let mut parser = tree_sitter::Parser::new();
    let language: tree_sitter::Language = match lang {
        Lang::Rust => tree_sitter_rust::language(),
        Lang::Python => tree_sitter_python::language(),
        Lang::TypeScript => tree_sitter_typescript::language_typescript(),
        Lang::Tsx => tree_sitter_typescript::language_tsx(),
        Lang::Go => tree_sitter_go::language(),
    };
    match parser.set_language(&language) {
        Ok(()) => parser.parse(source, old_tree),
        Err(_) => None,
    }
}

/// `Tree::clone`: another handle on the same syntax tree.
#[verifier::external_body]
fn clone_tree(tree: &tree_sitter::Tree) -> tree_sitter::Tree {
    tree.clone()
}

/// `Tree::edit`: records a text edit on the tree so that the next parse
/// can reuse its unchanged parts.
#[verifier::external_body]
fn edit_tree(tree: &mut tree_sitter::Tree, edit: &tree_sitter::InputEdit) {
    tree.edit(edit)
}

/// An `InputEdit` holding the edit's byte offsets and its positions as
/// `Point`s, field for field.
#[verifier::external_body]
fn to_input_edit(e: &EditRange) -> tree_sitter::InputEdit {
    tree_sitter::InputEdit {
        start_byte: e.start_byte,
        old_end_byte: e.old_end_byte,
        new_end_byte: e.new_end_byte,
        start_position: tree_sitter::Point::new(e.start_position.row, e.start_position.column),
        old_end_position: tree_sitter::Point::new(e.old_end_position.row, e.old_end_position.column),
        new_end_position: tree_sitter::Point::new(e.new_end_position.row, e.new_end_position.column),
    }
}

/// The edit that turns `old` into `new` for an incremental re-parse: from
/// their first differing character to the end of each (see
/// [`whole_buffer_edit_range`]).
pub fn whole_buffer_edit(old: &str, new: &str) -> tree_sitter::InputEdit
    requires
        4 * old@.len() <= usize::MAX,
        4 * new@.len() <= usize::MAX,
{
    let e = whole_buffer_edit_range(old, new);
    to_input_edit(&e)
}

/// A parser bound to one language that keeps its last tree, so that an
/// edited document is re-parsed incrementally.
pub struct IncrementalParser {
    pub lang: Lang,
    tree: Option<tree_sitter::Tree>,
}

impl IncrementalParser {
    /// The language the parser reads.
    pub closed spec fn language(&self) -> Lang {
        self.lang
    }

    /// The parser keeps a tree from an earlier parse.
    pub closed spec fn has_tree(&self) -> bool {
        self.tree is Some
    }

    /// A parser for `lang`, keeping no tree yet.
    pub fn new(lang: Lang) -> (r: Self)
        ensures
            r.language() == lang,
            !r.has_tree(),
    {
        IncrementalParser { lang, tree: None }
    }

    /// Parses `source` from scratch and keeps the tree for later edits. A
    /// tree is always returned.
    pub fn parse(&mut self, source: &str) -> (r: Option<tree_sitter::Tree>)
        ensures
            final(self).language() == old(self).language(),
            r is Some,
            r is Some ==> final(self).has_tree(),
            r is None ==> final(self).has_tree() == old(self).has_tree(),
    {
        match fresh_parse(source, self.lang, None) {
            Some(tree) => {
                self.tree = Some(clone_tree(&tree));
                Some(tree)
            },
            None => None,
        }
    }

    /// Re-parses `source`, reusing the kept tree (already adjusted with
    /// [`IncrementalParser::apply_edit`]) so that only changed regions are
    /// walked again. A tree is always returned.
    pub fn reparse(&mut self, source: &str) -> (r: Option<tree_sitter::Tree>)
        ensures
            final(self).language() == old(self).language(),
            r is Some,
            r is Some ==> final(self).has_tree(),
            r is None ==> final(self).has_tree() == old(self).has_tree(),
    {
        let parsed = fresh_parse(source, self.lang, self.tree.as_ref());
        match parsed {
            Some(tree) => {
                self.tree = Some(clone_tree(&tree));
                Some(tree)
            },
            None => None,
        }
    }

    /// Records an edit on the kept tree, if there is one.
    pub fn apply_edit(&mut self, edit: &tree_sitter::InputEdit)
        ensures
            final(self).language() == old(self).language(),
            final(self).has_tree() == old(self).has_tree(),
    {
        match &mut self.tree {
            Some(tree) => edit_tree(tree, edit),
            None => {},
        }
    }
}

// ---------------------------------------------------------------- reading trees

/// A contiguous run of the characters of `s`.
pub open spec fn piece_of(t: Seq<char>, s: Seq<char>) -> bool {
    exists|i: int| 0 <= i && i + t.len() <= s.len() && t == #[trigger] s.subrange(i, i + t.len())
}

/// Every node's text is a contiguous run of the characters of `s`.
pub open spec fn texts_within(n: SyntaxNode, s: Seq<char>) -> bool
    decreases n,
{
    piece_of(n.text@, s) && forall|i: int| 0 <= i < n.children@.len() ==> texts_within(#[trigger] n.children@[i], s)
}

/// Every node starts no later than it ends.
pub open spec fn ranges_ordered(n: SyntaxNode) -> bool
    decreases n,
{
    n.start <= n.end && forall|i: int| 0 <= i < n.children@.len() ==> ranges_ordered(#[trigger] n.children@[i])
}

/// Every node ends at or before byte `len`.
pub open spec fn ends_within(n: SyntaxNode, len: nat) -> bool
    decreases n,
{
    n.end <= len && forall|i: int| 0 <= i < n.children@.len() ==> ends_within(#[trigger] n.children@[i], len)
}

/// The syntax tree tree-sitter gives for `source` in the grammar of
/// `lang`, read node for node as plain values.
pub uninterp spec fn parsed(source: Seq<char>, lang: Lang) -> SyntaxNode;

/// One node and its descendants read as plain values: kind, the field it
/// fills, whether it is named, its byte range (`Node::byte_range`), the
/// text of `source` in that range (`str::get`, empty where it is not a
/// range of `source`), and its children (`Node::child`,
/// `Node::field_name_for_child`) read the same way. Only [`parse_read`]
/// calls it, and states what it claims.
#[verifier::external_body]
fn read_node(node: tree_sitter::Node, field: Option<String>, source: &str) -> SyntaxNode {
    let children = (0..node.child_count())
        .map(|i| read_node(node.child(i).unwrap(), node.field_name_for_child(i as u32).map(str::to_string), source))
        .collect();
    let text = source.get(node.byte_range()).unwrap_or("").to_string();
    let named = node.is_named();
    SyntaxNode { kind: node.kind().to_string(), field, named, start: node.start_byte(), end: node.end_byte(), text, children }
}

/// The tree of `source` in the grammar of `lang` ([`fresh_parse`]), read
/// from its root as plain values.
///
/// Claimed of the outside code: the read tree depends on the text and the
/// grammar alone (named `parsed`); the root fills no field; every node's
/// text is a contiguous run of `source` (what `str::get` returns, or
/// empty); every node starts no later than it ends (the runtime computes
/// the end as the start plus the node's size); and every node ends within
/// the parsed bytes, from which the runtime builds all its nodes.
#[verifier::external_body]
fn parse_read(source: &str, lang: Lang) -> (r: Option<SyntaxNode>)
    ensures
        r == Some(parsed(source@, lang)),
        r->0.field is None,
        texts_within(r->0, source@),
        ranges_ordered(r->0),
        ends_within(r->0, encode_utf8(source@).len()),
{
    match fresh_parse(source, lang, None) {
        Some(tree) => Some(read_node(tree.root_node(), None, source)),
        None => None,
    }
}

/// The syntax tree of `source` read as `lang`, as plain values: always
/// present. The root fills no field; every node's text is a piece of
/// `source`, and every node's byte range is ordered and ends within
/// `source`.
pub fn syntax_tree(source: &str, lang: Lang) -> (r: Option<SyntaxNode>)
    ensures
        r == Some(parsed(source@, lang)),
        parsed(source@, lang).field is None,
        texts_within(parsed(source@, lang), source@),
        ranges_ordered(parsed(source@, lang)),
        ends_within(parsed(source@, lang), encode_utf8(source@).len()),
{
    parse_read(source, lang)
}

/// The leaf token a childless node gives, under a parent of kind `parent`.
pub open spec fn leaf_of(n: SyntaxNode, parent: Option<String>) -> LeafToken {
    LeafToken { kind: n.kind, parent_kind: parent, is_named: n.named, start: n.start, end: n.end }
}

/// The leaves of a subtree in document order, each with its parent's kind.
pub open spec fn leaves_of(n: SyntaxNode, parent: Option<String>) -> Seq<LeafToken>
    decreases n, n.children@.len() + 1,
{
    if n.children@.len() == 0 {
        seq![leaf_of(n, parent)]
    } else {
        leaves_under(n, 0)
    }
}

/// The leaves under the children of `n` from position `j` on.
pub open spec fn leaves_under(n: SyntaxNode, j: int) -> Seq<LeafToken>
    decreases n, n.children@.len() - j,
{
    if j < 0 || j >= n.children@.len() {
        seq![]
    } else {
        leaves_of(n.children@[j], Some(n.kind)) + leaves_under(n, j + 1)
    }
}

/// The leaves of a tree whose nodes start no later than they end, and end
/// within `len`, do too.
proof fn lemma_leaves_ordered(n: SyntaxNode, parent: Option<String>, len: nat)
    requires
        ranges_ordered(n),
        ends_within(n, len),
    ensures
        tokens_ordered(leaves_of(n, parent), len),
    decreases n, n.children@.len() + 1,
{
    if n.children@.len() > 0 {
        lemma_leaves_under_ordered(n, 0, len);
    }
}

proof fn lemma_leaves_under_ordered(n: SyntaxNode, j: int, len: nat)
    requires
        ranges_ordered(n),
        ends_within(n, len),
    ensures
        tokens_ordered(leaves_under(n, j), len),
    decreases n, n.children@.len() - j,
{
    if 0 <= j < n.children@.len() {
        assert(ranges_ordered(n.children@[j]));
        assert(ends_within(n.children@[j], len));
        lemma_leaves_ordered(n.children@[j], Some(n.kind), len);
        lemma_leaves_under_ordered(n, j + 1, len);
        let a = leaves_of(n.children@[j], Some(n.kind));
        let b = leaves_under(n, j + 1);
        assert forall|i: int| 0 <= i < (a + b).len() implies (#[trigger] (a + b)[i]).start <= (a + b)[i].end && (a
            + b)[i].end <= len by {
            if i < a.len() {
                assert((a + b)[i] == a[i]);
            } else {
                assert((a + b)[i] == b[i - a.len()]);
            }
        }
    }
}

/// Appends the leaves of a subtree, as [`leaves_of`] says.
fn collect_leaves(n: &SyntaxNode, parent: Option<String>, out: &mut Vec<LeafToken>)
    ensures
        final(out)@ == old(out)@ + leaves_of(*n, parent),
    decreases n, n.children@.len() + 1,
{
    if n.children.len() == 0 {
        out.push(LeafToken { kind: n.kind.clone(), parent_kind: parent, is_named: n.named, start: n.start, end: n.end });
        return;
    }
    let ghost first = out@;
    let mut j: usize = 0;
    while j < n.children.len()
        invariant
            j <= n.children@.len(),
            n.children@.len() > 0,
            out@ + leaves_under(*n, j as int) == first + leaves_under(*n, 0),
        decreases n.children@.len() - j,
    {
        let ghost before = out@;
        collect_leaves(&n.children[j], Some(n.kind.clone()), out);
        assert(out@ + leaves_under(*n, j + 1) =~= before + leaves_under(*n, j as int));
        j = j + 1;
    }
    assert(out@ =~= out@ + leaves_under(*n, j as int));
}

/// The leaf tokens of a tree in document order, each with its parent's
/// kind (none at the root).
fn leaf_tokens(root: &SyntaxNode) -> (r: Vec<LeafToken>)
    ensures
        r@ == leaves_of(*root, None),
{
    let mut out: Vec<LeafToken> = Vec::new();
    collect_leaves(root, None, &mut out);
    assert(out@ =~= leaves_of(*root, None));
    out
}

/// The highlight spans of `source` read as `lang`: the classified leaf
/// tokens of its syntax tree, stably sorted by start; each lies within
/// the source and is of a category other than plain text.
pub fn spans(source: &str, lang: Lang) -> (r: Vec<HlSpan>)
    ensures
        r@ == sorted_by_start(classified(leaves_of(parsed(source@, lang), None))),
        spans_ok(r@, encode_utf8(source@).len()),
        starts_sorted(r@),
{
    match syntax_tree(source, lang) {
        Some(root) => {
            let leaves = leaf_tokens(&root);
            let r = spans_of_leaves(&leaves);
            proof {
                lemma_leaves_ordered(root, None, encode_utf8(source@).len());
                lemma_classified_ok(leaves@, encode_utf8(source@).len());
                lemma_sorted_spans(classified(leaves@), encode_utf8(source@).len());
            }
            r
        },
        None => Vec::new(),
    }
}

} // verus!
