//! Reading the per-file facts of the crate-wide method-call rules (see
//! [`crate::method_rules`]) from a Rust syntax tree: type items, inherent
//! methods, trait method declarations and impls, `Deref` impls, `mod`
//! declarations, imports, and method calls on bare receivers.
//!
//! The tree is read in pre-order over named nodes. Each node is read with
//! what its surroundings say about it: the attributes just before it, the
//! enclosing inline modules and blocks, its parent, and the function item
//! it sits in.

use vstd::prelude::*;
use crate::search::{contains_chars, contains_text};
use crate::strmap::str_eq;
use crate::text::chars_of;
use crate::tree::SyntaxNode;
use crate::words::{cfg_attribute, collapse_whitespace, contains_word, has_word, is_cfg_attr_text, last_ident};
use crate::fields::{lemma_split_nonempty, split_on, split_text, texts, trim, trim_chars};
use crate::method_rules::{
    bare_head, bare_head_of, CandidateMethodCall, RustMethodFacts, DerefImplFact, ImportFact, InherentMethodFact, ModDeclFact, ReceiverKind, TraitImplFact, TraitMethodDeclFact,
    TypeItemFact,
};
use crate::paths::{lemma_split_colons_nonempty, split_colons, split_on_colons};
use crate::paths::last_segment_of;
use crate::py_scopes::field_text_of;
use crate::search::{join_spaced, words};
use crate::strmap::{lemma_seq_lt_irreflexive, lemma_seq_lt_total, seq_lt, str_lt};
use crate::text::{push_str, starts_with, string_of};
use crate::tree::{field_index, field_text, first_named_from, lemma_field_index, lemma_first_named_from};

verus! {

/// What a node's surroundings say about it.
#[derive(Debug, Clone, Copy)]
pub struct NodeContext {
    /// A `cfg` attribute in the run of attributes right before the node.
    pub cfg_attr: bool,
    /// A `path` attribute in the run of outer attributes right before it.
    pub path_attr: bool,
    /// An enclosing inline module carries a `cfg` attribute.
    pub mod_cfg: bool,
    /// The start byte of the nearest enclosing module or block
    /// (`u64::MAX` at the file's top level).
    pub scope: u64,
    /// The byte range of the parent.
    pub parent: Option<(usize, usize)>,
    /// The parent's position in the walk, when it is an impl block.
    pub parent_impl: Option<usize>,
    /// The grandparent's position in the walk, when it is an impl block.
    pub grand_impl: Option<usize>,
    /// The position of the nearest enclosing function item, with the impl
    /// block around that function's body, if any.
    pub function: Option<(usize, Option<usize>)>,
}

/// The surroundings of a file's root.
pub open spec fn root_context() -> NodeContext {
    NodeContext {
        cfg_attr: false,
        path_attr: false,
        mod_cfg: false,
        scope: u64::MAX,
        parent: None,
        parent_impl: None,
        grand_impl: None,
        function: None,
    }
}

/// A `cfg` attribute among the attribute items (outer or inner) that run
/// back from position `k - 1`.
pub open spec fn cfg_run(ch: Seq<SyntaxNode>, k: int) -> bool
    decreases k,
{
    if k <= 0 || k > ch.len() {
        false
    } else if ch[k - 1].kind@ != "attribute_item"@ && ch[k - 1].kind@ != "inner_attribute_item"@ {
        false
    } else if cfg_attribute(ch[k - 1].text@) {
        true
    } else {
        cfg_run(ch, k - 1)
    }
}

/// A `path` attribute among the outer attribute items that run back from
/// position `k - 1`.
pub open spec fn path_run(ch: Seq<SyntaxNode>, k: int) -> bool
    decreases k,
{
    if k <= 0 || k > ch.len() {
        false
    } else if ch[k - 1].kind@ != "attribute_item"@ {
        false
    } else if contains_text(ch[k - 1].text@, "path"@) {
        true
    } else {
        path_run(ch, k - 1)
    }
}

/// The surroundings of the child at position `j` of `n`, which sits at
/// position `base` of the walk with surroundings `c`.
pub open spec fn child_context(n: SyntaxNode, c: NodeContext, base: int, j: int) -> NodeContext {
    NodeContext {
        cfg_attr: cfg_run(n.children@, j),
        path_attr: path_run(n.children@, j),
        mod_cfg: c.mod_cfg || (n.kind@ == "mod_item"@ && c.cfg_attr),
        scope: if n.kind@ == "mod_item"@ || n.kind@ == "block"@ {
            n.start as u64
        } else {
            c.scope
        },
        parent: Some((n.start, n.end)),
        parent_impl: if n.kind@ == "impl_item"@ {
            Some(base as usize)
        } else {
            None
        },
        grand_impl: c.parent_impl,
        function: if n.kind@ == "function_item"@ {
            Some((base as usize, c.grand_impl))
        } else {
            c.function
        },
    }
}

/// The named nodes of a subtree in pre-order, each with its surroundings;
/// the subtree's root sits at position `base`.
pub open spec fn walk(n: SyntaxNode, c: NodeContext, base: int) -> Seq<(SyntaxNode, NodeContext)>
    decreases n, n.children@.len() + 1,
{
    seq![(n, c)] + walk_children(n, c, base, 0, base + 1)
}

/// The walks of the named children of `n` from position `j` on, the first
/// starting at position `at`.
pub open spec fn walk_children(n: SyntaxNode, c: NodeContext, base: int, j: int, at: int) -> Seq<
    (SyntaxNode, NodeContext),
>
    decreases n, n.children@.len() - j,
{
    if j < 0 || j >= n.children@.len() {
        seq![]
    } else {
        let w = if n.children@[j].named {
            walk(n.children@[j], child_context(n, c, base, j), at)
        } else {
            seq![]
        };
        w + walk_children(n, c, base, j + 1, at + w.len())
    }
}

/// The nodes and surroundings a list of references points to.
pub open spec fn walked(v: Seq<(&SyntaxNode, NodeContext)>) -> Seq<(SyntaxNode, NodeContext)> {
    v.map_values(|x: (&SyntaxNode, NodeContext)| (*x.0, x.1))
}

proof fn lemma_walked_push(v: Seq<(&SyntaxNode, NodeContext)>, x: (&SyntaxNode, NodeContext))
    ensures
        walked(v.push(x)) == walked(v) + seq![(*x.0, x.1)],
{
    assert(walked(v.push(x)) =~= walked(v) + seq![(*x.0, x.1)]);
}

/// Decides [`cfg_run`].
fn cfg_run_of(ch: &Vec<SyntaxNode>, j: usize) -> (r: bool)
    requires
        j <= ch@.len(),
    ensures
        r == cfg_run(ch@, j as int),
{
    let mut k = j;
    while k > 0
        invariant
            k <= j <= ch@.len(),
            cfg_run(ch@, j as int) == cfg_run(ch@, k as int),
        decreases k,
    {
        let kind = ch[k - 1].kind.as_str();
        if !str_eq(kind, "attribute_item") && !str_eq(kind, "inner_attribute_item") {
            return false;
        }
        if is_cfg_attr_text(ch[k - 1].text.as_str()) {
            return true;
        }
        k = k - 1;
    }
    false
}

/// Decides [`path_run`].
fn path_run_of(ch: &Vec<SyntaxNode>, j: usize) -> (r: bool)
    requires
        j <= ch@.len(),
    ensures
        r == path_run(ch@, j as int),
{
    let path = chars_of("path");
    let mut k = j;
    while k > 0
        invariant
            k <= j <= ch@.len(),
            path@ == "path"@,
            path_run(ch@, j as int) == path_run(ch@, k as int),
        decreases k,
    {
        if !str_eq(ch[k - 1].kind.as_str(), "attribute_item") {
            return false;
        }
        if contains_chars(&chars_of(ch[k - 1].text.as_str()), &path) {
            return true;
        }
        k = k - 1;
    }
    false
}

/// Computes [`child_context`].
fn child_context_of(n: &SyntaxNode, c: NodeContext, base: usize, j: usize) -> (r: NodeContext)
    requires
        j <= n.children@.len(),
    ensures
        r == child_context(*n, c, base as int, j as int),
{
    let kind = n.kind.as_str();
    let is_mod = str_eq(kind, "mod_item");
    NodeContext {
        cfg_attr: cfg_run_of(&n.children, j),
        path_attr: path_run_of(&n.children, j),
        mod_cfg: c.mod_cfg || (is_mod && c.cfg_attr),
        scope: if is_mod || str_eq(kind, "block") {
            n.start as u64
        } else {
            c.scope
        },
        parent: Some((n.start, n.end)),
        parent_impl: if str_eq(kind, "impl_item") {
            Some(base)
        } else {
            None
        },
        grand_impl: c.parent_impl,
        function: if str_eq(kind, "function_item") {
            Some((base, c.grand_impl))
        } else {
            c.function
        },
    }
}

/// Appends the walk of a subtree, as [`walk`] says.
fn walk_into<'a>(n: &'a SyntaxNode, c: NodeContext, out: &mut Vec<(&'a SyntaxNode, NodeContext)>)
    ensures
        walked(final(out)@) == walked(old(out)@) + walk(*n, c, old(out)@.len() as int),
    decreases n, n.children@.len() + 1,
{
    let base = out.len();
    let ghost start = walked(out@);
    proof {
        lemma_walked_push(out@, (n, c));
    }
    out.push((n, c));
    let ghost first = walked(out@);
    let mut j: usize = 0;
    while j < n.children.len()
        invariant
            j <= n.children@.len(),
            base < out@.len(),
            walked(out@) + walk_children(*n, c, base as int, j as int, out@.len() as int) == first
                + walk_children(*n, c, base as int, 0, base + 1),
        decreases n.children@.len() - j,
    {
        let ghost before = walked(out@);
        let ghost at = out@.len() as int;
        if n.children[j].named {
            let cc = child_context_of(n, c, base, j);
            walk_into(&n.children[j], cc, out);
        }
        assert(walked(out@) + walk_children(*n, c, base as int, j + 1, out@.len() as int) =~= before
            + walk_children(*n, c, base as int, j as int, at));
        j = j + 1;
    }
    assert(walked(out@) =~= walked(out@) + walk_children(*n, c, base as int, j as int, out@.len() as int));
    assert(walked(out@) =~= start + walk(*n, c, base as int));
}

/// The named nodes of a file's tree in pre-order, each with its
/// surroundings.
pub fn walk_file(root: &SyntaxNode) -> (r: Vec<(&SyntaxNode, NodeContext)>)
    ensures
        walked(r@) == walk(*root, root_context(), 0),
{
    let mut out: Vec<(&SyntaxNode, NodeContext)> = Vec::new();
    let c = NodeContext {
        cfg_attr: false,
        path_attr: false,
        mod_cfg: false,
        scope: u64::MAX,
        parent: None,
        parent_impl: None,
        grand_impl: None,
        function: None,
    };
    walk_into(root, c, &mut out);
    assert(walked(out@) =~= walk(*root, root_context(), 0));
    out
}

// ---------------------------------------------------------------- sorting and joining texts

/// Where `x` goes in `s`: before the first entry it does not follow.
pub open spec fn insert_at(s: Seq<Seq<char>>, x: Seq<char>) -> int
    decreases s.len(),
{
    if s.len() == 0 || !seq_lt(s[0], x) {
        0
    } else {
        1 + insert_at(s.drop_first(), x)
    }
}

/// `s` with `x` inserted before the first entry it does not follow.
pub open spec fn insert_sorted(s: Seq<Seq<char>>, x: Seq<char>) -> Seq<Seq<char>> {
    s.insert(insert_at(s, x), x)
}

/// The texts in ascending order (insertion order among equals).
pub open spec fn sort_texts(s: Seq<Seq<char>>) -> Seq<Seq<char>>
    decreases s.len(),
{
    if s.len() == 0 {
        seq![]
    } else {
        insert_sorted(sort_texts(s.drop_last()), s.last())
    }
}

/// The parts joined with `sep` between each two.
pub open spec fn join_with(parts: Seq<Seq<char>>, sep: Seq<char>) -> Seq<char>
    decreases parts.len(),
{
    if parts.len() == 0 {
        seq![]
    } else if parts.len() == 1 {
        parts[0]
    } else {
        join_with(parts.drop_last(), sep) + sep + parts.last()
    }
}

proof fn lemma_insert_at_bounds(s: Seq<Seq<char>>, x: Seq<char>)
    ensures
        0 <= insert_at(s, x) <= s.len(),
    decreases s.len(),
{
    if s.len() > 0 && seq_lt(s[0], x) {
        lemma_insert_at_bounds(s.drop_first(), x);
    }
}

/// Sorts texts as [`sort_texts`] says.
fn sorted_texts(parts: &Vec<String>) -> (r: Vec<String>)
    ensures
        texts(r@) == sort_texts(texts(parts@)),
{
    let mut out: Vec<String> = Vec::new();
    let mut i: usize = 0;
    while i < parts.len()
        invariant
            i <= parts@.len(),
            texts(out@) == sort_texts(texts(parts@).take(i as int)),
        decreases parts@.len() - i,
    {
        let x = parts[i].clone();
        let ghost s = texts(out@);
        let mut k: usize = 0;
        proof {
            assert(s.skip(0) =~= s);
            lemma_insert_at_bounds(s, x@);
        }
        while k < out.len() && str_lt(out[k].as_str(), x.as_str())
            invariant
                k <= out@.len(),
                s == texts(out@),
                insert_at(s, x@) == k + insert_at(s.skip(k as int), x@),
            decreases out@.len() - k,
        {
            assert(s.skip(k as int)[0] == out@[k as int]@);
            assert(s.skip(k as int).drop_first() =~= s.skip(k + 1));
            k = k + 1;
        }
        proof {
            if k < out@.len() {
                assert(s.skip(k as int)[0] == out@[k as int]@);
            } else {
                assert(s.skip(k as int).len() == 0);
            }
        }
        out.insert(k, x);
        proof {
            let t = texts(parts@).take(i + 1);
            assert(t.drop_last() =~= texts(parts@).take(i as int));
            assert(t.last() == x@);
            assert(texts(out@) =~= s.insert(k as int, x@));
        }
        i = i + 1;
    }
    assert(texts(parts@).take(parts@.len() as int) =~= texts(parts@));
    out
}

/// Joins texts as [`join_with`] says.
fn join_texts(parts: &Vec<String>, sep: &str) -> (r: String)
    ensures
        r@ == join_with(texts(parts@), sep@),
{
    let mut out = String::new();
    let mut i: usize = 0;
    while i < parts.len()
        invariant
            i <= parts@.len(),
            out@ == join_with(texts(parts@).take(i as int), sep@),
        decreases parts@.len() - i,
    {
        let ghost t = texts(parts@).take(i + 1);
        assert(t.drop_last() =~= texts(parts@).take(i as int));
        if i > 0 {
            push_str(&mut out, sep);
        } else {
            assert(out@.len() == 0);
        }
        push_str(&mut out, parts[i].as_str());
        proof {
            if i == 0 {
                assert(out@ =~= t[0]);
            }
        }
        i = i + 1;
    }
    assert(texts(parts@).take(parts@.len() as int) =~= texts(parts@));
    out
}

// ---------------------------------------------------------------- reading items

/// The text of a node with every whitespace run made one space.
pub open spec fn collapsed(t: Seq<char>) -> Seq<char> {
    join_spaced(words(t))
}

/// The bounds of an impl block from position `j` of its named children on:
/// each inline constrained type parameter and each `where` predicate,
/// collapsed.
pub open spec fn bound_parts_from(n: SyntaxNode, j: int) -> Seq<Seq<char>>
    decreases n.children@.len() - j,
{
    if j < 0 || j >= n.children@.len() {
        seq![]
    } else {
        let c = n.children@[j];
        let here = if !c.named {
            seq![]
        } else if c.kind@ == "type_parameters"@ {
            kind_texts(c.children@, "constrained_type_parameter"@, 0)
        } else if c.kind@ == "where_clause"@ {
            kind_texts(c.children@, "where_predicate"@, 0)
        } else {
            seq![]
        };
        here + bound_parts_from(n, j + 1)
    }
}

/// The collapsed texts of the named nodes of kind `k` from position `j` on.
pub open spec fn kind_texts(ch: Seq<SyntaxNode>, k: Seq<char>, j: int) -> Seq<Seq<char>>
    decreases ch.len() - j,
{
    if j < 0 || j >= ch.len() {
        seq![]
    } else {
        (if ch[j].named && ch[j].kind@ == k {
            seq![collapsed(ch[j].text@)]
        } else {
            seq![]
        }) + kind_texts(ch, k, j + 1)
    }
}

/// An impl block's bounds, sorted and joined with `;`, compared as text.
pub open spec fn normalized_bounds_of(n: SyntaxNode) -> Seq<char> {
    join_with(sort_texts(bound_parts_from(n, 0)), ";"@)
}

/// Appends the collapsed texts of the named nodes of kind `k`.
fn push_kind_texts(ch: &Vec<SyntaxNode>, k: &str, out: &mut Vec<String>)
    ensures
        texts(final(out)@) == texts(old(out)@) + kind_texts(ch@, k@, 0),
{
    let mut j: usize = 0;
    let ghost start = texts(out@);
    while j < ch.len()
        invariant
            j <= ch@.len(),
            texts(out@) + kind_texts(ch@, k@, j as int) == start + kind_texts(ch@, k@, 0),
        decreases ch@.len() - j,
    {
        let ghost before = texts(out@);
        if ch[j].named && str_eq(ch[j].kind.as_str(), k) {
            let t = collapse_whitespace(ch[j].text.as_str());
            out.push(t);
            assert(texts(out@) =~= before + seq![collapsed(ch@[j as int].text@)]);
        }
        assert(texts(out@) + kind_texts(ch@, k@, j + 1) =~= before + kind_texts(ch@, k@, j as int));
        j = j + 1;
    }
    assert(texts(out@) =~= texts(out@) + kind_texts(ch@, k@, j as int));
}

/// Computes [`normalized_bounds_of`].
pub fn normalized_bounds(impl_node: &SyntaxNode) -> (r: String)
    ensures
        r@ == normalized_bounds_of(*impl_node),
{
    let mut parts: Vec<String> = Vec::new();
    let mut j: usize = 0;
    while j < impl_node.children.len()
        invariant
            j <= impl_node.children@.len(),
            texts(parts@) + bound_parts_from(*impl_node, j as int) == bound_parts_from(*impl_node, 0),
        decreases impl_node.children@.len() - j,
    {
        let ghost before = texts(parts@);
        let c = &impl_node.children[j];
        if c.named {
            if str_eq(c.kind.as_str(), "type_parameters") {
                push_kind_texts(&c.children, "constrained_type_parameter", &mut parts);
            } else if str_eq(c.kind.as_str(), "where_clause") {
                push_kind_texts(&c.children, "where_predicate", &mut parts);
            }
        }
        assert(texts(parts@) + bound_parts_from(*impl_node, j + 1) =~= before + bound_parts_from(
            *impl_node,
            j as int,
        ));
        j = j + 1;
    }
    assert(texts(parts@) =~= texts(parts@) + bound_parts_from(*impl_node, j as int));
    let sorted = sorted_texts(&parts);
    join_texts(&sorted, ";")
}

/// How the first parameter of a method binds its receiver; none for an
/// associated function.
pub open spec fn receiver_kind_of(params: SyntaxNode) -> Option<ReceiverKind> {
    match first_named_from(params.children@, 0) {
        None => None,
        Some(i) => {
            let first = params.children@[i];
            if first.kind@ == "self_parameter"@ {
                if contains_text(first.text@, "&mut"@) {
                    Some(ReceiverKind::RefMut)
                } else if first.text@.len() > 0 && first.text@[0] == '&' {
                    Some(ReceiverKind::RefShared)
                } else {
                    Some(ReceiverKind::Value)
                }
            } else if first.kind@ == "parameter"@ {
                match field_index(first.children@, "pattern"@) {
                    Some(p) => if first.children@[p].kind@ == "self"@ {
                        Some(ReceiverKind::Unrecognized)
                    } else {
                        None
                    },
                    None => None,
                }
            } else {
                None
            }
        },
    }
}

/// Computes [`receiver_kind_of`].
pub fn receiver_kind_of_parameters(params: &SyntaxNode) -> (r: Option<ReceiverKind>)
    ensures
        r == receiver_kind_of(*params),
{
    proof {
        lemma_first_named_from(params.children@, 0);
    }
    let mut i: usize = 0;
    while i < params.children.len() && !params.children[i].named
        invariant
            i <= params.children@.len(),
            first_named_from(params.children@, 0) == first_named_from(params.children@, i as int),
        decreases params.children@.len() - i,
    {
        i = i + 1;
    }
    if i == params.children.len() {
        return None;
    }
    let first = &params.children[i];
    if str_eq(first.kind.as_str(), "self_parameter") {
        let cs = chars_of(first.text.as_str());
        if contains_chars(&cs, &chars_of("&mut")) {
            Some(ReceiverKind::RefMut)
        } else if cs.len() > 0 && cs[0] == '&' {
            Some(ReceiverKind::RefShared)
        } else {
            Some(ReceiverKind::Value)
        }
    } else if str_eq(first.kind.as_str(), "parameter") {
        proof {
            lemma_field_index(first.children@, "pattern"@);
        }
        match first.field_position("pattern") {
            Some(p) => if str_eq(first.children[p].kind.as_str(), "self") {
                Some(ReceiverKind::Unrecognized)
            } else {
                None
            },
            None => None,
        }
    } else {
        None
    }
}

/// The names of the type parameters of `n`'s `type_parameters` field:
/// plain ones, and the left side of those whose kind is listed.
pub open spec fn param_names_from(ch: Seq<SyntaxNode>, with_optional: bool, j: int) -> Seq<Seq<char>>
    decreases ch.len() - j,
{
    if j < 0 || j >= ch.len() {
        seq![]
    } else {
        let c = ch[j];
        let here = if !c.named {
            seq![]
        } else if c.kind@ == "type_identifier"@ {
            seq![c.text@]
        } else if c.kind@ == "constrained_type_parameter"@ || (with_optional && c.kind@
            == "optional_type_parameter"@) {
            match field_text(c, "left"@) {
                Some(t) => seq![t],
                None => seq![],
            }
        } else {
            seq![]
        };
        here + param_names_from(ch, with_optional, j + 1)
    }
}

/// The type parameter names declared by `n`.
pub open spec fn type_param_names(n: SyntaxNode, with_optional: bool) -> Seq<Seq<char>> {
    match field_index(n.children@, "type_parameters"@) {
        Some(t) => param_names_from(n.children@[t].children@, with_optional, 0),
        None => seq![],
    }
}

/// Collects [`type_param_names`].
fn type_param_names_of(n: &SyntaxNode, with_optional: bool) -> (r: Vec<String>)
    ensures
        texts(r@) == type_param_names(*n, with_optional),
{
    let mut out: Vec<String> = Vec::new();
    proof {
        lemma_field_index(n.children@, "type_parameters"@);
    }
    match n.field_position("type_parameters") {
        None => {
            assert(texts(out@) =~= Seq::<Seq<char>>::empty());
        },
        Some(t) => {
            let ch = &n.children[t].children;
            let mut j: usize = 0;
            while j < ch.len()
                invariant
                    j <= ch@.len(),
                    texts(out@) + param_names_from(ch@, with_optional, j as int) == param_names_from(
                        ch@,
                        with_optional,
                        0,
                    ),
                decreases ch@.len() - j,
            {
                let ghost before = texts(out@);
                let c = &ch[j];
                if c.named {
                    let k = c.kind.as_str();
                    if str_eq(k, "type_identifier") {
                        out.push(c.text.clone());
                    } else if str_eq(k, "constrained_type_parameter") || (with_optional && str_eq(
                        k,
                        "optional_type_parameter",
                    )) {
                        match field_text_of(c, "left") {
                            Some(t) => out.push(t.clone()),
                            None => {},
                        }
                    }
                }
                assert(texts(out@) + param_names_from(ch@, with_optional, j + 1) =~= before + param_names_from(
                    ch@,
                    with_optional,
                    j as int,
                ));
                j = j + 1;
            }
            assert(texts(out@) =~= texts(out@) + param_names_from(ch@, with_optional, j as int));
        },
    }
    out
}

/// The position of the first `<` or space.
pub open spec fn head_stop(t: Seq<char>) -> int
    decreases t.len(),
{
    if t.len() == 0 || t[0] == '<' || t[0] == ' ' {
        0
    } else {
        1 + head_stop(t.drop_first())
    }
}

proof fn lemma_head_stop(t: Seq<char>)
    ensures
        0 <= head_stop(t) <= t.len(),
        forall|i: int| 0 <= i < head_stop(t) ==> t[i] != '<' && t[i] != ' ',
        head_stop(t) < t.len() ==> t[head_stop(t)] == '<' || t[head_stop(t)] == ' ',
    decreases t.len(),
{
    if t.len() > 0 && t[0] != '<' && t[0] != ' ' {
        lemma_head_stop(t.drop_first());
        assert forall|i: int| 1 <= i < head_stop(t) implies t[i] != '<' && t[i] != ' ' by {
            assert(t[i] == t.drop_first()[i - 1]);
        }
    }
}

/// The bare name of an impl's self type and whether the impl is a blanket
/// impl over one of its own type parameters.
pub open spec fn impl_type_name_of(n: SyntaxNode) -> Option<(Seq<char>, bool)> {
    match field_index(n.children@, "type"@) {
        None => None,
        Some(t) => {
            let ty = n.children@[t];
            let bare = trim(last_segment_of(ty.text@.take(head_stop(ty.text@))));
            Some((bare, ty.kind@ == "type_identifier"@ && type_param_names(n, false).contains(bare)))
        },
    }
}

/// Whether `v` holds `x`.
fn texts_contain(v: &Vec<String>, x: &str) -> (r: bool)
    ensures
        r == texts(v@).contains(x@),
{
    let mut i: usize = 0;
    while i < v.len()
        invariant
            i <= v@.len(),
            forall|j: int| 0 <= j < i ==> texts(v@)[j] != x@,
        decreases v@.len() - i,
    {
        if str_eq(v[i].as_str(), x) {
            assert(texts(v@)[i as int] == x@);
            return true;
        }
        i = i + 1;
    }
    false
}

/// Computes [`impl_type_name_of`].
pub fn impl_type_name(impl_node: &SyntaxNode) -> (r: Option<(String, bool)>)
    ensures
        match r {
            Some((name, blanket)) => impl_type_name_of(*impl_node) == Some((name@, blanket)),
            None => impl_type_name_of(*impl_node) is None,
        },
{
    proof {
        lemma_field_index(impl_node.children@, "type"@);
    }
    let t = match impl_node.field_position("type") {
        Some(t) => t,
        None => return None,
    };
    let ty = &impl_node.children[t];
    let cs = chars_of(ty.text.as_str());
    proof {
        lemma_head_stop(cs@);
        assert(cs@.skip(0) =~= cs@);
    }
    let mut k: usize = 0;
    while k < cs.len() && cs[k] != '<' && cs[k] != ' '
        invariant
            k <= cs@.len(),
            head_stop(cs@) == k + head_stop(cs@.skip(k as int)),
        decreases cs@.len() - k,
    {
        assert(cs@.skip(k as int)[0] == cs@[k as int]);
        assert(cs@.skip(k as int).drop_first() =~= cs@.skip(k + 1));
        k = k + 1;
    }
    proof {
        if k < cs@.len() {
            assert(cs@.skip(k as int)[0] == cs@[k as int]);
        }
    }
    let head = string_of(&cs.as_slice()[0..k]);
    assert(head@ =~= cs@.take(k as int));
    let bare = last_ident(head.as_str());
    let names = type_param_names_of(impl_node, false);
    let blanket = str_eq(ty.kind.as_str(), "type_identifier") && texts_contain(&names, bare.as_str());
    Some((bare, blanket))
}

/// The first position of `c` in `t`.
pub open spec fn first_pos(t: Seq<char>, c: char) -> Option<int>
    decreases t.len(),
{
    if t.len() == 0 {
        None
    } else if t[0] == c {
        Some(0)
    } else {
        match first_pos(t.drop_first(), c) {
            Some(i) => Some(i + 1),
            None => None,
        }
    }
}

/// The last position of `c` in `t`.
pub open spec fn last_pos_of(t: Seq<char>, c: char) -> Option<int>
    decreases t.len(),
{
    if t.len() == 0 {
        None
    } else if t.last() == c {
        Some(t.len() - 1)
    } else {
        last_pos_of(t.drop_last(), c)
    }
}

proof fn lemma_first_pos(t: Seq<char>, c: char)
    ensures
        match first_pos(t, c) {
            Some(i) => 0 <= i < t.len() && t[i] == c && forall|j: int| 0 <= j < i ==> t[j] != c,
            None => forall|j: int| 0 <= j < t.len() ==> t[j] != c,
        },
    decreases t.len(),
{
    if t.len() > 0 && t[0] != c {
        lemma_first_pos(t.drop_first(), c);
        assert forall|j: int| 1 <= j < t.len() implies t[j] == t.drop_first()[j - 1] by {}
    }
}

proof fn lemma_last_pos(t: Seq<char>, c: char)
    ensures
        match last_pos_of(t, c) {
            Some(i) => 0 <= i < t.len() && t[i] == c && forall|j: int| i < j < t.len() ==> t[j] != c,
            None => forall|j: int| 0 <= j < t.len() ==> t[j] != c,
        },
    decreases t.len(),
{
    if t.len() > 0 && t.last() != c {
        lemma_last_pos(t.drop_last(), c);
        assert forall|j: int| 0 <= j < t.len() - 1 implies t[j] == t.drop_last()[j] by {}
    }
}

/// The impl's type parameters cover every argument of its self type
/// (`impl<N, E> Graph<N, E>`, not `impl<N> Graph<N, Directed>`); true when
/// the self type has no angle-bracketed arguments. The arguments are the
/// text between the first `<` and the last `>` (none when the last `>`
/// comes first), split at commas and trimmed.
pub open spec fn generic_over_all(n: SyntaxNode) -> bool {
    match field_index(n.children@, "type"@) {
        None => false,
        Some(t) => match angle_args(n.children@[t].text@) {
            Some(args) => forall|i: int|
                0 <= i < split_on(args, ',').len() ==> type_param_names(n, true).contains(
                    trim(#[trigger] split_on(args, ',')[i]),
                ),
            None => true,
        },
    }
}

/// The text between the first `<` and the last `>` (empty when the last
/// `>` comes first); none without both.
pub open spec fn angle_args(text: Seq<char>) -> Option<Seq<char>> {
    match (first_pos(text, '<'), last_pos_of(text, '>')) {
        (Some(a), Some(b)) => Some(
            if a + 1 <= b {
                text.subrange(a + 1, b)
            } else {
                seq![]
            },
        ),
        _ => None,
    }
}

/// Computes [`generic_over_all`].
#[verifier::loop_isolation(false)]
pub fn generic_over_all_params(impl_node: &SyntaxNode) -> (r: bool)
    ensures
        r == generic_over_all(*impl_node),
{
    proof {
        lemma_field_index(impl_node.children@, "type"@);
    }
    let t = match impl_node.field_position("type") {
        Some(t) => t,
        None => return false,
    };
    let cs = chars_of(impl_node.children[t].text.as_str());
    proof {
        lemma_first_pos(cs@, '<');
        lemma_last_pos(cs@, '>');
    }
    let mut a: usize = 0;
    while a < cs.len() && cs[a] != '<'
        invariant
            a <= cs@.len(),
            forall|j: int| 0 <= j < a ==> cs@[j] != '<',
        decreases cs@.len() - a,
    {
        a = a + 1;
    }
    if a == cs.len() {
        return true;
    }
    assert(first_pos(cs@, '<') == Some(a as int)) by {
        match first_pos(cs@, '<') {
            Some(i) => {
                assert(!(i < a));
                assert(!(a < i));
            },
            None => {},
        }
    }
    let mut b: usize = cs.len();
    while b > 0 && cs[b - 1] != '>'
        invariant
            b <= cs@.len(),
            forall|j: int| b <= j < cs@.len() ==> cs@[j] != '>',
        decreases b,
    {
        b = b - 1;
    }
    if b == 0 {
        return true;
    }
    let e = b - 1;
    assert(last_pos_of(cs@, '>') == Some(e as int)) by {
        match last_pos_of(cs@, '>') {
            Some(i) => {
                assert(!(i < e));
                assert(!(e < i));
            },
            None => {},
        }
    }
    let args = if a + 1 <= e {
        let v = string_of(&cs.as_slice()[a + 1..e]);
        assert(v@ =~= cs@.subrange(a + 1, e as int));
        v
    } else {
        String::new()
    };
    let ghost text = impl_node.children@[t as int].text@;
    let ghost sargs: Seq<char> = angle_args(text)->Some_0;
    assert(args@ == sargs);
    let targets = split_text(args.as_str(), ',');
    let names = type_param_names_of(impl_node, true);
    let mut i: usize = 0;
    while i < targets.len()
        invariant
            i <= targets@.len(),
            texts(targets@) == split_on(args@, ','),
            texts(names@) == type_param_names(*impl_node, true),
            forall|j: int| 0 <= j < i ==> texts(names@).contains(trim(#[trigger] texts(targets@)[j])),
        decreases targets@.len() - i,
    {
        let tt = trim_chars(&chars_of(targets[i].as_str()));
        if !texts_contain(&names, tt.as_str()) {
            assert(texts(targets@)[i as int] == targets@[i as int]@);
            assert(!type_param_names(*impl_node, true).contains(trim(split_on(sargs, ',')[i as int])));
            return false;
        }
        assert(texts(targets@)[i as int] == targets@[i as int]@);
        i = i + 1;
    }
    true
}

/// A method item whose first token is a plain `pub`.
pub open spec fn plain_pub(item: SyntaxNode) -> bool {
    item.children@.len() > 0 && item.children@[0].kind@ == "visibility_modifier"@ && trim(item.children@[0].text@)
        == "pub"@
}

fn is_plain_pub(item: &SyntaxNode) -> (r: bool)
    ensures
        r == plain_pub(*item),
{
    item.children.len() > 0 && str_eq(item.children[0].kind.as_str(), "visibility_modifier") && str_eq(
        trim_chars(&chars_of(item.children[0].text.as_str())).as_str(),
        "pub",
    )
}

/// A node of the file's semantic graph, as the call rules read it: whether
/// it is a function, its byte range, and its id.
#[derive(Debug, Clone, Copy)]
pub struct FileNode {
    pub is_function: bool,
    pub start: usize,
    pub end: usize,
    pub id: u64,
}

/// The id of the first function node spanning exactly `start..end`.
pub open spec fn function_id_at(nodes: Seq<FileNode>, start: usize, end: usize) -> Option<u64>
    decreases nodes.len(),
{
    if nodes.len() == 0 {
        None
    } else if nodes[0].is_function && nodes[0].start == start && nodes[0].end == end {
        Some(nodes[0].id)
    } else {
        function_id_at(nodes.drop_first(), start, end)
    }
}

fn function_id_of(nodes: &[FileNode], start: usize, end: usize) -> (r: Option<u64>)
    ensures
        r == function_id_at(nodes@, start, end),
{
    let mut i: usize = 0;
    assert(nodes@.skip(0) =~= nodes@);
    while i < nodes.len()
        invariant
            i <= nodes@.len(),
            function_id_at(nodes@, start, end) == function_id_at(nodes@.skip(i as int), start, end),
        decreases nodes@.len() - i,
    {
        assert(nodes@.skip(i as int)[0] == nodes@[i as int]);
        assert(nodes@.skip(i as int).drop_first() =~= nodes@.skip(i + 1));
        if nodes[i].is_function && nodes[i].start == start && nodes[i].end == end {
            return Some(nodes[i].id);
        }
        i = i + 1;
    }
    None
}

// ---------------------------------------------------------------- facts of a walk

/// What `at` reads from each entry of a walk from position `i` on, in
/// order.
pub open spec fn gather<T>(s: Seq<(SyntaxNode, NodeContext)>, at: spec_fn(SyntaxNode, NodeContext) -> Seq<T>, i: int) -> Seq<T>
    decreases s.len() - i,
{
    if i < 0 || i >= s.len() {
        seq![]
    } else {
        at(s[i].0, s[i].1) + gather(s, at, i + 1)
    }
}

/// Some inner attribute of the file is a `cfg` attribute.
pub open spec fn file_inner_cfg(s: Seq<(SyntaxNode, NodeContext)>) -> bool {
    exists|i: int|
        0 <= i < s.len() && (#[trigger] s[i]).0.kind@ == "inner_attribute_item"@ && cfg_attribute(s[i].0.text@)
}

/// Decides [`file_inner_cfg`].
fn has_inner_cfg(syntax: &Vec<(&SyntaxNode, NodeContext)>) -> (r: bool)
    ensures
        r == file_inner_cfg(walked(syntax@)),
{
    let ghost s = walked(syntax@);
    let mut i: usize = 0;
    while i < syntax.len()
        invariant
            i <= syntax@.len(),
            s == walked(syntax@),
            forall|j: int|
                0 <= j < i ==> !((#[trigger] s[j]).0.kind@ == "inner_attribute_item"@ && cfg_attribute(s[j].0.text@)),
        decreases syntax@.len() - i,
    {
        let n = syntax[i].0;
        assert(s[i as int].0 == *n);
        if str_eq(n.kind.as_str(), "inner_attribute_item") && is_cfg_attr_text(n.text.as_str()) {
            return true;
        }
        i = i + 1;
    }
    false
}

/// Gated by `cfg`: the file, the node's own attributes, or an enclosing
/// inline module.
pub open spec fn gated(c: NodeContext, file_cfg: bool) -> bool {
    file_cfg || c.cfg_attr || c.mod_cfg
}

/// The kinds of type-namespace items.
pub open spec fn type_item_kind(k: Seq<char>) -> bool {
    k == "struct_item"@ || k == "enum_item"@ || k == "union_item"@ || k == "trait_item"@ || k == "type_item"@
}

/// The type item a node defines, as (name, gated).
pub open spec fn type_items_at(n: SyntaxNode, c: NodeContext, file_cfg: bool) -> Seq<(Seq<char>, bool)> {
    if type_item_kind(n.kind@) {
        match field_text(n, "name"@) {
            Some(t) => seq![(t, gated(c, file_cfg))],
            None => seq![],
        }
    } else {
        seq![]
    }
}

/// Reads [`type_items_at`] from each entry of a walk.
pub open spec fn type_items_reader(file_cfg: bool) -> spec_fn(SyntaxNode, NodeContext) -> Seq<(Seq<char>, bool)> {
    |n: SyntaxNode, c: NodeContext| type_items_at(n, c, file_cfg)
}

/// Type item facts as plain values.
pub open spec fn type_item_views(v: Seq<TypeItemFact>) -> Seq<(Seq<char>, bool)> {
    v.map_values(|x: TypeItemFact| (x.name@, x.cfg_gated))
}

/// The type items of a walk.
fn type_items_of(syntax: &Vec<(&SyntaxNode, NodeContext)>, file_cfg: bool) -> (r: Vec<TypeItemFact>)
    ensures
        type_item_views(r@) == gather(walked(syntax@), type_items_reader(file_cfg), 0),
{
    let ghost s = walked(syntax@);
    let ghost at = type_items_reader(file_cfg);
    let mut out: Vec<TypeItemFact> = Vec::new();
    let mut i: usize = 0;
    while i < syntax.len()
        invariant
            i <= syntax@.len(),
            s == walked(syntax@),
            at == type_items_reader(file_cfg),
            type_item_views(out@) + gather(s, at, i as int) == gather(s, at, 0),
        decreases syntax@.len() - i,
    {
        let ghost before = type_item_views(out@);
        let (n, c) = syntax[i];
        assert(s[i as int] == (*n, c));
        proof {
            lemma_field_index(n.children@, "name"@);
        }
        let k = n.kind.as_str();
        if str_eq(k, "struct_item") || str_eq(k, "enum_item") || str_eq(k, "union_item") || str_eq(k, "trait_item")
            || str_eq(k, "type_item") {
            match field_text_of(n, "name") {
                Some(t) => {
                    out.push(TypeItemFact { name: t.clone(), cfg_gated: file_cfg || c.cfg_attr || c.mod_cfg });
                },
                None => {},
            }
        }
        assert(gather(s, at, i as int) == at(s[i as int].0, s[i as int].1) + gather(s, at, i + 1));
        assert(type_item_views(out@) =~= before + at(*n, c));
        assert(type_item_views(out@) + gather(s, at, i + 1) =~= before + gather(s, at, i as int));
        i = i + 1;
    }
    assert(type_item_views(out@) =~= type_item_views(out@) + gather(s, at, i as int));
    out
}

/// The `mod` declaration a node makes, as (name, gated, has a path
/// attribute, scope).
pub open spec fn mod_decls_at(n: SyntaxNode, c: NodeContext) -> Seq<(Seq<char>, bool, bool, u64)> {
    if n.kind@ == "mod_item"@ {
        match field_text(n, "name"@) {
            Some(t) => seq![(t, c.cfg_attr, c.path_attr, c.scope)],
            None => seq![],
        }
    } else {
        seq![]
    }
}

/// Reads [`mod_decls_at`] from each entry of a walk.
pub open spec fn mod_decls_reader() -> spec_fn(SyntaxNode, NodeContext) -> Seq<(Seq<char>, bool, bool, u64)> {
    |n: SyntaxNode, c: NodeContext| mod_decls_at(n, c)
}

/// Module declaration facts as plain values.
pub open spec fn mod_views(v: Seq<ModDeclFact>) -> Seq<(Seq<char>, bool, bool, u64)> {
    v.map_values(|x: ModDeclFact| (x.name@, x.cfg_gated, x.has_path_attr, x.scope))
}

/// The `mod` declarations of a walk.
fn mod_decls_of(syntax: &Vec<(&SyntaxNode, NodeContext)>) -> (r: Vec<ModDeclFact>)
    ensures
        mod_views(r@) == gather(walked(syntax@), mod_decls_reader(), 0),
{
    let ghost s = walked(syntax@);
    let ghost at = mod_decls_reader();
    let mut out: Vec<ModDeclFact> = Vec::new();
    let mut i: usize = 0;
    while i < syntax.len()
        invariant
            i <= syntax@.len(),
            s == walked(syntax@),
            at == mod_decls_reader(),
            mod_views(out@) + gather(s, at, i as int) == gather(s, at, 0),
        decreases syntax@.len() - i,
    {
        let ghost before = mod_views(out@);
        let (n, c) = syntax[i];
        assert(s[i as int] == (*n, c));
        proof {
            lemma_field_index(n.children@, "name"@);
        }
        if str_eq(n.kind.as_str(), "mod_item") {
            match field_text_of(n, "name") {
                Some(t) => {
                    out.push(
                        ModDeclFact { name: t.clone(), cfg_gated: c.cfg_attr, has_path_attr: c.path_attr, scope: c.scope },
                    );
                },
                None => {},
            }
        }
        assert(gather(s, at, i as int) == at(s[i as int].0, s[i as int].1) + gather(s, at, i + 1));
        assert(mod_views(out@) =~= before + at(*n, c));
        assert(mod_views(out@) + gather(s, at, i + 1) =~= before + gather(s, at, i as int));
        i = i + 1;
    }
    assert(mod_views(out@) =~= mod_views(out@) + gather(s, at, i as int));
    out
}

/// The trait an impl block implements, by its last path segment.
pub open spec fn impl_trait_name(n: SyntaxNode) -> Option<Seq<char>> {
    match field_text(n, "trait"@) {
        Some(t) => Some(trim(last_segment_of(t))),
        None => None,
    }
}

/// The trait impl a node is, as (trait, self type unless blanket, bounds,
/// gated).
pub open spec fn trait_impls_at(n: SyntaxNode, c: NodeContext, file_cfg: bool) -> Seq<
    (Seq<char>, Option<Seq<char>>, Seq<char>, bool),
> {
    if n.kind@ == "impl_item"@ {
        match (impl_type_name_of(n), impl_trait_name(n)) {
            (Some((t, blanket)), Some(tr)) => seq![
                (
                    tr,
                    if blanket {
                        None
                    } else {
                        Some(t)
                    },
                    normalized_bounds_of(n),
                    gated(c, file_cfg),
                ),
            ],
            _ => seq![],
        }
    } else {
        seq![]
    }
}

/// Reads [`trait_impls_at`] from each entry of a walk.
pub open spec fn trait_impls_reader(file_cfg: bool) -> spec_fn(SyntaxNode, NodeContext) -> Seq<
    (Seq<char>, Option<Seq<char>>, Seq<char>, bool),
> {
    |n: SyntaxNode, c: NodeContext| trait_impls_at(n, c, file_cfg)
}

/// Trait impl facts as plain values.
pub open spec fn trait_impl_views(v: Seq<TraitImplFact>) -> Seq<(Seq<char>, Option<Seq<char>>, Seq<char>, bool)> {
    v.map_values(
        |x: TraitImplFact|
            (
                x.trait_name@,
                match x.self_type {
                    Some(t) => Some(t@),
                    None => None,
                },
                x.bounds@,
                x.cfg_gated,
            ),
    )
}

/// The `Deref` impl a node is, by its self type.
pub open spec fn deref_impls_at(n: SyntaxNode, c: NodeContext) -> Seq<Seq<char>> {
    if n.kind@ == "impl_item"@ {
        match (impl_type_name_of(n), impl_trait_name(n)) {
            (Some((t, blanket)), Some(tr)) => if (tr == "Deref"@ || tr == "DerefMut"@) && !blanket {
                seq![t]
            } else {
                seq![]
            },
            _ => seq![],
        }
    } else {
        seq![]
    }
}

/// Reads [`deref_impls_at`] from each entry of a walk.
pub open spec fn deref_impls_reader() -> spec_fn(SyntaxNode, NodeContext) -> Seq<Seq<char>> {
    |n: SyntaxNode, c: NodeContext| deref_impls_at(n, c)
}

/// `Deref` impl facts as plain values.
pub open spec fn deref_views(v: Seq<DerefImplFact>) -> Seq<Seq<char>> {
    v.map_values(|x: DerefImplFact| x.self_type@)
}

/// The trait impls and `Deref` impls of a walk.
fn trait_impls_of(syntax: &Vec<(&SyntaxNode, NodeContext)>, file_cfg: bool) -> (r: (Vec<TraitImplFact>, Vec<DerefImplFact>))
    ensures
        trait_impl_views(r.0@) == gather(walked(syntax@), trait_impls_reader(file_cfg), 0),
        deref_views(r.1@) == gather(walked(syntax@), deref_impls_reader(), 0),
{
    let ghost s = walked(syntax@);
    let ghost at = trait_impls_reader(file_cfg);
    let ghost dat = deref_impls_reader();
    let mut out: Vec<TraitImplFact> = Vec::new();
    let mut derefs: Vec<DerefImplFact> = Vec::new();
    let mut i: usize = 0;
    while i < syntax.len()
        invariant
            i <= syntax@.len(),
            s == walked(syntax@),
            at == trait_impls_reader(file_cfg),
            dat == deref_impls_reader(),
            trait_impl_views(out@) + gather(s, at, i as int) == gather(s, at, 0),
            deref_views(derefs@) + gather(s, dat, i as int) == gather(s, dat, 0),
        decreases syntax@.len() - i,
    {
        let ghost before = trait_impl_views(out@);
        let ghost dbefore = deref_views(derefs@);
        let (n, c) = syntax[i];
        assert(s[i as int] == (*n, c));
        proof {
            lemma_field_index(n.children@, "trait"@);
        }
        if str_eq(n.kind.as_str(), "impl_item") {
            match (impl_type_name(n), field_text_of(n, "trait")) {
                (Some((t, blanket)), Some(tr)) => {
                    let trait_name = last_ident(tr.as_str());
                    if (str_eq(trait_name.as_str(), "Deref") || str_eq(trait_name.as_str(), "DerefMut")) && !blanket {
                        derefs.push(DerefImplFact { self_type: t.clone() });
                    }
                    let bounds = normalized_bounds(n);
                    let self_type = if blanket {
                        None
                    } else {
                        Some(t)
                    };
                    out.push(
                        TraitImplFact {
                            trait_name,
                            self_type,
                            bounds,
                            cfg_gated: file_cfg || c.cfg_attr || c.mod_cfg,
                        },
                    );
                },
                _ => {},
            }
        }
        assert(gather(s, at, i as int) == at(s[i as int].0, s[i as int].1) + gather(s, at, i + 1));
        assert(gather(s, dat, i as int) == dat(s[i as int].0, s[i as int].1) + gather(s, dat, i + 1));
        assert(trait_impl_views(out@) =~= before + at(*n, c));
        assert(deref_views(derefs@) =~= dbefore + dat(*n, c));
        assert(trait_impl_views(out@) + gather(s, at, i + 1) =~= before + gather(s, at, i as int));
        assert(deref_views(derefs@) + gather(s, dat, i + 1) =~= dbefore + gather(s, dat, i as int));
        i = i + 1;
    }
    assert(trait_impl_views(out@) =~= trait_impl_views(out@) + gather(s, at, i as int));
    assert(deref_views(derefs@) =~= deref_views(derefs@) + gather(s, dat, i as int));
    (out, derefs)
}

/// An inherent method as plain values.
pub struct InherentView {
    pub self_type: Seq<char>,
    pub method_name: Seq<char>,
    pub receiver: ReceiverKind,
    pub is_pub: bool,
    pub bounds: Seq<char>,
    pub generic_over_all_type_params: bool,
    pub cfg_gated: bool,
    pub target_id: Option<u64>,
    pub file: Seq<char>,
}

/// Inherent method facts as plain values.
pub open spec fn inherent_views(v: Seq<InherentMethodFact>) -> Seq<InherentView> {
    v.map_values(
        |x: InherentMethodFact|
            InherentView {
                self_type: x.self_type@,
                method_name: x.method_name@,
                receiver: x.receiver,
                is_pub: x.is_pub,
                bounds: x.bounds@,
                generic_over_all_type_params: x.generic_over_all_type_params,
                cfg_gated: x.cfg_gated,
                target_id: x.target_id,
                file: x.file@,
            },
    )
}

/// The methods of an inherent impl's body from position `j` on: each
/// function item with a receiver parameter and a name.
pub open spec fn methods_in(
    body: SyntaxNode,
    j: int,
    proto: InherentView,
    nodes: Seq<FileNode>,
) -> Seq<InherentView>
    decreases body.children@.len() - j,
{
    if j < 0 || j >= body.children@.len() {
        seq![]
    } else {
        let item = body.children@[j];
        let here = if item.named && item.kind@ == "function_item"@ {
            match field_index(item.children@, "parameters"@) {
                Some(p) => match receiver_kind_of(item.children@[p]) {
                    Some(rk) => match field_text(item, "name"@) {
                        Some(name) => seq![
                            InherentView {
                                method_name: name,
                                receiver: rk,
                                is_pub: plain_pub(item),
                                target_id: function_id_at(nodes, item.start, item.end),
                                ..proto
                            },
                        ],
                        None => seq![],
                    },
                    None => seq![],
                },
                None => seq![],
            }
        } else {
            seq![]
        };
        here + methods_in(body, j + 1, proto, nodes)
    }
}

/// The inherent methods a node declares.
pub open spec fn inherent_methods_at(
    n: SyntaxNode,
    c: NodeContext,
    file_cfg: bool,
    nodes: Seq<FileNode>,
    file: Seq<char>,
) -> Seq<InherentView> {
    if n.kind@ == "impl_item"@ {
        match (impl_type_name_of(n), impl_trait_name(n), field_index(n.children@, "body"@)) {
            (Some((t, _)), None, Some(b)) => methods_in(
                n.children@[b],
                0,
                InherentView {
                    self_type: t,
                    method_name: seq![],
                    receiver: ReceiverKind::Unrecognized,
                    is_pub: false,
                    bounds: normalized_bounds_of(n),
                    generic_over_all_type_params: generic_over_all(n),
                    cfg_gated: gated(c, file_cfg),
                    target_id: None,
                    file,
                },
                nodes,
            ),
            _ => seq![],
        }
    } else {
        seq![]
    }
}

/// Reads [`inherent_methods_at`] from each entry of a walk.
pub open spec fn inherent_reader(file_cfg: bool, nodes: Seq<FileNode>, file: Seq<char>) -> spec_fn(
    SyntaxNode,
    NodeContext,
) -> Seq<InherentView> {
    |n: SyntaxNode, c: NodeContext| inherent_methods_at(n, c, file_cfg, nodes, file)
}

/// Appends the methods of an inherent impl's body, as [`methods_in`] says.
#[verifier::loop_isolation(false)]
fn push_methods(
    body: &SyntaxNode,
    self_type: &String,
    bounds: &String,
    generic_ok: bool,
    cfg_gated: bool,
    nodes: &[FileNode],
    file: &str,
    out: &mut Vec<InherentMethodFact>,
)
    ensures
        inherent_views(final(out)@) == inherent_views(old(out)@) + methods_in(
            *body,
            0,
            InherentView {
                self_type: self_type@,
                method_name: seq![],
                receiver: ReceiverKind::Unrecognized,
                is_pub: false,
                bounds: bounds@,
                generic_over_all_type_params: generic_ok,
                cfg_gated,
                target_id: None,
                file: file@,
            },
            nodes@,
        ),
{
    let ghost proto = InherentView {
        self_type: self_type@,
        method_name: seq![],
        receiver: ReceiverKind::Unrecognized,
        is_pub: false,
        bounds: bounds@,
        generic_over_all_type_params: generic_ok,
        cfg_gated,
        target_id: None,
        file: file@,
    };
    let ghost start = inherent_views(out@);
    let mut j: usize = 0;
    while j < body.children.len()
        invariant
            j <= body.children@.len(),
            inherent_views(out@) + methods_in(*body, j as int, proto, nodes@) == start + methods_in(
                *body,
                0,
                proto,
                nodes@,
            ),
        decreases body.children@.len() - j,
    {
        let ghost before = inherent_views(out@);
        let item = &body.children[j];
        if item.named && str_eq(item.kind.as_str(), "function_item") {
            proof {
                lemma_field_index(item.children@, "parameters"@);
                lemma_field_index(item.children@, "name"@);
            }
            match item.field_position("parameters") {
                Some(p) => match receiver_kind_of_parameters(&item.children[p]) {
                    Some(rk) => match field_text_of(item, "name") {
                        Some(name) => {
                            let target_id = function_id_of(nodes, item.start, item.end);
                            let pb = is_plain_pub(item);
                            let ghost v = InherentView {
                                method_name: name@,
                                receiver: rk,
                                is_pub: pb,
                                target_id: target_id,
                                ..proto
                            };
                            assert(methods_in(*body, j as int, proto, nodes@) == seq![v] + methods_in(
                                *body,
                                j + 1,
                                proto,
                                nodes@,
                            ));
                            out.push(
                                InherentMethodFact {
                                    self_type: self_type.clone(),
                                    method_name: name.clone(),
                                    receiver: rk,
                                    is_pub: pb,
                                    bounds: bounds.clone(),
                                    generic_over_all_type_params: generic_ok,
                                    cfg_gated,
                                    target_id,
                                    file: file.to_owned(),
                                },
                            );
                            assert(inherent_views(out@) =~= before.push(v));
                        },
                        None => {},
                    },
                    None => {},
                },
                None => {},
            }
        }
        assert(inherent_views(out@) + methods_in(*body, j + 1, proto, nodes@) =~= before + methods_in(
            *body,
            j as int,
            proto,
            nodes@,
        ));
        j = j + 1;
    }
    assert(inherent_views(out@) =~= inherent_views(out@) + methods_in(*body, j as int, proto, nodes@));
}

/// The inherent methods of a walk.
fn inherent_methods_of(
    syntax: &Vec<(&SyntaxNode, NodeContext)>,
    file_cfg: bool,
    nodes: &[FileNode],
    file: &str,
) -> (r: Vec<InherentMethodFact>)
    ensures
        inherent_views(r@) == gather(walked(syntax@), inherent_reader(file_cfg, nodes@, file@), 0),
{
    let ghost s = walked(syntax@);
    let ghost at = inherent_reader(file_cfg, nodes@, file@);
    let mut out: Vec<InherentMethodFact> = Vec::new();
    let mut i: usize = 0;
    while i < syntax.len()
        invariant
            i <= syntax@.len(),
            s == walked(syntax@),
            at == inherent_reader(file_cfg, nodes@, file@),
            inherent_views(out@) + gather(s, at, i as int) == gather(s, at, 0),
        decreases syntax@.len() - i,
    {
        let ghost before = inherent_views(out@);
        let (n, c) = syntax[i];
        assert(s[i as int] == (*n, c));
        proof {
            lemma_field_index(n.children@, "trait"@);
            lemma_field_index(n.children@, "body"@);
        }
        if str_eq(n.kind.as_str(), "impl_item") {
            match (impl_type_name(n), field_text_of(n, "trait"), n.field_position("body")) {
                (Some((t, _)), None, Some(b)) => {
                    let bounds = normalized_bounds(n);
                    let generic_ok = generic_over_all_params(n);
                    push_methods(
                        &n.children[b],
                        &t,
                        &bounds,
                        generic_ok,
                        file_cfg || c.cfg_attr || c.mod_cfg,
                        nodes,
                        file,
                        &mut out,
                    );
                },
                _ => {},
            }
        }
        assert(gather(s, at, i as int) == at(s[i as int].0, s[i as int].1) + gather(s, at, i + 1));
        assert(inherent_views(out@) =~= before + at(*n, c));
        assert(inherent_views(out@) + gather(s, at, i + 1) =~= before + gather(s, at, i as int));
        i = i + 1;
    }
    assert(inherent_views(out@) =~= inherent_views(out@) + gather(s, at, i as int));
    out
}

// ---------------------------------------------------------------- trait declarations

/// The methods a trait's body declares from position `j` on, as (trait,
/// method, receiver, gated).
pub open spec fn decls_in(body: SyntaxNode, j: int, trait_name: Seq<char>, g: bool) -> Seq<
    (Seq<char>, Seq<char>, ReceiverKind, bool),
>
    decreases body.children@.len() - j,
{
    if j < 0 || j >= body.children@.len() {
        seq![]
    } else {
        let item = body.children@[j];
        let here = if item.named && (item.kind@ == "function_item"@ || item.kind@ == "function_signature_item"@) {
            match field_index(item.children@, "parameters"@) {
                Some(p) => match receiver_kind_of(item.children@[p]) {
                    Some(rk) => match field_text(item, "name"@) {
                        Some(name) => seq![(trait_name, name, rk, g)],
                        None => seq![],
                    },
                    None => seq![],
                },
                None => seq![],
            }
        } else {
            seq![]
        };
        here + decls_in(body, j + 1, trait_name, g)
    }
}

/// The method declarations of a trait item.
pub open spec fn trait_decls_at(n: SyntaxNode, c: NodeContext, file_cfg: bool) -> Seq<
    (Seq<char>, Seq<char>, ReceiverKind, bool),
> {
    if n.kind@ == "trait_item"@ {
        match (field_text(n, "name"@), field_index(n.children@, "body"@)) {
            (Some(tn), Some(b)) => decls_in(n.children@[b], 0, tn, gated(c, file_cfg)),
            _ => seq![],
        }
    } else {
        seq![]
    }
}

/// Reads [`trait_decls_at`] from each entry of a walk.
pub open spec fn trait_decls_reader(file_cfg: bool) -> spec_fn(SyntaxNode, NodeContext) -> Seq<
    (Seq<char>, Seq<char>, ReceiverKind, bool),
> {
    |n: SyntaxNode, c: NodeContext| trait_decls_at(n, c, file_cfg)
}

/// Trait method declaration facts as plain values.
pub open spec fn trait_decl_views(v: Seq<TraitMethodDeclFact>) -> Seq<(Seq<char>, Seq<char>, ReceiverKind, bool)> {
    v.map_values(|x: TraitMethodDeclFact| (x.trait_name@, x.method_name@, x.receiver, x.cfg_gated))
}

/// The trait method declarations of a walk.
#[verifier::loop_isolation(false)]
fn trait_decls_of(syntax: &Vec<(&SyntaxNode, NodeContext)>, file_cfg: bool) -> (r: Vec<TraitMethodDeclFact>)
    ensures
        trait_decl_views(r@) == gather(walked(syntax@), trait_decls_reader(file_cfg), 0),
{
    let ghost s = walked(syntax@);
    let ghost at = trait_decls_reader(file_cfg);
    let mut out: Vec<TraitMethodDeclFact> = Vec::new();
    let mut i: usize = 0;
    while i < syntax.len()
        invariant
            i <= syntax@.len(),
            trait_decl_views(out@) + gather(s, at, i as int) == gather(s, at, 0),
        decreases syntax@.len() - i,
    {
        let ghost before = trait_decl_views(out@);
        let (n, c) = syntax[i];
        assert(s[i as int] == (*n, c));
        proof {
            lemma_field_index(n.children@, "name"@);
            lemma_field_index(n.children@, "body"@);
        }
        if str_eq(n.kind.as_str(), "trait_item") {
            match (field_text_of(n, "name"), n.field_position("body")) {
                (Some(tn), Some(b)) => {
                    let g = file_cfg || c.cfg_attr || c.mod_cfg;
                    let body = &n.children[b];
                    let mut j: usize = 0;
                    while j < body.children.len()
                        invariant
                            j <= body.children@.len(),
                            trait_decl_views(out@) + decls_in(*body, j as int, tn@, g) == before + decls_in(
                                *body,
                                0,
                                tn@,
                                g,
                            ),
                        decreases body.children@.len() - j,
                    {
                        let ghost inner = trait_decl_views(out@);
                        let item = &body.children[j];
                        let k = item.kind.as_str();
                        if item.named && (str_eq(k, "function_item") || str_eq(k, "function_signature_item")) {
                            proof {
                                lemma_field_index(item.children@, "parameters"@);
                                lemma_field_index(item.children@, "name"@);
                            }
                            match item.field_position("parameters") {
                                Some(p) => match receiver_kind_of_parameters(&item.children[p]) {
                                    Some(rk) => match field_text_of(item, "name") {
                                        Some(name) => {
                                            out.push(
                                                TraitMethodDeclFact {
                                                    trait_name: tn.clone(),
                                                    method_name: name.clone(),
                                                    receiver: rk,
                                                    cfg_gated: g,
                                                },
                                            );
                                        },
                                        None => {},
                                    },
                                    None => {},
                                },
                                None => {},
                            }
                        }
                        assert(trait_decl_views(out@) + decls_in(*body, j + 1, tn@, g) =~= inner + decls_in(
                            *body,
                            j as int,
                            tn@,
                            g,
                        ));
                        j = j + 1;
                    }
                    assert(trait_decl_views(out@) =~= trait_decl_views(out@) + decls_in(*body, j as int, tn@, g));
                },
                _ => {},
            }
        }
        assert(gather(s, at, i as int) == at(s[i as int].0, s[i as int].1) + gather(s, at, i + 1));
        assert(trait_decl_views(out@) =~= before + at(*n, c));
        assert(trait_decl_views(out@) + gather(s, at, i + 1) =~= before + gather(s, at, i as int));
        i = i + 1;
    }
    assert(trait_decl_views(out@) =~= trait_decl_views(out@) + gather(s, at, i as int));
    out
}

// ---------------------------------------------------------------- imports

/// A `use` path below `prefix`: one starting at `crate`, or any path under
/// an empty prefix, stands alone.
pub open spec fn joined_path(prefix: Seq<char>, suffix: Seq<char>) -> Seq<char> {
    let s = trim(suffix);
    if prefix.len() == 0 || s == "crate"@ || "crate::"@.is_prefix_of(s) {
        s
    } else {
        prefix + "::"@ + s
    }
}

/// An import as (local name, first path segment, full path, scope).
pub type ImportView = (Seq<char>, Seq<char>, Seq<char>, u64);

/// The import of `full` under `local`.
pub open spec fn import_view(local: Seq<char>, full: Seq<char>, scope: u64) -> ImportView {
    (local, split_colons(full)[0], full, scope)
}

/// `t` without its trailing `*`s.
pub open spec fn strip_stars(t: Seq<char>) -> Seq<char>
    decreases t.len(),
{
    if t.len() > 0 && t.last() == '*' {
        strip_stars(t.drop_last())
    } else {
        t
    }
}

/// `t` without its trailing `::`s.
pub open spec fn strip_double_colons(t: Seq<char>) -> Seq<char>
    decreases t.len(),
{
    if t.len() >= 2 && t[t.len() - 2] == ':' && t[t.len() - 1] == ':' {
        strip_double_colons(t.take(t.len() - 2))
    } else {
        t
    }
}

/// The named imports of a `use` clause under `prefix`.
pub open spec fn clause_named(n: SyntaxNode, prefix: Seq<char>, scope: u64) -> Seq<ImportView>
    decreases n, n.children@.len() + 1,
{
    let ch = n.children@;
    proof {
        lemma_field_index(ch, "path"@);
        lemma_field_index(ch, "list"@);
        lemma_field_index(ch, "alias"@);
    }
    if n.kind@ == "scoped_use_list"@ {
        let path = match field_index(ch, "path"@) {
            Some(p) => joined_path(prefix, ch[p].text@),
            None => prefix,
        };
        match field_index(ch, "list"@) {
            Some(l) => clause_named(ch[l], path, scope),
            None => seq![],
        }
    } else if n.kind@ == "use_list"@ {
        list_named(n, 0, prefix, scope)
    } else if n.kind@ == "use_as_clause"@ {
        match (field_index(ch, "path"@), field_index(ch, "alias"@)) {
            (Some(p), Some(a)) => seq![import_view(trim(ch[a].text@), joined_path(prefix, ch[p].text@), scope)],
            _ => seq![],
        }
    } else if n.kind@ == "use_wildcard"@ {
        seq![]
    } else {
        let full = joined_path(prefix, n.text@);
        let local = trim(last_segment_of(full));
        if local.len() > 0 {
            seq![import_view(local, full, scope)]
        } else {
            seq![]
        }
    }
}

/// The named imports of the named children of a `use` list from `i` on.
pub open spec fn list_named(n: SyntaxNode, i: int, prefix: Seq<char>, scope: u64) -> Seq<ImportView>
    decreases n, n.children@.len() - i,
{
    if i < 0 || i >= n.children@.len() {
        seq![]
    } else if n.children@[i].named {
        clause_named(n.children@[i], prefix, scope) + list_named(n, i + 1, prefix, scope)
    } else {
        list_named(n, i + 1, prefix, scope)
    }
}

/// The glob imports of a `use` clause under `prefix`, by the path before
/// `::*`.
pub open spec fn clause_globs(n: SyntaxNode, prefix: Seq<char>) -> Seq<Seq<char>>
    decreases n, n.children@.len() + 1,
{
    let ch = n.children@;
    proof {
        lemma_field_index(ch, "path"@);
        lemma_field_index(ch, "list"@);
    }
    if n.kind@ == "scoped_use_list"@ {
        let path = match field_index(ch, "path"@) {
            Some(p) => joined_path(prefix, ch[p].text@),
            None => prefix,
        };
        match field_index(ch, "list"@) {
            Some(l) => clause_globs(ch[l], path),
            None => seq![],
        }
    } else if n.kind@ == "use_list"@ {
        list_globs(n, 0, prefix)
    } else if n.kind@ == "use_wildcard"@ {
        seq![joined_path(prefix, strip_double_colons(strip_stars(n.text@)))]
    } else {
        seq![]
    }
}

/// The glob imports of the named children of a `use` list from `i` on.
pub open spec fn list_globs(n: SyntaxNode, i: int, prefix: Seq<char>) -> Seq<Seq<char>>
    decreases n, n.children@.len() - i,
{
    if i < 0 || i >= n.children@.len() {
        seq![]
    } else if n.children@[i].named {
        clause_globs(n.children@[i], prefix) + list_globs(n, i + 1, prefix)
    } else {
        list_globs(n, i + 1, prefix)
    }
}

/// Computes [`joined_path`].
fn join_path(prefix: &str, suffix: &str) -> (r: String)
    ensures
        r@ == joined_path(prefix@, suffix@),
{
    let s = trim_chars(&chars_of(suffix));
    if prefix.is_empty() || str_eq(s.as_str(), "crate") || starts_with(s.as_str(), "crate::") {
        return s;
    }
    let mut out = String::new();
    push_str(&mut out, prefix);
    push_str(&mut out, "::");
    push_str(&mut out, s.as_str());
    out
}

/// The import fact of `full` under `local`.
fn import_fact(local: String, full: String, scope: u64) -> (r: ImportFact)
    ensures
        (r.local@, r.first_segment@, r.full_path@, r.scope) == import_view(local@, full@, scope),
{
    let pieces = split_on_colons(full.as_str());
    proof {
        lemma_split_colons_nonempty(full@);
        assert(texts(pieces@)[0] == pieces@[0]@);
    }
    let first_segment = pieces[0].clone();
    ImportFact { local, first_segment, full_path: full, scope }
}

/// Computes the path a wildcard stands below.
fn glob_path(text: &str) -> (r: String)
    ensures
        r@ == strip_double_colons(strip_stars(text@)),
{
    let cs = chars_of(text);
    let mut k = cs.len();
    assert(cs@.take(k as int) =~= cs@);
    while k > 0 && cs[k - 1] == '*'
        invariant
            k <= cs@.len(),
            strip_stars(text@) == strip_stars(cs@.take(k as int)),
            cs@ == text@,
        decreases k,
    {
        assert(cs@.take(k as int).drop_last() =~= cs@.take(k - 1));
        k = k - 1;
    }
    let ghost t = cs@.take(k as int);
    assert(strip_stars(t) == t);
    while k >= 2 && cs[k - 2] == ':' && cs[k - 1] == ':'
        invariant
            k <= cs@.len(),
            strip_double_colons(t) == strip_double_colons(cs@.take(k as int)),
        decreases k,
    {
        assert(cs@.take(k as int).take(k - 2) =~= cs@.take(k - 2));
        k = k - 2;
    }
    let r = string_of(&cs.as_slice()[0..k]);
    assert(r@ =~= cs@.take(k as int));
    r
}

/// Appends the imports of one `use` clause under `prefix`.
fn collect_use_clause(n: &SyntaxNode, prefix: &str, scope: u64, named: &mut Vec<ImportFact>, globs: &mut Vec<String>)
    ensures
        import_views(final(named)@) == import_views(old(named)@) + clause_named(*n, prefix@, scope),
        texts(final(globs)@) == texts(old(globs)@) + clause_globs(*n, prefix@),
    decreases n, n.children@.len() + 1,
{
    let ghost ch = n.children@;
    let ghost n0 = import_views(named@);
    let ghost g0 = texts(globs@);
    proof {
        lemma_field_index(ch, "path"@);
        lemma_field_index(ch, "list"@);
        lemma_field_index(ch, "alias"@);
    }
    let kind = n.kind.as_str();
    if str_eq(kind, "scoped_use_list") {
        let path = match n.field_position("path") {
            Some(p) => join_path(prefix, n.children[p].text.as_str()),
            None => prefix.to_owned(),
        };
        match n.field_position("list") {
            Some(l) => collect_use_clause(&n.children[l], path.as_str(), scope, named, globs),
            None => {
                assert(import_views(named@) =~= n0 + Seq::<ImportView>::empty());
                assert(texts(globs@) =~= g0 + Seq::<Seq<char>>::empty());
            },
        }
        assert(texts(globs@) == g0 + clause_globs(*n, prefix@));
    } else if str_eq(kind, "use_list") {
        let mut i: usize = 0;
        while i < n.children.len()
            invariant
                i <= n.children@.len(),
                import_views(named@) + list_named(*n, i as int, prefix@, scope) == n0 + list_named(
                    *n,
                    0,
                    prefix@,
                    scope,
                ),
                texts(globs@) + list_globs(*n, i as int, prefix@) == g0 + list_globs(*n, 0, prefix@),
            decreases n.children@.len() - i,
        {
            let ghost nb = import_views(named@);
            let ghost gb = texts(globs@);
            if n.children[i].named {
                collect_use_clause(&n.children[i], prefix, scope, named, globs);
                assert(import_views(named@) + list_named(*n, i + 1, prefix@, scope) =~= nb + list_named(
                    *n,
                    i as int,
                    prefix@,
                    scope,
                ));
                assert(texts(globs@) + list_globs(*n, i + 1, prefix@) =~= gb + list_globs(*n, i as int, prefix@));
            }
            i = i + 1;
        }
        assert(import_views(named@) =~= import_views(named@) + list_named(*n, i as int, prefix@, scope));
        assert(texts(globs@) =~= texts(globs@) + list_globs(*n, i as int, prefix@));
        assert(texts(globs@) == g0 + clause_globs(*n, prefix@));
    } else if str_eq(kind, "use_as_clause") {
        proof {
            reveal_strlit("use_as_clause");
            reveal_strlit("use_wildcard");
            assert("use_as_clause"@.len() != "use_wildcard"@.len());
            assert(n.kind@ != "use_wildcard"@);
        }
        match (n.field_position("path"), n.field_position("alias")) {
            (Some(p), Some(a)) => {
                let full = join_path(prefix, n.children[p].text.as_str());
                let local = trim_chars(&chars_of(n.children[a].text.as_str()));
                let f = import_fact(local, full, scope);
                named.push(f);
                assert(import_views(named@) =~= n0 + clause_named(*n, prefix@, scope));
            },
            _ => {
                assert(import_views(named@) =~= n0 + Seq::<ImportView>::empty());
            },
        }
        assert(clause_globs(*n, prefix@) == Seq::<Seq<char>>::empty());
        assert(texts(globs@) =~= g0 + Seq::<Seq<char>>::empty());
    } else if str_eq(kind, "use_wildcard") {
        let stem = glob_path(n.text.as_str());
        let full = join_path(prefix, stem.as_str());
        globs.push(full);
        assert(import_views(named@) =~= n0 + Seq::<ImportView>::empty());
        assert(texts(globs@) =~= g0 + clause_globs(*n, prefix@));
    } else {
        let full = join_path(prefix, n.text.as_str());
        let local = last_ident(full.as_str());
        if !local.as_str().is_empty() {
            let f = import_fact(local, full, scope);
            named.push(f);
            assert(import_views(named@) =~= n0 + clause_named(*n, prefix@, scope));
        } else {
            assert(import_views(named@) =~= n0 + Seq::<ImportView>::empty());
        }
        assert(clause_globs(*n, prefix@) == Seq::<Seq<char>>::empty());
        assert(texts(globs@) =~= g0 + Seq::<Seq<char>>::empty());
    }
}

/// Import facts as plain values.
pub open spec fn import_views(v: Seq<ImportFact>) -> Seq<ImportView> {
    v.map_values(|x: ImportFact| (x.local@, x.first_segment@, x.full_path@, x.scope))
}

/// The named imports of a `use` declaration.
pub open spec fn named_imports_at(n: SyntaxNode, c: NodeContext) -> Seq<ImportView> {
    if n.kind@ == "use_declaration"@ {
        match field_index(n.children@, "argument"@) {
            Some(a) => clause_named(n.children@[a], seq![], c.scope),
            None => seq![],
        }
    } else {
        seq![]
    }
}

/// The glob imports of a `use` declaration.
pub open spec fn glob_imports_at(n: SyntaxNode, c: NodeContext) -> Seq<Seq<char>> {
    if n.kind@ == "use_declaration"@ {
        match field_index(n.children@, "argument"@) {
            Some(a) => clause_globs(n.children@[a], seq![]),
            None => seq![],
        }
    } else {
        seq![]
    }
}

/// Reads [`named_imports_at`] from each entry of a walk.
pub open spec fn named_imports_reader() -> spec_fn(SyntaxNode, NodeContext) -> Seq<ImportView> {
    |n: SyntaxNode, c: NodeContext| named_imports_at(n, c)
}

/// Reads [`glob_imports_at`] from each entry of a walk.
pub open spec fn glob_imports_reader() -> spec_fn(SyntaxNode, NodeContext) -> Seq<Seq<char>> {
    |n: SyntaxNode, c: NodeContext| glob_imports_at(n, c)
}

/// The named and glob imports of a walk.
fn imports_of(syntax: &Vec<(&SyntaxNode, NodeContext)>) -> (r: (Vec<ImportFact>, Vec<String>))
    ensures
        import_views(r.0@) == gather(walked(syntax@), named_imports_reader(), 0),
        texts(r.1@) == gather(walked(syntax@), glob_imports_reader(), 0),
{
    let ghost s = walked(syntax@);
    let ghost at = named_imports_reader();
    let ghost gat = glob_imports_reader();
    let mut named: Vec<ImportFact> = Vec::new();
    let mut globs: Vec<String> = Vec::new();
    let mut i: usize = 0;
    while i < syntax.len()
        invariant
            i <= syntax@.len(),
            s == walked(syntax@),
            at == named_imports_reader(),
            gat == glob_imports_reader(),
            import_views(named@) + gather(s, at, i as int) == gather(s, at, 0),
            texts(globs@) + gather(s, gat, i as int) == gather(s, gat, 0),
        decreases syntax@.len() - i,
    {
        let ghost nb = import_views(named@);
        let ghost gb = texts(globs@);
        let (n, c) = syntax[i];
        assert(s[i as int] == (*n, c));
        proof {
            lemma_field_index(n.children@, "argument"@);
            reveal_strlit("");
            assert(""@ =~= Seq::<char>::empty());
        }
        if str_eq(n.kind.as_str(), "use_declaration") {
            match n.field_position("argument") {
                Some(a) => collect_use_clause(&n.children[a], "", c.scope, &mut named, &mut globs),
                None => {},
            }
        }
        assert(gather(s, at, i as int) == at(s[i as int].0, s[i as int].1) + gather(s, at, i + 1));
        assert(gather(s, gat, i as int) == gat(s[i as int].0, s[i as int].1) + gather(s, gat, i + 1));
        assert(import_views(named@) =~= nb + at(*n, c));
        assert(texts(globs@) =~= gb + gat(*n, c));
        assert(import_views(named@) + gather(s, at, i + 1) =~= nb + gather(s, at, i as int));
        assert(texts(globs@) + gather(s, gat, i + 1) =~= gb + gather(s, gat, i as int));
        i = i + 1;
    }
    assert(import_views(named@) =~= import_views(named@) + gather(s, at, i as int));
    assert(texts(globs@) =~= texts(globs@) + gather(s, gat, i as int));
    (named, globs)
}

// ---------------------------------------------------------------- method calls

/// Whether `name` is bound anywhere within a pattern: through every
/// destructuring form, but not by the type a struct or tuple-struct
/// pattern names, and by a field pattern's name only in shorthand form.
pub open spec fn binds_name(p: SyntaxNode, name: Seq<char>) -> bool
    decreases p, p.children@.len() + 1,
{
    let ch = p.children@;
    proof {
        lemma_field_index(ch, "pattern"@);
        lemma_field_index(ch, "type"@);
    }
    if p.kind@ == "identifier"@ {
        p.text@ == name
    } else if p.kind@ == "field_pattern"@ {
        match field_index(ch, "pattern"@) {
            Some(i) => binds_name(ch[i], name),
            None => field_text(p, "name"@) == Some(name),
        }
    } else if p.kind@ == "tuple_struct_pattern"@ || p.kind@ == "struct_pattern"@ {
        children_bind(p, 0, field_index(ch, "type"@), name)
    } else {
        children_bind(p, 0, None, name)
    }
}

/// Some named child from position `j` on, other than position `skip`,
/// binds `name`.
pub open spec fn children_bind(p: SyntaxNode, j: int, skip: Option<int>, name: Seq<char>) -> bool
    decreases p, p.children@.len() - j,
{
    if j < 0 || j >= p.children@.len() {
        false
    } else {
        (p.children@[j].named && skip != Some(j) && binds_name(p.children@[j], name)) || children_bind(
            p,
            j + 1,
            skip,
            name,
        )
    }
}

/// Decides [`binds_name`].
pub fn pattern_binds_name(pattern: &SyntaxNode, name: &str) -> (r: bool)
    ensures
        r == binds_name(*pattern, name@),
    decreases pattern, pattern.children@.len() + 1,
{
    let ghost ch = pattern.children@;
    proof {
        lemma_field_index(ch, "pattern"@);
        lemma_field_index(ch, "type"@);
    }
    let kind = pattern.kind.as_str();
    if str_eq(kind, "identifier") {
        return str_eq(pattern.text.as_str(), name);
    }
    if str_eq(kind, "field_pattern") {
        return match pattern.field_position("pattern") {
            Some(i) => pattern_binds_name(&pattern.children[i], name),
            None => match field_text_of(pattern, "name") {
                Some(t) => str_eq(t.as_str(), name),
                None => false,
            },
        };
    }
    let skip: Option<usize> = if str_eq(kind, "tuple_struct_pattern") || str_eq(kind, "struct_pattern") {
        pattern.field_position("type")
    } else {
        None
    };
    let ghost sk: Option<int> = match skip {
        Some(x) => Some(x as int),
        None => None,
    };
    assert(binds_name(*pattern, name@) == children_bind(*pattern, 0, sk, name@));
    let mut j: usize = 0;
    while j < pattern.children.len()
        invariant
            j <= pattern.children@.len(),
            binds_name(*pattern, name@) == children_bind(*pattern, 0, sk, name@),
            children_bind(*pattern, 0, sk, name@) == children_bind(*pattern, j as int, sk, name@),
            sk == match skip {
                Some(x) => Some(x as int),
                None => None::<int>,
            },
        decreases pattern.children@.len() - j,
    {
        let skipped = match skip {
            Some(x) => x == j,
            None => false,
        };
        if pattern.children[j].named && !skipped && pattern_binds_name(&pattern.children[j], name) {
            assert(sk != Some(j as int));
            assert(children_bind(*pattern, j as int, sk, name@));
            return true;
        }
        j = j + 1;
    }
    false
}

/// One more binding, counting no further than two.
pub open spec fn bump(k: nat) -> nat {
    if k >= 2 {
        2
    } else {
        k + 1
    }
}

/// The parameters of a closure from position `j` on that bind `name`,
/// added to `k` by [`bump`].
pub open spec fn closure_binds(n: SyntaxNode, j: int, name: Seq<char>, k: nat) -> nat
    decreases n.children@.len() - j,
{
    if j < 0 || j >= n.children@.len() {
        k
    } else {
        let c = n.children@[j];
        let bound = if !c.named {
            false
        } else if c.kind@ == "parameter"@ {
            match field_index(c.children@, "pattern"@) {
                Some(p) => binds_name(c.children@[p], name),
                None => false,
            }
        } else {
            binds_name(c, name)
        };
        closure_binds(
            n,
            j + 1,
            name,
            if bound {
                bump(k)
            } else {
                k
            },
        )
    }
}

/// What one node of the owning function says of `name`: the annotation
/// so far, and how many binding sites (0, 1, or 2 for more).
pub open spec fn binding_step(
    n: SyntaxNode,
    c: NodeContext,
    name: Seq<char>,
    call: SyntaxNode,
    ann: Option<Seq<char>>,
    k: nat,
) -> (Option<Seq<char>>, nat) {
    let ch = n.children@;
    if n.kind@ == "let_declaration"@ {
        match field_index(ch, "pattern"@) {
            None => (ann, k),
            Some(p) => if !binds_name(ch[p], name) {
                (ann, k)
            } else if ch[p].kind@ != "identifier"@ {
                (ann, bump(k))
            } else {
                match field_index(ch, "type"@) {
                    None => (ann, bump(k)),
                    Some(t) => {
                        let reaches = n.end <= call.start && match c.parent {
                            Some((ps, pe)) => ps <= call.start && pe >= call.end,
                            None => false,
                        };
                        (
                            if reaches {
                                Some(ch[t].text@)
                            } else {
                                ann
                            },
                            bump(k),
                        )
                    },
                }
            },
        }
    } else if n.kind@ == "parameter"@ || n.kind@ == "self_parameter"@ {
        let pat = match field_index(ch, "pattern"@) {
            Some(p) => ch[p],
            None => n,
        };
        if binds_name(pat, name) {
            (ann, bump(k))
        } else {
            (ann, k)
        }
    } else if n.kind@ == "closure_parameters"@ {
        (ann, closure_binds(n, 0, name, k))
    } else if n.kind@ == "for_expression"@ {
        match field_index(ch, "pattern"@) {
            Some(p) => if binds_name(ch[p], name) {
                (ann, bump(k))
            } else {
                (ann, k)
            },
            None => (ann, k),
        }
    } else if (n.kind@ == "match_pattern"@ || n.kind@ == "let_condition"@) && has_word(n.text@, name) {
        (ann, bump(k))
    } else {
        (ann, k)
    }
}

/// The node lies within the owner's range.
pub open spec fn within(n: SyntaxNode, owner: FileNode) -> bool {
    owner.start <= n.start && n.end <= owner.end
}

/// Scans the walk from position `i` on for the bindings of `name` within
/// the owner.
pub open spec fn binding_scan(
    s: Seq<(SyntaxNode, NodeContext)>,
    i: int,
    owner: FileNode,
    name: Seq<char>,
    call: SyntaxNode,
    ann: Option<Seq<char>>,
    k: nat,
) -> (Option<Seq<char>>, nat)
    decreases s.len() - i,
{
    if i < 0 || i >= s.len() {
        (ann, k)
    } else {
        let (a2, k2) = if within(s[i].0, owner) {
            binding_step(s[i].0, s[i].1, name, call, ann, k)
        } else {
            (ann, k)
        };
        binding_scan(s, i + 1, owner, name, call, a2, k2)
    }
}

/// The receiver's annotated type, only when `name` has exactly one binding
/// site in the owning function and that site is a typed `let` of the bare
/// name before the call, in a block that holds the call.
pub open spec fn unique_binding_type(
    s: Seq<(SyntaxNode, NodeContext)>,
    owner: FileNode,
    name: Seq<char>,
    call: SyntaxNode,
) -> Option<Seq<char>> {
    let (ann, k) = binding_scan(s, 0, owner, name, call, None, 0);
    if k != 1 {
        None
    } else {
        ann
    }
}

fn bump_count(k: u8) -> (r: u8)
    requires
        k <= 2,
    ensures
        r == bump(k as nat),
{
    if k >= 2 {
        2
    } else {
        k + 1
    }
}

/// Computes [`binding_step`].
#[verifier::loop_isolation(false)]
fn binding_step_of(
    n: &SyntaxNode,
    c: NodeContext,
    name: &str,
    call: &SyntaxNode,
    ann: Option<String>,
    k: u8,
) -> (r: (Option<String>, u8))
    requires
        k <= 2,
    ensures
        r.1 <= 2,
        (match r.0 {
            Some(t) => Some(t@),
            None => None::<Seq<char>>,
        }, r.1 as nat) == binding_step(*n, c, name@, *call, match ann {
            Some(t) => Some(t@),
            None => None::<Seq<char>>,
        }, k as nat),
{
    let ghost ch = n.children@;
    proof {
        lemma_field_index(ch, "pattern"@);
        lemma_field_index(ch, "type"@);
    }
    let kind = n.kind.as_str();
    if str_eq(kind, "let_declaration") {
        match n.field_position("pattern") {
            None => (ann, k),
            Some(p) => if !pattern_binds_name(&n.children[p], name) {
                (ann, k)
            } else if !str_eq(n.children[p].kind.as_str(), "identifier") {
                (ann, bump_count(k))
            } else {
                match n.field_position("type") {
                    None => (ann, bump_count(k)),
                    Some(t) => {
                        let reaches = n.end <= call.start && match c.parent {
                            Some((ps, pe)) => ps <= call.start && pe >= call.end,
                            None => false,
                        };
                        (
                            if reaches {
                                Some(n.children[t].text.clone())
                            } else {
                                ann
                            },
                            bump_count(k),
                        )
                    },
                }
            },
        }
    } else if str_eq(kind, "parameter") || str_eq(kind, "self_parameter") {
        let pat = match n.field_position("pattern") {
            Some(p) => &n.children[p],
            None => n,
        };
        if pattern_binds_name(pat, name) {
            (ann, bump_count(k))
        } else {
            (ann, k)
        }
    } else if str_eq(kind, "closure_parameters") {
        let mut count = k;
        let mut j: usize = 0;
        while j < n.children.len()
            invariant
                j <= n.children@.len(),
                count <= 2,
                closure_binds(*n, 0, name@, k as nat) == closure_binds(*n, j as int, name@, count as nat),
            decreases n.children@.len() - j,
        {
            let child = &n.children[j];
            proof {
                lemma_field_index(child.children@, "pattern"@);
            }
            let bound = if !child.named {
                false
            } else if str_eq(child.kind.as_str(), "parameter") {
                match child.field_position("pattern") {
                    Some(p) => pattern_binds_name(&child.children[p], name),
                    None => false,
                }
            } else {
                pattern_binds_name(child, name)
            };
            if bound {
                count = bump_count(count);
            }
            j = j + 1;
        }
        (ann, count)
    } else if str_eq(kind, "for_expression") {
        match n.field_position("pattern") {
            Some(p) => if pattern_binds_name(&n.children[p], name) {
                (ann, bump_count(k))
            } else {
                (ann, k)
            },
            None => (ann, k),
        }
    } else if (str_eq(kind, "match_pattern") || str_eq(kind, "let_condition")) && contains_word(
        n.text.as_str(),
        name,
    ) {
        (ann, bump_count(k))
    } else {
        (ann, k)
    }
}

/// Computes [`unique_binding_type`].
fn binding_type_if_unique(
    syntax: &Vec<(&SyntaxNode, NodeContext)>,
    owner: FileNode,
    name: &str,
    call: &SyntaxNode,
) -> (r: Option<String>)
    ensures
        match r {
            Some(t) => unique_binding_type(walked(syntax@), owner, name@, *call) == Some(t@),
            None => unique_binding_type(walked(syntax@), owner, name@, *call) is None,
        },
{
    let ghost s = walked(syntax@);
    let mut ann: Option<String> = None;
    let mut k: u8 = 0;
    let mut i: usize = 0;
    while i < syntax.len()
        invariant
            i <= syntax@.len(),
            s == walked(syntax@),
            k <= 2,
            binding_scan(s, 0, owner, name@, *call, None, 0) == binding_scan(
                s,
                i as int,
                owner,
                name@,
                *call,
                match ann {
                    Some(t) => Some(t@),
                    None => None::<Seq<char>>,
                },
                k as nat,
            ),
        decreases syntax@.len() - i,
    {
        let (n, c) = syntax[i];
        assert(s[i as int] == (*n, c));
        if owner.start <= n.start && n.end <= owner.end {
            let (a2, k2) = binding_step_of(n, c, name, call, ann, k);
            ann = a2;
            k = k2;
        }
        i = i + 1;
    }
    if k != 1 {
        None
    } else {
        ann
    }
}

/// The function node of the graph that most tightly encloses `start..end`
/// (the first such when several are as tight), from position `i` on with
/// `best` found so far.
pub open spec fn owner_scan(nodes: Seq<FileNode>, i: int, start: usize, end: usize, best: Option<int>) -> Option<int>
    decreases nodes.len() - i,
{
    if i < 0 || i >= nodes.len() {
        best
    } else {
        let nd = nodes[i];
        let better = nd.is_function && nd.start <= start && nd.end >= end && match best {
            None => true,
            Some(b) => nd.end - nd.start < nodes[b].end - nodes[b].start,
        };
        owner_scan(
            nodes,
            i + 1,
            start,
            end,
            if better {
                Some(i)
            } else {
                best
            },
        )
    }
}

proof fn lemma_owner_scan(nodes: Seq<FileNode>, i: int, start: usize, end: usize, best: Option<int>)
    requires
        0 <= i,
        best matches Some(b) ==> 0 <= b < nodes.len(),
    ensures
        owner_scan(nodes, i, start, end, best) matches Some(b) ==> 0 <= b < nodes.len(),
    decreases nodes.len() - i,
{
    if i < nodes.len() {
        let nd = nodes[i];
        let better = nd.is_function && nd.start <= start && nd.end >= end && match best {
            None => true,
            Some(b) => nd.end - nd.start < nodes[b].end - nodes[b].start,
        };
        lemma_owner_scan(
            nodes,
            i + 1,
            start,
            end,
            if better {
                Some(i)
            } else {
                best
            },
        );
    }
}

/// Computes [`owner_scan`] from the start.
fn owner_of(nodes: &[FileNode], start: usize, end: usize) -> (r: Option<usize>)
    ensures
        match r {
            Some(b) => owner_scan(nodes@, 0, start, end, None) == Some(b as int) && b < nodes@.len(),
            None => owner_scan(nodes@, 0, start, end, None) is None,
        },
{
    proof {
        lemma_owner_scan(nodes@, 0, start, end, None);
    }
    let mut best: Option<usize> = None;
    let mut i: usize = 0;
    while i < nodes.len()
        invariant
            i <= nodes@.len(),
            best matches Some(b) ==> b < nodes@.len(),
            owner_scan(nodes@, 0, start, end, None) == owner_scan(nodes@, i as int, start, end, match best {
                Some(b) => Some(b as int),
                None => None::<int>,
            }),
        decreases nodes@.len() - i,
    {
        let nd = nodes[i];
        let better = nd.is_function && nd.start <= start && nd.end >= end && match best {
            None => true,
            Some(b) => (nd.end as u128) + (nodes[b].start as u128) < (nodes[b].end as u128) + (nd.start as u128),
        };
        if better {
            best = Some(i);
        }
        i = i + 1;
    }
    best
}

/// The generic parameter names that the function around a node, and the
/// impl block around that function, declare.
pub open spec fn owner_generics(s: Seq<(SyntaxNode, NodeContext)>, c: NodeContext) -> Seq<Seq<char>> {
    match c.function {
        Some((fi, imp)) => if fi < s.len() {
            type_param_names(s[fi as int].0, true) + match imp {
                Some(ii) => if ii < s.len() {
                    type_param_names(s[ii as int].0, true)
                } else {
                    seq![]
                },
                None => seq![],
            }
        } else {
            seq![]
        },
        None => seq![],
    }
}

/// A method call as (receiver, method, owner position, annotated type).
pub type CallView = (Seq<char>, Seq<char>, int, Option<Seq<char>>);

/// The candidate method call a node is: `x.m(..)` on a bare identifier
/// inside a function, with the receiver's type when its binding is unique
/// and does not name a generic parameter of the enclosing function or impl.
pub open spec fn candidate_at(
    n: SyntaxNode,
    c: NodeContext,
    s: Seq<(SyntaxNode, NodeContext)>,
    nodes: Seq<FileNode>,
) -> Seq<CallView> {
    let ch = n.children@;
    if n.kind@ != "call_expression"@ {
        seq![]
    } else {
        match field_index(ch, "function"@) {
            None => seq![],
            Some(f) => {
                let func = ch[f];
                if func.kind@ != "field_expression"@ {
                    seq![]
                } else {
                    match (field_index(func.children@, "value"@), field_index(func.children@, "field"@)) {
                        (Some(v), Some(fl)) => if func.children@[v].kind@ != "identifier"@ {
                            seq![]
                        } else {
                            match owner_scan(nodes, 0, n.start, n.end, None) {
                                None => seq![],
                                Some(oi) => {
                                    let recv = func.children@[v].text@;
                                    let ann = match unique_binding_type(s, nodes[oi], recv, n) {
                                        Some(a) => match bare_head_of(a) {
                                            Some(b) => if owner_generics(s, c).contains(b) {
                                                None
                                            } else {
                                                Some(a)
                                            },
                                            None => Some(a),
                                        },
                                        None => None,
                                    };
                                    seq![(recv, func.children@[fl].text@, oi, ann)]
                                },
                            }
                        },
                        _ => seq![],
                    }
                }
            },
        }
    }
}

/// Reads [`candidate_at`] from each entry of a walk.
pub open spec fn candidate_reader(s: Seq<(SyntaxNode, NodeContext)>, nodes: Seq<FileNode>) -> spec_fn(
    SyntaxNode,
    NodeContext,
) -> Seq<CallView> {
    |n: SyntaxNode, c: NodeContext| candidate_at(n, c, s, nodes)
}

/// Candidate call facts as plain values.
pub open spec fn call_views(v: Seq<CandidateMethodCall>) -> Seq<CallView> {
    v.map_values(
        |x: CandidateMethodCall|
            (
                x.receiver_name@,
                x.method_name@,
                x.owner_index as int,
                match x.annotated_type {
                    Some(t) => Some(t@),
                    None => None,
                },
            ),
    )
}

/// Collects [`owner_generics`].
fn owner_generics_of(syntax: &Vec<(&SyntaxNode, NodeContext)>, c: NodeContext) -> (r: Vec<String>)
    ensures
        texts(r@) == owner_generics(walked(syntax@), c),
{
    let ghost s = walked(syntax@);
    match c.function {
        Some((fi, imp)) => if fi < syntax.len() {
            assert(s[fi as int].0 == *syntax@[fi as int].0);
            let mut names = type_param_names_of(syntax[fi].0, true);
            let ghost first = texts(names@);
            match imp {
                Some(ii) => if ii < syntax.len() {
                    assert(s[ii as int].0 == *syntax@[ii as int].0);
                    let more = type_param_names_of(syntax[ii].0, true);
                    let mut j: usize = 0;
                    while j < more.len()
                        invariant
                            j <= more@.len(),
                            texts(names@) == first + texts(more@).take(j as int),
                        decreases more@.len() - j,
                    {
                        let x = more[j].clone();
                        assert(texts(more@)[j as int] == x@);
                        let ghost old_n = texts(names@);
                        names.push(x);
                        assert(texts(names@) =~= old_n.push(x@));
                        assert(texts(more@).take(j + 1) =~= texts(more@).take(j as int).push(x@));
                        j = j + 1;
                        assert(texts(names@) =~= first + texts(more@).take(j as int));
                    }
                    assert(texts(more@).take(j as int) =~= texts(more@));
                } else {
                    assert(texts(names@) =~= first + Seq::<Seq<char>>::empty());
                },
                None => {
                    assert(texts(names@) =~= first + Seq::<Seq<char>>::empty());
                },
            }
            names
        } else {
            let v: Vec<String> = Vec::new();
            assert(texts(v@) =~= Seq::<Seq<char>>::empty());
            v
        },
        None => {
            let v: Vec<String> = Vec::new();
            assert(texts(v@) =~= Seq::<Seq<char>>::empty());
            v
        },
    }
}

/// The candidate method calls of a walk.
#[verifier::loop_isolation(false)]
fn candidate_calls_of(syntax: &Vec<(&SyntaxNode, NodeContext)>, nodes: &[FileNode]) -> (r: Vec<CandidateMethodCall>)
    ensures
        call_views(r@) == gather(walked(syntax@), candidate_reader(walked(syntax@), nodes@), 0),
{
    let ghost s = walked(syntax@);
    let ghost at = candidate_reader(s, nodes@);
    let mut out: Vec<CandidateMethodCall> = Vec::new();
    let mut i: usize = 0;
    while i < syntax.len()
        invariant
            i <= syntax@.len(),
            call_views(out@) + gather(s, at, i as int) == gather(s, at, 0),
        decreases syntax@.len() - i,
    {
        let ghost before = call_views(out@);
        let (n, c) = syntax[i];
        assert(s[i as int] == (*n, c));
        proof {
            lemma_field_index(n.children@, "function"@);
        }
        if str_eq(n.kind.as_str(), "call_expression") {
            match n.field_position("function") {
                None => {},
                Some(f) => {
                    let func = &n.children[f];
                    proof {
                        lemma_field_index(func.children@, "value"@);
                        lemma_field_index(func.children@, "field"@);
                    }
                    if str_eq(func.kind.as_str(), "field_expression") {
                        match (func.field_position("value"), func.field_position("field")) {
                            (Some(v), Some(fl)) => if str_eq(func.children[v].kind.as_str(), "identifier") {
                                match owner_of(nodes, n.start, n.end) {
                                    None => {},
                                    Some(oi) => {
                                        let recv = func.children[v].text.clone();
                                        let found = binding_type_if_unique(syntax, nodes[oi], recv.as_str(), n);
                                        let ann = match found {
                                            Some(a) => match bare_head(a.as_str()) {
                                                Some(b) => {
                                                    let names = owner_generics_of(syntax, c);
                                                    if texts_contain(&names, b.as_str()) {
                                                        None
                                                    } else {
                                                        Some(a)
                                                    }
                                                },
                                                None => Some(a),
                                            },
                                            None => None,
                                        };
                                        out.push(
                                            CandidateMethodCall {
                                                receiver_name: recv,
                                                method_name: func.children[fl].text.clone(),
                                                owner_index: oi,
                                                annotated_type: ann,
                                            },
                                        );
                                    },
                                }
                            },
                            _ => {},
                        }
                    }
                },
            }
        }
        assert(gather(s, at, i as int) == at(s[i as int].0, s[i as int].1) + gather(s, at, i + 1));
        assert(call_views(out@) =~= before + at(*n, c));
        assert(call_views(out@) + gather(s, at, i + 1) =~= before + gather(s, at, i as int));
        i = i + 1;
    }
    assert(call_views(out@) =~= call_views(out@) + gather(s, at, i as int));
    out
}

// ---------------------------------------------------------------- a file's facts

/// What the same-file call proofs found about a file: whole-file scope
/// transformations, duplicated paths, a parse error, and the functions
/// that hold an unexpanded macro, by their position among the file's
/// graph nodes.
#[derive(Debug)]
pub struct FileGates {
    pub transformed_scope: bool,
    pub duplicate_paths: bool,
    pub parse_error: bool,
    pub macro_owners: Vec<usize>,
}

/// The named nodes of a file's tree in pre-order, with their surroundings.
pub open spec fn file_walk(root: SyntaxNode) -> Seq<(SyntaxNode, NodeContext)> {
    walk(root, root_context(), 0)
}

/// The method-call facts of a Rust file, read from its syntax tree and
/// the nodes of its semantic graph: each category in the order its nodes
/// come in the tree, gated by `cfg` as the file, the item and its inline
/// modules say, with the file's gates passed on.
pub fn collect(root: &SyntaxNode, file: &str, nodes: &[FileNode], gates: &FileGates) -> (r: RustMethodFacts)
    ensures
        type_item_views(r.type_items@) == gather(
            file_walk(*root),
            type_items_reader(file_inner_cfg(file_walk(*root))),
            0,
        ),
        mod_views(r.mod_decls@) == gather(file_walk(*root), mod_decls_reader(), 0),
        trait_impl_views(r.trait_impls@) == gather(
            file_walk(*root),
            trait_impls_reader(file_inner_cfg(file_walk(*root))),
            0,
        ),
        deref_views(r.deref_impls@) == gather(file_walk(*root), deref_impls_reader(), 0),
        inherent_views(r.inherent_methods@) == gather(
            file_walk(*root),
            inherent_reader(file_inner_cfg(file_walk(*root)), nodes@, file@),
            0,
        ),
        trait_decl_views(r.trait_decls@) == gather(
            file_walk(*root),
            trait_decls_reader(file_inner_cfg(file_walk(*root))),
            0,
        ),
        import_views(r.named_imports@) == gather(file_walk(*root), named_imports_reader(), 0),
        texts(r.glob_imports@) == gather(file_walk(*root), glob_imports_reader(), 0),
        call_views(r.candidate_calls@) == gather(
            file_walk(*root),
            candidate_reader(file_walk(*root), nodes@),
            0,
        ),
        r.file_transformed_scope == gates.transformed_scope,
        r.file_duplicate_paths == gates.duplicate_paths,
        r.file_parse_error == gates.parse_error,
        r.macro_owner_function_indices@ == gates.macro_owners@,
{
    let syntax = walk_file(root);
    let file_cfg = has_inner_cfg(&syntax);
    let type_items = type_items_of(&syntax, file_cfg);
    let mod_decls = mod_decls_of(&syntax);
    let (trait_impls, deref_impls) = trait_impls_of(&syntax, file_cfg);
    let inherent_methods = inherent_methods_of(&syntax, file_cfg, nodes, file);
    let trait_decls = trait_decls_of(&syntax, file_cfg);
    let (named_imports, glob_imports) = imports_of(&syntax);
    let candidate_calls = candidate_calls_of(&syntax, nodes);
    let mut macro_owner_function_indices: Vec<usize> = Vec::new();
    let mut i: usize = 0;
    while i < gates.macro_owners.len()
        invariant
            i <= gates.macro_owners@.len(),
            macro_owner_function_indices@ == gates.macro_owners@.take(i as int),
        decreases gates.macro_owners@.len() - i,
    {
        macro_owner_function_indices.push(gates.macro_owners[i]);
        i = i + 1;
        assert(macro_owner_function_indices@ =~= gates.macro_owners@.take(i as int));
    }
    assert(gates.macro_owners@.take(i as int) =~= gates.macro_owners@);
    RustMethodFacts {
        type_items,
        inherent_methods,
        trait_decls,
        trait_impls,
        deref_impls,
        mod_decls,
        named_imports,
        glob_imports,
        candidate_calls,
        file_transformed_scope: gates.transformed_scope,
        file_duplicate_paths: gates.duplicate_paths,
        file_parse_error: gates.parse_error,
        macro_owner_function_indices,
    }
}

} // verus!
