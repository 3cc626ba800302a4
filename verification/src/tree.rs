//! A syntax tree held as plain values: each node's grammar kind, the field
//! it fills in its parent, whether it is named, its byte range and text,
//! and its children in order. The walkers of the graph builder read trees
//! in this form.

use vstd::prelude::*;
use crate::strmap::str_eq;

verus! {

/// One node of a syntax tree.
#[derive(Debug)]
pub struct SyntaxNode {
    pub kind: String,
    /// The field of the parent that this node fills, if any.
    pub field: Option<String>,
    /// A grammar rule rather than a literal token.
    pub named: bool,
    pub start: usize,
    pub end: usize,
    /// The source text the node covers.
    pub text: String,
    pub children: Vec<SyntaxNode>,
}

/// The node fills the field `f` of its parent.
pub open spec fn bears_field(n: SyntaxNode, f: Seq<char>) -> bool {
    n.field matches Some(x) && x@ == f
}

/// The first position at or after `i` whose node fills the field `f`.
pub open spec fn field_index_from(ch: Seq<SyntaxNode>, f: Seq<char>, i: int) -> Option<int>
    decreases ch.len() - i,
{
    if i < 0 || i >= ch.len() {
        None
    } else if bears_field(ch[i], f) {
        Some(i)
    } else {
        field_index_from(ch, f, i + 1)
    }
}

/// The position of the first child that fills the field `f`.
pub open spec fn field_index(ch: Seq<SyntaxNode>, f: Seq<char>) -> Option<int> {
    field_index_from(ch, f, 0)
}

/// A found position is in range, fills the field, and no earlier one from
/// `i` on does.
pub proof fn lemma_field_index_from(ch: Seq<SyntaxNode>, f: Seq<char>, i: int)
    ensures
        match field_index_from(ch, f, i) {
            Some(k) => 0 <= i <= k < ch.len() && bears_field(ch[k], f) && forall|j: int|
                i <= j < k ==> !bears_field(#[trigger] ch[j], f),
            None => forall|j: int| 0 <= i <= j < ch.len() ==> !bears_field(#[trigger] ch[j], f),
        },
    decreases ch.len() - i,
{
    if 0 <= i < ch.len() && !bears_field(ch[i], f) {
        lemma_field_index_from(ch, f, i + 1);
    }
}

/// A found position is in range and fills the field.
pub proof fn lemma_field_index(ch: Seq<SyntaxNode>, f: Seq<char>)
    ensures
        match field_index(ch, f) {
            Some(k) => 0 <= k < ch.len() && bears_field(ch[k], f) && forall|j: int|
                0 <= j < k ==> !bears_field(#[trigger] ch[j], f),
            None => forall|j: int| 0 <= j < ch.len() ==> !bears_field(#[trigger] ch[j], f),
        },
{
    lemma_field_index_from(ch, f, 0);
}

/// Some named child has kind `k`.
pub open spec fn has_named_kind(ch: Seq<SyntaxNode>, k: Seq<char>) -> bool {
    exists|j: int| 0 <= j < ch.len() && (#[trigger] ch[j]).named && ch[j].kind@ == k
}

/// The text of the child that fills field `f`, if any.
pub open spec fn field_text(n: SyntaxNode, f: Seq<char>) -> Option<Seq<char>> {
    match field_index(n.children@, f) {
        Some(i) => Some(n.children@[i].text@),
        None => None,
    }
}

/// The first named position at or after `i`.
pub open spec fn first_named_from(ch: Seq<SyntaxNode>, i: int) -> Option<int>
    decreases ch.len() - i,
{
    if i < 0 || i >= ch.len() {
        None
    } else if ch[i].named {
        Some(i)
    } else {
        first_named_from(ch, i + 1)
    }
}

pub proof fn lemma_first_named_from(ch: Seq<SyntaxNode>, i: int)
    ensures
        match first_named_from(ch, i) {
            Some(k) => 0 <= i <= k < ch.len() && ch[k].named,
            None => true,
        },
    decreases ch.len() - i,
{
    if 0 <= i < ch.len() && !ch[i].named {
        lemma_first_named_from(ch, i + 1);
    }
}

impl SyntaxNode {
    /// The position of the first child filling the field `f`.
    pub fn field_position(&self, f: &str) -> (r: Option<usize>)
        ensures
            match r {
                Some(i) => field_index(self.children@, f@) == Some(i as int) && i < self.children@.len(),
                None => field_index(self.children@, f@) is None,
            },
    {
        let mut i: usize = 0;
        while i < self.children.len()
            invariant
                i <= self.children@.len(),
                field_index(self.children@, f@) == field_index_from(self.children@, f@, i as int),
            decreases self.children@.len() - i,
        {
            let matches = match &self.children[i].field {
                Some(x) => str_eq(x.as_str(), f),
                None => false,
            };
            if matches {
                return Some(i);
            }
            i = i + 1;
        }
        None
    }

    /// The position of the first named child at or after `from`.
    pub fn first_named_position(&self, from: usize) -> (r: Option<usize>)
        ensures
            match r {
                Some(i) => first_named_from(self.children@, from as int) == Some(i as int) && i < self.children@.len(),
                None => first_named_from(self.children@, from as int) is None,
            },
    {
        let mut i: usize = from;
        while i < self.children.len() && !self.children[i].named
            invariant
                from <= i,
                first_named_from(self.children@, from as int) == first_named_from(self.children@, i as int),
            decreases self.children@.len() - i,
        {
            i = i + 1;
        }
        if i < self.children.len() {
            Some(i)
        } else {
            None
        }
    }

    /// Whether some named child has kind `k`.
    pub fn has_named_child_of_kind(&self, k: &str) -> (r: bool)
        ensures
            r == has_named_kind(self.children@, k@),
    {
        let mut i: usize = 0;
        while i < self.children.len()
            invariant
                i <= self.children@.len(),
                forall|j: int| 0 <= j < i ==> !((#[trigger] self.children@[j]).named && self.children@[j].kind@ == k@),
            decreases self.children@.len() - i,
        {
            if self.children[i].named && str_eq(self.children[i].kind.as_str(), k) {
                return true;
            }
            i = i + 1;
        }
        false
    }
}

} // verus!
