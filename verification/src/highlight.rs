//! Syntax highlighting spans: which coarse category each leaf token of a
//! syntax tree belongs to, so a user interface can map categories to
//! colors without knowing the grammar.

use vstd::prelude::*;
use crate::search::{contains_chars, contains_text};
use crate::strmap::str_eq;
use crate::text::chars_of;

verus! {

/// A coarse highlighting category.
#[derive(Debug, Clone, Copy, PartialEq, Eq, Structural)]
pub enum HlKind {
    Keyword,
    Type,
    Function,
    Str,
    Number,
    Comment,
    Ident,
    Punct,
    Plain,
}

/// A highlighted byte range.
#[derive(Debug, Clone, Copy, PartialEq, Eq, Structural)]
pub struct HlSpan {
    pub start: usize,
    pub end: usize,
    pub kind: HlKind,
}

/// A leaf token of a syntax tree, as the classifier reads it.
pub struct LeafToken {
    /// The node kind, such as `identifier` or `;`.
    pub kind: String,
    /// The kind of the parent node, if any.
    pub parent_kind: Option<String>,
    /// Named nodes are grammar rules; anonymous ones are literal tokens.
    pub is_named: bool,
    pub start: usize,
    pub end: usize,
}

/// An ASCII letter.
pub open spec fn is_ascii_letter(c: char) -> bool {
    ('a' <= c && c <= 'z') || ('A' <= c && c <= 'Z')
}

/// The category of a leaf token: comments, strings, numbers and types by
/// their kind; identifiers as functions when they name a call or a
/// definition; anonymous tokens as keywords when alphabetic, else as
/// punctuation.
pub open spec fn classify_of(kind: Seq<char>, parent_kind: Seq<char>, is_named: bool) -> Option<HlKind> {
    if contains_text(kind, "comment"@) {
        Some(HlKind::Comment)
    } else if contains_text(kind, "string"@) || kind == "char_literal"@ {
        Some(HlKind::Str)
    } else if contains_text(kind, "integer"@) || contains_text(kind, "float"@) || kind == "number"@ {
        Some(HlKind::Number)
    } else if kind == "type_identifier"@ || kind == "primitive_type"@ {
        Some(HlKind::Type)
    } else if kind == "identifier"@ {
        if parent_kind == "call_expression"@ || parent_kind == "call"@ || parent_kind == "function_item"@
            || parent_kind == "function_definition"@ {
            Some(HlKind::Function)
        } else {
            Some(HlKind::Ident)
        }
    } else if !is_named {
        if kind.len() > 0 && forall|i: int| 0 <= i < kind.len() ==> is_ascii_letter(#[trigger] kind[i]) {
            Some(HlKind::Keyword)
        } else {
            Some(HlKind::Punct)
        }
    } else {
        None
    }
}

/// True when `t` occurs in `h`.
fn has_text(h: &str, t: &str) -> (r: bool)
    ensures
        r == contains_text(h@, t@),
{
    let hc = chars_of(h);
    let tc = chars_of(t);
    contains_chars(&hc, &tc)
}

/// The category of a leaf token, if it has one.
pub fn classify(kind: &str, parent_kind: Option<&str>, is_named: bool) -> (r: Option<HlKind>)
    ensures
        r == classify_of(
            kind@,
            match parent_kind {
                Some(p) => p@,
                None => ""@,
            },
            is_named,
        ),
{
    if has_text(kind, "comment") {
        return Some(HlKind::Comment);
    }
    if has_text(kind, "string") || str_eq(kind, "char_literal") {
        return Some(HlKind::Str);
    }
    if has_text(kind, "integer") || has_text(kind, "float") || str_eq(kind, "number") {
        return Some(HlKind::Number);
    }
    if str_eq(kind, "type_identifier") || str_eq(kind, "primitive_type") {
        return Some(HlKind::Type);
    }
    if str_eq(kind, "identifier") {
        let parent = match parent_kind {
            Some(p) => p,
            None => "",
        };
        if str_eq(parent, "call_expression") || str_eq(parent, "call") || str_eq(parent, "function_item") || str_eq(
            parent,
            "function_definition",
        ) {
            return Some(HlKind::Function);
        }
        return Some(HlKind::Ident);
    }
    if !is_named {
        let cs = chars_of(kind);
        let mut i: usize = 0;
        let mut word = true;
        while i < cs.len()
            invariant
                cs@ == kind@,
                i <= cs@.len(),
                word == forall|j: int| 0 <= j < i ==> is_ascii_letter(#[trigger] cs@[j]),
            decreases cs@.len() - i,
        {
            let c = cs[i];
            if !(('a' <= c && c <= 'z') || ('A' <= c && c <= 'Z')) {
                word = false;
            }
            i = i + 1;
        }
        return Some(
            if word && cs.len() > 0 {
                HlKind::Keyword
            } else {
                HlKind::Punct
            },
        );
    }
    None
}

/// The parent kind of a token, as text (empty when it has no parent).
pub open spec fn parent_text(t: LeafToken) -> Seq<char> {
    match t.parent_kind {
        Some(p) => p@,
        None => ""@,
    }
}

/// The spans of the classified tokens, in token order.
pub open spec fn classified(tokens: Seq<LeafToken>) -> Seq<HlSpan>
    decreases tokens.len(),
{
    if tokens.len() == 0 {
        seq![]
    } else {
        let t = tokens.last();
        match classify_of(t.kind@, parent_text(t), t.is_named) {
            Some(k) => classified(tokens.drop_last()).push(HlSpan { start: t.start, end: t.end, kind: k }),
            None => classified(tokens.drop_last()),
        }
    }
}

/// `sorted` with `x` inserted after every span that starts no later.
pub open spec fn insert_by_start(sorted: Seq<HlSpan>, x: HlSpan) -> Seq<HlSpan>
    decreases sorted.len(),
{
    if sorted.len() == 0 || sorted.last().start <= x.start {
        sorted.push(x)
    } else {
        insert_by_start(sorted.drop_last(), x).push(sorted.last())
    }
}

/// The spans stably sorted by start: equal starts keep their order.
pub open spec fn sorted_by_start(s: Seq<HlSpan>) -> Seq<HlSpan>
    decreases s.len(),
{
    if s.len() == 0 {
        seq![]
    } else {
        insert_by_start(sorted_by_start(s.drop_last()), s.last())
    }
}

proof fn lemma_insert_len(sorted: Seq<HlSpan>, x: HlSpan)
    ensures
        insert_by_start(sorted, x).len() == sorted.len() + 1,
    decreases sorted.len(),
{
    if !(sorted.len() == 0 || sorted.last().start <= x.start) {
        lemma_insert_len(sorted.drop_last(), x);
    }
}

/// A span that starts no later than it ends, ends at or before byte
/// `len`, and has a category other than plain text.
pub open spec fn span_ok(s: HlSpan, len: nat) -> bool {
    s.start <= s.end && s.end <= len && s.kind != HlKind::Plain
}

/// Every span is [`span_ok`].
pub open spec fn spans_ok(s: Seq<HlSpan>, len: nat) -> bool {
    forall|i: int| 0 <= i < s.len() ==> span_ok(#[trigger] s[i], len)
}

/// Starts never decrease.
pub open spec fn starts_sorted(s: Seq<HlSpan>) -> bool {
    forall|i: int, j: int| 0 <= i < j < s.len() ==> (#[trigger] s[i]).start <= (#[trigger] s[j]).start
}

/// Each token starts no later than it ends, and ends at or before byte
/// `len`.
pub open spec fn tokens_ordered(t: Seq<LeafToken>, len: nat) -> bool {
    forall|i: int| 0 <= i < t.len() ==> (#[trigger] t[i]).start <= t[i].end && t[i].end <= len
}

/// Inserting keeps every span of the input and adds `x`, and keeps the
/// starts sorted.
proof fn lemma_insert_facts(sorted: Seq<HlSpan>, x: HlSpan)
    requires
        starts_sorted(sorted),
    ensures
        insert_by_start(sorted, x).len() == sorted.len() + 1,
        forall|i: int|
            0 <= i < insert_by_start(sorted, x).len() ==> #[trigger] insert_by_start(sorted, x)[i] == x || exists|j: int|
                0 <= j < sorted.len() && insert_by_start(sorted, x)[i] == sorted[j],
        starts_sorted(insert_by_start(sorted, x)),
    decreases sorted.len(),
{
    let r = insert_by_start(sorted, x);
    if sorted.len() == 0 || sorted.last().start <= x.start {
        assert forall|i: int| 0 <= i < r.len() implies #[trigger] r[i] == x || exists|j: int|
            0 <= j < sorted.len() && r[i] == sorted[j] by {
            if i < sorted.len() {
                assert(r[i] == sorted[i]);
            }
        }
        assert forall|i: int, j: int| 0 <= i < j < r.len() implies (#[trigger] r[i]).start <= (#[trigger] r[j]).start by {
            if j == sorted.len() {
                assert(sorted[i].start <= sorted.last().start || i == sorted.len() - 1);
            }
        }
    } else {
        let d = sorted.drop_last();
        assert(starts_sorted(d)) by {
            assert forall|i: int, j: int| 0 <= i < j < d.len() implies (#[trigger] d[i]).start <= (#[trigger] d[j]).start by {
                assert(d[i] == sorted[i] && d[j] == sorted[j]);
            }
        }
        lemma_insert_facts(d, x);
        let q = insert_by_start(d, x);
        assert forall|i: int| 0 <= i < r.len() implies #[trigger] r[i] == x || exists|j: int|
            0 <= j < sorted.len() && r[i] == sorted[j] by {
            if i < q.len() {
                assert(r[i] == q[i]);
                if q[i] != x {
                    let j = choose|j: int| 0 <= j < d.len() && q[i] == d[j];
                    assert(sorted[j] == d[j]);
                }
            } else {
                assert(r[i] == sorted[sorted.len() - 1]);
            }
        }
        assert forall|i: int, j: int| 0 <= i < j < r.len() implies (#[trigger] r[i]).start <= (#[trigger] r[j]).start by {
            if j < q.len() {
                assert(r[i] == q[i] && r[j] == q[j]);
            } else {
                assert(r[i] == q[i]);
                assert(r[j] == sorted.last());
                if q[i] != x {
                    let k = choose|k: int| 0 <= k < d.len() && q[i] == d[k];
                    assert(sorted[k] == d[k]);
                    assert(sorted[k].start <= sorted[sorted.len() - 1].start);
                }
            }
        }
    }
}

/// Sorting keeps the spans [`span_ok`] and sorts their starts.
pub proof fn lemma_sorted_spans(s: Seq<HlSpan>, len: nat)
    requires
        spans_ok(s, len),
    ensures
        spans_ok(sorted_by_start(s), len),
        starts_sorted(sorted_by_start(s)),
    decreases s.len(),
{
    if s.len() > 0 {
        let d = s.drop_last();
        assert(spans_ok(d, len)) by {
            assert forall|i: int| 0 <= i < d.len() implies span_ok(#[trigger] d[i], len) by {
                assert(d[i] == s[i]);
            }
        }
        lemma_sorted_spans(d, len);
        lemma_insert_facts(sorted_by_start(d), s.last());
        let r = sorted_by_start(s);
        assert forall|i: int| 0 <= i < r.len() implies span_ok(#[trigger] r[i], len) by {
            if r[i] != s.last() {
                let j = choose|j: int| 0 <= j < sorted_by_start(d).len() && r[i] == sorted_by_start(d)[j];
                assert(span_ok(sorted_by_start(d)[j], len));
            } else {
                assert(span_ok(s[s.len() - 1], len));
            }
        }
    }
}

/// Classified tokens that start no later than they end give spans that
/// are [`span_ok`]: no classified span is plain text.
pub proof fn lemma_classified_ok(t: Seq<LeafToken>, len: nat)
    requires
        tokens_ordered(t, len),
    ensures
        spans_ok(classified(t), len),
    decreases t.len(),
{
    if t.len() > 0 {
        let d = t.drop_last();
        assert(tokens_ordered(d, len)) by {
            assert forall|i: int| 0 <= i < d.len() implies (#[trigger] d[i]).start <= d[i].end && d[i].end <= len by {
                assert(d[i] == t[i]);
            }
        }
        lemma_classified_ok(d, len);
        assert(t[t.len() - 1].start <= t[t.len() - 1].end && t[t.len() - 1].end <= len);
        let c = classified(t);
        assert forall|i: int| 0 <= i < c.len() implies span_ok(#[trigger] c[i], len) by {
            if i < classified(d).len() {
                assert(c[i] == classified(d)[i]);
            }
        }
    }
}

/// Inserts `x` into `v` after every span that starts no later.
fn insert_span(v: &mut Vec<HlSpan>, x: HlSpan)
    ensures
        final(v)@ == insert_by_start(old(v)@, x),
{
    let mut k = v.len();
    let ghost orig = v@;
    assert(orig.take(k as int) =~= orig);
    while k > 0 && v[k - 1].start > x.start
        invariant
            v@ == orig,
            k <= orig.len(),
            insert_by_start(orig, x) == insert_by_start(orig.take(k as int), x) + orig.skip(k as int),
        decreases k,
    {
        let ghost pre = orig.take(k as int);
        assert(pre.drop_last() =~= orig.take(k - 1));
        assert(pre.last() == orig[k - 1]);
        assert(seq![orig[k - 1]] + orig.skip(k as int) =~= orig.skip(k - 1));
        assert(insert_by_start(orig.take(k - 1), x).push(orig[k - 1]) + orig.skip(k as int)
            =~= insert_by_start(orig.take(k - 1), x) + orig.skip(k - 1));
        k = k - 1;
    }
    assert(insert_by_start(orig.take(k as int), x) == orig.take(k as int).push(x)) by {
        if k > 0 {
            assert(orig.take(k as int).last() == orig[k - 1]);
        }
    }
    v.insert(k, x);
    assert(v@ =~= orig.take(k as int).push(x) + orig.skip(k as int));
}

/// The highlight spans of a tree's leaf tokens: each classified token,
/// stably sorted by start.
pub fn spans_of_leaves(tokens: &Vec<LeafToken>) -> (r: Vec<HlSpan>)
    ensures
        r@ == sorted_by_start(classified(tokens@)),
{
    let mut out: Vec<HlSpan> = Vec::new();
    let ghost mut done: Seq<HlSpan> = seq![];
    let mut i: usize = 0;
    while i < tokens.len()
        invariant
            i <= tokens@.len(),
            out@ == sorted_by_start(classified(tokens@.take(i as int))),
        decreases tokens@.len() - i,
    {
        assert(tokens@.take(i + 1).drop_last() =~= tokens@.take(i as int));
        assert(tokens@.take(i + 1).last() == tokens@[i as int]);
        let t = &tokens[i];
        let parent = match &t.parent_kind {
            Some(p) => Some(p.as_str()),
            None => None,
        };
        match classify(t.kind.as_str(), parent, t.is_named) {
            Some(k) => {
                let span = HlSpan { start: t.start, end: t.end, kind: k };
                let ghost before = classified(tokens@.take(i as int));
                assert(classified(tokens@.take(i + 1)) == before.push(span));
                assert(before.push(span).drop_last() =~= before);
                insert_span(&mut out, span);
            },
            None => {
                assert(classified(tokens@.take(i + 1)) == classified(tokens@.take(i as int)));
            },
        }
        i = i + 1;
    }
    assert(tokens@.take(tokens@.len() as int) =~= tokens@);
    out
}

/// No character of `h` is the first of `t`, so `t` does not occur in `h`.
proof fn lemma_absent(h: Seq<char>, t: Seq<char>)
    requires
        t.len() > 0,
        forall|i: int| 0 <= i < h.len() ==> h[i] != t[0],
    ensures
        !contains_text(h, t),
{
    if contains_text(h, t) {
        let i = choose|i: int| 0 <= i && i + t.len() <= h.len() && #[trigger] h.subrange(i, i + t.len()) == t;
        assert(h.subrange(i, i + t.len())[0] == h[i]);
    }
}

/// An identifier is highlighted as a function exactly when it names a
/// call (`call_expression`, `call`) or a function definition
/// (`function_item`, `function_definition`); otherwise as a plain
/// identifier, named or not.
pub proof fn law_identifiers_name_functions_in_calls_and_definitions(parent: Seq<char>, is_named: bool)
    ensures
        classify_of("identifier"@, parent, is_named) == Some(
            if parent == "call_expression"@ || parent == "call"@ || parent == "function_item"@ || parent
                == "function_definition"@ {
                HlKind::Function
            } else {
                HlKind::Ident
            },
        ),
        classify_of("identifier"@, "function_definition"@, is_named) == Some(HlKind::Function),
        classify_of("identifier"@, "function_item"@, is_named) == Some(HlKind::Function),
        classify_of("identifier"@, "call"@, is_named) == Some(HlKind::Function),
        classify_of("identifier"@, "call_expression"@, is_named) == Some(HlKind::Function),
{
    reveal_strlit("identifier");
    reveal_strlit("comment");
    reveal_strlit("string");
    reveal_strlit("integer");
    reveal_strlit("float");
    reveal_strlit("char_literal");
    reveal_strlit("number");
    reveal_strlit("type_identifier");
    reveal_strlit("primitive_type");
    let k = "identifier"@;
    assert(k.len() == 10 && k[0] == 'i' && k[1] == 'd' && k[2] == 'e' && k[3] == 'n' && k[4] == 't' && k[5] == 'i'
        && k[6] == 'f' && k[7] == 'i' && k[8] == 'e' && k[9] == 'r');
    lemma_absent(k, "comment"@);
    lemma_absent(k, "string"@);
    if contains_text(k, "integer"@) {
        let i = choose|i: int| 0 <= i && i + 7 <= k.len() && #[trigger] k.subrange(i, i + 7) == "integer"@;
        assert(k.subrange(i, i + 7)[0] == k[i]);
        assert(k.subrange(i, i + 7)[1] == k[i + 1]);
    }
    if contains_text(k, "float"@) {
        let i = choose|i: int| 0 <= i && i + 5 <= k.len() && #[trigger] k.subrange(i, i + 5) == "float"@;
        assert(k.subrange(i, i + 5)[0] == k[i]);
    }
    assert(k != "char_literal"@);
    assert(k != "number"@);
    assert(k != "type_identifier"@);
    assert(k != "primitive_type"@);
}

} // verus!
