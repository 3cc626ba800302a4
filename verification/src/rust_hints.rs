//! What the Rust graph builder infers about the type of a local binding:
//! from a type annotation, read under a node budget, or from the call that
//! produced the value.

use vstd::prelude::*;
use crate::fields::{trim, trim_chars};
use crate::hints::{
    args_view, lemma_args_view_index, lemma_args_view_push, type_view, RustTypeHint, TypeView, MAX_RECEIVER_HINT_NODES,
};
use crate::paths::last_segment_of;
use crate::strmap::str_eq;
use crate::tree::{field_index, first_named_from, lemma_field_index, lemma_first_named_from, SyntaxNode};
use crate::words::{binding_of, is_ident_char, last_ident, qualifier_binding, strip_all};
use crate::hints::{
    clone_budget, clone_hint, clone_type_hint, hint_view, target_view, CallTargetRef, HintView, ReceiverHint,
    TargetView,
};
use crate::py_hints::{char_is_uppercase, is_uppercase_char};
use crate::py_scopes::field_text_of;
use crate::strmap::StrMap;
use crate::text::{chars_of, string_of, push_str};
use crate::tree::field_text;

verus! {

/// An optional type hint as text.
pub open spec fn opt_type_view(h: Option<RustTypeHint>) -> Option<TypeView> {
    match h {
        Some(t) => Some(type_view(t)),
        None => None,
    }
}

/// The kinds that only wrap another type.
pub open spec fn wrapping_type_kind(k: Seq<char>) -> bool {
    k == "reference_type"@ || k == "pointer_type"@ || k == "parenthesized_type"@
}

/// The kinds that name a type outright.
pub open spec fn named_type_kind(k: Seq<char>) -> bool {
    k == "type_identifier"@ || k == "primitive_type"@ || k == "scoped_type_identifier"@
}

/// The type hint of a type node read with `budget` nodes to spend, and
/// the budget left. Every node visited costs one, whether or not it yields
/// a hint; a wrapper (`&T`, `*const T`, `(T)`) yields its inner type, a
/// generic type its last path segment with the hints of its arguments, a
/// named type its last path segment.
pub open spec fn type_hint_budget(n: SyntaxNode, budget: nat) -> (Option<TypeView>, nat)
    decreases n, n.children@.len() + 1,
{
    if budget == 0 {
        (None, 0)
    } else {
        let b = (budget - 1) as nat;
        let ch = n.children@;
        proof {
            lemma_field_index(ch, "type"@);
            lemma_field_index(ch, "type_arguments"@);
            lemma_first_named_from(ch, 0);
        }
        if wrapping_type_kind(n.kind@) {
            let inner = match field_index(ch, "type"@) {
                Some(i) => Some(i),
                None => first_named_from(ch, 0),
            };
            match inner {
                Some(i) => type_hint_budget(ch[i], b),
                None => (None, b),
            }
        } else if n.kind@ == "generic_type"@ {
            match (field_index(ch, "type"@), field_index(ch, "type_arguments"@)) {
                (Some(t), Some(a)) => {
                    let (args, rest) = type_args_budget(ch[a], 0, b, seq![]);
                    (Some(TypeView { name: trim(last_segment_of(ch[t].text@)), generic_arguments: args }), rest)
                },
                _ => (None, b),
            }
        } else if named_type_kind(n.kind@) {
            (Some(TypeView { name: trim(last_segment_of(n.text@)), generic_arguments: seq![] }), b)
        } else {
            (None, b)
        }
    }
}

/// The hints of the named type arguments from position `j` on, appended
/// to `acc`, with the budget left.
pub open spec fn type_args_budget(a: SyntaxNode, j: int, budget: nat, acc: Seq<TypeView>) -> (Seq<TypeView>, nat)
    decreases a, a.children@.len() - j,
{
    if j < 0 || j >= a.children@.len() {
        (acc, budget)
    } else if a.children@[j].named {
        let (h, rest) = type_hint_budget(a.children@[j], budget);
        type_args_budget(
            a,
            j + 1,
            rest,
            match h {
                Some(v) => acc.push(v),
                None => acc,
            },
        )
    } else {
        type_args_budget(a, j + 1, budget, acc)
    }
}

/// Reads a type hint within the budget, as [`type_hint_budget`] says.
fn type_hint_with_budget(n: &SyntaxNode, budget: &mut usize) -> (r: Option<RustTypeHint>)
    ensures
        (opt_type_view(r), *final(budget) as nat) == type_hint_budget(*n, *old(budget) as nat),
    decreases n, n.children@.len() + 1,
{
    if *budget == 0 {
        return None;
    }
    *budget = *budget - 1;
    let ghost b = *budget as nat;
    let ghost ch = n.children@;
    proof {
        lemma_field_index(ch, "type"@);
        lemma_field_index(ch, "type_arguments"@);
        lemma_first_named_from(ch, 0);
    }
    let kind = n.kind.as_str();
    if str_eq(kind, "reference_type") || str_eq(kind, "pointer_type") || str_eq(kind, "parenthesized_type") {
        let inner = match n.field_position("type") {
            Some(i) => Some(i),
            None => {
                let mut i: usize = 0;
                while i < n.children.len() && !n.children[i].named
                    invariant
                        i <= n.children@.len(),
                        first_named_from(n.children@, 0) == first_named_from(n.children@, i as int),
                    decreases n.children@.len() - i,
                {
                    i = i + 1;
                }
                if i < n.children.len() {
                    Some(i)
                } else {
                    None
                }
            },
        };
        match inner {
            Some(i) => type_hint_with_budget(&n.children[i], budget),
            None => None,
        }
    } else if str_eq(kind, "generic_type") {
        match (n.field_position("type"), n.field_position("type_arguments")) {
            (Some(t), Some(a)) => {
                let args_node = &n.children[a];
                let mut args: Vec<RustTypeHint> = Vec::new();
                let mut j: usize = 0;
                while j < args_node.children.len()
                    invariant
                        j <= args_node.children@.len(),
                        a < n.children@.len(),
                        *args_node == n.children@[a as int],
                        type_args_budget(*args_node, j as int, *budget as nat, args_view(args@, args@.len()))
                            == type_args_budget(*args_node, 0, b, seq![]),
                    decreases args_node.children@.len() - j,
                {
                    if args_node.children[j].named {
                        proof {
                            assert(decreases_to!(*n => n.children@[a as int]));
                            assert(decreases_to!(n.children@[a as int] => args_node.children@[j as int]));
                        }
                        let h = type_hint_with_budget(&args_node.children[j], budget);
                        match h {
                            Some(c) => {
                                proof {
                                    lemma_args_view_push(args@, c, args@.len());
                                    assert(args@.push(c)[args@.len() as int] == c);
                                }
                                args.push(c);
                            },
                            None => {},
                        }
                    }
                    j = j + 1;
                }
                let name = last_ident(n.children[t].text.as_str());
                Some(RustTypeHint { name, generic_arguments: args })
            },
            _ => None,
        }
    } else if str_eq(kind, "type_identifier") || str_eq(kind, "primitive_type") || str_eq(
        kind,
        "scoped_type_identifier",
    ) {
        Some(RustTypeHint::named(last_ident(n.text.as_str()).as_str()))
    } else {
        None
    }
}

/// The type hint of a type annotation, reading at most
/// [`MAX_RECEIVER_HINT_NODES`] nodes of it.
pub fn rust_type_hint(type_node: &SyntaxNode) -> (r: Option<RustTypeHint>)
    ensures
        opt_type_view(r) == type_hint_budget(*type_node, 16).0,
{
    let mut budget: usize = MAX_RECEIVER_HINT_NODES;
    type_hint_with_budget(type_node, &mut budget)
}

/// The number of nodes of a type hint.
pub open spec fn type_nodes(t: TypeView) -> nat
    decreases t, 0nat,
{
    1 + args_nodes(t.generic_arguments, t.generic_arguments.len())
}

/// The number of nodes of the first `n` type hints.
pub open spec fn args_nodes(s: Seq<TypeView>, n: nat) -> nat
    decreases s, n,
{
    if n == 0 || n > s.len() {
        0
    } else {
        args_nodes(s, (n - 1) as nat) + type_nodes(s[n - 1])
    }
}

/// The number of nodes of an optional type hint.
pub open spec fn opt_type_nodes(t: Option<TypeView>) -> nat {
    match t {
        Some(v) => type_nodes(v),
        None => 0,
    }
}

proof fn lemma_args_nodes_push(s: Seq<TypeView>, v: TypeView, n: nat)
    requires
        n <= s.len(),
    ensures
        args_nodes(s.push(v), n) == args_nodes(s, n),
    decreases n,
{
    if n > 0 {
        lemma_args_nodes_push(s, v, (n - 1) as nat);
        assert(s.push(v)[n - 1] == s[n - 1]);
    }
}

proof fn lemma_type_args_bound(a: SyntaxNode, j: int, budget: nat, acc: Seq<TypeView>)
    ensures
        args_nodes(type_args_budget(a, j, budget, acc).0, type_args_budget(a, j, budget, acc).0.len())
            + type_args_budget(a, j, budget, acc).1 <= args_nodes(acc, acc.len()) + budget,
    decreases a, a.children@.len() - j,
{
    if 0 <= j < a.children@.len() {
        if a.children@[j].named {
            let (h, rest) = type_hint_budget(a.children@[j], budget);
            law_type_hint_budget_bounds(a.children@[j], budget);
            match h {
                Some(v) => {
                    lemma_args_nodes_push(acc, v, acc.len());
                    assert(acc.push(v)[acc.len() as int] == v);
                    lemma_type_args_bound(a, j + 1, rest, acc.push(v));
                },
                None => {
                    lemma_type_args_bound(a, j + 1, rest, acc);
                },
            }
        } else {
            lemma_type_args_bound(a, j + 1, budget, acc);
        }
    }
}

/// However deeply a type nests, the hint read from it has no more nodes
/// than the budget it was read with.
pub proof fn law_type_hint_budget_bounds(n: SyntaxNode, budget: nat)
    ensures
        opt_type_nodes(type_hint_budget(n, budget).0) + type_hint_budget(n, budget).1 <= budget,
    decreases n, n.children@.len() + 1,
{
    if budget > 0 {
        let b = (budget - 1) as nat;
        let ch = n.children@;
        lemma_field_index(ch, "type"@);
        lemma_field_index(ch, "type_arguments"@);
        lemma_first_named_from(ch, 0);
        if wrapping_type_kind(n.kind@) {
            let inner = match field_index(ch, "type"@) {
                Some(i) => Some(i),
                None => first_named_from(ch, 0),
            };
            match inner {
                Some(i) => law_type_hint_budget_bounds(ch[i], b),
                None => {},
            }
        } else if n.kind@ == "generic_type"@ {
            match (field_index(ch, "type"@), field_index(ch, "type_arguments"@)) {
                (Some(t), Some(a)) => {
                    lemma_type_args_bound(ch[a], 0, b, seq![]);
                },
                _ => {},
            }
        }
    }
}

// ---------------------------------------------------------------- call targets

/// The position of the last `.` or `:` of `t`.
pub open spec fn last_call_sep(t: Seq<char>) -> Option<int>
    decreases t.len(),
{
    if t.len() == 0 {
        None
    } else if t.last() == '.' || t.last() == ':' {
        Some(t.len() - 1)
    } else {
        last_call_sep(t.drop_last())
    }
}

proof fn lemma_last_call_sep(t: Seq<char>)
    ensures
        match last_call_sep(t) {
            Some(i) => 0 <= i < t.len() && (t[i] == '.' || t[i] == ':') && forall|j: int|
                i < j < t.len() ==> t[j] != '.' && t[j] != ':',
            None => forall|j: int| 0 <= j < t.len() ==> t[j] != '.' && t[j] != ':',
        },
    decreases t.len(),
{
    if t.len() > 0 && !(t.last() == '.' || t.last() == ':') {
        lemma_last_call_sep(t.drop_last());
        assert forall|j: int| 0 <= j < t.len() - 1 implies t[j] == t.drop_last()[j] by {}
    }
}

/// `t` without its trailing colons.
pub open spec fn strip_colons_end(t: Seq<char>) -> Seq<char>
    decreases t.len(),
{
    if t.len() > 0 && t.last() == ':' {
        strip_colons_end(t.drop_last())
    } else {
        t
    }
}

/// The called name and its receiver or path, read from the text of a
/// call's function: the trimmed text after the last `.` or `:`, and the
/// trimmed text before it without trailing colons (none when empty).
pub open spec fn callee_of_text(text: Seq<char>) -> Option<(Seq<char>, Option<Seq<char>>)> {
    let (qualifier, last) = match last_call_sep(text) {
        Some(i) => (Some(trim(strip_colons_end(text.take(i)))), trim(text.skip(i + 1))),
        None => (None, trim(text)),
    };
    if last.len() == 0 {
        None
    } else {
        Some(
            (
                last,
                match qualifier {
                    Some(q) => if q.len() > 0 {
                        Some(q)
                    } else {
                        None
                    },
                    None => None,
                },
            ),
        )
    }
}

/// The call target of a call expression.
pub open spec fn callee_of(call: SyntaxNode) -> Option<(Seq<char>, Option<Seq<char>>)> {
    match field_text(call, "function"@) {
        Some(t) => callee_of_text(t),
        None => None,
    }
}

/// The characters of `cs` from `lo` up to `hi`.
fn chars_between(cs: &Vec<char>, lo: usize, hi: usize) -> (r: Vec<char>)
    requires
        lo <= hi <= cs@.len(),
    ensures
        r@ == cs@.subrange(lo as int, hi as int),
{
    let mut out: Vec<char> = Vec::new();
    let mut i: usize = lo;
    while i < hi
        invariant
            lo <= i <= hi <= cs@.len(),
            out@ == cs@.subrange(lo as int, i as int),
        decreases hi - i,
    {
        out.push(cs[i]);
        i = i + 1;
        assert(out@ =~= cs@.subrange(lo as int, i as int));
    }
    out
}

/// The called name of a call expression and its receiver or path, as
/// [`callee_of`] says.
pub fn callee_target(call: &SyntaxNode) -> (r: Option<(String, Option<String>)>)
    ensures
        match r {
            Some((c, q)) => callee_of(*call) == Some((c@, match q {
                Some(x) => Some(x@),
                None => None::<Seq<char>>,
            })),
            None => callee_of(*call) is None,
        },
{
    let text = match field_text_of(call, "function") {
        Some(t) => t,
        None => return None,
    };
    let cs = chars_of(text.as_str());
    let mut k = cs.len();
    assert(cs@.take(k as int) =~= cs@);
    while k > 0 && cs[k - 1] != '.' && cs[k - 1] != ':'
        invariant
            k <= cs@.len(),
            cs@ == text@,
            last_call_sep(cs@) == last_call_sep(cs@.take(k as int)),
        decreases k,
    {
        assert(cs@.take(k as int).drop_last() =~= cs@.take(k - 1));
        k = k - 1;
    }
    let (qualifier, last) = if k == 0 {
        assert(cs@.take(0) =~= Seq::<char>::empty());
        (None, trim_chars(&cs))
    } else {
        assert(last_call_sep(cs@.take(k as int)) == Some(k - 1));
        let i = k - 1;
        let mut e = i;
        while e > 0 && cs[e - 1] == ':'
            invariant
                e <= i < cs@.len(),
                strip_colons_end(cs@.take(i as int)) == strip_colons_end(cs@.take(e as int)),
            decreases e,
        {
            assert(cs@.take(e as int).drop_last() =~= cs@.take(e - 1));
            e = e - 1;
        }
        assert(strip_colons_end(cs@.take(e as int)) == cs@.take(e as int));
        let head = chars_between(&cs, 0, e);
        assert(head@ =~= cs@.take(e as int));
        let tail = chars_between(&cs, i + 1, cs.len());
        assert(tail@ =~= cs@.skip(i + 1));
        (Some(trim_chars(&head)), trim_chars(&tail))
    };
    if last.as_str().is_empty() {
        return None;
    }
    let q = match qualifier {
        Some(x) => if x.as_str().is_empty() {
            None
        } else {
            Some(x)
        },
        None => None,
    };
    Some((last, q))
}

// ---------------------------------------------------------------- receiver hints

/// The receiver hints of a map, as text.
pub open spec fn hints_view(m: Map<Seq<char>, ReceiverHint>) -> Map<Seq<char>, HintView> {
    m.map_values(|h: ReceiverHint| hint_view(h))
}

/// An optional receiver hint as text.
pub open spec fn opt_hint_view(h: Option<ReceiverHint>) -> Option<HintView> {
    match h {
        Some(x) => Some(hint_view(x)),
        None => None,
    }
}

/// A hint as copied out of a map: a factory chain keeps at most
/// [`MAX_RECEIVER_HINT_NODES`] nodes.
pub open spec fn bounded_hint(h: HintView) -> HintView {
    match h {
        HintView::ReturnOf(f) => HintView::ReturnOf(clone_budget(f, 16).0->Some_0),
        _ => h,
    }
}

/// Copies a hint out of a map.
pub(crate) fn copy_hint(h: &ReceiverHint) -> (r: ReceiverHint)
    ensures
        hint_view(r) == bounded_hint(hint_view(*h)),
{
    h.bounded_clone()
}

/// The text starts with an uppercase character.
pub open spec fn upper_start(s: Seq<char>) -> bool {
    s.len() > 0 && is_uppercase_char(s[0])
}

pub(crate) fn starts_upper(s: &str) -> (r: bool)
    ensures
        r == upper_start(s@),
{
    let cs = chars_of(s);
    cs.len() > 0 && char_is_uppercase(cs[0])
}

/// Calls through which a value passes unchanged for typing purposes.
pub open spec fn passes_value(callee: Seq<char>) -> bool {
    callee == "unwrap"@ || callee == "expect"@ || callee == "map_err"@ || callee == "inspect"@ || callee
        == "inspect_err"@ || callee == "context"@ || callee == "with_context"@
}

/// The kinds an expression is looked through: `?`, `&` and parentheses.
pub open spec fn see_through_kind(k: Seq<char>) -> bool {
    k == "try_expression"@ || k == "reference_expression"@ || k == "parenthesized_expression"@
}

/// A type hint naming `name` with no arguments.
pub open spec fn named_view(name: Seq<char>) -> HintView {
    HintView::Type(TypeView { name, generic_arguments: seq![] })
}

/// The position of the only named child, if there is exactly one.
pub open spec fn only_named(ch: Seq<SyntaxNode>) -> Option<int> {
    match first_named_from(ch, 0) {
        Some(k) => if first_named_from(ch, k + 1) is None {
            Some(k)
        } else {
            None
        },
        None => None,
    }
}

/// What is known about the value of an expression: looking through `?`,
/// `&` and parentheses, the hint of the call that computes it.
pub open spec fn inferred_hint(value: SyntaxNode, hints: Map<Seq<char>, HintView>) -> Option<HintView>
    decreases value, 2nat,
{
    let ch = value.children@;
    proof {
        lemma_first_named_from(ch, 0);
    }
    if see_through_kind(value.kind@) && first_named_from(ch, 0) is Some {
        inferred_hint(ch[first_named_from(ch, 0)->0], hints)
    } else {
        call_hint(value, hints)
    }
}

/// The hint of a call expression: a `clone` copies its receiver's hint,
/// `unwrap` and its kin pass their receiver's hint on, a capitalized callee
/// or path names a type, and any other call is recorded as the factory
/// whose return type the value has, with what is known of its receiver or,
/// for a plain call, of its single argument.
pub open spec fn call_hint(v: SyntaxNode, hints: Map<Seq<char>, HintView>) -> Option<HintView>
    decreases v, 1nat,
{
    let ch = v.children@;
    proof {
        lemma_field_index(ch, "function"@);
        lemma_field_index(ch, "arguments"@);
    }
    if v.kind@ != "call_expression"@ {
        None
    } else {
        match callee_of(v) {
            None => None,
            Some((callee, qualifier)) => if callee == "clone"@ {
                match qualifier {
                    Some(q) => if hints.contains_key(binding_of(q)) {
                        Some(bounded_hint(hints[binding_of(q)]))
                    } else {
                        None
                    },
                    None => None,
                }
            } else {
                let passed: Option<Option<HintView>> = if passes_value(callee) {
                    match field_index(ch, "function"@) {
                        None => Some(None),
                        Some(f) => if ch[f].kind@ == "field_expression"@ {
                            proof {
                                lemma_field_index(ch[f].children@, "value"@);
                            }
                            match field_index(ch[f].children@, "value"@) {
                                None => Some(None),
                                Some(r) => match inferred_hint(ch[f].children@[r], hints) {
                                    Some(h) => Some(Some(h)),
                                    None => None,
                                },
                            }
                        } else {
                            None
                        },
                    }
                } else {
                    None
                };
                match passed {
                    Some(res) => res,
                    None => if upper_start(callee) {
                        Some(named_view(callee))
                    } else {
                        let binding = match qualifier {
                            Some(q) => Some(binding_of(q)),
                            None => None,
                        };
                        if binding is Some && upper_start(binding->0) {
                            Some(named_view(binding->0))
                        } else {
                            let (receiver_type, receiver_factory): (Option<Seq<char>>, Option<TargetView>) =
                                match binding {
                                Some(b) => if hints.contains_key(b) {
                                    match hints[b] {
                                        HintView::Type(t) => (Some(t.name), None),
                                        HintView::ReturnOf(f) => (None, clone_budget(f, 16).0),
                                        HintView::Unresolved => (None, None),
                                    }
                                } else {
                                    (None, None)
                                },
                                None => (None, None),
                            };
                            let fallback = if qualifier is None {
                                single_argument_hint(v, hints)
                            } else {
                                None
                            };
                            let (fallback_type, fallback_factory): (Option<Seq<char>>, Option<TargetView>) =
                                match fallback {
                                Some(HintView::Type(t)) => (Some(t.name), None),
                                Some(HintView::ReturnOf(f)) => (None, Some(f)),
                                _ => (None, None),
                            };
                            Some(
                                HintView::ReturnOf(
                                    TargetView {
                                        callee,
                                        qualifier,
                                        receiver_type,
                                        receiver_factory: match receiver_factory {
                                            Some(x) => Some(Box::new(x)),
                                            None => None,
                                        },
                                        fallback_type,
                                        fallback_factory: match fallback_factory {
                                            Some(x) => Some(Box::new(x)),
                                            None => None,
                                        },
                                    },
                                ),
                            )
                        }
                    },
                }
            },
        }
    }
}

/// The hint of a call's only argument, when it has exactly one.
pub open spec fn single_argument_hint(call: SyntaxNode, hints: Map<Seq<char>, HintView>) -> Option<HintView>
    decreases call, 0nat,
{
    let ch = call.children@;
    proof {
        lemma_field_index(ch, "arguments"@);
    }
    match field_index(ch, "arguments"@) {
        Some(a) => {
            proof {
                lemma_first_named_from(ch[a].children@, 0);
            }
            match only_named(ch[a].children@) {
                Some(k) => inferred_hint(ch[a].children@[k], hints),
                None => None,
            }
        },
        None => None,
    }
}

/// Infers what is known about the value of an expression, as
/// [`inferred_hint`] says.
pub fn infer_rust_receiver_hint(value: &SyntaxNode, hints: &StrMap<ReceiverHint>) -> (r: Option<ReceiverHint>)
    ensures
        opt_hint_view(r) == inferred_hint(*value, hints_view(hints.view())),
    decreases value, 2nat,
{
    proof {
        lemma_first_named_from(value.children@, 0);
    }
    let kind = value.kind.as_str();
    if str_eq(kind, "try_expression") || str_eq(kind, "reference_expression") || str_eq(kind, "parenthesized_expression") {
        let mut i: usize = 0;
        while i < value.children.len() && !value.children[i].named
            invariant
                i <= value.children@.len(),
                first_named_from(value.children@, 0) == first_named_from(value.children@, i as int),
            decreases value.children@.len() - i,
        {
            i = i + 1;
        }
        if i < value.children.len() {
            return infer_rust_receiver_hint(&value.children[i], hints);
        }
    }
    call_receiver_hint(value, hints)
}

/// The hint of a call's only argument, as [`single_argument_hint`] says.
pub fn single_rust_argument_hint(call: &SyntaxNode, hints: &StrMap<ReceiverHint>) -> (r: Option<ReceiverHint>)
    ensures
        opt_hint_view(r) == single_argument_hint(*call, hints_view(hints.view())),
    decreases call, 0nat,
{
    proof {
        lemma_field_index(call.children@, "arguments"@);
    }
    let a = match call.field_position("arguments") {
        Some(a) => a,
        None => return None,
    };
    let args = &call.children[a];
    proof {
        lemma_first_named_from(args.children@, 0);
    }
    let mut k: usize = 0;
    while k < args.children.len() && !args.children[k].named
        invariant
            k <= args.children@.len(),
            first_named_from(args.children@, 0) == first_named_from(args.children@, k as int),
        decreases args.children@.len() - k,
    {
        k = k + 1;
    }
    if k == args.children.len() {
        return None;
    }
    let mut j: usize = k + 1;
    while j < args.children.len() && !args.children[j].named
        invariant
            k < j <= args.children@.len(),
            first_named_from(args.children@, k + 1) == first_named_from(args.children@, j as int),
        decreases args.children@.len() - j,
    {
        j = j + 1;
    }
    if j < args.children.len() {
        return None;
    }
    proof {
        assert(decreases_to!(*call => call.children@[a as int]));
        assert(decreases_to!(call.children@[a as int] => args.children@[k as int]));
    }
    infer_rust_receiver_hint(&args.children[k], hints)
}

/// The hint of a call expression, as [`call_hint`] says.
fn call_receiver_hint(v: &SyntaxNode, hints: &StrMap<ReceiverHint>) -> (r: Option<ReceiverHint>)
    ensures
        opt_hint_view(r) == call_hint(*v, hints_view(hints.view())),
    decreases v, 1nat,
{
    let ghost hv = hints_view(hints.view());
    proof {
        lemma_field_index(v.children@, "function"@);
    }
    if !str_eq(v.kind.as_str(), "call_expression") {
        return None;
    }
    let (callee, qualifier) = match callee_target(v) {
        Some(x) => x,
        None => return None,
    };
    if str_eq(callee.as_str(), "clone") {
        return match &qualifier {
            Some(q) => {
                let b = qualifier_binding(q.as_str());
                match hints.get(b.as_str()) {
                    Some(h) => Some(copy_hint(h)),
                    None => None,
                }
            },
            None => None,
        };
    }
    let c = callee.as_str();
    if str_eq(c, "unwrap") || str_eq(c, "expect") || str_eq(c, "map_err") || str_eq(c, "inspect") || str_eq(
        c,
        "inspect_err",
    ) || str_eq(c, "context") || str_eq(c, "with_context") {
        match v.field_position("function") {
            None => return None,
            Some(f) => {
                let func = &v.children[f];
                if str_eq(func.kind.as_str(), "field_expression") {
                    proof {
                        lemma_field_index(func.children@, "value"@);
                    }
                    match func.field_position("value") {
                        None => return None,
                        Some(r) => {
                            proof {
                                assert(decreases_to!(*v => v.children@[f as int]));
                                assert(decreases_to!(v.children@[f as int] => func.children@[r as int]));
                            }
                            match infer_rust_receiver_hint(&func.children[r], hints) {
                                Some(h) => return Some(h),
                                None => {},
                            }
                        },
                    }
                }
            },
        }
    }
    if starts_upper(c) {
        return Some(ReceiverHint::Type(RustTypeHint::named(c)));
    }
    let binding: Option<String> = match &qualifier {
        Some(q) => Some(qualifier_binding(q.as_str())),
        None => None,
    };
    match &binding {
        Some(b) => if starts_upper(b.as_str()) {
            return Some(ReceiverHint::Type(RustTypeHint::named(b.as_str())));
        },
        None => {},
    }
    let (receiver_type, receiver_factory): (Option<String>, Option<Box<CallTargetRef>>) = match &binding {
        Some(b) => match hints.get(b.as_str()) {
            Some(ReceiverHint::Type(t)) => (Some(t.name.clone()), None),
            Some(ReceiverHint::ReturnOf(f)) => (None, Some(Box::new(f.bounded_clone()))),
            _ => (None, None),
        },
        None => (None, None),
    };
    let fallback = match &qualifier {
        None => single_rust_argument_hint(v, hints),
        Some(_) => None,
    };
    let (fallback_type, fallback_factory): (Option<String>, Option<Box<CallTargetRef>>) = match fallback {
        Some(ReceiverHint::Type(t)) => (Some(t.name), None),
        Some(ReceiverHint::ReturnOf(f)) => (None, Some(Box::new(f))),
        _ => (None, None),
    };
    let r = CallTargetRef { callee, qualifier, receiver_type, receiver_factory, fallback_type, fallback_factory };
    Some(ReceiverHint::ReturnOf(r))
}

// ---------------------------------------------------------------- recording hints

/// `s` with every leading copy of `p` taken off, as [`strip_all`] says.
pub fn strip_prefix_all(s: &str, p: &str) -> (r: String)
    ensures
        r@ == strip_all(s@, p@),
{
    let cs = chars_of(s);
    let ps = chars_of(p);
    let n = cs.len();
    let m = ps.len();
    let mut k: usize = 0;
    assert(cs@.skip(0) =~= cs@);
    if m == 0 {
        return string_of(cs.as_slice());
    }
    loop
        invariant
            k <= n,
            n == cs@.len(),
            m == ps@.len(),
            m > 0,
            cs@ == s@,
            ps@ == p@,
            strip_all(s@, p@) == strip_all(cs@.skip(k as int), p@),
        decreases n - k,
    {
        let mut matched = n - k >= m;
        let mut i: usize = 0;
        while matched && i < m
            invariant
                k <= n,
                n == cs@.len(),
                m == ps@.len(),
                i <= m,
                matched ==> k + m <= n,
                matched ==> forall|j: int| 0 <= j < i ==> cs@[k + j] == ps@[j],
                !matched ==> !ps@.is_prefix_of(cs@.skip(k as int)),
            decreases m - i + (if matched { 1int } else { 0int }),
        {
            if cs[k + i] != ps[i] {
                assert(cs@.skip(k as int)[i as int] == cs@[k + i]);
                matched = false;
            } else {
                i = i + 1;
            }
        }
        if !matched {
            let rest = chars_between(&cs, k, n);
            assert(rest@ =~= cs@.skip(k as int));
            return string_of(rest.as_slice());
        }
        assert(ps@.is_prefix_of(cs@.skip(k as int))) by {
            assert(cs@.skip(k as int).subrange(0, m as int) =~= ps@);
        }
        assert(cs@.skip(k as int).skip(m as int) =~= cs@.skip(k + m));
        k = k + m;
    }
}

/// The name a pattern binds, without `mut`.
pub open spec fn hint_binding(pattern: SyntaxNode) -> Seq<char> {
    strip_all(trim(pattern.text@), "mut "@)
}

/// Every character is an ASCII letter, digit or `_`.
pub open spec fn plain_name(b: Seq<char>) -> bool {
    forall|i: int| 0 <= i < b.len() ==> is_ident_char(#[trigger] b[i])
}

/// `m` with the pattern's name bound to `h`, when the pattern is a plain
/// name.
pub open spec fn with_named_hint(m: Map<Seq<char>, HintView>, pattern: SyntaxNode, h: HintView) -> Map<
    Seq<char>,
    HintView,
> {
    if plain_name(hint_binding(pattern)) {
        m.insert(hint_binding(pattern), h)
    } else {
        m
    }
}

/// `m` with the pattern's name bound to the type an annotation names,
/// when both are readable.
pub open spec fn with_type_hint(m: Map<Seq<char>, HintView>, pattern: SyntaxNode, type_node: SyntaxNode) -> Map<
    Seq<char>,
    HintView,
> {
    match type_hint_budget(type_node, 16).0 {
        Some(t) => with_named_hint(m, pattern, HintView::Type(t)),
        None => m,
    }
}

pub(crate) proof fn lemma_hints_insert(m: Map<Seq<char>, ReceiverHint>, k: Seq<char>, h: ReceiverHint)
    ensures
        hints_view(m.insert(k, h)) == hints_view(m).insert(k, hint_view(h)),
{
    assert(hints_view(m.insert(k, h)) =~= hints_view(m).insert(k, hint_view(h)));
}

/// Whether every character is an ASCII letter, digit or `_`.
fn is_plain_name(b: &str) -> (r: bool)
    ensures
        r == plain_name(b@),
{
    let cs = chars_of(b);
    let mut i: usize = 0;
    while i < cs.len()
        invariant
            i <= cs@.len(),
            cs@ == b@,
            forall|j: int| 0 <= j < i ==> is_ident_char(#[trigger] cs@[j]),
        decreases cs@.len() - i,
    {
        let c = cs[i];
        if !(c == '_' || ('a' <= c && c <= 'z') || ('A' <= c && c <= 'Z') || ('0' <= c && c <= '9')) {
            assert(!is_ident_char(cs@[i as int]));
            return false;
        }
        i = i + 1;
    }
    true
}

/// Binds the pattern's name to `hint`, when the pattern is a plain name.
pub fn record_named_hint(hints: &mut StrMap<ReceiverHint>, pattern: &SyntaxNode, hint: ReceiverHint)
    ensures
        hints_view(final(hints).view()) == with_named_hint(hints_view(old(hints).view()), *pattern, hint_view(hint)),
{
    let t = trim_chars(&chars_of(pattern.text.as_str()));
    let binding = strip_prefix_all(t.as_str(), "mut ");
    if is_plain_name(binding.as_str()) {
        proof {
            lemma_hints_insert(hints.view(), binding@, hint);
        }
        hints.insert(binding, hint);
    }
}

/// Binds the pattern's name to the type its annotation names, when both
/// are readable.
pub fn record_type_hint(hints: &mut StrMap<ReceiverHint>, pattern: &SyntaxNode, type_node: &SyntaxNode)
    ensures
        hints_view(final(hints).view()) == with_type_hint(hints_view(old(hints).view()), *pattern, *type_node),
{
    match rust_type_hint(type_node) {
        Some(t) => record_named_hint(hints, pattern, ReceiverHint::Type(t)),
        None => {},
    }
}

// ---------------------------------------------------------------- function hints

/// The `let` declarations of a subtree in source order, not looking into
/// nested function items.
pub open spec fn lets_in(n: SyntaxNode) -> Seq<SyntaxNode>
    decreases n, n.children@.len() + 1,
{
    if n.kind@ == "let_declaration"@ {
        seq![n] + lets_of_children(n, 0)
    } else if n.kind@ == "function_item"@ {
        seq![]
    } else {
        lets_of_children(n, 0)
    }
}

/// The `let` declarations under the named children from position `j` on.
pub open spec fn lets_of_children(n: SyntaxNode, j: int) -> Seq<SyntaxNode>
    decreases n, n.children@.len() - j,
{
    if j < 0 || j >= n.children@.len() {
        seq![]
    } else {
        (if n.children@[j].named {
            lets_in(n.children@[j])
        } else {
            seq![]
        }) + lets_of_children(n, j + 1)
    }
}

/// The nodes a list of references points to.
pub open spec fn targets(v: Seq<&SyntaxNode>) -> Seq<SyntaxNode> {
    v.map_values(|x: &SyntaxNode| *x)
}

proof fn lemma_targets_push(v: Seq<&SyntaxNode>, x: &SyntaxNode)
    ensures
        targets(v.push(x)) == targets(v) + seq![*x],
{
    assert(targets(v.push(x)) =~= targets(v) + seq![*x]);
}

/// Appends the `let` declarations of a subtree, as [`lets_in`] says.
fn collect_lets<'a>(n: &'a SyntaxNode, out: &mut Vec<&'a SyntaxNode>)
    ensures
        targets(final(out)@) == targets(old(out)@) + lets_in(*n),
    decreases n, n.children@.len() + 1,
{
    let kind = n.kind.as_str();
    if str_eq(kind, "function_item") && !str_eq(kind, "let_declaration") {
        assert(targets(out@) =~= targets(out@) + lets_in(*n));
        return;
    }
    let ghost start = targets(out@);
    if str_eq(kind, "let_declaration") {
        proof {
            lemma_targets_push(out@, n);
        }
        out.push(n);
    }
    let ghost first = targets(out@);
    let mut j: usize = 0;
    while j < n.children.len()
        invariant
            j <= n.children@.len(),
            targets(out@) + lets_of_children(*n, j as int) == first + lets_of_children(*n, 0),
        decreases n.children@.len() - j,
    {
        let ghost before = targets(out@);
        if n.children[j].named {
            collect_lets(&n.children[j], out);
        }
        assert(targets(out@) + lets_of_children(*n, j + 1) =~= before + lets_of_children(*n, j as int));
        j = j + 1;
    }
    assert(targets(out@) =~= targets(out@) + lets_of_children(*n, j as int));
    assert(targets(out@) =~= start + lets_in(*n));
}

/// The hints of a function's parameters from position `j` on: each
/// `parameter` with a pattern and a type.
pub open spec fn parameter_hints(ps: SyntaxNode, j: int, m: Map<Seq<char>, HintView>) -> Map<Seq<char>, HintView>
    decreases ps.children@.len() - j,
{
    if j < 0 || j >= ps.children@.len() {
        m
    } else {
        let c = ps.children@[j];
        let next = if c.named && c.kind@ == "parameter"@ {
            match (field_index(c.children@, "pattern"@), field_index(c.children@, "type"@)) {
                (Some(p), Some(t)) => with_type_hint(m, c.children@[p], c.children@[t]),
                _ => m,
            }
        } else {
            m
        };
        parameter_hints(ps, j + 1, next)
    }
}

/// What one `let` declaration adds: the type it annotates, else what its
/// value is inferred to be.
pub open spec fn declaration_hint(d: SyntaxNode, m: Map<Seq<char>, HintView>) -> Map<Seq<char>, HintView> {
    let ch = d.children@;
    match field_index(ch, "pattern"@) {
        None => m,
        Some(p) => match field_index(ch, "type"@) {
            Some(t) => with_type_hint(m, ch[p], ch[t]),
            None => match field_index(ch, "value"@) {
                None => m,
                Some(v) => match inferred_hint(ch[v], m) {
                    Some(h) => with_named_hint(m, ch[p], h),
                    None => m,
                },
            },
        },
    }
}

/// The hints after the declarations from position `i` on, in order.
pub open spec fn declarations_hints(ds: Seq<SyntaxNode>, i: int, m: Map<Seq<char>, HintView>) -> Map<
    Seq<char>,
    HintView,
>
    decreases ds.len() - i,
{
    if i < 0 || i >= ds.len() {
        m
    } else {
        declarations_hints(ds, i + 1, declaration_hint(ds[i], m))
    }
}

/// The receiver hints of a Rust function: its typed parameters, then its
/// `let` declarations in source order.
pub open spec fn function_hints(function: SyntaxNode) -> Map<Seq<char>, HintView> {
    let ch = function.children@;
    let from_parameters = match field_index(ch, "parameters"@) {
        Some(p) => parameter_hints(ch[p], 0, Map::empty()),
        None => Map::empty(),
    };
    let lets = match field_index(ch, "body"@) {
        Some(b) => lets_in(ch[b]),
        None => seq![],
    };
    declarations_hints(lets, 0, from_parameters)
}

/// The receiver hints of a Rust function, as [`function_hints`] says.
pub fn rust_function_type_hints(function: &SyntaxNode) -> (r: StrMap<ReceiverHint>)
    ensures
        hints_view(r.view()) == function_hints(*function),
{
    let mut hints: StrMap<ReceiverHint> = StrMap::new();
    proof {
        assert(hints_view(hints.view()) =~= Map::<Seq<char>, HintView>::empty());
        lemma_field_index(function.children@, "parameters"@);
        lemma_field_index(function.children@, "body"@);
    }
    match function.field_position("parameters") {
        Some(p) => {
            let ps = &function.children[p];
            let mut j: usize = 0;
            while j < ps.children.len()
                invariant
                    j <= ps.children@.len(),
                    parameter_hints(*ps, j as int, hints_view(hints.view())) == parameter_hints(
                        *ps,
                        0,
                        Map::empty(),
                    ),
                decreases ps.children@.len() - j,
            {
                let c = &ps.children[j];
                if c.named && str_eq(c.kind.as_str(), "parameter") {
                    proof {
                        lemma_field_index(c.children@, "pattern"@);
                        lemma_field_index(c.children@, "type"@);
                    }
                    match (c.field_position("pattern"), c.field_position("type")) {
                        (Some(pi), Some(ti)) => record_type_hint(&mut hints, &c.children[pi], &c.children[ti]),
                        _ => {},
                    }
                }
                j = j + 1;
            }
        },
        None => {},
    }
    let mut lets: Vec<&SyntaxNode> = Vec::new();
    match function.field_position("body") {
        Some(b) => {
            collect_lets(&function.children[b], &mut lets);
        },
        None => {},
    }
    assert(targets(lets@) =~= match field_index(function.children@, "body"@) {
        Some(b) => lets_in(function.children@[b]),
        None => seq![],
    });
    let ghost ds = targets(lets@);
    let ghost m0 = hints_view(hints.view());
    let mut i: usize = 0;
    while i < lets.len()
        invariant
            i <= lets@.len(),
            ds == targets(lets@),
            declarations_hints(ds, i as int, hints_view(hints.view())) == declarations_hints(ds, 0, m0),
        decreases lets@.len() - i,
    {
        let d = lets[i];
        assert(ds[i as int] == *d);
        proof {
            lemma_field_index(d.children@, "pattern"@);
            lemma_field_index(d.children@, "type"@);
            lemma_field_index(d.children@, "value"@);
        }
        match d.field_position("pattern") {
            None => {},
            Some(p) => match d.field_position("type") {
                Some(t) => record_type_hint(&mut hints, &d.children[p], &d.children[t]),
                None => match d.field_position("value") {
                    None => {},
                    Some(v) => match infer_rust_receiver_hint(&d.children[v], &hints) {
                        Some(h) => record_named_hint(&mut hints, &d.children[p], h),
                        None => {},
                    },
                },
            },
        }
        i = i + 1;
    }
    hints
}

// ---------------------------------------------------------------- narrowing

/// An expression with `?`, `&` and parentheses looked through.
pub open spec fn unwrapped(n: SyntaxNode) -> SyntaxNode
    decreases n,
{
    let ch = n.children@;
    proof {
        lemma_first_named_from(ch, 0);
    }
    if see_through_kind(n.kind@) && first_named_from(ch, 0) is Some {
        unwrapped(ch[first_named_from(ch, 0)->0])
    } else {
        n
    }
}

/// Looks through `?`, `&` and parentheses, as [`unwrapped`] says.
pub fn unwrap_rust_expression(node: &SyntaxNode) -> (r: &SyntaxNode)
    ensures
        *r == unwrapped(*node),
    decreases node,
{
    proof {
        lemma_first_named_from(node.children@, 0);
    }
    let kind = node.kind.as_str();
    if str_eq(kind, "try_expression") || str_eq(kind, "reference_expression") || str_eq(kind, "parenthesized_expression") {
        let mut i: usize = 0;
        while i < node.children.len() && !node.children[i].named
            invariant
                i <= node.children@.len(),
                first_named_from(node.children@, 0) == first_named_from(node.children@, i as int),
            decreases node.children@.len() - i,
        {
            i = i + 1;
        }
        if i < node.children.len() {
            return unwrap_rust_expression(&node.children[i]);
        }
    }
    node
}

/// What is known about an expression's value: a named binding's hint, or
/// what its call is inferred to return.
pub open spec fn expression_hint(value: SyntaxNode, hints: Map<Seq<char>, HintView>) -> Option<HintView> {
    let v = unwrapped(value);
    if v.kind@ == "identifier"@ || v.kind@ == "self"@ {
        if hints.contains_key(v.text@) {
            Some(bounded_hint(hints[v.text@]))
        } else {
            None
        }
    } else {
        inferred_hint(v, hints)
    }
}

/// Computes [`expression_hint`].
pub fn rust_expression_receiver_hint(value: &SyntaxNode, hints: &StrMap<ReceiverHint>) -> (r: Option<ReceiverHint>)
    ensures
        opt_hint_view(r) == expression_hint(*value, hints_view(hints.view())),
{
    let v = unwrap_rust_expression(value);
    if str_eq(v.kind.as_str(), "identifier") || str_eq(v.kind.as_str(), "self") {
        return match hints.get(v.text.as_str()) {
            Some(h) => Some(copy_hint(h)),
            None => None,
        };
    }
    infer_rust_receiver_hint(v, hints)
}

/// The wrapper type a variant pattern opens and the argument it binds:
/// `Some` opens `Option`, `Ok` and `Err` open `Result`.
pub open spec fn variant_opens(variant: Seq<char>) -> Option<(Seq<char>, int)> {
    if variant == "Some"@ {
        Some(("Option"@, 0))
    } else if variant == "Ok"@ {
        Some(("Result"@, 0))
    } else if variant == "Err"@ {
        Some(("Result"@, 1))
    } else {
        None
    }
}

/// The position of the only named child that does not span `skip`'s
/// range, when exactly one does not.
pub open spec fn only_other_named(ch: Seq<SyntaxNode>, skip: SyntaxNode) -> Option<int> {
    if exists|i: int|
        0 <= i < ch.len() && other_named(ch[i], skip) && forall|j: int|
            0 <= j < ch.len() && j != i ==> !other_named(#[trigger] ch[j], skip) {
        Some(
            choose|i: int|
                0 <= i < ch.len() && other_named(ch[i], skip) && forall|j: int|
                    0 <= j < ch.len() && j != i ==> !other_named(#[trigger] ch[j], skip),
        )
    } else {
        None
    }
}

/// A named node whose range differs from `skip`'s.
pub open spec fn other_named(c: SyntaxNode, skip: SyntaxNode) -> bool {
    c.named && (c.start != skip.start || c.end != skip.end)
}

/// The binding a pattern like `Some(x)` introduces and the type it gets:
/// the matching generic argument of the value's `Option` or `Result` type.
pub open spec fn narrowed_pattern(pattern: SyntaxNode, value: SyntaxNode, hints: Map<Seq<char>, HintView>) -> Option<
    (Seq<char>, HintView),
> {
    let ch = pattern.children@;
    if pattern.kind@ != "tuple_struct_pattern"@ {
        None
    } else {
        match field_index(ch, "type"@) {
            None => None,
            Some(t) => match variant_opens(trim(last_segment_of(ch[t].text@))) {
                None => None,
                Some((wrapper, idx)) => match expression_hint(value, hints) {
                    Some(HintView::Type(st)) => if st.name == wrapper && idx < st.generic_arguments.len() {
                        match only_other_named(ch, ch[t]) {
                            Some(b) => {
                                let binding = strip_all(strip_all(trim(ch[b].text@), "mut "@), "ref "@);
                                if binding.len() > 0 && plain_name(binding) {
                                    Some((binding, HintView::Type(st.generic_arguments[idx])))
                                } else {
                                    None
                                }
                            },
                            None => None,
                        }
                    } else {
                        None
                    },
                    _ => None,
                },
            },
        }
    }
}

/// Finds [`only_other_named`].
fn only_other_named_of(ch: &Vec<SyntaxNode>, skip: &SyntaxNode) -> (r: Option<usize>)
    ensures
        match r {
            Some(i) => only_other_named(ch@, *skip) == Some(i as int) && i < ch@.len(),
            None => only_other_named(ch@, *skip) is None,
        },
{
    let mut i: usize = 0;
    while i < ch.len() && !(ch[i].named && (ch[i].start != skip.start || ch[i].end != skip.end))
        invariant
            i <= ch@.len(),
            forall|j: int| 0 <= j < i ==> !other_named(#[trigger] ch@[j], *skip),
        decreases ch@.len() - i,
    {
        i = i + 1;
    }
    if i == ch.len() {
        return None;
    }
    let mut j: usize = i + 1;
    while j < ch.len()
        invariant
            i < j <= ch@.len(),
            other_named(ch@[i as int], *skip),
            forall|k: int| 0 <= k < i ==> !other_named(#[trigger] ch@[k], *skip),
            forall|k: int| i < k < j ==> !other_named(#[trigger] ch@[k], *skip),
        decreases ch@.len() - j,
    {
        if ch[j].named && (ch[j].start != skip.start || ch[j].end != skip.end) {
            assert(!(exists|x: int|
                0 <= x < ch@.len() && other_named(ch@[x], *skip) && forall|y: int|
                    0 <= y < ch@.len() && y != x ==> !other_named(#[trigger] ch@[y], *skip))) by {
                assert forall|x: int| 0 <= x < ch@.len() && other_named(ch@[x], *skip) implies !(forall|y: int|
                    0 <= y < ch@.len() && y != x ==> !other_named(#[trigger] ch@[y], *skip)) by {
                    if x != i as int {
                        assert(other_named(ch@[i as int], *skip));
                    } else {
                        assert(other_named(ch@[j as int], *skip));
                    }
                }
            }
            return None;
        }
        j = j + 1;
    }
    let ghost w = i as int;
    assert(0 <= w < ch@.len() && other_named(ch@[w], *skip) && forall|y: int|
        0 <= y < ch@.len() && y != w ==> !other_named(#[trigger] ch@[y], *skip));
    proof {
        let c = choose|x: int|
            0 <= x < ch@.len() && other_named(ch@[x], *skip) && forall|y: int|
                0 <= y < ch@.len() && y != x ==> !other_named(#[trigger] ch@[y], *skip);
        if c != w {
            assert(!other_named(ch@[c], *skip));
        }
    }
    Some(i)
}

/// An optional binding and hint, as text.
pub open spec fn opt_binding_view(r: Option<(String, ReceiverHint)>) -> Option<(Seq<char>, HintView)> {
    match r {
        Some((b, h)) => Some((b@, hint_view(h))),
        None => None,
    }
}

/// Computes [`narrowed_pattern`].
pub fn rust_narrowed_pattern_hint(pattern: &SyntaxNode, value: &SyntaxNode, hints: &StrMap<ReceiverHint>) -> (r: Option<
    (String, ReceiverHint),
>)
    ensures
        opt_binding_view(r) == narrowed_pattern(*pattern, *value, hints_view(hints.view())),
{
    let ghost ch = pattern.children@;
    proof {
        lemma_field_index(ch, "type"@);
    }
    if !str_eq(pattern.kind.as_str(), "tuple_struct_pattern") {
        return None;
    }
    let t = match pattern.field_position("type") {
        Some(t) => t,
        None => return None,
    };
    let variant = last_ident(pattern.children[t].text.as_str());
    let v = variant.as_str();
    let (wrapper, idx): (&str, usize) = if str_eq(v, "Some") {
        ("Option", 0)
    } else if str_eq(v, "Ok") {
        ("Result", 0)
    } else if str_eq(v, "Err") {
        ("Result", 1)
    } else {
        return None;
    };
    let source_type = match rust_expression_receiver_hint(value, hints) {
        Some(ReceiverHint::Type(st)) => st,
        _ => return None,
    };
    proof {
        lemma_args_view_index(source_type.generic_arguments@, source_type.generic_arguments@.len());
    }
    if !str_eq(source_type.name.as_str(), wrapper) || idx >= source_type.generic_arguments.len() {
        return None;
    }
    let narrowed = clone_type_hint(&source_type.generic_arguments[idx]);
    let b = match only_other_named_of(&pattern.children, &pattern.children[t]) {
        Some(b) => b,
        None => return None,
    };
    let t1 = trim_chars(&chars_of(pattern.children[b].text.as_str()));
    let t2 = strip_prefix_all(t1.as_str(), "mut ");
    let binding = strip_prefix_all(t2.as_str(), "ref ");
    if binding.as_str().is_empty() || !is_plain_name(binding.as_str()) {
        return None;
    }
    Some((binding, ReceiverHint::Type(narrowed)))
}

/// Some of the first `i` pairs has key `k`.
pub open spec fn seen_key(pairs: Seq<(Seq<char>, ReceiverHint)>, i: int, k: Seq<char>) -> bool {
    exists|j: int| 0 <= j < i && pairs[j].0 == k
}

/// A full copy of a map of hints.
pub fn copy_hints(hints: &StrMap<ReceiverHint>) -> (r: StrMap<ReceiverHint>)
    ensures
        hints_view(r.view()) == hints_view(hints.view()),
{
    let n = hints.len();
    let ghost pairs = hints.pairs();
    let mut out: StrMap<ReceiverHint> = StrMap::new();
    let mut i: usize = 0;
    while i < n
        invariant
            n == pairs.len(),
            pairs == hints.pairs(),
            i <= n,
            hints_view(out.view()) == hints_view(hints.view()).restrict(
                Set::new(|k: Seq<char>| seen_key(pairs, i as int, k)),
            ),
        decreases n - i,
    {
        let _facts = hints.len();
        let k = hints.key(i).clone();
        let h = clone_hint(hints.value(i));
        proof {
            lemma_hints_insert(out.view(), k@, h);
        }
        out.insert(k, h);
        proof {
            let kk = pairs[i as int].0;
            assert(hints.view().contains_key(kk) && hints.view()[kk] == pairs[i as int].1);
            assert forall|key: Seq<char>| #[trigger] seen_key(pairs, i + 1, key) <==> (seen_key(pairs, i as int, key)
                || key == kk) by {
                if key == kk {
                    assert(pairs[i as int].0 == key);
                }
                if seen_key(pairs, i + 1, key) {
                    let j = choose|j: int| 0 <= j < i + 1 && pairs[j].0 == key;
                    if j < i {
                        assert(seen_key(pairs, i as int, key));
                    }
                }
                if seen_key(pairs, i as int, key) {
                    let j = choose|j: int| 0 <= j < i && pairs[j].0 == key;
                    assert(pairs[j].0 == key && j < i + 1);
                }
            }
            assert(hints_view(out.view()) =~= hints_view(hints.view()).restrict(
                Set::new(|key: Seq<char>| seen_key(pairs, i + 1, key)),
            ));
        }
        i = i + 1;
    }
    let _facts = hints.len();
    proof {
        assert forall|key: Seq<char>| hints_view(hints.view()).contains_key(key) implies #[trigger] seen_key(
            pairs,
            n as int,
            key,
        ) by {
            let j = choose|j: int| 0 <= j < pairs.len() && pairs[j].0 == key;
            assert(pairs[j].0 == key);
        }
        assert(hints_view(out.view()) =~= hints_view(hints.view()));
    }
    out
}

/// Optional hints, as text.
pub open spec fn opt_hints_view(r: Option<StrMap<ReceiverHint>>) -> Option<Map<Seq<char>, HintView>> {
    match r {
        Some(m) => Some(hints_view(m.view())),
        None => None,
    }
}

/// The hints with the binding a narrowing pattern introduces added, when it
/// introduces one.
pub open spec fn narrowed_hints(pattern: SyntaxNode, value: SyntaxNode, hints: Map<Seq<char>, HintView>) -> Option<
    Map<Seq<char>, HintView>,
> {
    match narrowed_pattern(pattern, value, hints) {
        Some((binding, hint)) => Some(hints.insert(binding, hint)),
        None => None,
    }
}

/// Computes [`narrowed_hints`]: a copy of the hints with the narrowed
/// binding recorded.
pub fn rust_narrowed_type_hints(pattern: &SyntaxNode, value: &SyntaxNode, hints: &StrMap<ReceiverHint>) -> (r: Option<
    StrMap<ReceiverHint>,
>)
    ensures
        opt_hints_view(r) == narrowed_hints(*pattern, *value, hints_view(hints.view())),
{
    let (binding, hint) = match rust_narrowed_pattern_hint(pattern, value, hints) {
        Some(p) => p,
        None => return None,
    };
    let mut narrowed = copy_hints(hints);
    proof {
        lemma_hints_insert(narrowed.view(), binding@, hint);
    }
    narrowed.insert(binding, hint);
    Some(narrowed)
}

/// The hints a `let` condition such as `if let Some(x) = value` narrows.
pub open spec fn let_condition_hints(condition: SyntaxNode, hints: Map<Seq<char>, HintView>) -> Option<
    Map<Seq<char>, HintView>,
> {
    let ch = condition.children@;
    if condition.kind@ != "let_condition"@ {
        None
    } else {
        match (field_index(ch, "pattern"@), field_index(ch, "value"@)) {
            (Some(p), Some(v)) => narrowed_hints(ch[p], ch[v], hints),
            _ => None,
        }
    }
}

/// Computes [`let_condition_hints`].
pub fn rust_let_condition_type_hints(condition: &SyntaxNode, hints: &StrMap<ReceiverHint>) -> (r: Option<
    StrMap<ReceiverHint>,
>)
    ensures
        opt_hints_view(r) == let_condition_hints(*condition, hints_view(hints.view())),
{
    if !str_eq(condition.kind.as_str(), "let_condition") {
        return None;
    }
    let p = match condition.field_position("pattern") {
        Some(p) => p,
        None => return None,
    };
    let v = match condition.field_position("value") {
        Some(v) => v,
        None => return None,
    };
    rust_narrowed_type_hints(&condition.children[p], &condition.children[v], hints)
}

/// The named operands of a `let` chain from `j` on, each narrowing what
/// the earlier ones left: the hints reached and whether any operand narrowed.
pub open spec fn chain_hints(ch: Seq<SyntaxNode>, j: int, acc: Map<Seq<char>, HintView>) -> (
    Map<Seq<char>, HintView>,
    bool,
)
    decreases ch.len() - j,
{
    if j < 0 || j >= ch.len() {
        (acc, false)
    } else if !ch[j].named {
        chain_hints(ch, j + 1, acc)
    } else {
        match let_condition_hints(ch[j], acc) {
            Some(next) => (chain_hints(ch, j + 1, next).0, true),
            None => chain_hints(ch, j + 1, acc),
        }
    }
}

/// The hints an `if` or `while` expression's condition narrows: one `let`
/// condition, or each `let` operand of a chain in turn.
pub open spec fn condition_hints(expression: SyntaxNode, hints: Map<Seq<char>, HintView>) -> Option<
    Map<Seq<char>, HintView>,
> {
    match field_index(expression.children@, "condition"@) {
        None => None,
        Some(c) => {
            let condition = expression.children@[c];
            if condition.kind@ == "let_condition"@ {
                let_condition_hints(condition, hints)
            } else if condition.kind@ == "let_chain"@ {
                let (m, found) = chain_hints(condition.children@, 0, hints);
                if found {
                    Some(m)
                } else {
                    None
                }
            } else {
                None
            }
        },
    }
}

/// Computes [`condition_hints`].
pub fn rust_condition_type_hints(expression: &SyntaxNode, hints: &StrMap<ReceiverHint>) -> (r: Option<
    StrMap<ReceiverHint>,
>)
    ensures
        opt_hints_view(r) == condition_hints(*expression, hints_view(hints.view())),
{
    let c = match expression.field_position("condition") {
        Some(c) => c,
        None => return None,
    };
    let condition = &expression.children[c];
    if str_eq(condition.kind.as_str(), "let_condition") {
        return rust_let_condition_type_hints(condition, hints);
    }
    if !str_eq(condition.kind.as_str(), "let_chain") {
        return None;
    }
    let ghost ch = condition.children@;
    let ghost start = hints_view(hints.view());
    let mut narrowed = copy_hints(hints);
    let mut found = false;
    let mut j: usize = 0;
    while j < condition.children.len()
        invariant
            ch == condition.children@,
            j <= ch.len(),
            chain_hints(ch, 0, start) == (chain_hints(ch, j as int, hints_view(narrowed.view())).0, chain_hints(
                ch,
                j as int,
                hints_view(narrowed.view()),
            ).1 || found),
        decreases ch.len() - j,
    {
        if condition.children[j].named {
            match rust_let_condition_type_hints(&condition.children[j], &narrowed) {
                Some(next) => {
                    narrowed = next;
                    found = true;
                },
                None => {},
            }
        }
        j = j + 1;
    }
    if found {
        Some(narrowed)
    } else {
        None
    }
}

/// The hints a `let ... else` declaration narrows for the code after it.
pub open spec fn let_else_hints(declaration: SyntaxNode, hints: Map<Seq<char>, HintView>) -> Option<
    Map<Seq<char>, HintView>,
> {
    let ch = declaration.children@;
    if declaration.kind@ != "let_declaration"@ || field_index(ch, "alternative"@) is None {
        None
    } else {
        match (field_index(ch, "pattern"@), field_index(ch, "value"@)) {
            (Some(p), Some(v)) => narrowed_hints(ch[p], ch[v], hints),
            _ => None,
        }
    }
}

/// Computes [`let_else_hints`].
pub fn rust_let_else_type_hints(declaration: &SyntaxNode, hints: &StrMap<ReceiverHint>) -> (r: Option<
    StrMap<ReceiverHint>,
>)
    ensures
        opt_hints_view(r) == let_else_hints(*declaration, hints_view(hints.view())),
{
    if !str_eq(declaration.kind.as_str(), "let_declaration") || declaration.field_position("alternative").is_none() {
        return None;
    }
    let p = match declaration.field_position("pattern") {
        Some(p) => p,
        None => return None,
    };
    let v = match declaration.field_position("value") {
        Some(v) => v,
        None => return None,
    };
    rust_narrowed_type_hints(&declaration.children[p], &declaration.children[v], hints)
}

/// The first named child of a match arm's pattern that is not its guard.
pub open spec fn arm_pattern_index(ch: Seq<SyntaxNode>) -> Option<int> {
    match (first_named_from(ch, 0), field_index(ch, "condition"@)) {
        (Some(f), Some(g)) => if f == g {
            first_named_from(ch, f + 1)
        } else {
            Some(f)
        },
        (f, _) => f,
    }
}

/// The hints a match arm's pattern narrows, where `match_expression` is the
/// `match` whose block holds the arm.
pub open spec fn match_arm_hints(
    arm: SyntaxNode,
    match_expression: SyntaxNode,
    hints: Map<Seq<char>, HintView>,
) -> Option<Map<Seq<char>, HintView>> {
    match field_index(arm.children@, "pattern"@) {
        None => None,
        Some(mp) => {
            let pch = arm.children@[mp].children@;
            match arm_pattern_index(pch) {
                None => None,
                Some(pi) => if match_expression.kind@ != "match_expression"@ {
                    None
                } else {
                    match field_index(match_expression.children@, "value"@) {
                        None => None,
                        Some(v) => narrowed_hints(pch[pi], match_expression.children@[v], hints),
                    }
                },
            }
        },
    }
}

/// Computes [`match_arm_hints`].
pub fn rust_match_arm_type_hints(
    arm: &SyntaxNode,
    match_expression: &SyntaxNode,
    hints: &StrMap<ReceiverHint>,
) -> (r: Option<StrMap<ReceiverHint>>)
    ensures
        opt_hints_view(r) == match_arm_hints(*arm, *match_expression, hints_view(hints.view())),
{
    let mp = match arm.field_position("pattern") {
        Some(mp) => mp,
        None => return None,
    };
    let match_pattern = &arm.children[mp];
    proof {
        lemma_first_named_from(match_pattern.children@, 0);
    }
    let first = match match_pattern.first_named_position(0) {
        Some(f) => f,
        None => return None,
    };
    let pi = match match_pattern.field_position("condition") {
        Some(g) => if g == first && first < match_pattern.children.len() {
            match match_pattern.first_named_position(first + 1) {
                Some(f) => f,
                None => return None,
            }
        } else {
            first
        },
        None => first,
    };
    if !str_eq(match_expression.kind.as_str(), "match_expression") {
        return None;
    }
    let v = match match_expression.field_position("value") {
        Some(v) => v,
        None => return None,
    };
    rust_narrowed_type_hints(&match_pattern.children[pi], &match_expression.children[v], hints)
}

} // verus!
