//! The call sites of a Rust or Python syntax tree, each attributed to the
//! function that makes it and carrying what is known about its receiver,
//! for the project-wide resolver to bind to a concrete callee.

use vstd::prelude::*;
use crate::fields::trim;
use crate::hints::{target_view, CallTargetRef, HintView, ReceiverHint, TargetView};
use crate::macro_scan::{call_ref_view, calls_from, masked, textual_call_refs};
use crate::paths::last_segment_of;
use crate::py_hints::{owner_fallback_allowed, python_qualifier_owner_fallback, PythonNullableWrapper};
use crate::py_receivers::{assignment_hints, python_assignment_type_hints, python_function_hints, python_function_type_hints};
use crate::py_scopes::{
    parameter_names, python_scoped_import_bindings, python_scoped_nullable_wrapper_aliases,
    python_scoped_type_aliases, scope_after, texts_of, unshadowed, update_python_import_bindings,
    update_python_nullable_wrappers, update_python_type_aliases, wrappers_after, ImportRule,
};
use crate::rust_calls::{cargo_binary_target, rust_cargo_binary_target};
use crate::rust_hints::{
    bounded_hint, callee_of, callee_target, condition_hints, function_hints, hints_view,
    let_condition_hints, let_else_hints, match_arm_hints, rust_condition_type_hints, rust_function_type_hints,
    rust_let_condition_type_hints, rust_let_else_type_hints, rust_match_arm_type_hints,
};
use crate::sources::Lang;
use crate::strmap::{str_eq, StrMap};
use crate::text::push_str;
use crate::tree::{bears_field, field_index, field_text, SyntaxNode};
use crate::words::{direct_binding_of, direct_qualifier_binding, function_kind, is_function_kind, is_type_kind, last_ident, type_kind};
use vstd::utf8::encode_utf8;

verus! {

/// An unresolved call site. `caller` is the graph path of the calling
/// function (`module::name`, or `module::Type::name` for a method);
/// `callee` is the call target's trailing identifier and `qualifier` the
/// receiver or path written before it.
#[derive(Debug)]
pub struct CallRef {
    pub caller: String,
    pub callee: String,
    pub qualifier: Option<String>,
    /// The receiver's declared type, when a binding's hint names one.
    pub receiver_type: Option<String>,
    /// The call that produced the receiver, when a binding's hint says so.
    pub receiver_factory: Option<CallTargetRef>,
    /// Whether an unresolved qualifier may be matched to an owner by name.
    pub qualifier_owner_fallback: bool,
    /// The Cargo binary target an exact subprocess launch names; its callee
    /// is that binary's `main`.
    pub process_entrypoint: Option<String>,
}

/// A call site as text.
pub struct CallView {
    pub caller: Seq<char>,
    pub callee: Seq<char>,
    pub qualifier: Option<Seq<char>>,
    pub receiver_type: Option<Seq<char>>,
    pub receiver_factory: Option<TargetView>,
    pub qualifier_owner_fallback: bool,
    pub process_entrypoint: Option<Seq<char>>,
}

/// An optional text.
pub open spec fn opt_text(s: Option<String>) -> Option<Seq<char>> {
    match s {
        Some(t) => Some(t@),
        None => None,
    }
}

/// A call site as text.
pub open spec fn call_view(c: CallRef) -> CallView {
    CallView {
        caller: c.caller@,
        callee: c.callee@,
        qualifier: opt_text(c.qualifier),
        receiver_type: opt_text(c.receiver_type),
        receiver_factory: match c.receiver_factory {
            Some(f) => Some(target_view(f)),
            None => None,
        },
        qualifier_owner_fallback: c.qualifier_owner_fallback,
        process_entrypoint: opt_text(c.process_entrypoint),
    }
}

/// Call sites as text.
pub open spec fn call_views(cs: Seq<CallRef>) -> Seq<CallView> {
    cs.map_values(|c: CallRef| call_view(c))
}

/// What is in scope while walking: the enclosing type, the calling
/// function's path, the receiver hints, and Python's type aliases,
/// nullable-wrapper names and import bindings.
pub struct CallScope {
    pub ty: Option<Seq<char>>,
    pub caller: Option<Seq<char>>,
    pub hints: Map<Seq<char>, HintView>,
    pub aliases: Map<Seq<char>, Seq<char>>,
    pub wrappers: Map<Seq<char>, PythonNullableWrapper>,
    pub imports: Map<Seq<char>, Seq<char>>,
}

/// What earlier siblings left for the later ones, where they left anything.
pub struct Following {
    pub hints: Option<Map<Seq<char>, HintView>>,
    pub aliases: Option<Map<Seq<char>, Seq<char>>>,
    pub wrappers: Option<Map<Seq<char>, PythonNullableWrapper>>,
    pub imports: Option<Map<Seq<char>, Seq<char>>>,
}

/// Nothing left yet.
pub open spec fn nothing_following() -> Following {
    Following { hints: None, aliases: None, wrappers: None, imports: None }
}

/// The value, or the fallback when there is none.
pub open spec fn or_else<T>(o: Option<T>, d: T) -> T {
    match o {
        Some(v) => v,
        None => d,
    }
}

/// The type a node opens: a Python class, or a Rust type definition or
/// `impl` block (by the last segment of its type).
pub open spec fn enclosing_type(n: SyntaxNode, lang: Lang, ty: Option<Seq<char>>) -> Option<Seq<char>> {
    if lang == Lang::Python && n.kind@ == "class_definition"@ {
        match field_text(n, "name"@) {
            Some(t) => Some(t),
            None => ty,
        }
    } else if lang == Lang::Rust && type_kind(lang, n.kind@) {
        match field_text(n, "name"@) {
            Some(t) => Some(t),
            None => ty,
        }
    } else if lang == Lang::Rust && n.kind@ == "impl_item"@ {
        match field_text(n, "type"@) {
            Some(t) => Some(trim(last_segment_of(t))),
            None => ty,
        }
    } else {
        ty
    }
}

/// The graph path of a function named `name` in `module`, under its type.
pub open spec fn function_path(module: Seq<char>, ty: Option<Seq<char>>, name: Seq<char>) -> Seq<char> {
    match ty {
        Some(t) => module + "::"@ + t + "::"@ + name,
        None => module + "::"@ + name,
    }
}

/// A function definition with a name.
pub open spec fn named_function(n: SyntaxNode, lang: Lang) -> bool {
    function_kind(lang, n.kind@) && field_text(n, "name"@) is Some
}

/// The scope in force at `n`: a named function becomes the caller and
/// brings its own hints (its parameters and `let`s in Rust, its annotated
/// parameters in Python), and in Python its parameters shadow the
/// inherited aliases, wrapper names and imports.
pub open spec fn scope_at(n: SyntaxNode, lang: Lang, module: Seq<char>, st: CallScope) -> CallScope {
    let ty = enclosing_type(n, lang, st.ty);
    if named_function(n, lang) {
        let caller = Some(function_path(module, ty, field_text(n, "name"@)->0));
        if lang == Lang::Rust {
            CallScope { ty, caller, hints: function_hints(n), ..st }
        } else {
            let names = parameter_names(n);
            CallScope {
                ty,
                caller,
                hints: python_function_hints(n, st.aliases, st.wrappers),
                aliases: st.aliases.restrict(Set::new(|k: Seq<char>| !names.contains(k))),
                wrappers: st.wrappers.restrict(Set::new(|k: Seq<char>| unshadowed(k, names))),
                imports: st.imports.restrict(Set::new(|k: Seq<char>| !names.contains(k))),
            }
        }
    } else {
        CallScope { ty, ..st }
    }
}

/// What a call's qualifier says of its receiver: the declared type, the
/// factory call, and whether falling back to owner names stays allowed
/// (not for a binding known to be unresolved).
pub open spec fn receiver_of(q: Option<Seq<char>>, hints: Map<Seq<char>, HintView>) -> (
    Option<Seq<char>>,
    Option<TargetView>,
    bool,
) {
    match q {
        None => (None, None, true),
        Some(qq) => match direct_binding_of(qq) {
            None => (None, None, true),
            Some(b) => if !hints.contains_key(b) {
                (None, None, true)
            } else {
                match bounded_hint(hints[b]) {
                    HintView::Type(t) => (Some(t.name), None, true),
                    HintView::ReturnOf(f) => (None, Some(f), true),
                    HintView::Unresolved => (None, None, false),
                }
            },
        },
    }
}

/// A call site with the receiver facts of its qualifier.
pub open spec fn call_site(
    caller: Seq<char>,
    callee: Seq<char>,
    q: Option<Seq<char>>,
    hints: Map<Seq<char>, HintView>,
    fallback: bool,
) -> CallView {
    let r = receiver_of(q, hints);
    CallView {
        caller,
        callee,
        qualifier: q,
        receiver_type: r.0,
        receiver_factory: r.1,
        qualifier_owner_fallback: fallback,
        process_entrypoint: None,
    }
}

/// The kind of a call node in `lang`.
pub open spec fn call_kind(lang: Lang, k: Seq<char>) -> bool {
    (lang == Lang::Rust && k == "call_expression"@) || (lang == Lang::Python && k == "call"@)
}

/// The call sites a call node itself makes: the call, and for an exact
/// Cargo launch a second one into that binary's `main`.
pub open spec fn direct_calls(n: SyntaxNode, lang: Lang, sc: CallScope) -> Seq<CallView> {
    if call_kind(lang, n.kind@) && sc.caller is Some && callee_of(n) is Some {
        let (callee, q) = callee_of(n)->0;
        let r = receiver_of(q, sc.hints);
        let fallback = r.2 && (q is None || owner_fallback_allowed(lang, q->0, sc.imports));
        let call = call_site(sc.caller->0, callee, q, sc.hints, fallback);
        if lang == Lang::Rust && cargo_binary_target(n) is Some {
            seq![
                call,
                CallView {
                    caller: sc.caller->0,
                    callee: "main"@,
                    qualifier: None,
                    receiver_type: None,
                    receiver_factory: None,
                    qualifier_owner_fallback: true,
                    process_entrypoint: cargo_binary_target(n),
                },
            ]
        } else {
            seq![call]
        }
    } else {
        seq![]
    }
}

/// The first child of kind `k`, named or not.
pub open spec fn first_kind_from(ch: Seq<SyntaxNode>, k: Seq<char>, i: int) -> Option<int>
    decreases ch.len() - i,
{
    if i < 0 || i >= ch.len() {
        None
    } else if ch[i].kind@ == k {
        Some(i)
    } else {
        first_kind_from(ch, k, i + 1)
    }
}

/// The call sites written inside a Rust macro's token tree, read from its
/// text.
pub open spec fn macro_calls(n: SyntaxNode, lang: Lang, sc: CallScope) -> Seq<CallView> {
    if lang == Lang::Rust && n.kind@ == "macro_invocation"@ && sc.caller is Some {
        match first_kind_from(n.children@, "token_tree"@, 0) {
            None => seq![],
            Some(t) => calls_from(masked(encode_utf8(n.children@[t].text@)), 0).map_values(
                |c: (Seq<char>, Option<Seq<char>>)| call_site(sc.caller->0, c.0, c.1, sc.hints, receiver_of(c.1, sc.hints).2),
            ),
        }
    } else {
        seq![]
    }
}

/// The hints that `let` patterns narrow for a Rust `if`, `while` or
/// match arm; `grand` is the arm's grandparent (its `match`).
pub open spec fn narrowed_hints_at(
    n: SyntaxNode,
    lang: Lang,
    grand: Option<SyntaxNode>,
    hints: Map<Seq<char>, HintView>,
) -> Option<Map<Seq<char>, HintView>> {
    if lang != Lang::Rust {
        None
    } else if n.kind@ == "if_expression"@ || n.kind@ == "while_expression"@ {
        condition_hints(n, hints)
    } else if n.kind@ == "match_arm"@ {
        match grand {
            Some(g) => match_arm_hints(n, g, hints),
            None => None,
        }
    } else {
        None
    }
}

/// The child position the narrowed hints hold for: an `if`'s consequence
/// or a `while`'s body.
pub open spec fn narrowed_child(n: SyntaxNode) -> Option<int> {
    if n.kind@ == "if_expression"@ {
        field_index(n.children@, "consequence"@)
    } else if n.kind@ == "while_expression"@ {
        field_index(n.children@, "body"@)
    } else {
        None
    }
}

/// A child that spans an `alternative` of a Python `if` statement.
pub open spec fn alternative_branch(n: SyntaxNode, c: SyntaxNode) -> bool {
    n.kind@ == "if_statement"@ && exists|i: int|
        0 <= i < n.children@.len() && bears_field(#[trigger] n.children@[i], "alternative"@) && n.children@[i].start
            == c.start && n.children@[i].end == c.end
}

/// The scope a child at position `j` is walked in.
pub open spec fn child_scope(
    n: SyntaxNode,
    lang: Lang,
    sc: CallScope,
    narrowed: Option<Map<Seq<char>, HintView>>,
    j: int,
    f: Following,
) -> CallScope {
    let c = n.children@[j];
    let seq_hints = or_else(f.hints, sc.hints);
    let alt = lang == Lang::Python && alternative_branch(n, c);
    let hints = match narrowed {
        Some(h) => if n.kind@ == "match_arm"@ {
            h
        } else {
            match narrowed_child(n) {
                Some(k) => if n.children@[k].start == c.start && n.children@[k].end == c.end {
                    h
                } else {
                    seq_hints
                },
                None => seq_hints,
            }
        },
        None => seq_hints,
    };
    CallScope {
        ty: sc.ty,
        caller: sc.caller,
        hints,
        aliases: if alt { sc.aliases } else { or_else(f.aliases, sc.aliases) },
        wrappers: if alt { sc.wrappers } else { or_else(f.wrappers, sc.wrappers) },
        imports: if alt { sc.imports } else { or_else(f.imports, sc.imports) },
    }
}

/// What the child at `j` leaves for its later siblings: hints narrowed by
/// a Rust `let ... else` in a block or `let` operand of a chain, or a
/// Python assignment in a block; and in Python the aliases, wrapper names
/// and imports after it.
pub open spec fn following_after(
    n: SyntaxNode,
    lang: Lang,
    sc: CallScope,
    cs: CallScope,
    j: int,
    f: Following,
) -> Following {
    let c = n.children@[j];
    let seq_hints = or_else(f.hints, sc.hints);
    let next = if lang == Lang::Rust && n.kind@ == "block"@ {
        let_else_hints(c, seq_hints)
    } else if lang == Lang::Rust && n.kind@ == "let_chain"@ {
        let_condition_hints(c, seq_hints)
    } else if lang == Lang::Python && n.kind@ == "block"@ {
        assignment_hints(c, seq_hints, cs.aliases, cs.wrappers)
    } else {
        None
    };
    let hints = if next is Some { next } else { f.hints };
    if lang == Lang::Python {
        Following {
            hints,
            aliases: Some(scope_after(ImportRule::Aliases, c, cs.aliases)),
            wrappers: Some(wrappers_after(c, cs.wrappers)),
            imports: Some(scope_after(ImportRule::Bindings, c, cs.imports)),
        }
    } else {
        Following { hints, ..f }
    }
}

/// The call sites of a subtree in document order: those the node makes,
/// then its children's, each child in the scope its earlier siblings
/// leave. `parent` and `grand` are the node's parent and grandparent.
pub open spec fn calls_of(
    n: SyntaxNode,
    parent: Option<SyntaxNode>,
    grand: Option<SyntaxNode>,
    lang: Lang,
    module: Seq<char>,
    st: CallScope,
) -> Seq<CallView>
    decreases n, n.children@.len() + 1,
{
    let sc = scope_at(n, lang, module, st);
    direct_calls(n, lang, sc) + macro_calls(n, lang, sc) + calls_below(
        n,
        parent,
        lang,
        module,
        sc,
        narrowed_hints_at(n, lang, grand, sc.hints),
        0,
        nothing_following(),
    )
}

/// The call sites under the children from position `j` on.
pub open spec fn calls_below(
    n: SyntaxNode,
    parent: Option<SyntaxNode>,
    lang: Lang,
    module: Seq<char>,
    sc: CallScope,
    narrowed: Option<Map<Seq<char>, HintView>>,
    j: int,
    f: Following,
) -> Seq<CallView>
    decreases n, n.children@.len() - j,
{
    if j < 0 || j >= n.children@.len() {
        seq![]
    } else {
        let cs = child_scope(n, lang, sc, narrowed, j, f);
        calls_of(n.children@[j], Some(n), parent, lang, module, cs) + calls_below(
            n,
            parent,
            lang,
            module,
            sc,
            narrowed,
            j + 1,
            following_after(n, lang, sc, cs, j, f),
        )
    }
}

/// The scope a file starts in: no type, no caller, nothing known.
pub open spec fn file_scope() -> CallScope {
    CallScope {
        ty: None,
        caller: None,
        hints: Map::empty(),
        aliases: Map::empty(),
        wrappers: Map::empty(),
        imports: Map::empty(),
    }
}

/// The call sites of a file's syntax tree in `module`.
pub open spec fn calls_in_file(root: SyntaxNode, lang: Lang, module: Seq<char>) -> Seq<CallView> {
    calls_of(root, None, None, lang, module, file_scope())
}

// ---------------------------------------------------------------- walking

/// The scope given by its parts.
pub open spec fn scope_view(
    ty: Option<String>,
    caller: Option<String>,
    hints: StrMap<ReceiverHint>,
    aliases: StrMap<String>,
    wrappers: StrMap<PythonNullableWrapper>,
    imports: StrMap<String>,
) -> CallScope {
    CallScope {
        ty: opt_text(ty),
        caller: opt_text(caller),
        hints: hints_view(hints.view()),
        aliases: texts_of(aliases.view()),
        wrappers: wrappers.view(),
        imports: texts_of(imports.view()),
    }
}

proof fn lemma_texts_restrict(m: Map<Seq<char>, String>, s: Set<Seq<char>>)
    ensures
        texts_of(m.restrict(s)) == texts_of(m).restrict(s),
{
    assert(texts_of(m.restrict(s)) =~= texts_of(m).restrict(s));
}

/// A copy of an optional text.
fn copy_text(s: &Option<String>) -> (r: Option<String>)
    ensures
        opt_text(r) == opt_text(*s),
{
    match s {
        Some(t) => Some(t.clone()),
        None => None,
    }
}

/// Computes [`enclosing_type`].
fn enclosing_of(n: &SyntaxNode, lang: Lang, ty: &Option<String>) -> (r: Option<String>)
    ensures
        opt_text(r) == enclosing_type(*n, lang, opt_text(*ty)),
{
    let k = n.kind.as_str();
    let opens_name = (lang == Lang::Python && str_eq(k, "class_definition")) || (lang == Lang::Rust && is_type_kind(
        lang,
        k,
    ));
    if opens_name {
        return match n.field_position("name") {
            Some(i) => Some(n.children[i].text.clone()),
            None => copy_text(ty),
        };
    }
    if lang == Lang::Rust && str_eq(k, "impl_item") {
        return match n.field_position("type") {
            Some(i) => Some(last_ident(n.children[i].text.as_str())),
            None => copy_text(ty),
        };
    }
    copy_text(ty)
}

/// Computes [`function_path`].
fn function_path_of(module: &str, ty: &Option<String>, name: &str) -> (r: String)
    ensures
        r@ == function_path(module@, opt_text(*ty), name@),
{
    let mut p = String::new();
    push_str(&mut p, module);
    push_str(&mut p, "::");
    match ty {
        Some(t) => {
            push_str(&mut p, t.as_str());
            push_str(&mut p, "::");
        },
        None => {},
    }
    push_str(&mut p, name);
    proof {
        reveal_strlit("::");
    }
    p
}

/// A function definition opens no type.
proof fn lemma_functions_open_no_type(n: SyntaxNode, lang: Lang, ty: Option<Seq<char>>)
    requires
        function_kind(lang, n.kind@),
    ensures
        enclosing_type(n, lang, ty) == ty,
{
    reveal_strlit("function_item");
    reveal_strlit("function_definition");
    reveal_strlit("class_definition");
    reveal_strlit("struct_item");
    reveal_strlit("enum_item");
    reveal_strlit("trait_item");
    reveal_strlit("impl_item");
    let k = n.kind@;
    assert(k[0] == 'f');
    assert("class_definition"@[0] == 'c');
    assert("struct_item"@[0] == 's');
    assert("enum_item"@[0] == 'e');
    assert("trait_item"@[0] == 't');
    assert("impl_item"@[0] == 'i');
}

/// What a function node brings into scope: its path as the caller, its
/// hints, and in Python its shadowed aliases, wrapper names and imports.
struct Entered {
    caller: String,
    hints: StrMap<ReceiverHint>,
    aliases: Option<StrMap<String>>,
    wrappers: Option<StrMap<PythonNullableWrapper>>,
    imports: Option<StrMap<String>>,
}

/// Computes what [`scope_at`] changes for a named function.
fn enter_function(
    n: &SyntaxNode,
    lang: Lang,
    module: &str,
    ty: &Option<String>,
    aliases: &StrMap<String>,
    wrappers: &StrMap<PythonNullableWrapper>,
    imports: &StrMap<String>,
) -> (r: Option<Entered>)
    ensures
        match r {
            None => !named_function(*n, lang),
            Some(e) => {
                let st = CallScope {
                    ty: opt_text(*ty),
                    caller: None,
                    hints: Map::empty(),
                    aliases: texts_of(aliases.view()),
                    wrappers: wrappers.view(),
                    imports: texts_of(imports.view()),
                };
                let sc = scope_at(*n, lang, module@, st);
                &&& named_function(*n, lang)
                &&& sc.caller == Some(e.caller@)
                &&& sc.hints == hints_view(e.hints.view())
                &&& (lang == Lang::Python) == (e.aliases is Some)
                &&& (lang == Lang::Python) == (e.wrappers is Some)
                &&& (lang == Lang::Python) == (e.imports is Some)
                &&& e.aliases matches Some(a) ==> sc.aliases == texts_of(a.view())
                &&& e.wrappers matches Some(w) ==> sc.wrappers == w.view()
                &&& e.imports matches Some(i) ==> sc.imports == texts_of(i.view())
            },
        },
{
    if !is_function_kind(lang, n.kind.as_str()) {
        return None;
    }
    proof {
        lemma_functions_open_no_type(*n, lang, opt_text(*ty));
    }
    let name_at = match n.field_position("name") {
        Some(i) => i,
        None => return None,
    };
    let caller = function_path_of(module, ty, n.children[name_at].text.as_str());
    if lang == Lang::Rust {
        let hints = rust_function_type_hints(n);
        return Some(Entered { caller, hints, aliases: None, wrappers: None, imports: None });
    }
    let hints = python_function_type_hints(n, aliases, wrappers);
    let a = python_scoped_type_aliases(n, aliases);
    let w = python_scoped_nullable_wrapper_aliases(n, wrappers);
    let i = python_scoped_import_bindings(n, imports);
    proof {
        lemma_texts_restrict(aliases.view(), Set::new(|k: Seq<char>| !parameter_names(*n).contains(k)));
        lemma_texts_restrict(imports.view(), Set::new(|k: Seq<char>| !parameter_names(*n).contains(k)));
    }
    Some(Entered { caller, hints, aliases: Some(a), wrappers: Some(w), imports: Some(i) })
}

/// Computes [`receiver_of`].
fn receiver(q: &Option<String>, hints: &StrMap<ReceiverHint>) -> (r: (Option<String>, Option<CallTargetRef>, bool))
    ensures
        (opt_text(r.0), match r.1 {
            Some(f) => Some(target_view(f)),
            None => None,
        }, r.2) == receiver_of(opt_text(*q), hints_view(hints.view())),
{
    let qq = match q {
        Some(qq) => qq,
        None => return (None, None, true),
    };
    let b = match direct_qualifier_binding(qq.as_str()) {
        Some(b) => b,
        None => return (None, None, true),
    };
    match hints.get(b.as_str()) {
        None => (None, None, true),
        Some(h) => {
            let c = crate::rust_hints::copy_hint(h);
            match c {
                ReceiverHint::Type(t) => (Some(t.name), None, true),
                ReceiverHint::ReturnOf(f) => (None, Some(f), true),
                ReceiverHint::Unresolved => (None, None, false),
            }
        },
    }
}

/// The scope parts that call sites read.
pub open spec fn site_scope(
    caller: Option<String>,
    hints: StrMap<ReceiverHint>,
    imports: StrMap<String>,
) -> CallScope {
    CallScope {
        ty: None,
        caller: opt_text(caller),
        hints: hints_view(hints.view()),
        aliases: Map::empty(),
        wrappers: Map::empty(),
        imports: texts_of(imports.view()),
    }
}

proof fn lemma_call_views_push(cs: Seq<CallRef>, c: CallRef)
    ensures
        call_views(cs.push(c)) == call_views(cs).push(call_view(c)),
{
    assert(call_views(cs.push(c)) =~= call_views(cs).push(call_view(c)));
}

/// Appends [`direct_calls`].
fn push_direct_calls(
    n: &SyntaxNode,
    lang: Lang,
    caller: &Option<String>,
    hints: &StrMap<ReceiverHint>,
    imports: &StrMap<String>,
    out: &mut Vec<CallRef>,
)
    ensures
        call_views(final(out)@) == call_views(old(out)@) + direct_calls(*n, lang, site_scope(*caller, *hints, *imports)),
{
    let k = n.kind.as_str();
    let is_call = (lang == Lang::Rust && str_eq(k, "call_expression")) || (lang == Lang::Python && str_eq(k, "call"));
    let c = match caller {
        Some(c) => c,
        None => {
            assert(call_views(out@) =~= call_views(out@) + Seq::<CallView>::empty());
            return;
        },
    };
    if !is_call {
        assert(call_views(out@) =~= call_views(out@) + Seq::<CallView>::empty());
        return;
    }
    let (callee, qualifier) = match callee_target(n) {
        Some(t) => t,
        None => {
            assert(call_views(out@) =~= call_views(out@) + Seq::<CallView>::empty());
            return;
        },
    };
    let (receiver_type, receiver_factory, allows) = receiver(&qualifier, hints);
    let fallback = allows && match &qualifier {
        Some(q) => python_qualifier_owner_fallback(lang, q.as_str(), imports),
        None => true,
    };
    let ghost before = out@;
    let site = CallRef {
        caller: c.clone(),
        callee,
        qualifier,
        receiver_type,
        receiver_factory,
        qualifier_owner_fallback: fallback,
        process_entrypoint: None,
    };
    proof {
        lemma_call_views_push(out@, site);
    }
    out.push(site);
    let target = if lang == Lang::Rust {
        rust_cargo_binary_target(n)
    } else {
        None
    };
    match target {
        Some(t) => {
            let launch = CallRef {
                caller: c.clone(),
                callee: "main".to_string(),
                qualifier: None,
                receiver_type: None,
                receiver_factory: None,
                qualifier_owner_fallback: true,
                process_entrypoint: Some(t),
            };
            proof {
                lemma_call_views_push(out@, launch);
            }
            out.push(launch);
        },
        None => {},
    }
    assert(call_views(out@) =~= call_views(before) + direct_calls(*n, lang, site_scope(*caller, *hints, *imports)));
}

/// The position of the first child of kind `k`, named or not.
fn first_of_kind(n: &SyntaxNode, k: &str) -> (r: Option<usize>)
    ensures
        match r {
            Some(i) => first_kind_from(n.children@, k@, 0) == Some(i as int) && i < n.children@.len(),
            None => first_kind_from(n.children@, k@, 0) is None,
        },
{
    let mut i: usize = 0;
    while i < n.children.len()
        invariant
            i <= n.children@.len(),
            first_kind_from(n.children@, k@, 0) == first_kind_from(n.children@, k@, i as int),
        decreases n.children@.len() - i,
    {
        if str_eq(n.children[i].kind.as_str(), k) {
            return Some(i);
        }
        i = i + 1;
    }
    None
}

/// Appends [`macro_calls`].
fn push_macro_calls(
    n: &SyntaxNode,
    lang: Lang,
    caller: &Option<String>,
    hints: &StrMap<ReceiverHint>,
    imports: &StrMap<String>,
    out: &mut Vec<CallRef>,
)
    ensures
        call_views(final(out)@) == call_views(old(out)@) + macro_calls(*n, lang, site_scope(*caller, *hints, *imports)),
{
    let ghost sc = site_scope(*caller, *hints, *imports);
    let c = match caller {
        Some(c) => c,
        None => {
            assert(call_views(out@) =~= call_views(out@) + Seq::<CallView>::empty());
            return;
        },
    };
    if !(lang == Lang::Rust && str_eq(n.kind.as_str(), "macro_invocation")) {
        assert(call_views(out@) =~= call_views(out@) + Seq::<CallView>::empty());
        return;
    }
    let t = match first_of_kind(n, "token_tree") {
        Some(t) => t,
        None => {
            assert(call_views(out@) =~= call_views(out@) + Seq::<CallView>::empty());
            return;
        },
    };
    let refs = textual_call_refs(n.children[t].text.as_str());
    let ghost views = refs@.map_values(|x: (String, Option<String>)| call_ref_view(x));
    let ghost want = views.map_values(
        |x: (Seq<char>, Option<Seq<char>>)| call_site(sc.caller->0, x.0, x.1, sc.hints, receiver_of(x.1, sc.hints).2),
    );
    assert(want == macro_calls(*n, lang, sc));
    let ghost before = out@;
    let mut i: usize = 0;
    while i < refs.len()
        invariant
            i <= refs@.len(),
            views == refs@.map_values(|x: (String, Option<String>)| call_ref_view(x)),
            want.len() == refs@.len(),
            forall|j: int| 0 <= j < want.len() ==> #[trigger] want[j] == call_site(
                sc.caller->0,
                views[j].0,
                views[j].1,
                sc.hints,
                receiver_of(views[j].1, sc.hints).2,
            ),
            sc == site_scope(*caller, *hints, *imports),
            sc.caller == Some(c@),
            call_views(out@) == call_views(before) + want.take(i as int),
        decreases refs@.len() - i,
    {
        let (callee, qualifier) = (refs[i].0.clone(), copy_text(&refs[i].1));
        assert(views[i as int] == call_ref_view(refs@[i as int]));
        let (receiver_type, receiver_factory, allows) = receiver(&qualifier, hints);
        let site = CallRef {
            caller: c.clone(),
            callee,
            qualifier,
            receiver_type,
            receiver_factory,
            qualifier_owner_fallback: allows,
            process_entrypoint: None,
        };
        proof {
            lemma_call_views_push(out@, site);
        }
        out.push(site);
        i = i + 1;
        assert(want.take(i as int) =~= want.take(i - 1).push(want[i - 1]));
    }
    assert(want.take(refs@.len() as int) =~= want);
}

/// An optional node, by value.
pub open spec fn opt_node(n: Option<&SyntaxNode>) -> Option<SyntaxNode> {
    match n {
        Some(x) => Some(*x),
        None => None,
    }
}

/// What earlier siblings left, as text.
pub open spec fn following_view(
    fh: Option<StrMap<ReceiverHint>>,
    fa: Option<StrMap<String>>,
    fw: Option<StrMap<PythonNullableWrapper>>,
    fi: Option<StrMap<String>>,
) -> Following {
    Following {
        hints: crate::rust_hints::opt_hints_view(fh),
        aliases: match fa {
            Some(a) => Some(texts_of(a.view())),
            None => None,
        },
        wrappers: match fw {
            Some(w) => Some(w.view()),
            None => None,
        },
        imports: match fi {
            Some(i) => Some(texts_of(i.view())),
            None => None,
        },
    }
}

/// Computes [`alternative_branch`].
fn is_alternative(n: &SyntaxNode, c: &SyntaxNode) -> (r: bool)
    ensures
        r == alternative_branch(*n, *c),
{
    if !str_eq(n.kind.as_str(), "if_statement") {
        return false;
    }
    let mut i: usize = 0;
    while i < n.children.len()
        invariant
            i <= n.children@.len(),
            n.kind@ == "if_statement"@,
            forall|k: int|
                0 <= k < i ==> !(bears_field(#[trigger] n.children@[k], "alternative"@) && n.children@[k].start
                    == c.start && n.children@[k].end == c.end),
        decreases n.children@.len() - i,
    {
        let x = &n.children[i];
        let alt = match &x.field {
            Some(f) => str_eq(f.as_str(), "alternative"),
            None => false,
        };
        if alt && x.start == c.start && x.end == c.end {
            return true;
        }
        i = i + 1;
    }
    false
}

/// Computes [`narrowed_hints_at`].
fn narrowed_at(
    n: &SyntaxNode,
    lang: Lang,
    grand: Option<&SyntaxNode>,
    hints: &StrMap<ReceiverHint>,
) -> (r: Option<StrMap<ReceiverHint>>)
    ensures
        crate::rust_hints::opt_hints_view(r) == narrowed_hints_at(*n, lang, opt_node(grand), hints_view(hints.view())),
{
    if lang != Lang::Rust {
        return None;
    }
    let k = n.kind.as_str();
    if str_eq(k, "if_expression") || str_eq(k, "while_expression") {
        return rust_condition_type_hints(n, hints);
    }
    if str_eq(k, "match_arm") {
        return match grand {
            Some(g) => rust_match_arm_type_hints(n, g, hints),
            None => None,
        };
    }
    None
}

/// Computes [`narrowed_child`].
fn narrowed_child_of(n: &SyntaxNode) -> (r: Option<usize>)
    ensures
        match r {
            Some(k) => narrowed_child(*n) == Some(k as int) && k < n.children@.len(),
            None => narrowed_child(*n) is None,
        },
{
    proof {
        crate::tree::lemma_field_index(n.children@, "consequence"@);
        crate::tree::lemma_field_index(n.children@, "body"@);
    }
    if str_eq(n.kind.as_str(), "if_expression") {
        n.field_position("consequence")
    } else if str_eq(n.kind.as_str(), "while_expression") {
        n.field_position("body")
    } else {
        None
    }
}

/// Appends the call sites of a subtree, as [`calls_of`] says.
#[verifier::loop_isolation(false)]
#[verifier::rlimit(60)]
fn walk_calls(
    n: &SyntaxNode,
    parent: Option<&SyntaxNode>,
    grand: Option<&SyntaxNode>,
    lang: Lang,
    module: &str,
    ty: &Option<String>,
    caller: &Option<String>,
    hints: &StrMap<ReceiverHint>,
    aliases: &StrMap<String>,
    wrappers: &StrMap<PythonNullableWrapper>,
    imports: &StrMap<String>,
    out: &mut Vec<CallRef>,
)
    ensures
        call_views(final(out)@) == call_views(old(out)@) + calls_of(
            *n,
            opt_node(parent),
            opt_node(grand),
            lang,
            module@,
            scope_view(*ty, *caller, *hints, *aliases, *wrappers, *imports),
        ),
    decreases n, n.children@.len() + 1,
{
    let ghost st = scope_view(*ty, *caller, *hints, *aliases, *wrappers, *imports);
    let ety = enclosing_of(n, lang, ty);
    let entered = enter_function(n, lang, module, ty, aliases, wrappers, imports);
    let a_caller: Option<String> = match &entered {
        Some(e) => Some(e.caller.clone()),
        None => copy_text(caller),
    };
    let a_hints: &StrMap<ReceiverHint> = match &entered {
        Some(e) => &e.hints,
        None => hints,
    };
    let a_aliases: &StrMap<String> = match &entered {
        Some(e) => match &e.aliases {
            Some(a) => a,
            None => aliases,
        },
        None => aliases,
    };
    let a_wrappers: &StrMap<PythonNullableWrapper> = match &entered {
        Some(e) => match &e.wrappers {
            Some(w) => w,
            None => wrappers,
        },
        None => wrappers,
    };
    let a_imports: &StrMap<String> = match &entered {
        Some(e) => match &e.imports {
            Some(i) => i,
            None => imports,
        },
        None => imports,
    };
    let ghost sc = scope_at(*n, lang, module@, st);
    assert(sc == scope_view(ety, a_caller, *a_hints, *a_aliases, *a_wrappers, *a_imports));
    let ghost start = out@;
    push_direct_calls(n, lang, &a_caller, a_hints, a_imports, out);
    assert(direct_calls(*n, lang, site_scope(a_caller, *a_hints, *a_imports)) == direct_calls(*n, lang, sc));
    push_macro_calls(n, lang, &a_caller, a_hints, a_imports, out);
    assert(macro_calls(*n, lang, site_scope(a_caller, *a_hints, *a_imports)) == macro_calls(*n, lang, sc));
    let narrowed = narrowed_at(n, lang, grand, a_hints);
    let ghost nv = crate::rust_hints::opt_hints_view(narrowed);
    let nc = narrowed_child_of(n);
    let narrows_all = str_eq(n.kind.as_str(), "match_arm");
    let ghost mid = out@;
    let mut fh: Option<StrMap<ReceiverHint>> = None;
    let mut fa: Option<StrMap<String>> = None;
    let mut fw: Option<StrMap<PythonNullableWrapper>> = None;
    let mut fi: Option<StrMap<String>> = None;
    assert(following_view(fh, fa, fw, fi) == nothing_following());
    let mut j: usize = 0;
    while j < n.children.len()
        invariant
            j <= n.children@.len(),
            call_views(out@) + calls_below(*n, opt_node(parent), lang, module@, sc, nv, j as int, following_view(fh, fa, fw, fi))
                == call_views(mid) + calls_below(*n, opt_node(parent), lang, module@, sc, nv, 0, nothing_following()),
        decreases n.children@.len() - j,
    {
        let c = &n.children[j];
        let ghost fv = following_view(fh, fa, fw, fi);
        let seq_h: &StrMap<ReceiverHint> = match &fh {
            Some(h) => h,
            None => a_hints,
        };
        let alt = lang == Lang::Python && is_alternative(n, c);
        let seq_a: &StrMap<String> = if alt {
            a_aliases
        } else {
            match &fa {
                Some(x) => x,
                None => a_aliases,
            }
        };
        let seq_w: &StrMap<PythonNullableWrapper> = if alt {
            a_wrappers
        } else {
            match &fw {
                Some(x) => x,
                None => a_wrappers,
            }
        };
        let seq_i: &StrMap<String> = if alt {
            a_imports
        } else {
            match &fi {
                Some(x) => x,
                None => a_imports,
            }
        };
        let ch_h: &StrMap<ReceiverHint> = match &narrowed {
            Some(h) => if narrows_all {
                h
            } else {
                match nc {
                    Some(k) => if n.children[k].start == c.start && n.children[k].end == c.end {
                        h
                    } else {
                        seq_h
                    },
                    None => seq_h,
                }
            },
            None => seq_h,
        };
        let ghost cs = child_scope(*n, lang, sc, nv, j as int, fv);
        assert(cs == scope_view(ety, a_caller, *ch_h, *seq_a, *seq_w, *seq_i));
        let ghost before = out@;
        walk_calls(c, Some(n), parent, lang, module, &ety, &a_caller, ch_h, seq_a, seq_w, seq_i, out);
        let k = n.kind.as_str();
        let next: Option<StrMap<ReceiverHint>> = if lang == Lang::Rust && str_eq(k, "block") {
            rust_let_else_type_hints(c, seq_h)
        } else if lang == Lang::Rust && str_eq(k, "let_chain") {
            rust_let_condition_type_hints(c, seq_h)
        } else if lang == Lang::Python && str_eq(k, "block") {
            python_assignment_type_hints(c, seq_h, seq_a, seq_w)
        } else {
            None
        };
        let mut na: Option<StrMap<String>> = None;
        let mut nw: Option<StrMap<PythonNullableWrapper>> = None;
        let mut ni: Option<StrMap<String>> = None;
        if lang == Lang::Python {
            let mut a2 = seq_a.copied_text();
            update_python_type_aliases(c, &mut a2);
            let mut w2 = seq_w.copied();
            update_python_nullable_wrappers(c, &mut w2);
            let mut i2 = seq_i.copied_text();
            update_python_import_bindings(c, &mut i2);
            na = Some(a2);
            nw = Some(w2);
            ni = Some(i2);
        }
        let ghost after = following_after(*n, lang, sc, cs, j as int, fv);
        if next.is_some() {
            fh = next;
        }
        if lang == Lang::Python {
            fa = na;
            fw = nw;
            fi = ni;
        }
        assert(following_view(fh, fa, fw, fi) == after);
        assert(call_views(out@) == call_views(before) + calls_of(*c, Some(*n), opt_node(parent), lang, module@, cs));
        j = j + 1;
    }
    assert(call_views(out@) =~= call_views(out@) + calls_below(*n, opt_node(parent), lang, module@, sc, nv, j as int, following_view(fh, fa, fw, fi)));
    assert(call_views(out@) =~= call_views(start) + calls_of(*n, opt_node(parent), opt_node(grand), lang, module@, st));
}

/// The call sites of a file's syntax tree in `module`, in document order,
/// as [`calls_in_file`] says.
pub fn collect_calls(root: &SyntaxNode, lang: Lang, module: &str) -> (r: Vec<CallRef>)
    ensures
        call_views(r@) == calls_in_file(*root, lang, module@),
{
    let mut out: Vec<CallRef> = Vec::new();
    let hints: StrMap<ReceiverHint> = StrMap::new();
    let aliases: StrMap<String> = StrMap::new();
    let wrappers: StrMap<PythonNullableWrapper> = StrMap::new();
    let imports: StrMap<String> = StrMap::new();
    let none: Option<String> = None;
    assert(scope_view(none, none, hints, aliases, wrappers, imports) =~= file_scope()) by {
        assert(hints_view(hints.view()) =~= Map::<Seq<char>, HintView>::empty());
        assert(texts_of(aliases.view()) =~= Map::<Seq<char>, Seq<char>>::empty());
        assert(texts_of(imports.view()) =~= Map::<Seq<char>, Seq<char>>::empty());
    }
    walk_calls(root, None, None, lang, module, &none, &none, &hints, &aliases, &wrappers, &imports, &mut out);
    assert(call_views(Seq::<CallRef>::empty()) =~= Seq::<CallView>::empty());
    assert(call_views(out@) =~= calls_in_file(*root, lang, module@));
    out
}

} // verus!
