//! What Python names stand for at the end of a block of statements: the
//! modules and members that imports bind, and the short aliases of imported
//! type names. A later definition or assignment of a name forgets it, and
//! after an `if` only what every branch agrees on survives.

use vstd::prelude::*;
use crate::fields::{lemma_split_nonempty, split_on, split_text, texts};
use crate::strmap::{kept_keys, str_eq, StrMap};
use crate::text::{push_str, push_char};
use crate::tree::{bears_field, field_index, field_text, first_named_from, lemma_field_index, SyntaxNode};
use crate::py_hints::{
    insert_python_nullable_wrapper, remove_python_wrapper_binding, shadowed_by, wrapper_named,
    PythonNullableWrapper,
};
use crate::fields::{trim, trim_chars};
use crate::text::chars_of;

verus! {

/// The bindings of a map of texts, each value taken by its contents.
pub open spec fn texts_of(m: Map<Seq<char>, String>) -> Map<Seq<char>, Seq<char>> {
    m.map_values(|s: String| s@)
}

/// The bindings on which both maps agree.
pub open spec fn agreed<V>(a: Map<Seq<char>, V>, b: Map<Seq<char>, V>) -> Map<Seq<char>, V> {
    Map::new(|k: Seq<char>| a.contains_key(k) && b.contains_key(k) && a[k] == b[k], |k: Seq<char>| a[k])
}

/// The name an expression statement assigns: its first named child is an
/// assignment whose left side is an identifier.
pub open spec fn assigned_name(n: SyntaxNode) -> Option<Seq<char>> {
    match first_named_from(n.children@, 0) {
        Some(i) => {
            let a = n.children@[i];
            if a.kind@ == "assignment"@ {
                match field_index(a.children@, "left"@) {
                    Some(l) => if a.children@[l].kind@ == "identifier"@ {
                        Some(a.children@[l].text@)
                    } else {
                        None
                    },
                    None => None,
                }
            } else {
                None
            }
        },
        None => None,
    }
}

/// Some alternative of an `if` statement is an `else` clause.
pub open spec fn has_else(n: SyntaxNode) -> bool {
    exists|j: int|
        0 <= j < n.children@.len() && bears_field(#[trigger] n.children@[j], "alternative"@)
            && n.children@[j].kind@ == "else_clause"@
}

/// Which names an import statement records.
#[derive(Debug, Clone, Copy, PartialEq, Eq, Structural)]
pub enum ImportRule {
    /// Every imported module or member, under the name it is bound to,
    /// mapped to its dotted path.
    Bindings,
    /// Only renamed imports (`import a.B as C`), mapped to the last segment
    /// of the imported path.
    Aliases,
}

/// The binding and target that one import of a statement records under
/// the binding rule.
pub open spec fn imported_binding(stmt: SyntaxNode, c: SyntaxNode) -> Option<(Seq<char>, Seq<char>)> {
    let imported = if c.kind@ == "aliased_import"@ {
        field_text(c, "name"@)
    } else if c.kind@ == "dotted_name"@ {
        Some(c.text@)
    } else {
        None
    };
    let binding = if c.kind@ == "aliased_import"@ {
        field_text(c, "alias"@)
    } else {
        match imported {
            Some(t) => Some(
                if stmt.kind@ == "import_statement"@ {
                    split_on(t, '.')[0]
                } else {
                    split_on(t, '.').last()
                },
            ),
            None => None,
        }
    };
    match (imported, binding) {
        (Some(i), Some(b)) => Some(
            (
                b,
                match field_index(stmt.children@, "module_name"@) {
                    Some(mi) => stmt.children@[mi].text@ + "."@ + i,
                    None => i,
                },
            ),
        ),
        _ => None,
    }
}

/// The alias and target that one import of a statement records under the
/// alias rule.
pub open spec fn imported_alias(c: SyntaxNode) -> Option<(Seq<char>, Seq<char>)> {
    if c.kind@ == "aliased_import"@ {
        match (field_text(c, "name"@), field_text(c, "alias"@)) {
            (Some(name), Some(alias)) => {
                let target = split_on(name, '.').last();
                if target.len() > 0 {
                    Some((alias, target))
                } else {
                    None
                }
            },
            _ => None,
        }
    } else {
        None
    }
}

/// The child is the statement's `module_name` itself.
pub open spec fn is_module_part(stmt: SyntaxNode, c: SyntaxNode) -> bool {
    match field_index(stmt.children@, "module_name"@) {
        Some(mi) => c.start == stmt.children@[mi].start && c.end == stmt.children@[mi].end,
        None => false,
    }
}

/// What the import statement's named children from position `j` on record.
pub open spec fn import_scope(rule: ImportRule, stmt: SyntaxNode, j: int, m: Map<Seq<char>, Seq<char>>) -> Map<
    Seq<char>,
    Seq<char>,
>
    decreases stmt.children@.len() - j,
{
    if j < 0 || j >= stmt.children@.len() {
        m
    } else {
        let c = stmt.children@[j];
        let found = if !c.named {
            None
        } else {
            match rule {
                ImportRule::Bindings => if is_module_part(stmt, c) {
                    None
                } else {
                    imported_binding(stmt, c)
                },
                ImportRule::Aliases => imported_alias(c),
            }
        };
        let next = match found {
            Some((b, t)) => m.insert(b, t),
            None => m,
        };
        import_scope(rule, stmt, j + 1, next)
    }
}

/// The names in scope after the statement `n`, starting from `m`.
pub open spec fn scope_after(rule: ImportRule, n: SyntaxNode, m: Map<Seq<char>, Seq<char>>) -> Map<
    Seq<char>,
    Seq<char>,
>
    decreases n, n.children@.len() + 1,
{
    let ch = n.children@;
    proof {
        lemma_field_index(ch, "consequence"@);
    }
    if n.kind@ == "if_statement"@ && field_index(ch, "consequence"@) is Some {
        let first = scope_after(rule, ch[field_index(ch, "consequence"@)->0], m);
        let joined = branches_scope(rule, n, 0, m, first);
        if has_else(n) {
            joined
        } else {
            agreed(joined, m)
        }
    } else if n.kind@ == "import_statement"@ || n.kind@ == "import_from_statement"@ {
        import_scope(rule, n, 0, m)
    } else if n.kind@ == "class_definition"@ || n.kind@ == "function_definition"@ {
        match field_text(n, "name"@) {
            Some(t) => m.remove(t),
            None => m,
        }
    } else if n.kind@ == "expression_statement"@ {
        match assigned_name(n) {
            Some(t) => m.remove(t),
            None => m,
        }
    } else {
        children_scope(rule, n, 0, m)
    }
}

/// Joins into `acc` what each alternative from position `j` on leaves in
/// scope, each started from `m`.
pub open spec fn branches_scope(
    rule: ImportRule,
    n: SyntaxNode,
    j: int,
    m: Map<Seq<char>, Seq<char>>,
    acc: Map<Seq<char>, Seq<char>>,
) -> Map<Seq<char>, Seq<char>>
    decreases n, n.children@.len() - j,
{
    if j < 0 || j >= n.children@.len() {
        acc
    } else {
        let next = if bears_field(n.children@[j], "alternative"@) {
            agreed(acc, scope_after(rule, n.children@[j], m))
        } else {
            acc
        };
        branches_scope(rule, n, j + 1, m, next)
    }
}

/// The names in scope after the named children from position `j` on, in
/// order.
pub open spec fn children_scope(rule: ImportRule, n: SyntaxNode, j: int, m: Map<Seq<char>, Seq<char>>) -> Map<
    Seq<char>,
    Seq<char>,
>
    decreases n, n.children@.len() - j,
{
    if j < 0 || j >= n.children@.len() {
        m
    } else {
        let next = if n.children@[j].named {
            scope_after(rule, n.children@[j], m)
        } else {
            m
        };
        children_scope(rule, n, j + 1, next)
    }
}

// ---------------------------------------------------------------- map steps

proof fn lemma_texts_insert(m: Map<Seq<char>, String>, k: Seq<char>, v: String)
    ensures
        texts_of(m.insert(k, v)) == texts_of(m).insert(k, v@),
{
    assert(texts_of(m.insert(k, v)) =~= texts_of(m).insert(k, v@));
}

proof fn lemma_texts_remove(m: Map<Seq<char>, String>, k: Seq<char>)
    ensures
        texts_of(m.remove(k)) == texts_of(m).remove(k),
{
    assert(texts_of(m.remove(k)) =~= texts_of(m).remove(k));
}

/// Keeps in `m` only what `other` binds to the same text.
fn keep_agreeing_text(m: &mut StrMap<String>, other: &StrMap<String>)
    ensures
        texts_of(final(m).view()) == agreed(texts_of(old(m).view()), texts_of(other.view())),
{
    let n = m.len();
    let ghost pairs = m.pairs();
    let ghost before = m.view();
    let mut keep: Vec<bool> = Vec::new();
    let mut i: usize = 0;
    while i < n
        invariant
            n == pairs.len(),
            pairs == m.pairs(),
            before == m.view(),
            i <= n,
            keep@.len() == i,
            forall|j: int|
                0 <= j < i ==> #[trigger] keep@[j] == (other.view().contains_key(pairs[j].0)
                    && other.view()[pairs[j].0]@ == pairs[j].1@),
        decreases n - i,
    {
        let agree = match other.get(m.key(i).as_str()) {
            Some(v) => str_eq(v.as_str(), m.value(i).as_str()),
            None => false,
        };
        keep.push(agree);
        i = i + 1;
    }
    let _facts = m.len();
    m.keep_where(&keep);
    proof {
        let t = texts_of(before);
        let o = texts_of(other.view());
        assert forall|k: Seq<char>| #[trigger] texts_of(m.view()).contains_key(k) <==> agreed(t, o).contains_key(k) by {
            if before.contains_key(k) {
                let j = choose|j: int| 0 <= j < pairs.len() && pairs[j].0 == k;
                if agreed(t, o).contains_key(k) {
                    assert(keep@[j]);
                }
                if kept_keys(pairs, keep@, n as int).contains(k) {
                    let i = choose|i: int| 0 <= i < n && pairs[i].0 == k && keep@[i];
                    assert(pairs[i].0 == pairs[j].0);
                }
            }
        }
        assert(texts_of(m.view()) =~= agreed(t, o));
    }
}

/// The text of the child filling field `f`.
pub(crate) fn field_text_of<'a>(n: &'a SyntaxNode, f: &str) -> (r: Option<&'a String>)
    ensures
        match r {
            Some(t) => field_text(*n, f@) == Some(t@),
            None => field_text(*n, f@) is None,
        },
{
    match n.field_position(f) {
        Some(i) => Some(&n.children[i].text),
        None => None,
    }
}

/// Computes [`assigned_name`].
fn assigned_name_of<'a>(n: &'a SyntaxNode) -> (r: Option<&'a String>)
    ensures
        match r {
            Some(t) => assigned_name(*n) == Some(t@),
            None => assigned_name(*n) is None,
        },
{
    let mut i: usize = 0;
    while i < n.children.len() && !n.children[i].named
        invariant
            i <= n.children@.len(),
            first_named_from(n.children@, 0) == first_named_from(n.children@, i as int),
        decreases n.children@.len() - i,
    {
        i = i + 1;
    }
    if i == n.children.len() {
        return None;
    }
    let a = &n.children[i];
    if !str_eq(a.kind.as_str(), "assignment") {
        return None;
    }
    proof {
        lemma_field_index(a.children@, "left"@);
    }
    match a.field_position("left") {
        Some(l) => if str_eq(a.children[l].kind.as_str(), "identifier") {
            Some(&a.children[l].text)
        } else {
            None
        },
        None => None,
    }
}

/// Computes [`has_else`].
fn has_else_clause(n: &SyntaxNode) -> (r: bool)
    ensures
        r == has_else(*n),
{
    let mut j: usize = 0;
    while j < n.children.len()
        invariant
            j <= n.children@.len(),
            forall|i: int|
                0 <= i < j ==> !(bears_field(#[trigger] n.children@[i], "alternative"@) && n.children@[i].kind@
                    == "else_clause"@),
        decreases n.children@.len() - j,
    {
        let c = &n.children[j];
        let alt = match &c.field {
            Some(f) => str_eq(f.as_str(), "alternative"),
            None => false,
        };
        if alt && str_eq(c.kind.as_str(), "else_clause") {
            return true;
        }
        j = j + 1;
    }
    false
}

/// The piece of a dotted path before its first dot, or after its last.
pub(crate) fn dotted_piece(t: &str, first: bool) -> (r: String)
    ensures
        r@ == (if first {
            split_on(t@, '.')[0]
        } else {
            split_on(t@, '.').last()
        }),
{
    let pieces = split_text(t, '.');
    proof {
        lemma_split_nonempty(t@, '.');
        assert(texts(pieces@)[0] == pieces@[0]@);
        assert(texts(pieces@)[pieces@.len() - 1] == pieces@[pieces@.len() - 1]@);
    }
    if first {
        pieces[0].clone()
    } else {
        pieces[pieces.len() - 1].clone()
    }
}

/// Computes what one child of an import statement records.
fn import_found(rule: ImportRule, stmt: &SyntaxNode, c: &SyntaxNode) -> (r: Option<(String, String)>)
    ensures
        match r {
            Some((b, t)) => (match rule {
                ImportRule::Bindings => if is_module_part(*stmt, *c) {
                    None
                } else {
                    imported_binding(*stmt, *c)
                },
                ImportRule::Aliases => imported_alias(*c),
            }) == Some((b@, t@)),
            None => (match rule {
                ImportRule::Bindings => if is_module_part(*stmt, *c) {
                    None
                } else {
                    imported_binding(*stmt, *c)
                },
                ImportRule::Aliases => imported_alias(*c),
            }) is None,
        },
{
    proof {
        lemma_field_index(stmt.children@, "module_name"@);
    }
    let aliased = str_eq(c.kind.as_str(), "aliased_import");
    match rule {
        ImportRule::Aliases => {
            if !aliased {
                return None;
            }
            match (field_text_of(c, "name"), field_text_of(c, "alias")) {
                (Some(name), Some(alias)) => {
                    let target = dotted_piece(name.as_str(), false);
                    if target.as_str().is_empty() {
                        None
                    } else {
                        Some((alias.clone(), target))
                    }
                },
                _ => None,
            }
        },
        ImportRule::Bindings => {
            let module = stmt.field_position("module_name");
            match module {
                Some(mi) => {
                    if c.start == stmt.children[mi].start && c.end == stmt.children[mi].end {
                        return None;
                    }
                },
                None => {},
            }
            let dotted = str_eq(c.kind.as_str(), "dotted_name");
            let imported: Option<&String> = if aliased {
                field_text_of(c, "name")
            } else if dotted {
                Some(&c.text)
            } else {
                None
            };
            let binding: Option<String> = if aliased {
                match field_text_of(c, "alias") {
                    Some(a) => Some(a.clone()),
                    None => None,
                }
            } else {
                match imported {
                    Some(t) => Some(dotted_piece(t.as_str(), str_eq(stmt.kind.as_str(), "import_statement"))),
                    None => None,
                }
            };
            match (imported, binding) {
                (Some(i), Some(b)) => {
                    let target = match module {
                        Some(mi) => {
                            let mut s = String::new();
                            push_str(&mut s, stmt.children[mi].text.as_str());
                            push_char(&mut s, '.');
                            push_str(&mut s, i.as_str());
                            proof {
                                reveal_strlit(".");
                                assert(s@ =~= stmt.children@[mi as int].text@ + "."@ + i@);
                            }
                            s
                        },
                        None => i.clone(),
                    };
                    Some((b, target))
                },
                _ => None,
            }
        },
    }
}

/// Updates `m` to what stands in scope after the statement `n`.
fn update_scope(rule: ImportRule, n: &SyntaxNode, m: &mut StrMap<String>)
    ensures
        texts_of(final(m).view()) == scope_after(rule, *n, texts_of(old(m).view())),
    decreases n, n.children@.len() + 1,
{
    let ghost ch = n.children@;
    let ghost start = texts_of(m.view());
    proof {
        lemma_field_index(ch, "consequence"@);
        lemma_field_index(ch, "name"@);
    }
    let kind = n.kind.as_str();
    let consequence = if str_eq(kind, "if_statement") {
        n.field_position("consequence")
    } else {
        None
    };
    if let Some(c) = consequence {
        let base = m.copied_text();
        update_scope(rule, &n.children[c], m);
        let mut j: usize = 0;
        while j < n.children.len()
            invariant
                j <= n.children@.len(),
                ch == n.children@,
                texts_of(base.view()) == start,
                branches_scope(rule, *n, j as int, start, texts_of(m.view())) == branches_scope(
                    rule,
                    *n,
                    0,
                    start,
                    scope_after(rule, ch[c as int], start),
                ),
            decreases n.children@.len() - j,
        {
            let alt = match &n.children[j].field {
                Some(f) => str_eq(f.as_str(), "alternative"),
                None => false,
            };
            if alt {
                let mut b = base.copied_text();
                update_scope(rule, &n.children[j], &mut b);
                keep_agreeing_text(m, &b);
            }
            j = j + 1;
        }
        if !has_else_clause(n) {
            keep_agreeing_text(m, &base);
        }
    } else if str_eq(kind, "import_statement") || str_eq(kind, "import_from_statement") {
        let mut j: usize = 0;
        while j < n.children.len()
            invariant
                j <= n.children@.len(),
                import_scope(rule, *n, j as int, texts_of(m.view())) == import_scope(rule, *n, 0, start),
            decreases n.children@.len() - j,
        {
            let c = &n.children[j];
            if c.named {
                match import_found(rule, n, c) {
                    Some((b, t)) => {
                        proof {
                            lemma_texts_insert(m.view(), b@, t);
                        }
                        m.insert(b, t);
                    },
                    None => {},
                }
            }
            j = j + 1;
        }
    } else if str_eq(kind, "class_definition") || str_eq(kind, "function_definition") {
        match field_text_of(n, "name") {
            Some(t) => {
                proof {
                    lemma_texts_remove(m.view(), t@);
                }
                m.remove(t.as_str());
            },
            None => {},
        }
    } else if str_eq(kind, "expression_statement") {
        match assigned_name_of(n) {
            Some(t) => {
                proof {
                    lemma_texts_remove(m.view(), t@);
                }
                m.remove(t.as_str());
            },
            None => {},
        }
    } else {
        let mut j: usize = 0;
        while j < n.children.len()
            invariant
                j <= n.children@.len(),
                children_scope(rule, *n, j as int, texts_of(m.view())) == children_scope(rule, *n, 0, start),
            decreases n.children@.len() - j,
        {
            if n.children[j].named {
                update_scope(rule, &n.children[j], m);
            }
            j = j + 1;
        }
    }
}

/// Updates `bindings` with what the Python statement `root` binds by
/// import: each imported module or member under the name it is bound to,
/// mapped to its dotted path; definitions and assignments forget a name,
/// and after an `if` only the bindings every branch agrees on remain.
pub fn update_python_import_bindings(root: &SyntaxNode, bindings: &mut StrMap<String>)
    ensures
        texts_of(final(bindings).view()) == scope_after(ImportRule::Bindings, *root, texts_of(old(bindings).view())),
{
    update_scope(ImportRule::Bindings, root, bindings)
}

/// Updates `aliases` with the renamed type imports of the Python statement
/// `root` (`from m import A as B` maps `B` to `A`); definitions and
/// assignments forget a name, and after an `if` only the aliases every
/// branch agrees on remain.
pub fn update_python_type_aliases(root: &SyntaxNode, aliases: &mut StrMap<String>)
    ensures
        texts_of(final(aliases).view()) == scope_after(ImportRule::Aliases, *root, texts_of(old(aliases).view())),
{
    update_scope(ImportRule::Aliases, root, aliases)
}

// ---------------------------------------------------------------- nullable wrappers

/// What remains of `m` once `b` is bound anew: every name it shadows goes.
pub open spec fn without_binding(
    m: Map<Seq<char>, PythonNullableWrapper>,
    b: Seq<char>,
) -> Map<Seq<char>, PythonNullableWrapper> {
    m.restrict(Set::new(|k: Seq<char>| !shadowed_by(k, b)))
}

/// `m` with `b` bound to the wrapper that `imported` names, if it names one.
pub open spec fn with_wrapper(
    m: Map<Seq<char>, PythonNullableWrapper>,
    b: Seq<char>,
    imported: Seq<char>,
) -> Map<Seq<char>, PythonNullableWrapper> {
    match wrapper_named(imported) {
        Some(w) => m.insert(b, w),
        None => m,
    }
}

/// The module is `typing` or `typing_extensions`.
pub open spec fn is_typing(t: Seq<char>) -> bool {
    t == "typing"@ || t == "typing_extensions"@
}

/// The imported path and the name it is bound to, for one child of an
/// import statement; a dotted import binds its first segment when `first`
/// holds and its last otherwise.
pub open spec fn imported_pair(c: SyntaxNode, first: bool) -> Option<(Seq<char>, Seq<char>)> {
    if c.kind@ == "aliased_import"@ {
        match (field_text(c, "name"@), field_text(c, "alias"@)) {
            (Some(n), Some(a)) => Some((n, a)),
            _ => None,
        }
    } else if c.kind@ == "dotted_name"@ {
        Some(
            (
                c.text@,
                if first {
                    split_on(c.text@, '.')[0]
                } else {
                    split_on(c.text@, '.').last()
                },
            ),
        )
    } else {
        None
    }
}

/// The wrapper names of a `from ... import` statement's named children
/// from position `j` on; only imports from a typing module name wrappers.
pub open spec fn from_import_wrappers(
    stmt: SyntaxNode,
    j: int,
    m: Map<Seq<char>, PythonNullableWrapper>,
    trusted: bool,
) -> Map<Seq<char>, PythonNullableWrapper>
    decreases stmt.children@.len() - j,
{
    if j < 0 || j >= stmt.children@.len() {
        m
    } else {
        let c = stmt.children@[j];
        let next = if !c.named || is_module_part(stmt, c) {
            m
        } else {
            match imported_pair(c, false) {
                Some((i, b)) => if trusted {
                    with_wrapper(without_binding(m, b), b, i)
                } else {
                    without_binding(m, b)
                },
                None => m,
            }
        };
        from_import_wrappers(stmt, j + 1, next, trusted)
    }
}

/// The three wrapper names reachable through a typing module bound to `b`.
pub open spec fn typing_module_wrappers(
    m: Map<Seq<char>, PythonNullableWrapper>,
    b: Seq<char>,
) -> Map<Seq<char>, PythonNullableWrapper> {
    m.insert(b + ".Optional"@, PythonNullableWrapper::Optional).insert(b + ".Union"@, PythonNullableWrapper::Union).insert(
        b + ".TYPE_CHECKING"@,
        PythonNullableWrapper::TypeChecking,
    )
}

/// The wrapper names of an `import` statement's named children from
/// position `j` on.
pub open spec fn plain_import_wrappers(
    stmt: SyntaxNode,
    j: int,
    m: Map<Seq<char>, PythonNullableWrapper>,
) -> Map<Seq<char>, PythonNullableWrapper>
    decreases stmt.children@.len() - j,
{
    if j < 0 || j >= stmt.children@.len() {
        m
    } else {
        let c = stmt.children@[j];
        let next = if !c.named {
            m
        } else {
            match imported_pair(c, true) {
                Some((i, b)) => if is_typing(i) {
                    typing_module_wrappers(without_binding(m, b), b)
                } else {
                    without_binding(m, b)
                },
                None => m,
            }
        };
        plain_import_wrappers(stmt, j + 1, next)
    }
}

/// The `if` tests a name bound to `TYPE_CHECKING`.
pub open spec fn type_checking_guard(n: SyntaxNode, m: Map<Seq<char>, PythonNullableWrapper>) -> bool {
    match field_text(n, "condition"@) {
        Some(t) => m.contains_key(trim(t)) && m[trim(t)] == PythonNullableWrapper::TypeChecking,
        None => false,
    }
}

/// The nullable-wrapper names in scope after the statement `n`, starting
/// from `m`. Under an `if TYPE_CHECKING:` only the guarded block counts.
pub open spec fn wrappers_after(n: SyntaxNode, m: Map<Seq<char>, PythonNullableWrapper>) -> Map<
    Seq<char>,
    PythonNullableWrapper,
>
    decreases n, n.children@.len() + 1,
{
    let ch = n.children@;
    proof {
        lemma_field_index(ch, "consequence"@);
        lemma_field_index(ch, "module_name"@);
    }
    if n.kind@ == "if_statement"@ && field_index(ch, "consequence"@) is Some {
        let c = field_index(ch, "consequence"@)->0;
        if type_checking_guard(n, m) {
            wrappers_after(ch[c], m)
        } else {
            let joined = wrapper_branches(n, 0, m, wrappers_after(ch[c], m));
            if has_else(n) {
                joined
            } else {
                agreed(joined, m)
            }
        }
    } else if n.kind@ == "import_from_statement"@ {
        match field_index(ch, "module_name"@) {
            Some(mi) => from_import_wrappers(n, 0, m, is_typing(ch[mi].text@)),
            None => m,
        }
    } else if n.kind@ == "import_statement"@ {
        plain_import_wrappers(n, 0, m)
    } else if n.kind@ == "class_definition"@ || n.kind@ == "function_definition"@ {
        match field_text(n, "name"@) {
            Some(t) => without_binding(m, t),
            None => m,
        }
    } else if n.kind@ == "expression_statement"@ {
        match assigned_name(n) {
            Some(t) => without_binding(m, t),
            None => m,
        }
    } else {
        wrapper_children(n, 0, m)
    }
}

/// Joins into `acc` what each alternative from position `j` on leaves.
pub open spec fn wrapper_branches(
    n: SyntaxNode,
    j: int,
    m: Map<Seq<char>, PythonNullableWrapper>,
    acc: Map<Seq<char>, PythonNullableWrapper>,
) -> Map<Seq<char>, PythonNullableWrapper>
    decreases n, n.children@.len() - j,
{
    if j < 0 || j >= n.children@.len() {
        acc
    } else {
        let next = if bears_field(n.children@[j], "alternative"@) {
            agreed(acc, wrappers_after(n.children@[j], m))
        } else {
            acc
        };
        wrapper_branches(n, j + 1, m, next)
    }
}

/// The wrapper names after the named children from position `j` on.
pub open spec fn wrapper_children(n: SyntaxNode, j: int, m: Map<Seq<char>, PythonNullableWrapper>) -> Map<
    Seq<char>,
    PythonNullableWrapper,
>
    decreases n, n.children@.len() - j,
{
    if j < 0 || j >= n.children@.len() {
        m
    } else {
        let next = if n.children@[j].named {
            wrappers_after(n.children@[j], m)
        } else {
            m
        };
        wrapper_children(n, j + 1, next)
    }
}

/// Keeps in `m` only what `other` binds to the same wrapper.
fn keep_agreeing_wrappers(m: &mut StrMap<PythonNullableWrapper>, other: &StrMap<PythonNullableWrapper>)
    ensures
        final(m).view() == agreed(old(m).view(), other.view()),
{
    let n = m.len();
    let ghost pairs = m.pairs();
    let ghost before = m.view();
    let mut keep: Vec<bool> = Vec::new();
    let mut i: usize = 0;
    while i < n
        invariant
            n == pairs.len(),
            pairs == m.pairs(),
            before == m.view(),
            i <= n,
            keep@.len() == i,
            forall|j: int|
                0 <= j < i ==> #[trigger] keep@[j] == (other.view().contains_key(pairs[j].0)
                    && other.view()[pairs[j].0] == pairs[j].1),
        decreases n - i,
    {
        let agree = match other.get(m.key(i).as_str()) {
            Some(v) => *v == *m.value(i),
            None => false,
        };
        keep.push(agree);
        i = i + 1;
    }
    let _facts = m.len();
    m.keep_where(&keep);
    proof {
        let o = other.view();
        assert forall|k: Seq<char>| #[trigger] m.view().contains_key(k) <==> agreed(before, o).contains_key(k) by {
            if before.contains_key(k) {
                let j = choose|j: int| 0 <= j < pairs.len() && pairs[j].0 == k;
                if agreed(before, o).contains_key(k) {
                    assert(keep@[j]);
                }
                if kept_keys(pairs, keep@, n as int).contains(k) {
                    let i = choose|i: int| 0 <= i < n && pairs[i].0 == k && keep@[i];
                    assert(pairs[i].0 == pairs[j].0);
                }
            }
        }
        assert(m.view() =~= agreed(before, o));
    }
}

/// Forgets what a new binding of `b` shadows, as [`without_binding`] says.
fn forget_binding(m: &mut StrMap<PythonNullableWrapper>, b: &str)
    ensures
        final(m).view() == without_binding(old(m).view(), b@),
{
    let ghost before = m.view();
    remove_python_wrapper_binding(m, b);
    assert(m.view() =~= without_binding(before, b@));
}

/// Computes [`imported_pair`].
fn imported_pair_of(c: &SyntaxNode, first: bool) -> (r: Option<(String, String)>)
    ensures
        match r {
            Some((i, b)) => imported_pair(*c, first) == Some((i@, b@)),
            None => imported_pair(*c, first) is None,
        },
{
    if str_eq(c.kind.as_str(), "aliased_import") {
        match (field_text_of(c, "name"), field_text_of(c, "alias")) {
            (Some(n), Some(a)) => Some((n.clone(), a.clone())),
            _ => None,
        }
    } else if str_eq(c.kind.as_str(), "dotted_name") {
        Some((c.text.clone(), dotted_piece(c.text.as_str(), first)))
    } else {
        None
    }
}

/// Updates `m` to the wrapper names in scope after the statement `n`.
fn update_wrappers(n: &SyntaxNode, m: &mut StrMap<PythonNullableWrapper>)
    ensures
        final(m).view() == wrappers_after(*n, old(m).view()),
    decreases n, n.children@.len() + 1,
{
    let ghost ch = n.children@;
    let ghost start = m.view();
    proof {
        lemma_field_index(ch, "consequence"@);
        lemma_field_index(ch, "module_name"@);
        lemma_field_index(ch, "condition"@);
    }
    let kind = n.kind.as_str();
    let consequence = if str_eq(kind, "if_statement") {
        n.field_position("consequence")
    } else {
        None
    };
    if let Some(c) = consequence {
        let guarded = match field_text_of(n, "condition") {
            Some(t) => {
                let b = trim_chars(&chars_of(t.as_str()));
                match m.get(b.as_str()) {
                    Some(w) => *w == PythonNullableWrapper::TypeChecking,
                    None => false,
                }
            },
            None => false,
        };
        if guarded {
            update_wrappers(&n.children[c], m);
            return;
        }
        let base = m.copied();
        update_wrappers(&n.children[c], m);
        let mut j: usize = 0;
        while j < n.children.len()
            invariant
                j <= n.children@.len(),
                ch == n.children@,
                base.view() == start,
                wrapper_branches(*n, j as int, start, m.view()) == wrapper_branches(
                    *n,
                    0,
                    start,
                    wrappers_after(ch[c as int], start),
                ),
            decreases n.children@.len() - j,
        {
            let alt = match &n.children[j].field {
                Some(f) => str_eq(f.as_str(), "alternative"),
                None => false,
            };
            if alt {
                let mut b = base.copied();
                update_wrappers(&n.children[j], &mut b);
                keep_agreeing_wrappers(m, &b);
            }
            j = j + 1;
        }
        if !has_else_clause(n) {
            keep_agreeing_wrappers(m, &base);
        }
    } else if str_eq(kind, "import_from_statement") {
        let module = n.field_position("module_name");
        match module {
            Some(mi) => {
                let mt = n.children[mi].text.as_str();
                let trusted = str_eq(mt, "typing") || str_eq(mt, "typing_extensions");
                let mut j: usize = 0;
                while j < n.children.len()
                    invariant
                        j <= n.children@.len(),
                        ch == n.children@,
                        field_index(ch, "module_name"@) == Some(mi as int),
                        mi < ch.len(),
                        trusted == is_typing(ch[mi as int].text@),
                        from_import_wrappers(*n, j as int, m.view(), trusted) == from_import_wrappers(
                            *n,
                            0,
                            start,
                            trusted,
                        ),
                    decreases n.children@.len() - j,
                {
                    let c = &n.children[j];
                    let part = c.start == n.children[mi].start && c.end == n.children[mi].end;
                    if c.named && !part {
                        match imported_pair_of(c, false) {
                            Some((i, b)) => {
                                forget_binding(m, b.as_str());
                                if trusted {
                                    insert_python_nullable_wrapper(m, b.as_str(), i.as_str());
                                }
                            },
                            None => {},
                        }
                    }
                    j = j + 1;
                }
            },
            None => {},
        }
    } else if str_eq(kind, "import_statement") {
        let mut j: usize = 0;
        while j < n.children.len()
            invariant
                j <= n.children@.len(),
                plain_import_wrappers(*n, j as int, m.view()) == plain_import_wrappers(*n, 0, start),
            decreases n.children@.len() - j,
        {
            let c = &n.children[j];
            if c.named {
                match imported_pair_of(c, true) {
                    Some((i, b)) => {
                        forget_binding(m, b.as_str());
                        if str_eq(i.as_str(), "typing") || str_eq(i.as_str(), "typing_extensions") {
                            let mut o = String::new();
                            push_str(&mut o, b.as_str());
                            push_str(&mut o, ".Optional");
                            m.insert(o, PythonNullableWrapper::Optional);
                            let mut u = String::new();
                            push_str(&mut u, b.as_str());
                            push_str(&mut u, ".Union");
                            m.insert(u, PythonNullableWrapper::Union);
                            let mut t = String::new();
                            push_str(&mut t, b.as_str());
                            push_str(&mut t, ".TYPE_CHECKING");
                            m.insert(t, PythonNullableWrapper::TypeChecking);
                        }
                    },
                    None => {},
                }
            }
            j = j + 1;
        }
    } else if str_eq(kind, "class_definition") || str_eq(kind, "function_definition") {
        match field_text_of(n, "name") {
            Some(t) => forget_binding(m, t.as_str()),
            None => {},
        }
    } else if str_eq(kind, "expression_statement") {
        match assigned_name_of(n) {
            Some(t) => forget_binding(m, t.as_str()),
            None => {},
        }
    } else {
        let mut j: usize = 0;
        while j < n.children.len()
            invariant
                j <= n.children@.len(),
                wrapper_children(*n, j as int, m.view()) == wrapper_children(*n, 0, start),
            decreases n.children@.len() - j,
        {
            if n.children[j].named {
                update_wrappers(&n.children[j], m);
            }
            j = j + 1;
        }
    }
}

/// Updates `wrappers` with the names under which the Python statement
/// `root` makes `Optional`, `Union` and `TYPE_CHECKING` of a typing module
/// available; rebinding a name forgets it and what is reached through it,
/// an `if TYPE_CHECKING:` block counts alone, and after another `if` only
/// the names every branch agrees on remain.
pub fn update_python_nullable_wrappers(root: &SyntaxNode, wrappers: &mut StrMap<PythonNullableWrapper>)
    ensures
        final(wrappers).view() == wrappers_after(*root, old(wrappers).view()),
{
    update_wrappers(root, wrappers)
}

// ---------------------------------------------------------------- function scopes

/// The first named position at or after `i` whose kind is `k`.
pub open spec fn first_named_kind_from(ch: Seq<SyntaxNode>, k: Seq<char>, i: int) -> Option<int>
    decreases ch.len() - i,
{
    if i < 0 || i >= ch.len() {
        None
    } else if ch[i].named && ch[i].kind@ == k {
        Some(i)
    } else {
        first_named_kind_from(ch, k, i + 1)
    }
}

proof fn lemma_first_named_kind_from(ch: Seq<SyntaxNode>, k: Seq<char>, i: int)
    ensures
        match first_named_kind_from(ch, k, i) {
            Some(x) => 0 <= i <= x < ch.len(),
            None => true,
        },
    decreases ch.len() - i,
{
    if 0 <= i < ch.len() && !(ch[i].named && ch[i].kind@ == k) {
        lemma_first_named_kind_from(ch, k, i + 1);
    }
}

/// The node naming a parameter: the parameter itself when it is an
/// identifier, else its `name` field, else its first identifier child.
pub open spec fn parameter_node(p: SyntaxNode) -> Option<SyntaxNode> {
    if p.kind@ == "identifier"@ {
        Some(p)
    } else {
        match field_index(p.children@, "name"@) {
            Some(i) => Some(p.children@[i]),
            None => match first_named_kind_from(p.children@, "identifier"@, 0) {
                Some(i) => Some(p.children@[i]),
                None => None,
            },
        }
    }
}

/// The name of the parameter at position `j`, if it is named and has one.
pub open spec fn parameter_name_at(ps: SyntaxNode, j: int) -> Seq<Seq<char>> {
    let c = ps.children@[j];
    if c.named {
        match parameter_node(c) {
            Some(x) => seq![x.text@],
            None => seq![],
        }
    } else {
        seq![]
    }
}

/// The parameter names among the first `j` children of a parameter list.
pub open spec fn parameter_names_upto(ps: SyntaxNode, j: int) -> Seq<Seq<char>>
    decreases j,
{
    if j <= 0 || j > ps.children@.len() {
        seq![]
    } else {
        parameter_names_upto(ps, j - 1) + parameter_name_at(ps, j - 1)
    }
}

/// The parameter names of a function definition, in order.
pub open spec fn parameter_names(function: SyntaxNode) -> Seq<Seq<char>> {
    match field_index(function.children@, "parameters"@) {
        Some(p) => parameter_names_upto(function.children@[p], function.children@[p].children@.len() as int),
        None => seq![],
    }
}

/// Finds the node naming a parameter, as [`parameter_node`] says.
pub fn python_parameter_name(parameter: &SyntaxNode) -> (r: Option<&SyntaxNode>)
    ensures
        match r {
            Some(x) => parameter_node(*parameter) == Some(*x),
            None => parameter_node(*parameter) is None,
        },
{
    if str_eq(parameter.kind.as_str(), "identifier") {
        return Some(parameter);
    }
    proof {
        lemma_field_index(parameter.children@, "name"@);
        lemma_first_named_kind_from(parameter.children@, "identifier"@, 0);
    }
    match parameter.field_position("name") {
        Some(i) => Some(&parameter.children[i]),
        None => {
            let mut i: usize = 0;
            while i < parameter.children.len()
                invariant
                    i <= parameter.children@.len(),
                    parameter.kind@ != "identifier"@,
                    field_index(parameter.children@, "name"@) is None,
                    first_named_kind_from(parameter.children@, "identifier"@, 0) == first_named_kind_from(
                        parameter.children@,
                        "identifier"@,
                        i as int,
                    ),
                decreases parameter.children@.len() - i,
            {
                if parameter.children[i].named && str_eq(parameter.children[i].kind.as_str(), "identifier") {
                    return Some(&parameter.children[i]);
                }
                i = i + 1;
            }
            None
        },
    }
}

/// The names bound within a function, on entry: `inherited` without the
/// function's parameters.
pub fn python_scoped_import_bindings(function: &SyntaxNode, inherited: &StrMap<String>) -> (r: StrMap<String>)
    ensures
        r.view() == inherited.view().restrict(Set::new(|k: Seq<char>| !parameter_names(*function).contains(k))),
{
    scoped_text_map(function, inherited)
}

/// The type aliases within a function, on entry: `inherited` without the
/// function's parameters.
pub fn python_scoped_type_aliases(function: &SyntaxNode, inherited: &StrMap<String>) -> (r: StrMap<String>)
    ensures
        r.view() == inherited.view().restrict(Set::new(|k: Seq<char>| !parameter_names(*function).contains(k))),
{
    scoped_text_map(function, inherited)
}

/// `inherited` without the function's parameters.
fn scoped_text_map(function: &SyntaxNode, inherited: &StrMap<String>) -> (r: StrMap<String>)
    ensures
        r.view() == inherited.view().restrict(Set::new(|k: Seq<char>| !parameter_names(*function).contains(k))),
{
    let mut m = inherited.copied_text();
    proof {
        lemma_field_index(function.children@, "parameters"@);
    }
    match function.field_position("parameters") {
        Some(p) => {
            let ps = &function.children[p];
            let mut j: usize = 0;
            proof {
                assert(m.view() =~= inherited.view().restrict(
                    Set::new(|k: Seq<char>| !parameter_names_upto(*ps, 0).contains(k)),
                ));
            }
            while j < ps.children.len()
                invariant
                    j <= ps.children@.len(),
                    m.view() == inherited.view().restrict(
                        Set::new(|k: Seq<char>| !parameter_names_upto(*ps, j as int).contains(k)),
                    ),
                decreases ps.children@.len() - j,
            {
                let ghost before = m.view();
                let c = &ps.children[j];
                if c.named {
                    match python_parameter_name(c) {
                        Some(x) => {
                            m.remove(x.text.as_str());
                            proof {
                                let one = parameter_name_at(*ps, j as int);
                                assert(one == seq![x.text@]);
                                assert forall|k: Seq<char>| #[trigger] one.contains(k) == (k == x.text@) by {
                                    if k == x.text@ {
                                        assert(one[0] == k);
                                    }
                                }
                            }
                        },
                        None => {
                            assert(parameter_name_at(*ps, j as int) =~= Seq::<Seq<char>>::empty());
                        },
                    }
                } else {
                    assert(parameter_name_at(*ps, j as int) =~= Seq::<Seq<char>>::empty());
                }
                proof {
                    let old_names = parameter_names_upto(*ps, j as int);
                    let one = parameter_name_at(*ps, j as int);
                    let names = parameter_names_upto(*ps, j + 1);
                    assert(names == old_names + one);
                    assert forall|k: Seq<char>| #[trigger] names.contains(k) == (old_names.contains(k) || one.contains(k)) by {
                        if names.contains(k) {
                            let i = choose|i: int| 0 <= i < names.len() && names[i] == k;
                            if i < old_names.len() {
                                assert(old_names[i] == k);
                            } else {
                                assert(one[i - old_names.len()] == k);
                            }
                        }
                        if old_names.contains(k) {
                            let i = choose|i: int| 0 <= i < old_names.len() && old_names[i] == k;
                            assert(names[i] == k);
                        }
                        if one.contains(k) {
                            let i = choose|i: int| 0 <= i < one.len() && one[i] == k;
                            assert(names[old_names.len() + i] == k);
                        }
                    }
                    assert(m.view() =~= inherited.view().restrict(Set::new(|k: Seq<char>| !names.contains(k))));
                }
                j = j + 1;
            }
        },
        None => {
            proof {
                assert(m.view() =~= inherited.view().restrict(
                    Set::new(|k: Seq<char>| !parameter_names(*function).contains(k)),
                ));
            }
        },
    }
    m
}

/// No name of `names` shadows `k`.
pub open spec fn unshadowed(k: Seq<char>, names: Seq<Seq<char>>) -> bool {
    forall|i: int| 0 <= i < names.len() ==> !shadowed_by(k, #[trigger] names[i])
}

proof fn lemma_unshadowed_append(k: Seq<char>, a: Seq<Seq<char>>, b: Seq<Seq<char>>)
    ensures
        unshadowed(k, a + b) == (unshadowed(k, a) && unshadowed(k, b)),
{
    let ab = a + b;
    if unshadowed(k, ab) {
        assert forall|i: int| 0 <= i < a.len() implies !shadowed_by(k, #[trigger] a[i]) by {
            assert(ab[i] == a[i]);
        }
        assert forall|i: int| 0 <= i < b.len() implies !shadowed_by(k, #[trigger] b[i]) by {
            assert(ab[a.len() + i] == b[i]);
        }
    }
    if unshadowed(k, a) && unshadowed(k, b) {
        assert forall|i: int| 0 <= i < ab.len() implies !shadowed_by(k, #[trigger] ab[i]) by {
            if i < a.len() {
                assert(ab[i] == a[i]);
            } else {
                assert(ab[i] == b[i - a.len()]);
            }
        }
    }
}

/// The wrapper names within a function, on entry: `inherited` without
/// whatever the function's parameters shadow.
pub fn python_scoped_nullable_wrapper_aliases(
    function: &SyntaxNode,
    inherited: &StrMap<PythonNullableWrapper>,
) -> (r: StrMap<PythonNullableWrapper>)
    ensures
        r.view() == inherited.view().restrict(
            Set::new(|k: Seq<char>| unshadowed(k, parameter_names(*function))),
        ),
{
    let mut m = inherited.copied();
    proof {
        lemma_field_index(function.children@, "parameters"@);
    }
    match function.field_position("parameters") {
        Some(p) => {
            let ps = &function.children[p];
            let mut j: usize = 0;
            proof {
                assert(m.view() =~= inherited.view().restrict(
                    Set::new(|k: Seq<char>| unshadowed(k, parameter_names_upto(*ps, 0))),
                ));
            }
            while j < ps.children.len()
                invariant
                    j <= ps.children@.len(),
                    m.view() == inherited.view().restrict(
                        Set::new(|k: Seq<char>| unshadowed(k, parameter_names_upto(*ps, j as int))),
                    ),
                decreases ps.children@.len() - j,
            {
                let c = &ps.children[j];
                if c.named {
                    match python_parameter_name(c) {
                        Some(x) => forget_binding(&mut m, x.text.as_str()),
                        None => {},
                    }
                }
                proof {
                    let old_names = parameter_names_upto(*ps, j as int);
                    let one = parameter_name_at(*ps, j as int);
                    let names = parameter_names_upto(*ps, j + 1);
                    assert(names == old_names + one);
                    assert forall|k: Seq<char>| #[trigger] unshadowed(k, names) == (unshadowed(k, old_names) && unshadowed(k, one)) by {
                        lemma_unshadowed_append(k, old_names, one);
                    }
                    assert forall|k: Seq<char>| unshadowed(k, one) == (one.len() == 0 || !shadowed_by(k, one[0])) by {
                        if one.len() > 0 && !shadowed_by(k, one[0]) {
                            assert forall|i: int| 0 <= i < one.len() implies !shadowed_by(k, #[trigger] one[i]) by {
                                assert(i == 0);
                            }
                        }
                    }
                    assert(m.view() =~= inherited.view().restrict(
                        Set::new(|k: Seq<char>| unshadowed(k, names)),
                    ));
                }
                j = j + 1;
            }
        },
        None => {
            proof {
                assert(m.view() =~= inherited.view().restrict(
                    Set::new(|k: Seq<char>| unshadowed(k, parameter_names(*function))),
                ));
            }
        },
    }
    m
}

} // verus!
