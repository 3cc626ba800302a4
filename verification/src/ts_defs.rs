//! The definitions a TypeScript or TSX file declares: functions (test
//! registrations included), types and fields, each under the graph path of
//! the scope that contains it, with the inheritance each type declares.

use vstd::prelude::*;
use crate::fields::{trim, trim_chars};
use crate::strmap::{str_eq, StrMap};
use crate::text::{chars_of, push_str, string_of};
use crate::tree::{field_index, first_named_from, lemma_first_named_from, SyntaxNode};
use crate::ts_paths::{resolve_type_target, type_target_of};

verus! {

/// The kinds of scope a definition can sit in.
#[derive(Debug, Clone, Copy, PartialEq, Eq, Structural)]
pub enum TsScopeKind {
    Module,
    Type,
    Function,
}

/// What a definition is.
#[derive(Debug, Clone, Copy, PartialEq, Eq, Structural)]
pub enum DefinitionKind {
    Function,
    Type,
    Field,
}

/// A definition: its kind and name, its graph path, the path of the scope
/// that contains it, its source text and byte range, whether it is a test
/// registration, and a function's declared return type.
#[derive(Debug)]
pub struct Definition {
    pub kind: DefinitionKind,
    pub name: String,
    pub path: String,
    pub container: String,
    pub source: String,
    pub start: usize,
    pub end: usize,
    pub is_test: bool,
    pub return_type: Option<String>,
}

/// A type `sub` (by path) that extends or implements `base`.
#[derive(Debug)]
pub struct TsInherit {
    pub sub: String,
    pub base: String,
}

/// The byte range of a function and its path, to attribute calls.
#[derive(Debug)]
pub struct FunctionRange {
    pub start: usize,
    pub end: usize,
    pub path: String,
}

/// Everything collected: definitions, inheritance and function ranges,
/// each in document order.
#[derive(Debug)]
pub struct TsDefinitions {
    pub definitions: Vec<Definition>,
    pub inherits: Vec<TsInherit>,
    pub functions: Vec<FunctionRange>,
}

/// A definition as text.
pub struct DefinitionView {
    pub kind: DefinitionKind,
    pub name: Seq<char>,
    pub path: Seq<char>,
    pub container: Seq<char>,
    pub source: Seq<char>,
    pub start: usize,
    pub end: usize,
    pub is_test: bool,
    pub return_type: Option<Seq<char>>,
}

/// The collected items as text.
#[verifier::ext_equal]
pub struct DefinitionsView {
    pub definitions: Seq<DefinitionView>,
    pub inherits: Seq<(Seq<char>, Seq<char>)>,
    pub functions: Seq<(usize, usize, Seq<char>)>,
}

pub open spec fn definition_view(d: Definition) -> DefinitionView {
    DefinitionView {
        kind: d.kind,
        name: d.name@,
        path: d.path@,
        container: d.container@,
        source: d.source@,
        start: d.start,
        end: d.end,
        is_test: d.is_test,
        return_type: match d.return_type {
            Some(t) => Some(t@),
            None => None,
        },
    }
}

impl TsDefinitions {
    pub open spec fn view(self) -> DefinitionsView {
        DefinitionsView {
            definitions: self.definitions@.map_values(|d: Definition| definition_view(d)),
            inherits: self.inherits@.map_values(|i: TsInherit| (i.sub@, i.base@)),
            functions: self.functions@.map_values(|f: FunctionRange| (f.start, f.end, f.path@)),
        }
    }
}

/// Nothing collected.
pub open spec fn no_definitions() -> DefinitionsView {
    DefinitionsView { definitions: seq![], inherits: seq![], functions: seq![] }
}

/// One collection followed by another.
pub open spec fn joined(a: DefinitionsView, b: DefinitionsView) -> DefinitionsView {
    DefinitionsView {
        definitions: a.definitions + b.definitions,
        inherits: a.inherits + b.inherits,
        functions: a.functions + b.functions,
    }
}

/// `s` with each `::`, read left to right, made `:`.
pub open spec fn single_colons(s: Seq<char>) -> Seq<char>
    decreases s.len(),
{
    if s.len() >= 2 && s[0] == ':' && s[1] == ':' {
        seq![':'] + single_colons(s.subrange(2, s.len() as int))
    } else if s.len() >= 1 {
        seq![s[0]] + single_colons(s.subrange(1, s.len() as int))
    } else {
        seq![]
    }
}

/// The path of `name` inside the scope at `path`.
pub open spec fn inner_path(path: Seq<char>, name: Seq<char>) -> Seq<char> {
    path + "::"@ + name
}

/// The child filling field `f`, if any.
pub open spec fn field_child(n: SyntaxNode, f: Seq<char>) -> Option<SyntaxNode> {
    match field_index(n.children@, f) {
        Some(i) => Some(n.children@[i]),
        None => None,
    }
}

/// A function definition named `name` in the scope at `path`: its path
/// joins the name with single colons.
pub open spec fn function_def(n: SyntaxNode, name: Seq<char>, path: Seq<char>, is_test: bool) -> DefinitionsView {
    let p = inner_path(path, single_colons(name));
    DefinitionsView {
        definitions: seq![
            DefinitionView {
                kind: DefinitionKind::Function,
                name,
                path: p,
                container: path,
                source: n.text@,
                start: n.start,
                end: n.end,
                is_test,
                return_type: match field_child(n, "return_type"@) {
                    Some(r) => Some(trim(r.text@)),
                    None => None,
                },
            },
        ],
        inherits: seq![],
        functions: seq![(n.start, n.end, p)],
    }
}

/// A field definition named `name` in the type at `path`.
pub open spec fn field_def(n: SyntaxNode, name: Seq<char>, path: Seq<char>) -> DefinitionsView {
    DefinitionsView {
        definitions: seq![
            DefinitionView {
                kind: DefinitionKind::Field,
                name,
                path: inner_path(path, name),
                container: path,
                source: n.text@,
                start: n.start,
                end: n.end,
                is_test: false,
                return_type: None,
            },
        ],
        inherits: seq![],
        functions: seq![],
    }
}

/// A declaration kind that opens a type.
pub open spec fn type_declaration(k: Seq<char>) -> bool {
    k == "class_declaration"@ || k == "abstract_class_declaration"@ || k == "interface_declaration"@
        || k == "type_alias_declaration"@ || k == "enum_declaration"@
}

/// A declaration kind whose heritage belongs to itself, not to an
/// enclosing declaration.
pub open spec fn heritage_owner(k: Seq<char>) -> bool {
    k == "class_declaration"@ || k == "abstract_class_declaration"@ || k == "interface_declaration"@
        || k == "type_alias_declaration"@
}

/// A clause that names bases.
pub open spec fn heritage_clause(k: Seq<char>) -> bool {
    k == "extends_clause"@ || k == "implements_clause"@ || k == "extends_type_clause"@
}

/// The bases a clause names from position `j` on (type arguments skipped,
/// references that name nothing dropped), for the type at `sub`.
pub open spec fn clause_bases(
    c: SyntaxNode,
    j: int,
    sub: Seq<char>,
    imports: Map<Seq<char>, String>,
) -> Seq<(Seq<char>, Seq<char>)>
    decreases c.children@.len() - j,
{
    if j < 0 || j >= c.children@.len() {
        seq![]
    } else {
        let x = c.children@[j];
        let here = if x.named && x.kind@ != "type_arguments"@ {
            match type_target_of(x.text@, imports) {
                Some(b) => seq![(sub, b)],
                None => seq![],
            }
        } else {
            seq![]
        };
        here + clause_bases(c, j + 1, sub, imports)
    }
}

/// The bases found under a declaration, visiting children last to first
/// and not entering nested declarations.
pub open spec fn heritage_of(n: SyntaxNode, root: bool, sub: Seq<char>, imports: Map<Seq<char>, String>) -> Seq<
    (Seq<char>, Seq<char>),
>
    decreases n, n.children@.len() + 1,
{
    if !root && heritage_owner(n.kind@) {
        seq![]
    } else if heritage_clause(n.kind@) {
        clause_bases(n, 0, sub, imports)
    } else {
        heritage_under(n, n.children@.len() as int, sub, imports)
    }
}

/// The bases under the named children before position `j`, last first.
pub open spec fn heritage_under(n: SyntaxNode, j: int, sub: Seq<char>, imports: Map<Seq<char>, String>) -> Seq<
    (Seq<char>, Seq<char>),
>
    decreases n, j,
{
    if j <= 0 || j > n.children@.len() {
        seq![]
    } else {
        (if n.children@[j - 1].named {
            heritage_of(n.children@[j - 1], false, sub, imports)
        } else {
            seq![]
        }) + heritage_under(n, j - 1, sub, imports)
    }
}

/// A text without its matching outer quotes.
pub open spec fn string_value_of(t: Seq<char>) -> Seq<char> {
    if t.len() >= 2 && (t[0] == '\'' || t[0] == '"') && t[0] == t[t.len() - 1] {
        t.subrange(1, t.len() - 1)
    } else {
        t
    }
}

/// The first named child of one of the callback kinds, from `i` on.
pub open spec fn callback_from(ch: Seq<SyntaxNode>, i: int) -> Option<int>
    decreases ch.len() - i,
{
    if i < 0 || i >= ch.len() {
        None
    } else if ch[i].named && (ch[i].kind@ == "arrow_function"@ || ch[i].kind@ == "function_expression"@
        || ch[i].kind@ == "function"@) {
        Some(i)
    } else {
        callback_from(ch, i + 1)
    }
}

pub proof fn lemma_callback_from(ch: Seq<SyntaxNode>, i: int)
    ensures
        callback_from(ch, i) matches Some(k) ==> 0 <= i <= k < ch.len(),
    decreases ch.len() - i,
{
    if 0 <= i < ch.len() {
        lemma_callback_from(ch, i + 1);
    }
}

/// A test-framework registration `describe|it|test("title", callback)`:
/// the framework, the title without quotes, and the positions of the
/// arguments and, among them, of the callback.
pub open spec fn test_registration(n: SyntaxNode) -> Option<(Seq<char>, Seq<char>, int, int)> {
    match field_child(n, "function"@) {
        None => None,
        Some(callee) => {
            let framework = if callee.kind@ == "identifier"@ {
                Some(callee.text@)
            } else if callee.kind@ == "member_expression"@ {
                match field_child(callee, "property"@) {
                    Some(p) => Some(p.text@),
                    None => None,
                }
            } else {
                None
            };
            match framework {
                None => None,
                Some(fw) => if fw != "describe"@ && fw != "it"@ && fw != "test"@ {
                    None
                } else {
                    match field_index(n.children@, "arguments"@) {
                        None => None,
                        Some(ai) => {
                            let args = n.children@[ai];
                            match first_named_from(args.children@, 0) {
                                None => None,
                                Some(t) => if args.children@[t].kind@ != "string"@ {
                                    None
                                } else {
                                    match callback_from(args.children@, 0) {
                                        None => None,
                                        Some(cb) => Some((fw, string_value_of(args.children@[t].text@), ai, cb)),
                                    }
                                },
                            }
                        },
                    }
                },
            }
        },
    }
}

/// The definitions of a subtree in the scope at `path` of kind `kind`.
pub open spec fn definitions_of(
    n: SyntaxNode,
    path: Seq<char>,
    kind: TsScopeKind,
    imports: Map<Seq<char>, String>,
) -> DefinitionsView
    decreases n, n.children@.len() + 1,
{
    let k = n.kind@;
    if k == "decorator"@ || k == "ambient_declaration"@ || k == "internal_module"@ {
        no_definitions()
    } else if k == "function_declaration"@ || k == "generator_function_declaration"@ || k == "method_definition"@ {
        match field_child(n, "name"@) {
            Some(name) => joined(
                function_def(n, name.text@, path, false),
                definitions_under(n, inner_path(path, single_colons(name.text@)), TsScopeKind::Function, imports, 0),
            ),
            None => no_definitions(),
        }
    } else if type_declaration(k) {
        match field_child(n, "name"@) {
            Some(name) => {
                let p = inner_path(path, name.text@);
                let ty = DefinitionsView {
                    definitions: seq![
                        DefinitionView {
                            kind: DefinitionKind::Type,
                            name: name.text@,
                            path: p,
                            container: path,
                            source: n.text@,
                            start: n.start,
                            end: n.end,
                            is_test: false,
                            return_type: None,
                        },
                    ],
                    inherits: heritage_of(n, true, p, imports),
                    functions: seq![],
                };
                if k == "type_alias_declaration"@ {
                    ty
                } else {
                    joined(ty, definitions_under(n, p, TsScopeKind::Type, imports, 0))
                }
            },
            None => no_definitions(),
        }
    } else if k == "variable_declarator"@ && (match (field_child(n, "value"@), field_child(n, "name"@)) {
        (Some(v), Some(nm)) => nm.kind@ == "identifier"@ && (v.kind@ == "arrow_function"@ || v.kind@
            == "function_expression"@),
        _ => false,
    }) {
        let name = field_child(n, "name"@)->0.text@;
        let vi = field_index(n.children@, "value"@)->0;
        proof {
            crate::tree::lemma_field_index(n.children@, "value"@);
            assert(decreases_to!(n => n.children@[vi]));
        }
        let v = n.children@[vi];
        joined(
            function_def(n, name, path, false),
            definitions_under(v, inner_path(path, single_colons(name)), TsScopeKind::Function, imports, 0),
        )
    } else if k == "public_field_definition"@ && field_child(n, "name"@) is Some {
        let name = field_child(n, "name"@)->0.text@;
        if field_child(n, "value"@) matches Some(v) && v.kind@ == "arrow_function"@ {
            function_def(n, name, path, false)
        } else if kind == TsScopeKind::Type {
            field_def(n, name, path)
        } else {
            no_definitions()
        }
    } else if k == "property_signature"@ {
        if kind == TsScopeKind::Type && field_child(n, "name"@) is Some {
            field_def(n, field_child(n, "name"@)->0.text@, path)
        } else {
            no_definitions()
        }
    } else if k == "call_expression"@ && kind != TsScopeKind::Function && test_registration(n) is Some {
        let (fw, title, ai, ci) = test_registration(n)->0;
        proof {
            crate::tree::lemma_field_index(n.children@, "arguments"@);
            lemma_callback_from(n.children@[ai].children@, 0);
            assert(decreases_to!(n => n.children@[ai]));
            assert(decreases_to!(n.children@[ai] => n.children@[ai].children@[ci]));
        }
        let cb = n.children@[ai].children@[ci];
        if fw == "describe"@ {
            definitions_under(cb, path, kind, imports, 0)
        } else {
            joined(
                function_def(n, title, path, true),
                definitions_under(cb, inner_path(path, single_colons(title)), TsScopeKind::Function, imports, 0),
            )
        }
    } else {
        definitions_under(n, path, kind, imports, 0)
    }
}

/// The definitions of the named children from position `j` on.
pub open spec fn definitions_under(
    n: SyntaxNode,
    path: Seq<char>,
    kind: TsScopeKind,
    imports: Map<Seq<char>, String>,
    j: int,
) -> DefinitionsView
    decreases n, n.children@.len() - j,
{
    if j < 0 || j >= n.children@.len() {
        no_definitions()
    } else {
        joined(
            if n.children@[j].named {
                definitions_of(n.children@[j], path, kind, imports)
            } else {
                no_definitions()
            },
            definitions_under(n, path, kind, imports, j + 1),
        )
    }
}

// ---------------------------------------------------------------- collecting

proof fn lemma_single_colons_step(s: Seq<char>)
    ensures
        s.len() >= 2 && s[0] == ':' && s[1] == ':' ==> single_colons(s) == seq![':'] + single_colons(
            s.subrange(2, s.len() as int),
        ),
        !(s.len() >= 2 && s[0] == ':' && s[1] == ':') && s.len() >= 1 ==> single_colons(s) == seq![s[0]]
            + single_colons(s.subrange(1, s.len() as int)),
{
}

/// Computes [`single_colons`].
fn single_colons_of(s: &str) -> (r: String)
    ensures
        r@ == single_colons(s@),
{
    let cs = chars_of(s);
    let n = cs.len();
    let mut out: Vec<char> = Vec::new();
    let mut i: usize = 0;
    assert(out@ + single_colons(cs@.subrange(0, n as int)) =~= single_colons(cs@)) by {
        assert(cs@.subrange(0, n as int) =~= cs@);
    }
    while i < n
        invariant
            i <= n,
            n == cs@.len(),
            cs@ == s@,
            out@ + single_colons(cs@.subrange(i as int, n as int)) == single_colons(cs@),
        decreases n - i,
    {
        let ghost rest = cs@.subrange(i as int, n as int);
        proof {
            lemma_single_colons_step(rest);
        }
        if i + 1 < n && cs[i] == ':' && cs[i + 1] == ':' {
            assert(rest.subrange(2, rest.len() as int) =~= cs@.subrange(i + 2, n as int));
            out.push(':');
            i = i + 2;
        } else {
            assert(rest.subrange(1, rest.len() as int) =~= cs@.subrange(i + 1, n as int));
            out.push(cs[i]);
            i = i + 1;
        }
        assert(out@ + single_colons(cs@.subrange(i as int, n as int)) =~= single_colons(cs@));
    }
    assert(cs@.subrange(n as int, n as int) =~= Seq::<char>::empty());
    assert(out@ =~= out@ + single_colons(Seq::<char>::empty()));
    string_of(out.as_slice())
}

/// Computes [`string_value_of`].
fn string_value(t: &str) -> (r: String)
    ensures
        r@ == string_value_of(t@),
{
    let cs = chars_of(t);
    let n = cs.len();
    if n >= 2 && (cs[0] == '\'' || cs[0] == '"') && cs[0] == cs[n - 1] {
        let mut v: Vec<char> = Vec::new();
        let mut i: usize = 1;
        while i < n - 1
            invariant
                1 <= i <= n - 1,
                n == cs@.len(),
                v@ == cs@.subrange(1, i as int),
            decreases n - 1 - i,
        {
            v.push(cs[i]);
            i = i + 1;
            assert(v@ =~= cs@.subrange(1, i as int));
        }
        string_of(v.as_slice())
    } else {
        string_of(cs.as_slice())
    }
}

/// The path of `name` inside `path`.
fn inner_path_of(path: &str, name: &str) -> (r: String)
    ensures
        r@ == inner_path(path@, name@),
{
    let mut p = String::new();
    push_str(&mut p, path);
    push_str(&mut p, "::");
    push_str(&mut p, name);
    proof {
        reveal_strlit("::");
    }
    p
}

/// Computes [`callback_from`] from position 0.
fn callback_position(args: &SyntaxNode) -> (r: Option<usize>)
    ensures
        match r {
            Some(ci) => callback_from(args.children@, 0) == Some(ci as int) && ci < args.children@.len(),
            None => callback_from(args.children@, 0) is None,
        },
{
    let mut ci: usize = 0;
    while ci < args.children.len()
        invariant
            ci <= args.children@.len(),
            callback_from(args.children@, 0) == callback_from(args.children@, ci as int),
        decreases args.children@.len() - ci,
    {
        let c = &args.children[ci];
        let k = c.kind.as_str();
        if c.named && (str_eq(k, "arrow_function") || str_eq(k, "function_expression") || str_eq(k, "function")) {
            return Some(ci);
        }
        ci = ci + 1;
    }
    None
}

/// An owned copy of a text.
fn owned(s: &str) -> (r: String)
    ensures
        r@ == s@,
{
    let mut o = String::new();
    push_str(&mut o, s);
    o
}

/// Computes [`test_registration`].
fn registration(n: &SyntaxNode) -> (r: Option<(String, String, usize, usize)>)
    ensures
        match r {
            Some((fw, title, ai, ci)) => test_registration(*n) == Some((fw@, title@, ai as int, ci as int)) && ai
                < n.children@.len() && ci < n.children@[ai as int].children@.len(),
            None => test_registration(*n) is None,
        },
{
    proof {
        crate::tree::lemma_field_index(n.children@, "function"@);
        crate::tree::lemma_field_index(n.children@, "arguments"@);
    }
    let fi = match n.field_position("function") {
        Some(i) => i,
        None => return None,
    };
    let callee = &n.children[fi];
    proof {
        crate::tree::lemma_field_index(callee.children@, "property"@);
    }
    let fw: String = if str_eq(callee.kind.as_str(), "identifier") {
        callee.text.clone()
    } else if str_eq(callee.kind.as_str(), "member_expression") {
        match callee.field_position("property") {
            Some(p) => callee.children[p].text.clone(),
            None => return None,
        }
    } else {
        return None;
    };
    if !str_eq(fw.as_str(), "describe") && !str_eq(fw.as_str(), "it") && !str_eq(fw.as_str(), "test") {
        return None;
    }
    let ai = match n.field_position("arguments") {
        Some(a) => a,
        None => return None,
    };
    let args = &n.children[ai];
    proof {
        lemma_first_named_from(args.children@, 0);
        lemma_callback_from(args.children@, 0);
    }
    let t = match args.first_named_position(0) {
        Some(t) => t,
        None => return None,
    };
    if !str_eq(args.children[t].kind.as_str(), "string") {
        return None;
    }
    let ci = match callback_position(args) {
        Some(ci) => ci,
        None => return None,
    };
    let title = string_value(args.children[t].text.as_str());
    Some((fw, title, ai, ci))
}

proof fn lemma_view_push_definition(out: TsDefinitions, d: Definition)
    ensures
        out.definitions@.push(d).map_values(|x: Definition| definition_view(x)) == out.definitions@.map_values(
            |x: Definition| definition_view(x),
        ).push(definition_view(d)),
{
    assert(out.definitions@.push(d).map_values(|x: Definition| definition_view(x)) =~= out.definitions@.map_values(
        |x: Definition| definition_view(x),
    ).push(definition_view(d)));
}

/// Appends [`function_def`].
fn push_function(out: &mut TsDefinitions, n: &SyntaxNode, name: &str, path: &str, is_test: bool)
    ensures
        final(out).view() == joined(old(out).view(), function_def(*n, name@, path@, is_test)),
{
    proof {
        crate::tree::lemma_field_index(n.children@, "return_type"@);
    }
    let colons = single_colons_of(name);
    let p = inner_path_of(path, colons.as_str());
    let return_type = match n.field_position("return_type") {
        Some(r) => Some(trim_chars(&chars_of(n.children[r].text.as_str()))),
        None => None,
    };
    let d = Definition {
        kind: DefinitionKind::Function,
        name: owned(name),
        path: p.clone(),
        container: owned(path),
        source: n.text.clone(),
        start: n.start,
        end: n.end,
        is_test,
        return_type,
    };
    let ghost old_view = out.view();
    proof {
        lemma_view_push_definition(*out, d);
    }
    out.definitions.push(d);
    let ghost fs = out.functions@;
    out.functions.push(FunctionRange { start: n.start, end: n.end, path: p });
    assert(out.functions@.map_values(|f: FunctionRange| (f.start, f.end, f.path@)) =~= fs.map_values(
        |f: FunctionRange| (f.start, f.end, f.path@),
    ).push((n.start, n.end, inner_path(path@, single_colons(name@)))));
    assert(out.view() =~= joined(old_view, function_def(*n, name@, path@, is_test)));
}

/// Appends [`field_def`].
fn push_field(out: &mut TsDefinitions, n: &SyntaxNode, name: &str, path: &str)
    ensures
        final(out).view() == joined(old(out).view(), field_def(*n, name@, path@)),
{
    let d = Definition {
        kind: DefinitionKind::Field,
        name: owned(name),
        path: inner_path_of(path, name),
        container: owned(path),
        source: n.text.clone(),
        start: n.start,
        end: n.end,
        is_test: false,
        return_type: None,
    };
    let ghost old_view = out.view();
    proof {
        lemma_view_push_definition(*out, d);
    }
    out.definitions.push(d);
    assert(out.view() =~= joined(old_view, field_def(*n, name@, path@)));
}

/// Views of inheritance records.
pub open spec fn inherit_views(v: Seq<TsInherit>) -> Seq<(Seq<char>, Seq<char>)> {
    v.map_values(|i: TsInherit| (i.sub@, i.base@))
}

/// Appends [`clause_bases`] from position 0.
fn push_clause_bases(c: &SyntaxNode, sub: &str, imports: &StrMap<String>, out: &mut Vec<TsInherit>)
    ensures
        inherit_views(final(out)@) == inherit_views(old(out)@) + clause_bases(*c, 0, sub@, imports.view()),
{
    let ghost start = inherit_views(out@);
    let mut j: usize = 0;
    while j < c.children.len()
        invariant
            j <= c.children@.len(),
            inherit_views(out@) + clause_bases(*c, j as int, sub@, imports.view()) == start + clause_bases(
                *c,
                0,
                sub@,
                imports.view(),
            ),
        decreases c.children@.len() - j,
    {
        let x = &c.children[j];
        let ghost before = inherit_views(out@);
        if x.named && !str_eq(x.kind.as_str(), "type_arguments") {
            match resolve_type_target(x.text.as_str(), imports) {
                Some(b) => {
                    let ghost o = out@;
                    out.push(TsInherit { sub: owned(sub), base: b });
                    assert(inherit_views(out@) =~= inherit_views(o).push((sub@, b@)));
                },
                None => {},
            }
        }
        assert(inherit_views(out@) + clause_bases(*c, j + 1, sub@, imports.view()) =~= before + clause_bases(
            *c,
            j as int,
            sub@,
            imports.view(),
        ));
        j = j + 1;
    }
    assert(inherit_views(out@) =~= inherit_views(out@) + clause_bases(*c, j as int, sub@, imports.view()));
}

/// Appends [`heritage_of`].
fn push_heritage(n: &SyntaxNode, root: bool, sub: &str, imports: &StrMap<String>, out: &mut Vec<TsInherit>)
    ensures
        inherit_views(final(out)@) == inherit_views(old(out)@) + heritage_of(*n, root, sub@, imports.view()),
    decreases n, n.children@.len() + 1,
{
    let k = n.kind.as_str();
    let owner = str_eq(k, "class_declaration") || str_eq(k, "abstract_class_declaration") || str_eq(
        k,
        "interface_declaration",
    ) || str_eq(k, "type_alias_declaration");
    if !root && owner {
        assert(inherit_views(out@) =~= inherit_views(out@) + Seq::<(Seq<char>, Seq<char>)>::empty());
        return;
    }
    if str_eq(k, "extends_clause") || str_eq(k, "implements_clause") || str_eq(k, "extends_type_clause") {
        push_clause_bases(n, sub, imports, out);
        return;
    }
    let ghost start = inherit_views(out@);
    let mut j: usize = n.children.len();
    while j > 0
        invariant
            j <= n.children@.len(),
            inherit_views(out@) + heritage_under(*n, j as int, sub@, imports.view()) == start + heritage_under(
                *n,
                n.children@.len() as int,
                sub@,
                imports.view(),
            ),
        decreases j,
    {
        let ghost before = inherit_views(out@);
        if n.children[j - 1].named {
            push_heritage(&n.children[j - 1], false, sub, imports, out);
        }
        assert(inherit_views(out@) + heritage_under(*n, j - 1, sub@, imports.view()) =~= before + heritage_under(
            *n,
            j as int,
            sub@,
            imports.view(),
        ));
        j = j - 1;
    }
    assert(inherit_views(out@) =~= inherit_views(out@) + heritage_under(*n, 0, sub@, imports.view()));
}

/// The type definition a declaration named `name` makes at path `p` in
/// the scope at `path`, without its heritage.
pub open spec fn type_def(n: SyntaxNode, name: Seq<char>, p: Seq<char>, path: Seq<char>) -> DefinitionsView {
    DefinitionsView {
        definitions: seq![
            DefinitionView {
                kind: DefinitionKind::Type,
                name,
                path: p,
                container: path,
                source: n.text@,
                start: n.start,
                end: n.end,
                is_test: false,
                return_type: None,
            },
        ],
        inherits: seq![],
        functions: seq![],
    }
}

/// Appends [`type_def`].
fn push_type(out: &mut TsDefinitions, n: &SyntaxNode, name: &str, p: &str, path: &str)
    ensures
        final(out).view() == joined(old(out).view(), type_def(*n, name@, p@, path@)),
{
    let d = Definition {
        kind: DefinitionKind::Type,
        name: owned(name),
        path: owned(p),
        container: owned(path),
        source: n.text.clone(),
        start: n.start,
        end: n.end,
        is_test: false,
        return_type: None,
    };
    let ghost old_view = out.view();
    proof {
        lemma_view_push_definition(*out, d);
    }
    out.definitions.push(d);
    assert(out.view() =~= joined(old_view, type_def(*n, name@, p@, path@)));
}

proof fn lemma_joined_assoc(a: DefinitionsView, b: DefinitionsView, c: DefinitionsView)
    ensures
        joined(joined(a, b), c) == joined(a, joined(b, c)),
        joined(a, no_definitions()) == a,
{
    assert(joined(joined(a, b), c) =~= joined(a, joined(b, c)));
    assert(joined(a, no_definitions()) =~= a);
}

/// Appends [`definitions_of`].
#[verifier::rlimit(40)]
fn collect_into(n: &SyntaxNode, path: &str, kind: TsScopeKind, imports: &StrMap<String>, out: &mut TsDefinitions)
    ensures
        final(out).view() == joined(old(out).view(), definitions_of(*n, path@, kind, imports.view())),
    decreases n, n.children@.len() + 1,
{
    let ghost v0 = out.view();
    let ghost im = imports.view();
    proof {
        lemma_joined_assoc(v0, no_definitions(), no_definitions());
        crate::tree::lemma_field_index(n.children@, "name"@);
        crate::tree::lemma_field_index(n.children@, "value"@);
    }
    let k = n.kind.as_str();
    if str_eq(k, "decorator") || str_eq(k, "ambient_declaration") || str_eq(k, "internal_module") {
        return;
    }
    if str_eq(k, "function_declaration") || str_eq(k, "generator_function_declaration") || str_eq(
        k,
        "method_definition",
    ) {
        match n.field_position("name") {
            Some(i) => {
                let name = n.children[i].text.as_str();
                push_function(out, n, name, path, false);
                let ghost v1 = out.view();
                let inner = inner_path_of(path, single_colons_of(name).as_str());
                collect_under(n, inner.as_str(), TsScopeKind::Function, imports, out);
                proof {
                    lemma_joined_assoc(v0, function_def(*n, name@, path@, false), definitions_under(*n, inner@, TsScopeKind::Function, im, 0));
                }
            },
            None => {},
        }
        return;
    }
    let is_type = str_eq(k, "class_declaration") || str_eq(k, "abstract_class_declaration") || str_eq(
        k,
        "interface_declaration",
    ) || str_eq(k, "type_alias_declaration") || str_eq(k, "enum_declaration");
    if is_type {
        match n.field_position("name") {
            Some(i) => {
                let name = n.children[i].text.as_str();
                let p = inner_path_of(path, name);
                push_type(out, n, name, p.as_str(), path);
                let ghost v1 = out.view();
                let ghost hs = out.inherits@;
                push_heritage(n, true, p.as_str(), imports, &mut out.inherits);
                let ghost ty = DefinitionsView {
                    definitions: type_def(*n, name@, p@, path@).definitions,
                    inherits: heritage_of(*n, true, p@, im),
                    functions: seq![],
                };
                assert(out.view() =~= joined(v0, ty));
                if !str_eq(k, "type_alias_declaration") {
                    collect_under(n, p.as_str(), TsScopeKind::Type, imports, out);
                    proof {
                        lemma_joined_assoc(v0, ty, definitions_under(*n, p@, TsScopeKind::Type, im, 0));
                    }
                }
            },
            None => {},
        }
        return;
    }
    if str_eq(k, "variable_declarator") {
        match (n.field_position("value"), n.field_position("name")) {
            (Some(vi), Some(ni)) => {
                let v = &n.children[vi];
                let nm = &n.children[ni];
                if str_eq(nm.kind.as_str(), "identifier") && (str_eq(v.kind.as_str(), "arrow_function") || str_eq(
                    v.kind.as_str(),
                    "function_expression",
                )) {
                    let name = nm.text.as_str();
                    push_function(out, n, name, path, false);
                    let inner = inner_path_of(path, single_colons_of(name).as_str());
                    collect_under(v, inner.as_str(), TsScopeKind::Function, imports, out);
                    proof {
                        lemma_joined_assoc(v0, function_def(*n, name@, path@, false), definitions_under(*v, inner@, TsScopeKind::Function, im, 0));
                    }
                    return;
                }
            },
            _ => {},
        }
    }
    if str_eq(k, "public_field_definition") {
        match n.field_position("name") {
            Some(ni) => {
                let name = n.children[ni].text.as_str();
                let arrow = match n.field_position("value") {
                    Some(vi) => str_eq(n.children[vi].kind.as_str(), "arrow_function"),
                    None => false,
                };
                if arrow {
                    push_function(out, n, name, path, false);
                } else if kind == TsScopeKind::Type {
                    push_field(out, n, name, path);
                }
                return;
            },
            None => {},
        }
    }
    if str_eq(k, "property_signature") {
        if kind == TsScopeKind::Type {
            match n.field_position("name") {
                Some(ni) => push_field(out, n, n.children[ni].text.as_str(), path),
                None => {},
            }
        }
        return;
    }
    if str_eq(k, "call_expression") && kind != TsScopeKind::Function {
        match registration(n) {
            Some((fw, title, ai, ci)) => {
                let cb = &n.children[ai].children[ci];
                proof {
                    assert(decreases_to!(*n => n.children@[ai as int]));
                    assert(decreases_to!(n.children@[ai as int] => n.children@[ai as int].children@[ci as int]));
                }
                if str_eq(fw.as_str(), "describe") {
                    collect_under(cb, path, kind, imports, out);
                } else {
                    push_function(out, n, title.as_str(), path, true);
                    let inner = inner_path_of(path, single_colons_of(title.as_str()).as_str());
                    collect_under(cb, inner.as_str(), TsScopeKind::Function, imports, out);
                    proof {
                        lemma_joined_assoc(v0, function_def(*n, title@, path@, true), definitions_under(*cb, inner@, TsScopeKind::Function, im, 0));
                    }
                }
                return;
            },
            None => {},
        }
    }
    collect_under(n, path, kind, imports, out);
}

/// Appends [`definitions_under`] from position 0.
fn collect_under(n: &SyntaxNode, path: &str, kind: TsScopeKind, imports: &StrMap<String>, out: &mut TsDefinitions)
    ensures
        final(out).view() == joined(old(out).view(), definitions_under(*n, path@, kind, imports.view(), 0)),
    decreases n, n.children@.len(),
{
    let ghost v0 = out.view();
    let ghost im = imports.view();
    let mut j: usize = 0;
    while j < n.children.len()
        invariant
            j <= n.children@.len(),
            im == imports.view(),
            joined(out.view(), definitions_under(*n, path@, kind, im, j as int)) == joined(
                v0,
                definitions_under(*n, path@, kind, im, 0),
            ),
        decreases n.children@.len() - j,
    {
        let ghost before = out.view();
        if n.children[j].named {
            collect_into(&n.children[j], path, kind, imports, out);
        }
        proof {
            let here = if n.children@[j as int].named {
                definitions_of(n.children@[j as int], path@, kind, im)
            } else {
                no_definitions()
            };
            lemma_joined_assoc(before, here, definitions_under(*n, path@, kind, im, j + 1));
            lemma_joined_assoc(before, no_definitions(), no_definitions());
        }
        j = j + 1;
    }
    proof {
        lemma_joined_assoc(out.view(), no_definitions(), no_definitions());
    }
}

/// The definitions, inheritance and function ranges of a TypeScript
/// syntax tree whose module has the graph path `module`, as
/// [`definitions_of`] says; `imports` maps local names to the targets
/// they import.
pub fn collect_definitions(root: &SyntaxNode, module: &str, imports: &StrMap<String>) -> (r: TsDefinitions)
    ensures
        r.view() == definitions_of(*root, module@, TsScopeKind::Module, imports.view()),
{
    let mut out = TsDefinitions { definitions: Vec::new(), inherits: Vec::new(), functions: Vec::new() };
    assert(out.view() =~= no_definitions());
    collect_into(root, module, TsScopeKind::Module, imports, &mut out);
    proof {
        let d = definitions_of(*root, module@, TsScopeKind::Module, imports.view());
        assert(joined(no_definitions(), d) =~= d);
    }
    out
}

/// A Jest-style `test("title", callback)` call registers a test exactly as
/// `it("title", callback)` does: when the title is the first named
/// argument and a function is among them, it is a registration whose
/// framework is the callee's name, and outside a function it defines a
/// test function named by the unquoted title.
pub proof fn law_test_and_it_register_tests(
    n: SyntaxNode,
    path: Seq<char>,
    kind: TsScopeKind,
    imports: Map<Seq<char>, String>,
    callee: int,
    ai: int,
    t: int,
    ci: int,
)
    requires
        field_index(n.children@, "function"@) == Some(callee),
        n.children@[callee].kind@ == "identifier"@,
        n.children@[callee].text@ == "test"@ || n.children@[callee].text@ == "it"@,
        field_index(n.children@, "arguments"@) == Some(ai),
        first_named_from(n.children@[ai].children@, 0) == Some(t),
        n.children@[ai].children@[t].kind@ == "string"@,
        callback_from(n.children@[ai].children@, 0) == Some(ci),
    ensures
        test_registration(n) == Some(
            (n.children@[callee].text@, string_value_of(n.children@[ai].children@[t].text@), ai, ci),
        ),
        n.kind@ == "call_expression"@ && kind != TsScopeKind::Function ==> {
            let title = string_value_of(n.children@[ai].children@[t].text@);
            let defs = definitions_of(n, path, kind, imports);
            &&& defs.definitions.len() >= 1
            &&& defs.definitions[0] == function_def(n, title, path, true).definitions[0]
            &&& defs.definitions[0].is_test
            &&& defs.definitions[0].path == inner_path(path, single_colons(title))
        },
{
    reveal_strlit("test");
    reveal_strlit("it");
    reveal_strlit("describe");
    reveal_strlit("call_expression");
    reveal_strlit("decorator");
    reveal_strlit("ambient_declaration");
    reveal_strlit("internal_module");
    reveal_strlit("function_declaration");
    reveal_strlit("generator_function_declaration");
    reveal_strlit("method_definition");
    reveal_strlit("class_declaration");
    reveal_strlit("abstract_class_declaration");
    reveal_strlit("interface_declaration");
    reveal_strlit("type_alias_declaration");
    reveal_strlit("enum_declaration");
    reveal_strlit("variable_declarator");
    reveal_strlit("public_field_definition");
    reveal_strlit("property_signature");
    let fw = n.children@[callee].text@;
    assert(fw != "describe"@) by {
        assert("describe"@[0] == 'd');
        assert(fw[0] == 't' || fw[0] == 'i');
    }
    if n.kind@ == "call_expression"@ && kind != TsScopeKind::Function {
        let k = n.kind@;
        assert(k[0] == 'c' && k[1] == 'a' && k.len() == 15);
        assert("class_declaration"@[1] == 'l');
        assert("abstract_class_declaration"@[0] == 'a');
        assert("ambient_declaration"@[0] == 'a');
        assert("decorator"@[0] == 'd');
        assert("internal_module"@[0] == 'i');
        assert("function_declaration"@[0] == 'f');
        assert("generator_function_declaration"@[0] == 'g');
        assert("method_definition"@[0] == 'm');
        assert("interface_declaration"@[0] == 'i');
        assert("type_alias_declaration"@[0] == 't');
        assert("enum_declaration"@[0] == 'e');
        assert("variable_declarator"@[0] == 'v');
        assert("public_field_definition"@[0] == 'p');
        assert("property_signature"@[0] == 'p');
        assert(test_registration(n) is Some);
    }
}

} // verus!
