//! What is known about the types of Python bindings inside a function:
//! annotated parameters and assignments that name or construct a class.

use vstd::prelude::*;
use crate::hints::{hint_view, HintView, ReceiverHint, RustTypeHint, TypeView};
use crate::py_hints::{python_unambiguous_type_name, type_name_of, PythonNullableWrapper};
use crate::py_scopes::{parameter_node, python_parameter_name, texts_of};
use crate::rust_hints::{
    callee_of, callee_target, copy_hints, hints_view, lemma_hints_insert, starts_upper, upper_start,
};
use crate::strmap::{str_eq, StrMap};
use crate::tree::{field_index, first_named_from, lemma_first_named_from, SyntaxNode};

verus! {

/// The hint a class name gives: that class, with no arguments.
pub open spec fn class_hint(name: Seq<char>) -> HintView {
    HintView::Type(TypeView { name, generic_arguments: seq![] })
}

/// The hint an annotation gives: the class it names, or unresolved.
pub open spec fn annotation_hint(name: Option<Seq<char>>) -> HintView {
    match name {
        Some(n) => class_hint(n),
        None => HintView::Unresolved,
    }
}

/// A typed parameter, with or without a default.
pub open spec fn typed_parameter_kind(k: Seq<char>) -> bool {
    k == "typed_parameter"@ || k == "typed_default_parameter"@
}

/// The hints of the named parameters from position `j` on, added to `m`.
pub open spec fn python_parameter_hints(
    ps: SyntaxNode,
    j: int,
    m: Map<Seq<char>, HintView>,
    aliases: Map<Seq<char>, Seq<char>>,
    wrappers: Map<Seq<char>, PythonNullableWrapper>,
) -> Map<Seq<char>, HintView>
    decreases ps.children@.len() - j,
{
    if j < 0 || j >= ps.children@.len() {
        m
    } else {
        let c = ps.children@[j];
        let next = if c.named && typed_parameter_kind(c.kind@) {
            match (field_index(c.children@, "type"@), parameter_node(c)) {
                (Some(t), Some(name)) => m.insert(
                    name.text@,
                    annotation_hint(type_name_of(c.children@[t].text@, aliases, wrappers)),
                ),
                _ => m,
            }
        } else {
            m
        };
        python_parameter_hints(ps, j + 1, next, aliases, wrappers)
    }
}

/// The hints of a Python function's annotated parameters: the class each
/// annotation names, or unresolved where it names none or several.
pub open spec fn python_function_hints(
    function: SyntaxNode,
    aliases: Map<Seq<char>, Seq<char>>,
    wrappers: Map<Seq<char>, PythonNullableWrapper>,
) -> Map<Seq<char>, HintView> {
    match field_index(function.children@, "parameters"@) {
        None => Map::empty(),
        Some(p) => python_parameter_hints(function.children@[p], 0, Map::empty(), aliases, wrappers),
    }
}

/// The hint of a class name, as a value.
fn class_hint_of(name: &str) -> (r: ReceiverHint)
    ensures
        hint_view(r) == class_hint(name@),
{
    let t = RustTypeHint::named(name);
    assert(crate::hints::type_view(t).generic_arguments =~= Seq::<TypeView>::empty());
    ReceiverHint::Type(t)
}

/// The hint an annotation gives, as a value.
fn annotation_hint_of(
    annotation: &str,
    aliases: &StrMap<String>,
    wrappers: &StrMap<PythonNullableWrapper>,
) -> (r: ReceiverHint)
    ensures
        hint_view(r) == annotation_hint(type_name_of(annotation@, texts_of(aliases.view()), wrappers.view())),
{
    match python_unambiguous_type_name(annotation, aliases, wrappers) {
        Some(n) => class_hint_of(n.as_str()),
        None => ReceiverHint::Unresolved,
    }
}

/// Computes [`python_function_hints`].
pub fn python_function_type_hints(
    function: &SyntaxNode,
    aliases: &StrMap<String>,
    wrappers: &StrMap<PythonNullableWrapper>,
) -> (r: StrMap<ReceiverHint>)
    ensures
        hints_view(r.view()) == python_function_hints(*function, texts_of(aliases.view()), wrappers.view()),
{
    let mut hints: StrMap<ReceiverHint> = StrMap::new();
    assert(hints_view(hints.view()) =~= Map::<Seq<char>, HintView>::empty());
    let p = match function.field_position("parameters") {
        Some(p) => p,
        None => return hints,
    };
    let ps = &function.children[p];
    let ghost a = texts_of(aliases.view());
    let ghost w = wrappers.view();
    let mut j: usize = 0;
    while j < ps.children.len()
        invariant
            j <= ps.children@.len(),
            python_function_hints(*function, a, w) == python_parameter_hints(
                *ps,
                j as int,
                hints_view(hints.view()),
                a,
                w,
            ),
            a == texts_of(aliases.view()),
            w == wrappers.view(),
        decreases ps.children@.len() - j,
    {
        let c = &ps.children[j];
        if c.named && (str_eq(c.kind.as_str(), "typed_parameter") || str_eq(c.kind.as_str(), "typed_default_parameter")) {
            match c.field_position("type") {
                Some(t) => match python_parameter_name(c) {
                    Some(name) => {
                        let h = annotation_hint_of(c.children[t].text.as_str(), aliases, wrappers);
                        proof {
                            lemma_hints_insert(hints.view(), name.text@, h);
                        }
                        hints.insert(name.text.clone(), h);
                    },
                    None => {},
                },
                None => {},
            }
        }
        j = j + 1;
    }
    hints
}

/// The assignment a statement is: itself, or the first named child of an
/// expression statement.
pub open spec fn assignment_of(statement: SyntaxNode) -> Option<SyntaxNode> {
    if statement.kind@ == "assignment"@ {
        Some(statement)
    } else if statement.kind@ == "expression_statement"@ {
        match first_named_from(statement.children@, 0) {
            Some(i) => if statement.children@[i].kind@ == "assignment"@ {
                Some(statement.children@[i])
            } else {
                None
            },
            None => None,
        }
    } else {
        None
    }
}

/// The class a right-hand side constructs: a call whose callee starts
/// with an uppercase letter.
pub open spec fn constructed_class(assignment: SyntaxNode) -> Option<Seq<char>> {
    match field_index(assignment.children@, "right"@) {
        Some(r) => {
            let right = assignment.children@[r];
            if right.kind@ == "call"@ {
                match callee_of(right) {
                    Some((callee, _)) => if upper_start(callee) {
                        Some(callee)
                    } else {
                        None
                    },
                    None => None,
                }
            } else {
                None
            }
        },
        None => None,
    }
}

/// The hints after a Python statement that assigns a plain name: an
/// annotation naming no single class makes it unresolved; an annotation
/// or a constructor call (an alias read as the class it stands for) gives
/// it that class; any other assignment forgets it. Other statements
/// change nothing (none).
pub open spec fn assignment_hints(
    statement: SyntaxNode,
    hints: Map<Seq<char>, HintView>,
    aliases: Map<Seq<char>, Seq<char>>,
    wrappers: Map<Seq<char>, PythonNullableWrapper>,
) -> Option<Map<Seq<char>, HintView>> {
    match assignment_of(statement) {
        None => None,
        Some(a) => match field_index(a.children@, "left"@) {
            None => None,
            Some(l) => if a.children@[l].kind@ != "identifier"@ {
                None
            } else {
                let binding = a.children@[l].text@;
                let annotation_node = field_index(a.children@, "type"@);
                let annotation = match annotation_node {
                    Some(t) => type_name_of(a.children@[t].text@, aliases, wrappers),
                    None => None,
                };
                if annotation_node is Some && annotation is None {
                    Some(hints.insert(binding, HintView::Unresolved))
                } else {
                    let chosen = if annotation is Some {
                        annotation
                    } else {
                        constructed_class(a)
                    };
                    match chosen {
                        Some(t) => Some(
                            hints.insert(
                                binding,
                                class_hint(
                                    if aliases.contains_key(t) {
                                        aliases[t]
                                    } else {
                                        t
                                    },
                                ),
                            ),
                        ),
                        None => Some(hints.remove(binding)),
                    }
                }
            },
        },
    }
}

proof fn lemma_hints_remove(m: Map<Seq<char>, ReceiverHint>, k: Seq<char>)
    ensures
        hints_view(m.remove(k)) == hints_view(m).remove(k),
{
    assert(hints_view(m.remove(k)) =~= hints_view(m).remove(k));
}

/// Computes [`assignment_hints`]: a copy of the hints after the statement.
pub fn python_assignment_type_hints(
    statement: &SyntaxNode,
    hints: &StrMap<ReceiverHint>,
    aliases: &StrMap<String>,
    wrappers: &StrMap<PythonNullableWrapper>,
) -> (r: Option<StrMap<ReceiverHint>>)
    ensures
        crate::rust_hints::opt_hints_view(r) == assignment_hints(
            *statement,
            hints_view(hints.view()),
            texts_of(aliases.view()),
            wrappers.view(),
        ),
{
    let assignment: &SyntaxNode = if str_eq(statement.kind.as_str(), "assignment") {
        statement
    } else if str_eq(statement.kind.as_str(), "expression_statement") {
        proof {
            lemma_first_named_from(statement.children@, 0);
        }
        match statement.first_named_position(0) {
            Some(i) => if str_eq(statement.children[i].kind.as_str(), "assignment") {
                &statement.children[i]
            } else {
                return None;
            },
            None => return None,
        }
    } else {
        return None;
    };
    let l = match assignment.field_position("left") {
        Some(l) => l,
        None => return None,
    };
    let left = &assignment.children[l];
    if !str_eq(left.kind.as_str(), "identifier") {
        return None;
    }
    let annotation_node = assignment.field_position("type");
    let annotation: Option<String> = match annotation_node {
        Some(t) => python_unambiguous_type_name(assignment.children[t].text.as_str(), aliases, wrappers),
        None => None,
    };
    let mut updated = copy_hints(hints);
    if annotation_node.is_some() && annotation.is_none() {
        proof {
            lemma_hints_insert(updated.view(), left.text@, ReceiverHint::Unresolved);
        }
        updated.insert(left.text.clone(), ReceiverHint::Unresolved);
        return Some(updated);
    }
    let chosen: Option<String> = match annotation {
        Some(a) => Some(a),
        None => match assignment.field_position("right") {
            Some(r) => {
                let right = &assignment.children[r];
                if str_eq(right.kind.as_str(), "call") {
                    match callee_target(right) {
                        Some((callee, _)) => if starts_upper(callee.as_str()) {
                            Some(callee)
                        } else {
                            None
                        },
                        None => None,
                    }
                } else {
                    None
                }
            },
            None => None,
        },
    };
    match chosen {
        Some(t) => {
            let h = match aliases.get(t.as_str()) {
                Some(target) => class_hint_of(target.as_str()),
                None => class_hint_of(t.as_str()),
            };
            proof {
                lemma_hints_insert(updated.view(), left.text@, h);
            }
            updated.insert(left.text.clone(), h);
        },
        None => {
            proof {
                lemma_hints_remove(updated.view(), left.text@);
            }
            updated.remove(left.text.as_str());
        },
    }
    Some(updated)
}

} // verus!
