use aether::py_hints::{
    insert_python_nullable_wrapper, python_annotation_is_none, python_qualifier_owner_fallback,
    python_top_level_parts, python_top_level_subscript, python_unambiguous_type_name,
    remove_python_wrapper_binding, strip_python_outer_parentheses, PythonNullableWrapper,
};
use aether::sources::Lang;
use aether::strmap::StrMap;

fn wrappers() -> StrMap<PythonNullableWrapper> {
    let mut w = StrMap::new();
    insert_python_nullable_wrapper(&mut w, "Optional", "typing.Optional");
    insert_python_nullable_wrapper(&mut w, "Union", "typing.Union");
    insert_python_nullable_wrapper(&mut w, "t.Optional", "typing.Optional");
    w
}

fn name(annotation: &str) -> Option<String> {
    let mut aliases = StrMap::new();
    aliases.insert("UserAlias".to_string(), "User".to_string());
    python_unambiguous_type_name(annotation, &aliases, &wrappers())
}

#[test]
fn plain_and_dotted_classes() {
    assert_eq!(name("User").as_deref(), Some("User"));
    assert_eq!(name(" models.User ").as_deref(), Some("User"));
    assert_eq!(name("UserAlias").as_deref(), Some("User"));
}

#[test]
fn quotes_and_parentheses_are_seen_through() {
    assert_eq!(name("\"User\"").as_deref(), Some("User"));
    assert_eq!(name("'(User)'").as_deref(), Some("User"));
    assert_eq!(name("((User))").as_deref(), Some("User"));
}

#[test]
fn nullable_forms_name_their_class() {
    assert_eq!(name("Optional[User]").as_deref(), Some("User"));
    assert_eq!(name("t.Optional[User]").as_deref(), Some("User"));
    assert_eq!(name("User | None").as_deref(), Some("User"));
    assert_eq!(name("None | (User)").as_deref(), Some("User"));
    assert_eq!(name("Union[User, None]").as_deref(), Some("User"));
    assert_eq!(name("Union[User, UserAlias]").as_deref(), Some("User"));
}

#[test]
fn ambiguous_or_unknown_forms_name_nothing() {
    assert_eq!(name("User | Admin"), None);
    assert_eq!(name("Union[User, Admin]"), None);
    assert_eq!(name("list[User]"), None);
    assert_eq!(name("None"), None);
    assert_eq!(name("'None'"), None);
    assert_eq!(name("Callable[[int], User]"), None);
    assert_eq!(name(""), None);
}

#[test]
fn top_level_parts_respect_brackets_and_strings() {
    assert_eq!(
        python_top_level_parts("A[B | C] | 'x|y' | (D|E)", '|'),
        vec!["A[B | C]", "'x|y'", "(D|E)"]
    );
    assert_eq!(python_top_level_parts("a, b ,c", ','), vec!["a", "b", "c"]);
    assert_eq!(python_top_level_parts("", ','), vec![""]);
    assert_eq!(python_top_level_parts(") , x", ','), vec![")", "x"]);
}

#[test]
fn subscripts_open_at_the_first_bracket() {
    assert_eq!(python_top_level_subscript("Optional[List[int]]"), Some(8));
    assert_eq!(python_top_level_subscript("'a[' + b[c]"), Some(8));
    assert_eq!(python_top_level_subscript("List[int] "), None);
    assert_eq!(python_top_level_subscript("x]"), None);
}

#[test]
fn outer_parentheses_are_stripped_only_when_enclosing() {
    assert_eq!(strip_python_outer_parentheses("( (A) )"), "A");
    assert_eq!(strip_python_outer_parentheses("(A) | (B)"), "(A) | (B)");
    assert_eq!(strip_python_outer_parentheses("(')')"), "')'");
    assert_eq!(strip_python_outer_parentheses("(()"), "(()");
    assert_eq!(strip_python_outer_parentheses("()"), "");
}

#[test]
fn none_annotations() {
    assert!(python_annotation_is_none(" (None) "));
    assert!(python_annotation_is_none("\"None\""));
    assert!(python_annotation_is_none("( 'None' )"));
    assert!(!python_annotation_is_none("NoneType"));
}

#[test]
fn wrapper_bindings_are_recorded_and_shadowed() {
    let mut w = wrappers();
    insert_python_nullable_wrapper(&mut w, "Other", "typing.Dict");
    assert!(w.get("Other").is_none());
    insert_python_nullable_wrapper(&mut w, "TC", "typing.TYPE_CHECKING");
    assert_eq!(w.get("TC"), Some(&PythonNullableWrapper::TypeChecking));
    remove_python_wrapper_binding(&mut w, "t");
    assert!(w.get("t.Optional").is_none());
    assert_eq!(w.get("Optional"), Some(&PythonNullableWrapper::Optional));
    remove_python_wrapper_binding(&mut w, "Optional");
    assert!(w.get("Optional").is_none());
    assert_eq!(w.get("Union"), Some(&PythonNullableWrapper::Union));
}

#[test]
fn dotted_qualifiers_fall_back_only_through_imports() {
    let mut bindings = StrMap::new();
    bindings.insert("models".to_string(), "app.models".to_string());
    assert!(python_qualifier_owner_fallback(Lang::Rust, "a.b", &bindings));
    assert!(python_qualifier_owner_fallback(Lang::Python, "client", &bindings));
    assert!(python_qualifier_owner_fallback(Lang::Python, "models.User", &bindings));
    assert!(!python_qualifier_owner_fallback(Lang::Python, "models.helper", &bindings));
    assert!(!python_qualifier_owner_fallback(Lang::Python, "other.User", &bindings));
}

fn python_root(source: &str) -> aether::tree::SyntaxNode {
    aether::syntax::syntax_tree(source, aether::sources::Lang::Python).unwrap()
}

fn text_at(map: &StrMap<String>, key: &str) -> Option<String> {
    map.get(key).cloned()
}

#[test]
fn import_bindings_follow_imports_definitions_and_branches() {
    let source = "import os.path\nimport numpy as np\nfrom pkg.models import Widget, Gadget as G\nif cond:\n    from a import X\nelse:\n    from a import X\nif other:\n    from b import Y\ndef Widget():\n    pass\nnp = 3\n";
    let root = python_root(source);
    let mut bindings: StrMap<String> = StrMap::new();
    aether::py_scopes::update_python_import_bindings(&root, &mut bindings);
    assert_eq!(text_at(&bindings, "os"), Some("os.path".to_string()));
    assert_eq!(text_at(&bindings, "G"), Some("pkg.models.Gadget".to_string()));
    assert_eq!(text_at(&bindings, "X"), Some("a.X".to_string()));
    assert_eq!(text_at(&bindings, "Y"), None);
    assert_eq!(text_at(&bindings, "Widget"), None);
    assert_eq!(text_at(&bindings, "np"), None);
    assert_eq!(bindings.len(), 3);
}

#[test]
fn branches_that_disagree_drop_the_binding() {
    let source = "if c:\n    from a import X\nelse:\n    from b import X\n";
    let root = python_root(source);
    let mut bindings: StrMap<String> = StrMap::new();
    aether::py_scopes::update_python_import_bindings(&root, &mut bindings);
    assert_eq!(text_at(&bindings, "X"), None);
}

#[test]
fn type_aliases_record_renamed_imports_only() {
    let source = "from typing import Optional as Opt\nimport a.b.C as D\nimport plain\nfrom m import Q\n";
    let root = python_root(source);
    let mut aliases: StrMap<String> = StrMap::new();
    aether::py_scopes::update_python_type_aliases(&root, &mut aliases);
    assert_eq!(text_at(&aliases, "Opt"), Some("Optional".to_string()));
    assert_eq!(text_at(&aliases, "D"), Some("C".to_string()));
    assert_eq!(aliases.len(), 2);
}

fn wrappers_after(source: &str) -> StrMap<PythonNullableWrapper> {
    let root = python_root(source);
    let mut w: StrMap<PythonNullableWrapper> = StrMap::new();
    aether::py_scopes::update_python_nullable_wrappers(&root, &mut w);
    w
}

#[test]
fn typing_imports_name_nullable_wrappers() {
    let w = wrappers_after("from typing import Optional, Union as U\nimport typing_extensions as tx\nfrom other import Union\n");
    assert_eq!(w.get("Optional"), Some(&PythonNullableWrapper::Optional));
    assert_eq!(w.get("U"), Some(&PythonNullableWrapper::Union));
    assert_eq!(w.get("tx.Optional"), Some(&PythonNullableWrapper::Optional));
    assert_eq!(w.get("tx.Union"), Some(&PythonNullableWrapper::Union));
    assert_eq!(w.get("tx.TYPE_CHECKING"), Some(&PythonNullableWrapper::TypeChecking));
    assert_eq!(w.get("Union"), None);
    assert_eq!(w.len(), 5);
}

#[test]
fn a_type_checking_block_counts_alone() {
    let w = wrappers_after("from typing import TYPE_CHECKING\nif TYPE_CHECKING:\n    from typing import Optional as Opt\n");
    assert_eq!(w.get("Opt"), Some(&PythonNullableWrapper::Optional));
    assert_eq!(w.get("TYPE_CHECKING"), Some(&PythonNullableWrapper::TypeChecking));
    let w = wrappers_after("from typing import Optional\nif flag:\n    from typing import Union\n");
    assert_eq!(w.get("Optional"), Some(&PythonNullableWrapper::Optional));
    assert_eq!(w.get("Union"), None);
}

#[test]
fn rebinding_a_module_forgets_its_wrappers() {
    let w = wrappers_after("import typing as t\nt = 1\n");
    assert_eq!(w.len(), 0);
    let w = wrappers_after("from typing import Optional\ndef Optional():\n    pass\n");
    assert_eq!(w.len(), 0);
}

#[test]
fn function_parameters_hide_inherited_names() {
    let root = python_root("def f(a, b: int, *args, c=1, np=2):\n    pass\n");
    let function = &root.children[0];
    assert_eq!(function.kind, "function_definition");
    let mut inherited: StrMap<String> = StrMap::new();
    inherited.insert("np".to_string(), "numpy".to_string());
    inherited.insert("a".to_string(), "x".to_string());
    inherited.insert("os".to_string(), "os".to_string());
    inherited.insert("args".to_string(), "y".to_string());
    let scoped = aether::py_scopes::python_scoped_import_bindings(function, &inherited);
    assert_eq!(scoped.len(), 1);
    assert_eq!(text_at(&scoped, "os"), Some("os".to_string()));
    let scoped = aether::py_scopes::python_scoped_type_aliases(function, &inherited);
    assert_eq!(scoped.len(), 1);

    let mut w: StrMap<PythonNullableWrapper> = StrMap::new();
    w.insert("np.Optional".to_string(), PythonNullableWrapper::Optional);
    w.insert("Union".to_string(), PythonNullableWrapper::Union);
    let scoped = aether::py_scopes::python_scoped_nullable_wrapper_aliases(function, &w);
    assert_eq!(scoped.len(), 1);
    assert_eq!(scoped.get("Union"), Some(&PythonNullableWrapper::Union));
}
