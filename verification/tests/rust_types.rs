use aether::aliases::RustImportRef;
use aether::rust_imports::{collect_rust_imports, combine_path};
use aether::rust_types::{
    generic_type_parameters, has_direct_generic_argument, outer_type_name, top_level_parts,
};
use aether::sources::Lang;
use aether::hints::{RustTypeHint, MAX_RECEIVER_HINT_NODES};
use aether::rust_hints::rust_type_hint;
use aether::syntax::syntax_tree;
use aether::tree::SyntaxNode;

#[test]
fn commas_split_only_at_top_level() {
    assert_eq!(
        top_level_parts("A<B, C>, (D, E) , [F; 2], G"),
        vec!["A<B, C>", "(D, E)", "[F; 2]", "G"]
    );
    assert_eq!(top_level_parts(""), vec![""]);
    assert_eq!(top_level_parts("a>,b"), vec!["a>", "b"]);
}

#[test]
fn generic_parameters_skip_lifetimes_and_consts() {
    assert_eq!(
        generic_type_parameters("<'a, T: Clone, const N: usize, U = u8>"),
        vec!["T", "U"]
    );
    assert_eq!(generic_type_parameters("N, E, Ty, Ix"), vec!["N", "E", "Ty", "Ix"]);
    assert!(generic_type_parameters("<>").is_empty());
    assert!(generic_type_parameters("< ?Sized >").is_empty());
}

#[test]
fn outer_names_come_before_generics() {
    assert_eq!(outer_type_name("std::vec::Vec<T>").as_deref(), Some("Vec"));
    assert_eq!(outer_type_name("&mut Graph").as_deref(), Some("Graph"));
    assert_eq!(outer_type_name("<T as Tr>::X"), None);
    assert_eq!(outer_type_name(""), None);
}

#[test]
fn direct_generic_arguments() {
    assert!(has_direct_generic_argument(" T ", "T"));
    assert!(has_direct_generic_argument("Vec<T>", "T"));
    assert!(has_direct_generic_argument("HashMap<K, T>", "T"));
    assert!(!has_direct_generic_argument("Vec<Box<T>>", "T"));
    assert!(!has_direct_generic_argument("Vec<U>", "T"));
    assert!(!has_direct_generic_argument("T>", "T "));
}

#[test]
fn rust_imports_preserve_nested_aliases_and_reexport_visibility() {
    let source = r#"
pub(crate) use crate::alpha::{
    beta as gamma,
    nested::{delta, epsilon as zeta},
    self,
    *,
};
use super::theta;
use crate::hidden as _;
fn local_only() {
    use crate::local as function_scoped;
}
"#;
    let root = syntax_tree(source, Lang::Rust).unwrap();
    let mut imports = collect_rust_imports(&root);
    imports.sort_by(|left, right| left.local.cmp(&right.local));

    assert_eq!(
        imports,
        vec![
            RustImportRef {
                local: "alpha".into(),
                target: "crate::alpha".into(),
                is_reexport: true,
            },
            RustImportRef {
                local: "delta".into(),
                target: "crate::alpha::nested::delta".into(),
                is_reexport: true,
            },
            RustImportRef {
                local: "gamma".into(),
                target: "crate::alpha::beta".into(),
                is_reexport: true,
            },
            RustImportRef {
                local: "theta".into(),
                target: "super::theta".into(),
                is_reexport: false,
            },
            RustImportRef {
                local: "zeta".into(),
                target: "crate::alpha::nested::epsilon".into(),
                is_reexport: true,
            },
        ]
    );
}

#[test]
fn combined_paths_follow_self_crate_and_super() {
    assert_eq!(combine_path("crate::a", " self "), "crate::a");
    assert_eq!(combine_path("crate::a", "b"), "crate::a::b");
    assert_eq!(combine_path("crate::a", "super::b"), "super::b");
    assert_eq!(combine_path("crate::a", "crate::b"), "crate::b");
    assert_eq!(combine_path("", "x::y"), "x::y");
}

fn find_kind<'a>(n: &'a SyntaxNode, kind: &str) -> Option<&'a SyntaxNode> {
    if n.kind == kind {
        return Some(n);
    }
    n.children.iter().find_map(|c| find_kind(c, kind))
}

fn field<'a>(n: &'a SyntaxNode, f: &str) -> Option<&'a SyntaxNode> {
    n.children.iter().find(|c| c.field.as_deref() == Some(f))
}

fn rust_type_nodes(hint: &RustTypeHint) -> usize {
    1 + hint.generic_arguments.iter().map(rust_type_nodes).sum::<usize>()
}

fn parameter_type_hint(source: &str) -> Option<RustTypeHint> {
    let root = syntax_tree(source, Lang::Rust).unwrap();
    let function = find_kind(&root, "function_item").unwrap();
    let parameters = field(function, "parameters").unwrap();
    let parameter = parameters
        .children
        .iter()
        .find(|c| c.named && c.kind == "parameter")
        .unwrap();
    rust_type_hint(field(parameter, "type").unwrap())
}

#[test]
fn rust_type_hint_budget_bounds_adversarial_generic_nesting() {
    let depth = MAX_RECEIVER_HINT_NODES * 4;
    let nested = format!("{}SessionIdentity{}", "Option<".repeat(depth), ">".repeat(depth));
    let source = format!("fn inspect(value: {nested}) {{}}\n");
    let hint = parameter_type_hint(&source).unwrap();

    assert_eq!(rust_type_nodes(&hint), MAX_RECEIVER_HINT_NODES);
}

#[test]
fn type_hints_see_through_references_and_keep_arguments() {
    let hint = parameter_type_hint("fn f(v: &mut std::vec::Vec<crate::model::Widget>) {}\n").unwrap();
    assert_eq!(hint.name, "Vec");
    assert_eq!(hint.generic_arguments.len(), 1);
    assert_eq!(hint.generic_arguments[0].name, "Widget");
    let hint = parameter_type_hint("fn f(v: HashMap<String, u32>) {}\n").unwrap();
    assert_eq!(hint.name, "HashMap");
    assert_eq!(hint.generic_arguments.len(), 2);
    assert_eq!(hint.generic_arguments[1].name, "u32");
    assert!(parameter_type_hint("fn f(v: [u8; 4]) {}\n").is_none());
}
