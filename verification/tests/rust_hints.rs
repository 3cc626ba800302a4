use aether::hints::ReceiverHint;
use aether::rust_hints::{
    callee_target, rust_condition_type_hints, rust_function_type_hints, rust_let_else_type_hints,
    rust_match_arm_type_hints, strip_prefix_all,
};
use aether::sources::Lang;
use aether::syntax::syntax_tree;
use aether::tree::SyntaxNode;

fn find_kind<'a>(n: &'a SyntaxNode, kind: &str) -> Option<&'a SyntaxNode> {
    if n.kind == kind {
        return Some(n);
    }
    n.children.iter().find_map(|c| find_kind(c, kind))
}

fn named_type(h: Option<&ReceiverHint>) -> Option<String> {
    match h {
        Some(ReceiverHint::Type(t)) => Some(t.name.clone()),
        _ => None,
    }
}

fn factory(h: Option<&ReceiverHint>) -> Option<(String, Option<String>, Option<String>)> {
    match h {
        Some(ReceiverHint::ReturnOf(f)) => Some((f.callee.clone(), f.qualifier.clone(), f.fallback_type.clone())),
        _ => None,
    }
}

#[test]
fn function_hints_follow_annotations_and_factories() {
    let source = "fn f(store: &Store, items: Vec<Item>) {\n    let a = Store::open();\n    let b: Widget = make();\n    let c = make_plan()?;\n    let d = store.clone();\n    let e = build(Config::default());\n    let mut g = load().unwrap();\n    let h = helper::make_thing(x);\n    fn inner() { let hidden = Thing::new(); }\n}\n";
    let root = syntax_tree(source, Lang::Rust).unwrap();
    let function = find_kind(&root, "function_item").unwrap();
    let hints = rust_function_type_hints(function);
    assert_eq!(named_type(hints.get("store")), Some("Store".to_string()));
    assert_eq!(named_type(hints.get("items")), Some("Vec".to_string()));
    assert_eq!(named_type(hints.get("a")), Some("Store".to_string()));
    assert_eq!(named_type(hints.get("b")), Some("Widget".to_string()));
    assert_eq!(factory(hints.get("c")), Some(("make_plan".to_string(), None, None)));
    assert_eq!(named_type(hints.get("d")), Some("Store".to_string()));
    assert_eq!(
        factory(hints.get("e")),
        Some(("build".to_string(), None, Some("Config".to_string())))
    );
    assert_eq!(factory(hints.get("g")), Some(("load".to_string(), None, None)));
    assert_eq!(
        factory(hints.get("h")),
        Some(("make_thing".to_string(), Some("helper".to_string()), None))
    );
    assert!(hints.get("hidden").is_none());
    assert_eq!(hints.len(), 9);
}

#[test]
fn call_targets_split_at_the_last_separator() {
    let root = syntax_tree("fn f() { a.b.run(); crate::x::go(); plain(); }\n", Lang::Rust).unwrap();
    let mut calls = Vec::new();
    fn walk<'a>(n: &'a SyntaxNode, out: &mut Vec<&'a SyntaxNode>) {
        if n.kind == "call_expression" {
            out.push(n);
        }
        for c in &n.children {
            walk(c, out);
        }
    }
    walk(&root, &mut calls);
    let targets: Vec<_> = calls.iter().map(|c| callee_target(c).unwrap()).collect();
    assert_eq!(
        targets,
        vec![
            ("run".to_string(), Some("a.b".to_string())),
            ("go".to_string(), Some("crate::x".to_string())),
            ("plain".to_string(), None),
        ]
    );
}

#[test]
fn repeated_prefixes_are_stripped() {
    assert_eq!(strip_prefix_all("mut mut x", "mut "), "x");
    assert_eq!(strip_prefix_all("x", "mut "), "x");
    assert_eq!(strip_prefix_all("abc", ""), "abc");
}

#[test]
fn let_conditions_narrow_option_and_result_bindings() {
    let source = "fn f(a: Option<Widget>, b: Result<Gadget, Fault>) {\n    if let Some(w) = a {}\n    if let Err(e) = b {}\n    if let Some(x) = a && let Ok(g) = b {}\n    let Some(mut v) = a else { return; };\n    match b { Ok(k) if k.ready() => {}, _ => {} }\n}\n";
    let root = syntax_tree(source, Lang::Rust).unwrap();
    let function = find_kind(&root, "function_item").unwrap();
    let hints = rust_function_type_hints(function);
    let mut ifs = Vec::new();
    fn walk<'a>(n: &'a SyntaxNode, kind: &str, out: &mut Vec<&'a SyntaxNode>) {
        if n.kind == kind {
            out.push(n);
        }
        for c in &n.children {
            walk(c, kind, out);
        }
    }
    walk(function, "if_expression", &mut ifs);
    let first = rust_condition_type_hints(ifs[0], &hints).unwrap();
    assert_eq!(named_type(first.get("w")), Some("Widget".to_string()));
    let second = rust_condition_type_hints(ifs[1], &hints).unwrap();
    assert_eq!(named_type(second.get("e")), Some("Fault".to_string()));
    if let Some(chain) = rust_condition_type_hints(ifs[2], &hints) {
        assert_eq!(named_type(chain.get("x")), Some("Widget".to_string()));
        assert_eq!(named_type(chain.get("g")), Some("Gadget".to_string()));
    }
    let mut lets = Vec::new();
    walk(function, "let_declaration", &mut lets);
    let narrowed = rust_let_else_type_hints(lets[0], &hints).unwrap();
    assert_eq!(named_type(narrowed.get("v")), Some("Widget".to_string()));
    let mut arms = Vec::new();
    walk(function, "match_arm", &mut arms);
    let matches = find_kind(function, "match_expression").unwrap();
    let arm = rust_match_arm_type_hints(arms[0], matches, &hints).unwrap();
    assert_eq!(named_type(arm.get("k")), Some("Gadget".to_string()));
    assert!(rust_match_arm_type_hints(arms[1], matches, &hints).is_none());
    assert!(named_type(hints.get("w")).is_none());
}
