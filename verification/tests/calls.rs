use aether::calls::{collect_calls, CallRef};
use aether::sources::Lang;
use aether::syntax::syntax_tree;

fn find<'a>(calls: &'a [CallRef], callee: &str) -> &'a CallRef {
    calls.iter().find(|c| c.callee == callee).unwrap()
}

#[test]
fn rust_calls_carry_callers_receivers_and_launches() {
    let source = "struct Store;\nimpl Store {\n    fn open() -> Store { Store }\n    fn save(&self) { self.flush(); }\n}\nfn main() {\n    let s = Store::open();\n    s.save();\n    helper::run(1);\n    assert_eq!(add(1, 2), 3);\n    let c: Widget = make();\n    c.paint();\n    std::process::Command::new(env!(\"CARGO_BIN_EXE_tool\"));\n}\n";
    let root = syntax_tree(source, Lang::Rust).unwrap();
    let calls = collect_calls(&root, Lang::Rust, "crate");
    let open = find(&calls, "open");
    assert_eq!(open.caller, "crate::main");
    assert_eq!(open.qualifier.as_deref(), Some("Store"));
    assert!(open.qualifier_owner_fallback);
    let flush = find(&calls, "flush");
    assert_eq!(flush.caller, "crate::Store::save");
    let save = find(&calls, "save");
    assert_eq!(save.receiver_type.as_deref(), Some("Store"));
    let built = "fn f() {\n    let plan = make_plan()?;\n    plan.run();\n}\n";
    let built_calls = collect_calls(&syntax_tree(built, Lang::Rust).unwrap(), Lang::Rust, "crate");
    let run = find(&built_calls, "run");
    assert_eq!(run.receiver_factory.as_ref().map(|f| f.callee.clone()), Some("make_plan".to_string()));
    assert_eq!(find(&calls, "add").qualifier, None);
    assert_eq!(find(&calls, "paint").receiver_type.as_deref(), Some("Widget"));
    let launch = calls.iter().find(|c| c.process_entrypoint.is_some()).unwrap();
    assert_eq!(launch.callee, "main");
    assert_eq!(launch.process_entrypoint.as_deref(), Some("tool"));
    assert_eq!(find(&calls, "new").qualifier.as_deref(), Some("std::process::Command"));
}

#[test]
fn python_calls_follow_annotations_and_constructors() {
    let source = "class Svc:\n    def run(self, repo: Repo):\n        repo.load()\n        x = Thing()\n        x.go()\n        box.identity.tail()\n";
    let root = syntax_tree(source, Lang::Python).unwrap();
    let calls = collect_calls(&root, Lang::Python, "app");
    let load = find(&calls, "load");
    assert_eq!(load.caller, "app::Svc::run");
    assert_eq!(load.receiver_type.as_deref(), Some("Repo"));
    assert_eq!(find(&calls, "go").receiver_type.as_deref(), Some("Thing"));
    assert_eq!(find(&calls, "Thing").qualifier, None);
    assert!(!find(&calls, "tail").qualifier_owner_fallback);
}

#[test]
fn calls_outside_functions_are_not_attributed() {
    let root = syntax_tree("print(1)\n", Lang::Python).unwrap();
    assert!(collect_calls(&root, Lang::Python, "m").is_empty());
    let root = syntax_tree("const A: u8 = f();\n", Lang::Rust).unwrap();
    assert!(collect_calls(&root, Lang::Rust, "m").is_empty());
}
