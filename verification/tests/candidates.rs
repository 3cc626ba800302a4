use aether::candidates::{
    factory_candidate, passes_generic_type, resolve_factory_receiver, select_candidate, select_exact_path,
    select_process_entrypoint, FunctionCandidate,
};
use aether::hints::CallTargetRef;
use aether::strmap::StrMap;

fn candidate(path: &str, file: &str, source_module: &str, owner: &str, id: u64) -> FunctionCandidate {
    FunctionCandidate {
        path: path.to_string(),
        file: Some(file.to_string()),
        source_module: source_module.to_string(),
        owner: owner.to_string(),
        id,
        return_type: None,
        type_parameters: None,
        first_parameter_type: None,
    }
}

fn target(callee: &str, qualifier: Option<&str>) -> CallTargetRef {
    CallTargetRef {
        callee: callee.to_string(),
        qualifier: qualifier.map(str::to_string),
        receiver_type: None,
        receiver_factory: None,
        fallback_type: None,
        fallback_factory: None,
    }
}

#[test]
fn bare_calls_prefer_the_callers_module() {
    let cs = vec![
        candidate("crate::a::run", "src/a.rs", "crate::a", "crate::a", 1),
        candidate("crate::b::run", "src/b.rs", "crate::b", "crate::b", 2),
    ];
    assert_eq!(select_candidate(&cs, "crate::b", "crate::b", None, None, true, false).map(|c| c.id), Some(2));
    assert_eq!(select_candidate(&cs, "crate::c", "crate::c", None, None, true, false).map(|c| c.id), None);
    assert_eq!(select_candidate(&cs, "crate::b", "crate::b", None, None, true, true).map(|c| c.id), None);
    let one = vec![candidate("crate::a::run", "src/a.rs", "crate::a", "crate::a", 1)];
    assert_eq!(select_candidate(&one, "crate::z", "crate::z", None, None, true, false).map(|c| c.id), Some(1));
}

#[test]
fn qualified_calls_need_a_matching_owner() {
    let cs = vec![
        candidate("crate::t::Timeline::step", "src/t.rs", "crate::t", "crate::t::Timeline", 1),
        candidate("crate::p::PyTimeline::step", "src/p.rs", "crate::p", "crate::p::PyTimeline", 2),
    ];
    // The exact owner wins over one whose name merely ends the same way.
    assert_eq!(
        select_candidate(&cs, "crate::x", "crate::x", Some("timeline"), Some("Timeline"), false, false).map(|c| c.id),
        Some(1)
    );
    // No receiver type and no fallback allowed: unresolved.
    assert_eq!(select_candidate(&cs, "crate::x", "crate::x", Some("timeline"), None, false, false).map(|c| c.id), None);
    // `self` picks the caller's own owner.
    assert_eq!(
        select_candidate(&cs, "crate::p", "crate::p::PyTimeline", Some("self"), None, false, false).map(|c| c.id),
        Some(2)
    );
}

#[test]
fn exact_paths_and_entrypoints() {
    let mut by_name: StrMap<Vec<FunctionCandidate>> = StrMap::new();
    by_name.insert(
        "main".to_string(),
        vec![
            candidate("crate::main", "src/main.rs", "crate", "crate", 1),
            candidate("crate::bin::tool::main", "src/bin/tool.rs", "crate::bin::tool", "crate::bin::tool", 2),
        ],
    );
    assert_eq!(select_exact_path("crate::bin::tool::main", &by_name).map(|c| c.id), Some(2));
    assert_eq!(select_exact_path("crate::other::main", &by_name).map(|c| c.id), None);
    let bins: StrMap<String> = StrMap::new();
    let mains = by_name.get("main").unwrap();
    assert_eq!(select_process_entrypoint(mains, "tool", &bins).map(|c| c.id), Some(2));
    assert_eq!(select_process_entrypoint(mains, "unknown", &bins).map(|c| c.id), None);
}

#[test]
fn factories_resolve_receivers_by_return_type() {
    let mut make = candidate("crate::g::make_graph", "src/g.rs", "crate::g", "crate::g", 10);
    make.return_type = Some("Result<Graph, Error>".to_string());
    let mut by_name: StrMap<Vec<FunctionCandidate>> = StrMap::new();
    by_name.insert("make_graph".to_string(), vec![make]);
    let methods = vec![
        candidate("crate::g::Graph::add", "src/g.rs", "crate::g", "crate::g::Graph", 1),
        candidate("crate::h::Heap::add", "src/h.rs", "crate::h", "crate::h::Heap", 2),
    ];
    by_name.insert("add".to_string(), methods.clone());
    let factory = target("make_graph", None);
    assert_eq!(factory_candidate(&factory, &by_name, "crate::x", "crate::x").map(|c| c.id), Some(10));
    assert_eq!(
        resolve_factory_receiver(&factory, &methods, &by_name, "crate::x", "crate::x").map(|c| c.id),
        Some(1)
    );
}

#[test]
fn generic_pass_through_producers() {
    let mut wrap = candidate("crate::w::wrap", "src/w.rs", "crate::w", "crate::w", 1);
    wrap.type_parameters = Some("<T>".to_string());
    wrap.first_parameter_type = Some("Result<T, E>".to_string());
    wrap.return_type = Some("Result<T, Error>".to_string());
    assert!(passes_generic_type(&wrap));
    wrap.return_type = Some("Option<T>".to_string());
    assert!(!passes_generic_type(&wrap));
}
