use aether::method_facts::{collect, FileGates, FileNode};
use aether::method_rules::{method_call_upgrades, unique_type_item, ReceiverKind, RustMethodFacts};
use aether::sources::Lang;
use aether::syntax::syntax_tree;
use aether::tree::SyntaxNode;

/// The function items of a tree in pre-order, standing in for the file's
/// graph nodes; ids are `base` plus the position.
fn function_nodes(n: &SyntaxNode, base: u64, out: &mut Vec<FileNode>) {
    if n.kind == "function_item" {
        let id = base + out.len() as u64;
        out.push(FileNode { is_function: true, start: n.start, end: n.end, id });
    }
    for c in &n.children {
        function_nodes(c, base, out);
    }
}

fn file_facts(file: &str, source: &str, base: u64) -> (RustMethodFacts, Vec<FileNode>) {
    let root = syntax_tree(source, Lang::Rust).unwrap();
    let mut nodes = Vec::new();
    function_nodes(&root, base, &mut nodes);
    let gates = FileGates {
        transformed_scope: false,
        duplicate_paths: false,
        parse_error: false,
        macro_owners: Vec::new(),
    };
    (collect(&root, file, &nodes, &gates), nodes)
}

fn positive_case_files() -> [(&'static str, &'static str); 2] {
    [
        (
            "src/lib.rs",
            "pub mod data { pub trait Build { fn add_node(&mut self, w: i32) -> i32; } }\n\
             pub struct Graph<Ty> { _p: std::marker::PhantomData<Ty> }\n\
             impl<Ty> Graph<Ty> {\n\
             \x20\x20\x20\x20pub fn add_node(&mut self, weight: i32) -> i32 { weight }\n\
             }\n\
             impl<Ty> data::Build for Graph<Ty> {\n\
             \x20\x20\x20\x20fn add_node(&mut self, weight: i32) -> i32 { self.add_node(weight) }\n\
             }\n\
             pub struct Directed;\n",
        ),
        (
            "tests/positive.rs",
            "use crate::{Graph, Directed};\n\
             #[test]\n\
             fn t() {\n\
             \x20\x20\x20\x20let mut graph: Graph<Directed> = Graph { _p: std::marker::PhantomData };\n\
             \x20\x20\x20\x20graph.add_node(1);\n\
             }\n",
        ),
    ]
}

/// The upgraded calls of a crate: (file, receiver, method, target node).
fn upgrades(files: &[(&str, &str)], package: Option<&str>) -> (Vec<(usize, String, String, u64)>, Vec<Vec<FileNode>>) {
    let mut facts = Vec::new();
    let mut all_nodes = Vec::new();
    for (i, (file, source)) in files.iter().enumerate() {
        let (f, nodes) = file_facts(file, source, 1000 * i as u64);
        facts.push(f);
        all_nodes.push(nodes);
    }
    let ups = method_call_upgrades(&facts, package);
    let described = ups
        .iter()
        .map(|u| {
            let call = &facts[u.file].candidate_calls[u.call];
            (u.file, call.receiver_name.clone(), call.method_name.clone(), u.target)
        })
        .collect();
    (described, all_nodes)
}

#[test]
fn annotated_receiver_with_unique_inherent_method_is_proven_must() {
    let files = positive_case_files();
    let (ups, nodes) = upgrades(&files, None);
    // The inherent `add_node` is the first function item of src/lib.rs
    // that has a body (the trait's is a signature).
    let target = nodes[0][0].id;
    assert_eq!(ups, vec![(1, "graph".to_string(), "add_node".to_string(), target)]);
}

#[test]
fn facts_of_the_positive_case() {
    let files = positive_case_files();
    let (lib, _) = file_facts(files[0].0, files[0].1, 0);
    let names: Vec<&str> = lib.type_items.iter().map(|t| t.name.as_str()).collect();
    assert_eq!(names, vec!["Build", "Graph", "Directed"]);
    assert_eq!(lib.inherent_methods.len(), 1);
    let m = &lib.inherent_methods[0];
    assert_eq!(m.self_type, "Graph");
    assert_eq!(m.method_name, "add_node");
    assert_eq!(m.receiver, ReceiverKind::RefMut);
    assert!(m.is_pub);
    assert!(m.generic_over_all_type_params);
    assert!(!m.cfg_gated);
    assert_eq!(m.file, "src/lib.rs");
    assert_eq!(lib.trait_decls.len(), 1);
    assert_eq!(lib.trait_decls[0].trait_name, "Build");
    assert_eq!(lib.trait_impls.len(), 1);
    assert_eq!(lib.trait_impls[0].trait_name, "Build");
    assert_eq!(lib.trait_impls[0].self_type.as_deref(), Some("Graph"));
    assert_eq!(lib.mod_decls.len(), 1);
    assert_eq!(lib.mod_decls[0].name, "data");
    assert_eq!(lib.mod_decls[0].scope, u64::MAX);

    let (test, _) = file_facts(files[1].0, files[1].1, 1000);
    let locals: Vec<(&str, &str, &str)> = test
        .named_imports
        .iter()
        .map(|i| (i.local.as_str(), i.first_segment.as_str(), i.full_path.as_str()))
        .collect();
    assert_eq!(locals, vec![("Graph", "crate", "crate::Graph"), ("Directed", "crate", "crate::Directed")]);
    assert_eq!(test.candidate_calls.len(), 1);
    let call = &test.candidate_calls[0];
    assert_eq!(call.receiver_name, "graph");
    assert_eq!(call.method_name, "add_node");
    assert_eq!(call.owner_index, 0);
    assert_eq!(call.annotated_type.as_deref(), Some("Graph<Directed>"));
}

#[test]
fn earlier_step_trait_competitor_blocks_proof() {
    let files = [
        (
            "src/lib.rs",
            "pub trait Peek { fn add_node(&self, w: i32) -> i32; }\n\
             pub struct Graph;\n\
             impl Graph {\n\
             \x20\x20\x20\x20pub fn add_node(&mut self, weight: i32) -> i32 { weight }\n\
             }\n",
        ),
        (
            "tests/positive.rs",
            "use crate::Graph;\n\
             #[test]\n\
             fn t() {\n\
             \x20\x20\x20\x20let mut graph: Graph = Graph;\n\
             \x20\x20\x20\x20graph.add_node(1);\n\
             }\n",
        ),
    ];
    let (ups, _) = upgrades(&files, None);
    assert!(ups.is_empty());
}

#[test]
fn two_non_generic_inherent_methods_of_same_name_block_proof() {
    let files = [
        (
            "src/lib.rs",
            "pub struct Graph;\n\
             impl Graph { pub fn add_node(&mut self, w: i32) -> i32 { w } }\n\
             impl Graph { pub fn add_node_dup(&mut self, w: i32) -> i32 { w } }\n",
        ),
        ("src/other.rs", "pub struct Graph;\n"),
    ];
    let facts: Vec<RustMethodFacts> = files
        .iter()
        .enumerate()
        .map(|(i, (f, s))| file_facts(f, s, 1000 * i as u64).0)
        .collect();
    let graphs = facts
        .iter()
        .flat_map(|f| f.type_items.iter())
        .filter(|t| t.name == "Graph")
        .count();
    assert_eq!(graphs, 2);
    assert!(!unique_type_item(&facts, "Graph"));
}

#[test]
fn cfg_gated_inherent_impl_blocks_proof() {
    let files = [
        (
            "src/lib.rs",
            "pub struct Graph;\n\
             #[cfg(feature = \"x\")]\n\
             impl Graph {\n\
             \x20\x20\x20\x20pub fn add_node(&mut self, weight: i32) -> i32 { weight }\n\
             }\n",
        ),
        (
            "tests/positive.rs",
            "use crate::Graph;\n\
             #[test]\n\
             fn t() {\n\
             \x20\x20\x20\x20let mut graph: Graph = Graph;\n\
             \x20\x20\x20\x20graph.add_node(1);\n\
             }\n",
        ),
    ];
    let (lib, _) = file_facts(files[0].0, files[0].1, 0);
    assert!(lib.inherent_methods[0].cfg_gated);
    let (ups, _) = upgrades(&files, None);
    assert!(ups.is_empty());
}

#[test]
fn external_glob_import_blocks_proof() {
    let files = [
        (
            "src/lib.rs",
            "pub struct Graph;\n\
             impl Graph { pub fn add_node(&mut self, w: i32) -> i32 { w } }\n",
        ),
        (
            "tests/positive.rs",
            "use crate::Graph;\n\
             use some_external_crate::*;\n\
             #[test]\n\
             fn t() {\n\
             \x20\x20\x20\x20let mut graph: Graph = Graph;\n\
             \x20\x20\x20\x20graph.add_node(1);\n\
             }\n",
        ),
    ];
    let (test, _) = file_facts(files[1].0, files[1].1, 1000);
    assert_eq!(test.glob_imports, vec!["some_external_crate".to_string()]);
    let (ups, _) = upgrades(&files, None);
    assert!(ups.is_empty());
}

#[test]
fn package_name_import_is_recognized_as_in_crate() {
    let mut files = positive_case_files();
    files[1] = (
        "tests/positive.rs",
        "use pkg::{Graph, Directed};\n\
         #[test]\n\
         fn t() {\n\
         \x20\x20\x20\x20let mut graph: Graph<Directed> = Graph { _p: std::marker::PhantomData };\n\
         \x20\x20\x20\x20graph.add_node(1);\n\
         }\n",
    );
    let (ups, _) = upgrades(&files, Some("pkg"));
    assert_eq!(ups.len(), 1);
    let (ups, _) = upgrades(&files, None);
    assert!(ups.is_empty());
}

#[test]
fn shadowed_or_generic_receivers_have_no_annotation() {
    let (facts, _) = file_facts(
        "src/a.rs",
        "fn f() { let g: Graph = make(); let g = 2; g.run(); }\n\
         fn h<Graph: Build>() { let g: Graph = make(); g.run(); }\n\
         fn k(x: Graph) { x.run(); }\n",
        0,
    );
    let anns: Vec<Option<&str>> = facts
        .candidate_calls
        .iter()
        .map(|c| c.annotated_type.as_deref())
        .collect();
    assert_eq!(anns, vec![None, None, None]);
    let owners: Vec<usize> = facts.candidate_calls.iter().map(|c| c.owner_index).collect();
    assert_eq!(owners, vec![0, 1, 2]);
}
