use aether::method_rules::{
    bare_type_name, method_call_upgrades, receiver_step_index, CandidateMethodCall, ImportFact,
    InherentMethodFact, MethodUpgrade, ReceiverKind, RustMethodFacts, TraitImplFact,
    TraitMethodDeclFact, TypeItemFact,
};

fn empty_facts() -> RustMethodFacts {
    RustMethodFacts {
        type_items: Vec::new(),
        inherent_methods: Vec::new(),
        trait_decls: Vec::new(),
        trait_impls: Vec::new(),
        deref_impls: Vec::new(),
        mod_decls: Vec::new(),
        named_imports: Vec::new(),
        glob_imports: Vec::new(),
        candidate_calls: Vec::new(),
        file_transformed_scope: false,
        file_duplicate_paths: false,
        file_parse_error: false,
        macro_owner_function_indices: Vec::new(),
    }
}

fn import(local: &str, first: &str) -> ImportFact {
    ImportFact {
        local: local.to_string(),
        first_segment: first.to_string(),
        full_path: format!("{first}::{local}"),
        scope: u64::MAX,
    }
}

/// `src/lib.rs` defines `Graph` with an inherent `&mut self` `add_node` and a
/// trait `Build` declaring the same method, implemented for `Graph` with the
/// same (empty) bounds; `tests/positive.rs` calls it on an annotated receiver.
fn positive_case(first_segment: &str) -> Vec<RustMethodFacts> {
    let mut lib = empty_facts();
    lib.type_items.push(TypeItemFact { name: "Build".to_string(), cfg_gated: false });
    lib.type_items.push(TypeItemFact { name: "Graph".to_string(), cfg_gated: false });
    lib.type_items.push(TypeItemFact { name: "Directed".to_string(), cfg_gated: false });
    lib.inherent_methods.push(InherentMethodFact {
        self_type: "Graph".to_string(),
        method_name: "add_node".to_string(),
        receiver: ReceiverKind::RefMut,
        is_pub: true,
        bounds: String::new(),
        generic_over_all_type_params: true,
        cfg_gated: false,
        target_id: Some(41),
        file: "src/lib.rs".to_string(),
    });
    lib.trait_decls.push(TraitMethodDeclFact {
        trait_name: "Build".to_string(),
        method_name: "add_node".to_string(),
        receiver: ReceiverKind::RefMut,
        cfg_gated: false,
    });
    lib.trait_impls.push(TraitImplFact {
        trait_name: "Build".to_string(),
        self_type: Some("Graph".to_string()),
        bounds: String::new(),
        cfg_gated: false,
    });
    let mut test = empty_facts();
    test.named_imports.push(import("Graph", first_segment));
    test.named_imports.push(import("Directed", first_segment));
    test.candidate_calls.push(CandidateMethodCall {
        receiver_name: "graph".to_string(),
        method_name: "add_node".to_string(),
        owner_index: 0,
        annotated_type: Some("Graph<Directed>".to_string()),
    });
    vec![lib, test]
}

#[test]
fn annotated_receiver_with_unique_inherent_method_is_proven() {
    let files = positive_case("crate");
    assert_eq!(
        method_call_upgrades(&files, None),
        vec![MethodUpgrade { file: 1, call: 0, target: 41 }]
    );
}

#[test]
fn unannotated_receiver_is_not_proven() {
    let mut files = positive_case("crate");
    files[1].candidate_calls[0].annotated_type = None;
    assert!(method_call_upgrades(&files, None).is_empty());
}

#[test]
fn earlier_step_trait_competitor_blocks_the_proof() {
    let mut files = positive_case("crate");
    files[0].trait_decls[0].receiver = ReceiverKind::RefShared;
    assert!(method_call_upgrades(&files, None).is_empty());
}

#[test]
fn later_step_trait_method_does_not_compete() {
    let mut files = positive_case("crate");
    files[0].inherent_methods[0].receiver = ReceiverKind::RefShared;
    files[0].trait_impls[0].bounds = "T: Clone".to_string();
    assert_eq!(method_call_upgrades(&files, None).len(), 1);
}

#[test]
fn same_step_impl_with_other_bounds_blocks_the_proof() {
    let mut files = positive_case("crate");
    files[0].trait_impls[0].bounds = "T: Clone".to_string();
    assert!(method_call_upgrades(&files, None).is_empty());
}

#[test]
fn blanket_impl_blocks_the_proof() {
    let mut files = positive_case("crate");
    files[0].trait_impls[0].self_type = None;
    assert!(method_call_upgrades(&files, None).is_empty());
}

#[test]
fn duplicate_type_definitions_block_the_proof() {
    let mut files = positive_case("crate");
    let mut other = empty_facts();
    other.type_items.push(TypeItemFact { name: "Graph".to_string(), cfg_gated: false });
    files.push(other);
    assert!(method_call_upgrades(&files, None).is_empty());
}

#[test]
fn cfg_gated_inherent_impl_blocks_the_proof() {
    let mut files = positive_case("crate");
    files[0].inherent_methods[0].cfg_gated = true;
    assert!(method_call_upgrades(&files, None).is_empty());
}

#[test]
fn external_glob_import_blocks_the_proof() {
    let mut files = positive_case("crate");
    files[1].glob_imports.push("some_external_crate".to_string());
    assert!(method_call_upgrades(&files, None).is_empty());
    let mut files = positive_case("crate");
    files[1].glob_imports.push("crate::prelude".to_string());
    assert_eq!(method_call_upgrades(&files, None).len(), 1);
}

#[test]
fn package_name_import_counts_as_in_crate() {
    let files = positive_case("pkg");
    assert!(method_call_upgrades(&files, None).is_empty());
    assert_eq!(
        method_call_upgrades(&files, Some("pkg")),
        vec![MethodUpgrade { file: 1, call: 0, target: 41 }]
    );
}

#[test]
fn unverifiable_external_import_blocks_the_proof() {
    let mut files = positive_case("crate");
    files[1].named_imports.push(import("Itertools", "itertools"));
    assert!(method_call_upgrades(&files, None).is_empty());
    let mut files = positive_case("crate");
    files[1].named_imports.push(import("HashMap", "std"));
    assert_eq!(method_call_upgrades(&files, None).len(), 1);
}

#[test]
fn prelude_method_names_are_never_proven() {
    let mut files = positive_case("crate");
    files[0].inherent_methods[0].method_name = "clone".to_string();
    files[0].trait_decls.clear();
    files[1].candidate_calls[0].method_name = "clone".to_string();
    assert!(method_call_upgrades(&files, None).is_empty());
}

#[test]
fn bare_type_names_of_annotations() {
    assert_eq!(bare_type_name("  Graph<Directed> ").as_deref(), Some("Graph"));
    assert_eq!(bare_type_name("Graph").as_deref(), Some("Graph"));
    assert_eq!(bare_type_name("&Graph"), None);
    assert_eq!(bare_type_name("dyn Trait"), None);
    assert_eq!(bare_type_name("impl Trait"), None);
    assert_eq!(bare_type_name("*const u8"), None);
    assert_eq!(bare_type_name("std::collections::HashMap<u8, u8>"), None);
    assert_eq!(bare_type_name("<T as Tr>::X"), None);
}

#[test]
fn receiver_steps_follow_autoref_order() {
    assert_eq!(receiver_step_index(ReceiverKind::Value), Some(0));
    assert_eq!(receiver_step_index(ReceiverKind::RefShared), Some(1));
    assert_eq!(receiver_step_index(ReceiverKind::RefMut), Some(2));
    assert_eq!(receiver_step_index(ReceiverKind::Unrecognized), None);
}
