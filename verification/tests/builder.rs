use aether::hints::{CallTargetRef, ReceiverHint, MAX_RECEIVER_HINT_NODES};
use aether::macro_scan::{mask_rust_macro_non_code, textual_call_refs};
use aether::paths::{
    conventional_rust_binary_target, follow_reexports, last_path_segment, module_of, module_path_for,
    normalize_rust_import_target, owner_tail, qualifier_matches_owner, qualifier_matches_owner_exactly,
    qualifier_tail, rust_module_path_for, source_crate_root, MAX_REEXPORT_DEPTH,
};
use aether::strmap::StrMap;

fn receiver_nodes(target: &CallTargetRef) -> usize {
    1 + target
        .receiver_factory
        .as_deref()
        .map(receiver_nodes)
        .unwrap_or(0)
        + target
            .fallback_factory
            .as_deref()
            .map(receiver_nodes)
            .unwrap_or(0)
}

#[test]
fn module_paths_are_directory_aware() {
    assert_eq!(module_path_for("src/math.rs"), "crate::math");
    assert_eq!(module_path_for("src/net/client.rs"), "crate::net::client");
    assert_eq!(module_path_for("app/main.py"), "crate::app::main");
    assert_eq!(module_path_for("lib.rs"), "crate::lib");
}

#[test]
fn receiver_hint_clone_budget_bounds_adversarial_factory_chains() {
    let mut target: CallTargetRef = CallTargetRef {
        callee: "root".into(),
        qualifier: None,
        receiver_type: None,
        receiver_factory: None,
        fallback_type: Some("GraphReplica".into()),
        fallback_factory: None,
    };
    for index in 0..(MAX_RECEIVER_HINT_NODES * 4) {
        target = CallTargetRef {
            callee: format!("factory_{index}"),
            qualifier: Some(format!("receiver_{index}")),
            receiver_type: None,
            receiver_factory: Some(Box::new(target)),
            fallback_type: None,
            fallback_factory: None,
        };
    }

    let cloned = target.bounded_clone();
    assert_eq!(receiver_nodes(&cloned), MAX_RECEIVER_HINT_NODES);

    let hint: ReceiverHint = ReceiverHint::ReturnOf(target);
    let ReceiverHint::ReturnOf(cloned) = hint.bounded_clone() else {
        panic!("factory hint changed variant");
    };
    assert_eq!(receiver_nodes(&cloned), MAX_RECEIVER_HINT_NODES);
}

#[test]
fn macro_call_scan_ignores_literals_comments_and_lifetimes() {
    let token_tree = r####"{
        actual();
        receiver.real();
        let normal = "hidden_normal()";
        let bytes = b"hidden_bytes()";
        let raw = r#"hidden_raw()"#;
        let raw_hashes = r##"hidden_raw_hashes()"##;
        let raw_bytes = br##"hidden_raw_bytes()"##;
        let c_string = c"hidden_c_string()";
        let raw_c_string = cr#"hidden_raw_c_string()"#;
        let character = 'x';
        let escaped = '\n';
        let unicode = '🦀';
        let byte_character = b'y';
        let lifetime: &'static str = "";
        // hidden_line_comment()
        /* hidden_block_comment() /* hidden_nested_comment() */ */
        another(/* hidden_argument_comment() */);
    }"####;

    assert_eq!(
        textual_call_refs(token_tree),
        vec![
            ("actual".to_string(), None),
            ("real".to_string(), Some("receiver".to_string())),
            ("another".to_string(), None),
        ]
    );
}

#[test]
fn reexport_resolution_is_bounded_and_rejects_ambiguity() {
    let mut reexports = StrMap::new();
    reexports.insert("crate::a".into(), vec!["crate::b".to_string()]);
    reexports.insert("crate::b".into(), vec!["crate::a".to_string()]);
    assert!(follow_reexports("crate::a".into(), &reexports).is_none());

    let mut reexports = StrMap::new();
    reexports.insert(
        "crate::ambiguous".into(),
        vec!["crate::left".to_string(), "crate::right".to_string()],
    );
    assert!(follow_reexports("crate::ambiguous".into(), &reexports).is_none());

    let mut reexports = StrMap::new();
    for index in 0..MAX_REEXPORT_DEPTH {
        reexports.insert(
            format!("crate::alias_{index}"),
            vec![format!("crate::alias_{}", index + 1)],
        );
    }
    assert!(follow_reexports("crate::alias_0".into(), &reexports).is_none());
}

#[test]
fn crate_relative_imports_follow_each_source_crate_root() {
    let module = "crate::crates::aether-app::src::app";
    assert_eq!(
        normalize_rust_import_target(
            "crates/aether-app/src/app.rs",
            module,
            "crate::project::join_collaboration",
        )
        .as_deref(),
        Some("crate::crates::aether-app::src::project::join_collaboration")
    );
    assert_eq!(
        normalize_rust_import_target(
            "crates/aether-app/src/project.rs",
            "crate::crates::aether-app::src::project",
            "collaboration_transport::join",
        )
        .as_deref(),
        Some("crate::crates::aether-app::src::project::collaboration_transport::join")
    );
    assert_eq!(rust_module_path_for("src/main.rs"), "crate");
    assert_eq!(
        rust_module_path_for("crates/aether-app/src/project/commands/mod.rs"),
        "crate::crates::aether-app::src::project::commands"
    );
    assert_eq!(
        rust_module_path_for("crates/aether-app/src/project.rs"),
        "crate::crates::aether-app::src::project"
    );
}

#[test]
fn short_reexport_chains_resolve() {
    let mut reexports = StrMap::new();
    reexports.insert("crate::a".into(), vec!["crate::b".to_string()]);
    reexports.insert("crate::b".into(), vec!["crate::c".to_string()]);
    assert_eq!(follow_reexports("crate::a".into(), &reexports).as_deref(), Some("crate::c"));
    assert_eq!(follow_reexports("crate::z".into(), &reexports).as_deref(), Some("crate::z"));
}

#[test]
fn super_imports_stop_at_the_crate_root() {
    assert_eq!(
        normalize_rust_import_target("src/a/b.rs", "crate::a::b", "super::c").as_deref(),
        Some("crate::a::c")
    );
    assert_eq!(
        normalize_rust_import_target("src/a.rs", "crate::a", "super::super::c"),
        None
    );
    assert_eq!(
        normalize_rust_import_target("src/a.rs", "crate::a", "self::x").as_deref(),
        Some("crate::a::x")
    );
    assert_eq!(normalize_rust_import_target("src/a.rs", "crate::a", " :: "), None);
}

#[test]
fn crate_roots_and_binary_targets() {
    assert_eq!(source_crate_root("src/main.rs"), "crate");
    assert_eq!(source_crate_root("crates/app/src/lib.rs"), "crate::crates::app::src");
    assert_eq!(source_crate_root("scripts/run.py"), "crate");
    assert_eq!(conventional_rust_binary_target(Some("src/main.rs")).as_deref(), Some(""));
    assert_eq!(conventional_rust_binary_target(Some("tools\\src\\main.rs")).as_deref(), Some(""));
    assert_eq!(conventional_rust_binary_target(Some("src/bin/cli.rs")).as_deref(), Some("cli"));
    assert_eq!(conventional_rust_binary_target(Some("x/src/bin/srv/main.rs")).as_deref(), Some("srv"));
    assert_eq!(conventional_rust_binary_target(Some("src/bin/srv/other.rs")), None);
    assert_eq!(conventional_rust_binary_target(Some("src/lib.rs")), None);
    assert_eq!(conventional_rust_binary_target(None), None);
}

#[test]
fn segments_and_owners() {
    assert_eq!(module_of("crate::math::add"), "crate::math");
    assert_eq!(module_of("crate"), "crate");
    assert_eq!(last_path_segment("crate::a::b"), "b");
    assert_eq!(last_path_segment("crate::a::"), "a");
    assert_eq!(qualifier_tail("self.catalog."), "catalog");
    assert_eq!(owner_tail("crate::debugger::Interpreter<'a>"), "interpreter");
    assert!(qualifier_matches_owner_exactly("tl", "crate::Timeline") == false);
    assert!(qualifier_matches_owner_exactly("timeline", "crate::Timeline"));
    assert!(qualifier_matches_owner("timeline", "crate::PyTimeline"));
    assert!(!qualifier_matches_owner_exactly("timeline", "crate::PyTimeline"));
    assert!(!qualifier_matches_owner("self", "crate::Self"));
}

#[test]
fn masking_keeps_length_and_line_breaks() {
    let text = "a(\"x\ny\") // c\nb('z')";
    let masked = mask_rust_macro_non_code(text);
    assert_eq!(masked.len(), text.len());
    assert_eq!(String::from_utf8(masked).unwrap(), "a(  \n  )     \nb(   )");
}
