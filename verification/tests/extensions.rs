use aether::digest::content_digest;
use aether::extension::{
    recipe_canonical_json, Capability, CapabilityKind, CommandAction, Contribution, ExtensionRecipe,
    PanelLocation, PanelView, ProjectProjection, ProjectionMode, RECIPE_VERSION,
};
use aether::fields::{strip_json_fence, validate_relative_path, ExtensionError};
use aether::grant::{extension_path, state_label, ExtensionGrant, ExtensionRecord, ExtensionState, ProjectionReceipt};

fn recipe() -> ExtensionRecipe {
    ExtensionRecipe {
        version: RECIPE_VERSION,
        id: "dev.bitcode.impact-view".into(),
        name: "Impact View".into(),
        description: "Shows semantic impact and writes a bounded report.".into(),
        intent: "add an impact panel".into(),
        capabilities: vec![
            Capability::ReadGraph,
            Capability::ContributeUi,
            Capability::WriteProject {
                paths: vec!["generated/**".into()],
            },
        ],
        contributions: vec![Contribution::Panel {
            id: "impact".into(),
            title: "Impact".into(),
            location: PanelLocation::Right,
            view: PanelView::GraphQuery {
                question: "what is impacted by the selected node?".into(),
            },
        }],
        projections: vec![ProjectProjection {
            path: "generated/impact.md".into(),
            contents: "# Impact\n".into(),
            mode: ProjectionMode::Create,
        }],
    }
}

fn projection_receipts(recipe: &ExtensionRecipe) -> Vec<ProjectionReceipt> {
    recipe
        .projections
        .iter()
        .map(|projection| ProjectionReceipt {
            path: projection.path.clone(),
            previous: None,
            applied_digest: content_digest(projection.contents.as_bytes()),
        })
        .collect()
}

fn error_text(result: Result<(), ExtensionError>) -> String {
    result.unwrap_err().message()
}

#[test]
fn project_traversal_is_rejected() {
    let mut recipe = recipe();
    recipe.projections[0].path = "../outside.md".into();

    assert!(error_text(recipe.validate()).contains("project-relative"));
}

#[test]
fn project_metadata_paths_are_rejected() {
    for path in [
        ".git/hooks/pre-commit",
        ".girder/transactions/state",
        "girder.toml",
        ".bitcode/transactions/state",
        "bitcode.toml",
        "project.aether",
    ] {
        let mut recipe = recipe();
        recipe.capabilities = vec![Capability::WriteProject {
            paths: vec![path.into()],
        }];
        recipe.contributions.clear();
        recipe.projections[0].path = path.into();

        assert!(
            error_text(recipe.validate()).contains("metadata"),
            "{path} should be reserved"
        );
    }
}

#[test]
fn contribution_requires_its_capability() {
    let mut recipe = recipe();
    recipe
        .capabilities
        .retain(|capability| capability.kind() != CapabilityKind::ReadGraph);

    assert!(error_text(recipe.validate()).contains("ReadGraph"));
}

#[test]
fn validation_command_must_use_an_approved_program() {
    let mut recipe = recipe();
    recipe.capabilities.push(Capability::RunValidation {
        programs: vec!["cargo".into()],
    });
    recipe.contributions.push(Contribution::Command {
        id: "check".into(),
        title: "Check".into(),
        action: CommandAction::RunValidation {
            argv: vec!["sh".into(), "-c".into(), "touch /tmp/escape".into()],
        },
    });

    assert!(error_text(recipe.validate()).contains("outside the requested"));
}

#[test]
fn capability_scope_entries_must_be_unique() {
    let mut recipe = recipe();
    recipe.capabilities.push(Capability::ReadProject {
        paths: vec!["src/**".into(), "src/**".into()],
    });

    assert!(error_text(recipe.validate()).contains("duplicate entry"));
}

#[test]
fn grant_is_bound_to_the_exact_recipe() {
    let recipe = recipe();
    let grant = ExtensionGrant::approve(&recipe).unwrap();
    let mut changed = recipe.clone();
    changed.description.push_str(" changed");

    assert!(grant.authorize(&recipe).is_ok());
    assert!(error_text(grant.authorize(&changed)).contains("digest"));
}

#[test]
fn valid_recipe_passes_and_digest_is_hex() {
    let recipe = recipe();
    assert!(recipe.validate().is_ok());
    let digest = recipe.digest().unwrap();
    assert_eq!(digest.len(), 64);
    assert!(digest.bytes().all(|b| b.is_ascii_digit() || (b'a'..=b'f').contains(&b)));
    assert_eq!(digest, recipe.digest().unwrap());
    assert_eq!(
        digest,
        content_digest(recipe_canonical_json(&recipe).as_bytes())
    );
}

#[test]
fn canonical_json_lists_fields_in_declaration_order() {
    let recipe = recipe();
    assert_eq!(
        recipe_canonical_json(&recipe),
        "{\"version\":1,\"id\":\"dev.bitcode.impact-view\",\"name\":\"Impact View\",\
\"description\":\"Shows semantic impact and writes a bounded report.\",\
\"intent\":\"add an impact panel\",\
\"capabilities\":[{\"kind\":\"read_graph\"},{\"kind\":\"contribute_ui\"},\
{\"kind\":\"write_project\",\"paths\":[\"generated/**\"]}],\
\"contributions\":[{\"kind\":\"panel\",\"id\":\"impact\",\"title\":\"Impact\",\"location\":\"right\",\
\"view\":{\"kind\":\"graph_query\",\"question\":\"what is impacted by the selected node?\"}}],\
\"projections\":[{\"path\":\"generated/impact.md\",\"contents\":\"# Impact\\n\",\"mode\":\"create\"}]}"
    );
}

#[test]
fn content_digest_of_known_input() {
    assert_eq!(
        content_digest(b"abc"),
        "ba7816bf8f01cfea414140de5dae2223b00361a396177a9cb410ff61f20015ad"
    );
    assert_eq!(
        content_digest(b""),
        "e3b0c44298fc1c149afbf4c8996fb92427ae41e4649b934ca495991b7852b855"
    );
}

#[test]
fn grant_lists_sorted_distinct_kinds() {
    let mut recipe = recipe();
    recipe.capabilities = vec![
        Capability::WriteProject {
            paths: vec!["generated/**".into()],
        },
        Capability::ContributeUi,
        Capability::ReadGraph,
    ];
    let grant = ExtensionGrant::approve(&recipe).unwrap();
    assert_eq!(
        grant.capabilities,
        vec![
            CapabilityKind::ReadGraph,
            CapabilityKind::WriteProject,
            CapabilityKind::ContributeUi
        ]
    );
    assert_eq!(grant.extension_id, recipe.id);
}

#[test]
fn grant_with_other_kinds_is_refused() {
    let recipe = recipe();
    let mut grant = ExtensionGrant::approve(&recipe).unwrap();
    grant.capabilities.push(CapabilityKind::Network);
    assert!(error_text(grant.authorize(&recipe)).contains("exactly match"));

    let mut grant = ExtensionGrant::approve(&recipe).unwrap();
    grant.capabilities.push(CapabilityKind::ReadGraph);
    assert!(error_text(grant.authorize(&recipe)).contains("duplicate capabilities"));

    let mut grant = ExtensionGrant::approve(&recipe).unwrap();
    grant.extension_id = "dev.other.thing".into();
    assert_eq!(
        error_text(grant.authorize(&recipe)),
        "extension authorization failed: grant belongs to dev.other.thing, not dev.bitcode.impact-view"
    );
}

#[test]
fn duplicate_capability_kind_is_refused() {
    let mut recipe = recipe();
    recipe.capabilities.push(Capability::ReadGraph);
    assert_eq!(
        error_text(recipe.validate()),
        "invalid extension recipe: capability ReadGraph is declared more than once"
    );
}

#[test]
fn text_and_id_rules_report_exact_messages() {
    let mut recipe = recipe();
    recipe.version = 2;
    assert_eq!(
        error_text(recipe.validate()),
        "invalid extension recipe: unsupported recipe version 2; expected 1"
    );

    let mut recipe = self::recipe();
    recipe.id = "single".into();
    assert!(error_text(recipe.validate()).contains("reverse-domain"));

    let mut recipe = self::recipe();
    recipe.id = "dev.Bad".into();
    assert!(error_text(recipe.validate()).contains("lowercase letters"));

    let mut recipe = self::recipe();
    recipe.name = String::new();
    assert_eq!(
        error_text(recipe.validate()),
        "invalid extension recipe: name must contain 1 to 80 bytes"
    );

    let mut recipe = self::recipe();
    recipe.intent = "bell\u{7}".into();
    assert!(error_text(recipe.validate()).contains("control characters"));
}

#[test]
fn relative_path_rules() {
    assert!(validate_relative_path("p", "a/b.md").is_ok());
    assert!(validate_relative_path("p", "a/./b.md").is_ok());
    assert!(error_text(validate_relative_path("p", "./a.md")).contains("current-directory"));
    assert!(error_text(validate_relative_path("p", "/abs.md")).contains("project-relative"));
    assert!(error_text(validate_relative_path("p", "a//b")).contains("project-relative"));
    assert!(error_text(validate_relative_path("p", "a/b/")).contains("project-relative"));
    assert!(error_text(validate_relative_path("p", "a\\b")).contains("project-relative"));
    assert!(validate_relative_path("p", "x/.aether").is_ok());
    assert!(error_text(validate_relative_path("p", "x/y.aetherb")).contains("metadata"));
}

#[test]
fn projection_outside_write_scope_is_refused() {
    let mut recipe = recipe();
    recipe.projections[0].path = "docs/impact.md".into();
    assert!(error_text(recipe.validate()).contains("outside the requested write_project paths"));
}

#[test]
fn records_check_their_receipts() {
    let recipe = recipe();
    let grant = ExtensionGrant::approve(&recipe).unwrap();
    let mut record = ExtensionRecord::new(recipe.clone(), grant).unwrap();
    assert_eq!(record.state, ExtensionState::Enabled);
    assert!(error_text(record.validate()).contains("projection receipts do not match"));
    record.projection_receipts = projection_receipts(&recipe);
    assert!(record.validate().is_ok());
    record.projection_receipts[0].applied_digest = "0".repeat(64);
    assert!(error_text(record.validate()).contains("digest does not match"));

    let mut recipe = recipe;
    recipe.projections = (0..5)
        .map(|index| ProjectProjection {
            path: format!("generated/{index}.md"),
            contents: "new".into(),
            mode: ProjectionMode::Replace,
        })
        .collect();
    let grant = ExtensionGrant::approve(&recipe).unwrap();
    let mut record = ExtensionRecord::new(recipe.clone(), grant).unwrap();
    record.projection_receipts = recipe
        .projections
        .iter()
        .map(|projection| ProjectionReceipt {
            path: projection.path.clone(),
            previous: Some("x".repeat(1048576)),
            applied_digest: content_digest(projection.contents.as_bytes()),
        })
        .collect();
    assert!(error_text(record.validate()).contains("baselines exceed"));
}

#[test]
fn fences_and_labels() {
    assert_eq!(strip_json_fence("  {\"a\":1} \n").unwrap(), "{\"a\":1}");
    assert_eq!(strip_json_fence("```json\n{}\n```").unwrap(), "{}");
    assert!(strip_json_fence("```yaml\n{}\n```").unwrap_err().message().contains("fenced JSON"));
    assert!(strip_json_fence("```json\n{}").unwrap_err().message().contains("unterminated"));
    assert_eq!(extension_path("dev.a.b"), "extension::dev.a.b");
    assert_eq!(state_label(ExtensionState::Disabled), "disabled");
}

#[test]
fn oversized_recipe_text_is_refused_before_parsing() {
    let big = " ".repeat(aether::fields::MAX_RECIPE_BYTES + 1);
    let err = aether::fields::recipe_json_body(&big).unwrap_err();
    assert_eq!(err.message(), "invalid extension recipe: recipe exceeds 262144 bytes");
    assert_eq!(aether::fields::recipe_json_body(" ```json\n{}\n``` ").unwrap(), "{}");
    assert_eq!(aether::fields::recipe_json_body("  {\"a\":1} ").unwrap(), "{\"a\":1}");
}

#[test]
fn oversized_catalog_text_is_refused() {
    let big = " ".repeat(aether::marketplace::MAX_CATALOG_BYTES + 1);
    let err = aether::marketplace::check_catalog_size(&big).unwrap_err();
    assert!(err.message().contains("exceeds"));
    assert!(aether::marketplace::check_catalog_size("{}").is_ok());
}
