use aether::extension::{
    Capability, CapabilityKind, Contribution, ExtensionRecipe, PanelLocation, PanelView, RECIPE_VERSION,
};
use aether::marketplace::{
    MarketplaceCatalog, MarketplaceListing, MarketplaceReview, ReviewDecision, CATALOG_VERSION,
};

fn listing() -> MarketplaceListing {
    let recipe = ExtensionRecipe {
        version: RECIPE_VERSION,
        id: "dev.bitcode.impact-browser".into(),
        name: "Impact Browser".into(),
        description: "Shows semantic impact in a project-aware panel.".into(),
        intent: "show callers affected by a selected symbol".into(),
        capabilities: vec![Capability::ReadGraph, Capability::ContributeUi],
        contributions: vec![Contribution::Panel {
            id: "impact".into(),
            title: "Impact".into(),
            location: PanelLocation::Right,
            view: PanelView::GraphQuery {
                question: "what is impacted by the selected node?".into(),
            },
        }],
        projections: Vec::new(),
    };
    let digest = recipe.digest().unwrap();
    let mut listing = MarketplaceListing {
        id: recipe.id.clone(),
        name: recipe.name.clone(),
        summary: recipe.description.clone(),
        intent: recipe.intent.clone(),
        tags: vec!["impact".into(), "graph".into()],
        reference_recipe: recipe,
        recipe_digest: digest.clone(),
        listing_digest: String::new(),
        reviews: Vec::new(),
    };
    let listing_digest = listing.content_digest();
    listing.listing_digest = listing_digest.clone();
    listing.reviews = vec![MarketplaceReview {
        auditor: "org.bitcode.security".into(),
        decision: ReviewDecision::Approved,
        recipe_digest: digest,
        listing_digest,
        evidence: "Capabilities and graph query were manually reviewed.".into(),
    }];
    listing
}

fn catalog() -> MarketplaceCatalog {
    MarketplaceCatalog {
        version: CATALOG_VERSION,
        id: "org.bitcode.catalog".into(),
        name: "Girder Catalog".into(),
        description: "Reviewed declarative extension intents.".into(),
        listings: vec![listing()],
    }
}

#[test]
fn listing_and_reviews_bind_the_exact_reference_recipe() {
    let mut listing = listing();
    listing.reference_recipe.description.push_str(" changed");

    assert!(listing.validate().unwrap_err().message().contains("digest"));
}

#[test]
fn review_binding_rejects_changed_listing_intent() {
    let mut listing = listing();
    listing.intent = "run an unrelated validation command".into();

    assert!(listing
        .validate()
        .unwrap_err()
        .message()
        .contains("reviewed content"));
}

#[test]
fn duplicate_listing_and_reviewer_ids_are_rejected() {
    let mut catalog = catalog();
    catalog.listings.push(catalog.listings[0].clone());
    assert!(catalog
        .validate()
        .unwrap_err()
        .message()
        .contains("duplicate marketplace listing"));

    let mut listing = listing();
    listing.reviews.push(listing.reviews[0].clone());
    assert!(listing
        .validate()
        .unwrap_err()
        .message()
        .contains("duplicate auditor"));
}

#[test]
fn listing_requires_an_approval_bound_to_current_content() {
    let mut listing = listing();
    listing.reviews[0].decision = ReviewDecision::Rejected;

    assert!(listing
        .validate()
        .unwrap_err()
        .message()
        .contains("no review approving"));
}

#[test]
fn search_is_ranked_and_deterministic() {
    let catalog = catalog();
    assert_eq!(catalog.search("impact graph")[0].id, listing().id);
    assert!(catalog.search("debugger").is_empty());
}

#[test]
fn capability_delta_compares_exact_scopes() {
    let listing = listing();
    let mut adapted = listing.reference_recipe.clone();
    adapted.capabilities.push(Capability::ReadProject {
        paths: vec!["src/**".into()],
    });

    let delta = listing.capability_delta(&adapted).unwrap();
    assert_eq!(delta.added_kinds(), vec![CapabilityKind::ReadProject]);
    assert!(delta.removed.is_empty());
}

#[test]
fn adaptation_cannot_change_the_reviewed_extension_identity() {
    let listing = listing();
    let mut adapted = listing.reference_recipe.clone();
    adapted.id = "dev.bitcode.different-extension".into();

    assert!(listing
        .capability_delta(&adapted)
        .unwrap_err()
        .message()
        .contains("does not match marketplace listing"));
}

#[test]
fn valid_listing_and_catalog_pass() {
    let listing = listing();
    assert!(listing.validate().is_ok());
    assert_eq!(listing.approved_review_count(), 1);
    let catalog = catalog();
    assert!(catalog.validate().is_ok());
    assert_eq!(catalog.digest().unwrap().len(), 64);
    assert_eq!(catalog.digest().unwrap(), catalog.digest().unwrap());
    assert_eq!(listing.digest().unwrap().len(), 64);
    assert!(catalog.listing("dev.bitcode.impact-browser").is_some());
    assert!(catalog.listing("dev.bitcode.other").is_none());
    let unchanged = listing.capability_delta(&listing.reference_recipe.clone()).unwrap();
    assert!(unchanged.is_empty());
}
