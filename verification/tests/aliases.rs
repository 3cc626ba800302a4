use aether::aliases::{
    resolve_local_call_alias, resolve_qualified_reexport, rust_binary_target, AliasResolution,
    RustImportRef,
};
use aether::strmap::StrMap;

fn import(local: &str, target: &str) -> RustImportRef {
    RustImportRef { local: local.to_string(), target: target.to_string(), is_reexport: false }
}

fn reexports() -> StrMap<Vec<String>> {
    let mut m = StrMap::new();
    m.insert("crate::api::run".to_string(), vec!["crate::engine::run".to_string()]);
    m.insert("crate::api::both".to_string(), vec!["crate::a::both".to_string(), "crate::b::both".to_string()]);
    m
}

fn resolved(r: AliasResolution) -> Option<String> {
    match r {
        AliasResolution::Resolved(p) => Some(p),
        _ => None,
    }
}

#[test]
fn plain_imports_are_not_aliases() {
    let imports = vec![import("helper", "crate::util::helper")];
    let r = resolve_local_call_alias("src/main.rs", &imports, "helper", &reexports());
    assert!(matches!(r, AliasResolution::NotAliased));
    let r = resolve_local_call_alias("src/main.rs", &imports, "other", &reexports());
    assert!(matches!(r, AliasResolution::NotAliased));
}

#[test]
fn renamed_and_reexported_imports_resolve() {
    let imports = vec![import("go", "crate::util::helper")];
    let r = resolve_local_call_alias("src/main.rs", &imports, "go", &reexports());
    assert_eq!(resolved(r).as_deref(), Some("crate::util::helper"));
    let imports = vec![import("run", "crate::api::run")];
    let r = resolve_local_call_alias("src/main.rs", &imports, "run", &reexports());
    assert_eq!(resolved(r).as_deref(), Some("crate::engine::run"));
}

#[test]
fn disagreeing_imports_are_ambiguous() {
    let imports = vec![import("f", "crate::a::f"), import("f", "crate::b::f")];
    let r = resolve_local_call_alias("src/main.rs", &imports, "f", &reexports());
    assert!(matches!(r, AliasResolution::Ambiguous));
    let imports = vec![import("f", "crate::a::f"), import("f", "crate::a::f")];
    let r = resolve_local_call_alias("src/main.rs", &imports, "f", &reexports());
    assert!(matches!(r, AliasResolution::NotAliased));
}

#[test]
fn qualified_calls_follow_reexports() {
    let r = resolve_qualified_reexport("src/main.rs", "crate::api", "run", &reexports());
    assert_eq!(resolved(r).as_deref(), Some("crate::engine::run"));
    let r = resolve_qualified_reexport("src/main.rs", "crate::api", "both", &reexports());
    assert!(matches!(r, AliasResolution::Ambiguous));
    let r = resolve_qualified_reexport("src/main.rs", "crate::api", "other", &reexports());
    assert!(matches!(r, AliasResolution::NotAliased));
    let r = resolve_qualified_reexport("src/main.rs", "self.api", "run", &reexports());
    assert!(matches!(r, AliasResolution::NotAliased));
}

#[test]
fn binary_targets_prefer_the_manifest() {
    let mut bins = StrMap::new();
    bins.insert("tools/gen.rs".to_string(), "gen".to_string());
    assert_eq!(rust_binary_target(Some("tools\\gen.rs"), &bins).as_deref(), Some("gen"));
    assert_eq!(rust_binary_target(Some("src/bin/cli.rs"), &bins).as_deref(), Some("cli"));
    assert_eq!(rust_binary_target(Some("src/lib.rs"), &bins), None);
    assert_eq!(rust_binary_target(None, &bins), None);
}
