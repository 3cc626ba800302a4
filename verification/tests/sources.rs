use aether::sources::{normalize_source_path, FileChange, FullRebuildReason, Lang, UpdateError};

#[test]
fn languages_follow_extensions() {
    assert_eq!(Lang::from_path("src/lib.rs"), Some(Lang::Rust));
    assert_eq!(Lang::from_path("pkg/mod.py"), Some(Lang::Python));
    assert_eq!(Lang::from_path("a.ts"), Some(Lang::TypeScript));
    assert_eq!(Lang::from_path("a.mts"), Some(Lang::TypeScript));
    assert_eq!(Lang::from_path("a.cts"), Some(Lang::TypeScript));
    assert_eq!(Lang::from_path("ui/App.tsx"), Some(Lang::Tsx));
    assert_eq!(Lang::from_path("main.go"), Some(Lang::Go));
    assert_eq!(Lang::from_path("README.md"), None);
    assert_eq!(Lang::from_path("rs"), None);
    assert_eq!(Lang::from_path("Makefile"), None);
    assert_eq!(Lang::from_path("archive.rs.bak"), None);
}

#[test]
fn language_names_and_dialects() {
    assert_eq!(Lang::Tsx.name(), "typescript");
    assert_eq!(Lang::Go.name(), "go");
    assert!(Lang::Tsx.is_typescript() && Lang::TypeScript.is_typescript());
    assert!(!Lang::Rust.is_typescript());
}

#[test]
fn file_changes_carry_sources() {
    let c = FileChange::replace("src/a.rs".to_string(), "fn a() {}".to_string());
    assert_eq!(c.path, "src/a.rs");
    assert_eq!(c.source.as_deref(), Some("fn a() {}"));
    let d = FileChange::delete("src/a.rs".to_string());
    assert!(d.source.is_none());
}

#[test]
fn rebuild_reasons_have_stable_names() {
    assert_eq!(FullRebuildReason::OwnershipChanged.as_str(), "ownership_changed");
    assert_eq!(FullRebuildReason::DirtySetExceedsHalf.as_str(), "dirty_set_exceeds_half");
    assert_eq!(FullRebuildReason::CacheInconsistent.as_str(), "cache_inconsistent");
}

#[test]
fn source_paths_are_normalized() {
    assert_eq!(normalize_source_path("src\\lib.rs").unwrap(), "src/lib.rs");
    assert_eq!(normalize_source_path("./src//./main.rs").unwrap(), "src/main.rs");
    assert_eq!(normalize_source_path("src/main.rs").unwrap(), "src/main.rs");
}

#[test]
fn unsupported_source_paths_are_refused() {
    for bad in ["/abs/lib.rs", "C:\\x\\lib.rs", "src/../lib.rs", "src/notes.txt", "./", "a\0.rs"] {
        let err = normalize_source_path(bad).unwrap_err();
        assert_eq!(err.0, bad);
    }
}

#[test]
fn update_error_quotes_the_path() {
    let e = UpdateError("bad\"path".to_string());
    assert_eq!(
        e.message(),
        "expected a supported project-relative source path, got \"bad\\\"path\""
    );
}

#[test]
fn normalizing_twice_changes_nothing() {
    let once = normalize_source_path(".\\pkg\\\\mod.py").unwrap();
    assert_eq!(normalize_source_path(&once).unwrap(), once);
}
