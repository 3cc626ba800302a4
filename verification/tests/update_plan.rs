use aether::sources::{FileChange, FullRebuildReason};
use aether::update_plan::plan_update;

fn names(v: &[String]) -> Vec<&str> {
    v.iter().map(|s| s.as_str()).collect()
}

#[test]
fn clean_files_are_reused_and_the_last_change_wins() {
    let cached: Vec<String> = ["src/a.rs", "src/b.rs", "src/c.rs", "src/d.rs"].iter().map(|s| s.to_string()).collect();
    let changes = vec![
        FileChange::replace("src\\a.rs".to_string(), "fn a() {}".to_string()),
        FileChange::delete("src/b.rs".to_string()),
        FileChange::replace("./src/a.rs".to_string(), "fn a2() {}".to_string()),
    ];
    let plan = plan_update(&cached, &changes, &vec![], false, true).unwrap();
    assert!(plan.reasons.is_empty());
    assert_eq!(names(&plan.reused), vec!["src/c.rs", "src/d.rs"]);
    assert_eq!(names(&plan.parsed), vec!["src/a.rs"]);
    assert_eq!(plan.dirty.get("src/a.rs").unwrap().as_deref(), Some("fn a2() {}"));
    assert_eq!(plan.dirty.get("src/b.rs").unwrap().as_deref(), None);
    assert!(plan.after.get("src/b.rs").is_none());
    assert!(plan.scope.get("src/b.rs").is_some());
    assert_eq!(plan.scope.len(), 4);
}

#[test]
fn an_unsupported_path_refuses_the_whole_batch() {
    let changes = vec![
        FileChange::replace("src/a.rs".to_string(), "".to_string()),
        FileChange::replace("notes.txt".to_string(), "".to_string()),
        FileChange::replace("../x.rs".to_string(), "".to_string()),
    ];
    let e = plan_update(&vec![], &changes, &vec![], false, true).unwrap_err();
    assert_eq!(e.0, "notes.txt");
}

#[test]
fn reasons_force_a_full_parse_in_declaration_order() {
    let cached = vec!["a.py".to_string(), "b.py".to_string(), "c.py".to_string()];
    let changes = vec![FileChange::replace("a.py".to_string(), "x = 1".to_string())];
    let plan = plan_update(&cached, &changes, &vec![FullRebuildReason::OwnershipChanged], true, false).unwrap();
    assert_eq!(
        plan.reasons,
        vec![
            FullRebuildReason::OwnershipChanged,
            FullRebuildReason::ConfigurationChanged,
            FullRebuildReason::CacheInconsistent
        ]
    );
    assert!(plan.reused.is_empty());
    assert_eq!(names(&plan.parsed), vec!["a.py", "b.py", "c.py"]);
}

#[test]
fn a_dirty_set_over_half_rebuilds_everything() {
    let cached = vec!["a.go".to_string()];
    let one = vec![FileChange::replace("b.go".to_string(), "package b".to_string())];
    assert!(plan_update(&cached, &one, &vec![], false, true).unwrap().reasons.is_empty());
    let two = vec![
        FileChange::replace("b.go".to_string(), "package b".to_string()),
        FileChange::replace("c.go".to_string(), "package c".to_string()),
    ];
    let plan = plan_update(&cached, &two, &vec![], false, true).unwrap();
    assert_eq!(plan.reasons, vec![FullRebuildReason::DirtySetExceedsHalf]);
    assert_eq!(names(&plan.parsed), vec!["a.go", "b.go", "c.go"]);
}
