use aether::go_paths::{go_module_path, is_go_test, resolve_type_path, unquote};
use aether::strmap::StrMap;
use aether::ts_paths::{import_module_path, resolve_type_target, ts_module_path};

#[test]
fn typescript_module_paths() {
    assert_eq!(ts_module_path("src/app/main.ts"), "crate::app::main");
    assert_eq!(ts_module_path("src\\ui\\App.tsx"), "crate::ui::App");
    assert_eq!(ts_module_path("types/index.d.ts"), "crate::types::index");
    assert_eq!(ts_module_path("src/index.mts"), "crate::index");
    assert_eq!(ts_module_path("src"), "crate");
    assert_eq!(ts_module_path("./lib/./x.js"), "crate::lib::x.js");
}

#[test]
fn typescript_relative_imports() {
    assert_eq!(
        import_module_path("src/app/main.ts", "./util").as_deref(),
        Some("crate::app::util")
    );
    assert_eq!(
        import_module_path("src/app/main.ts", "../lib/math.ts").as_deref(),
        Some("crate::lib::math")
    );
    assert_eq!(import_module_path("src/app/main.ts", "react"), None);
    assert_eq!(import_module_path("main.ts", "../x"), None);
}

#[test]
fn typescript_type_targets() {
    let mut imports = StrMap::new();
    imports.insert("models".to_string(), "crate::models".to_string());
    imports.insert("User".to_string(), "crate::models::User".to_string());
    assert_eq!(
        resolve_type_target("models.Admin<T>", &imports).as_deref(),
        Some("crate::models::Admin")
    );
    assert_eq!(resolve_type_target("User", &imports).as_deref(), Some("crate::models::User"));
    assert_eq!(resolve_type_target("ns.Base", &imports).as_deref(), Some("Base"));
    assert_eq!(resolve_type_target("<T>", &imports), None);
}

#[test]
fn go_module_paths_are_directories() {
    assert_eq!(go_module_path("cmd/server/main.go"), "crate::cmd::server");
    assert_eq!(go_module_path("main.go"), "crate");
    assert_eq!(go_module_path(".\\pkg\\util\\x.go"), "crate::pkg::util");
}

#[test]
fn go_type_paths() {
    let mut imports: StrMap<Vec<String>> = StrMap::new();
    imports.insert("http".to_string(), vec!["net/http".to_string()]);
    imports.insert("dup".to_string(), vec!["a".to_string(), "b".to_string()]);
    assert_eq!(
        resolve_type_path(" * *http.Client", "crate::svc", &imports).as_deref(),
        Some("go-type:net/http::Client")
    );
    assert_eq!(
        resolve_type_path("Server", "crate::svc", &imports).as_deref(),
        Some("crate::svc::Server")
    );
    assert_eq!(resolve_type_path("dup.T", "crate::svc", &imports), None);
    assert_eq!(resolve_type_path("other.T", "crate::svc", &imports), None);
    assert_eq!(resolve_type_path("[]int", "crate::svc", &imports), None);
    assert_eq!(resolve_type_path("map[string]int", "crate::svc", &imports), None);
    assert_eq!(resolve_type_path("List[T]", "crate::svc", &imports), None);
    assert_eq!(resolve_type_path("a-b", "crate::svc", &imports), None);
    assert_eq!(resolve_type_path("", "crate::svc", &imports), None);
}

#[test]
fn go_tests_follow_naming() {
    assert!(is_go_test("pkg/x_test.go", "TestRun"));
    assert!(is_go_test("pkg\\x_test.go", "BenchmarkX"));
    assert!(is_go_test("x_test.go", "Example_sum"));
    assert!(!is_go_test("x_test.go", "Testrun"));
    assert!(!is_go_test("x_test.go", "Test"));
    assert!(!is_go_test("x.go", "TestRun"));
}

#[test]
fn go_string_literals_unquote() {
    assert_eq!(unquote("\"fmt\""), "fmt");
    assert_eq!(unquote("`raw`"), "raw");
    assert_eq!(unquote("\"x`"), "\"x`");
    assert_eq!(unquote("\""), "\"");
}
