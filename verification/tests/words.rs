use aether::method_rules::bare_head;
use aether::sources::Lang;
use aether::words::{
    collapse_whitespace, contains_bang_macro_invocation, contains_word, direct_qualifier_binding,
    has_type_token, is_cfg_attr_text, is_function_kind, is_safe_to_trust_macro_arguments,
    is_type_kind, last_ident, python_qualified_type_name, qualifier_binding,
    return_type_matches_owner, string_rebound, use_declaration_names,
};

#[test]
fn words_are_whole_identifier_tokens() {
    assert!(contains_word("let x = 1", "let"));
    assert!(!contains_word("letter = 1", "let"));
    assert!(contains_word("a+fn_b fn(c)", "fn"));
    assert!(has_type_token("Result<Vec<Node>, Error>", "Node"));
    assert!(!has_type_token("Result<Nodes>", "Node"));
}

#[test]
fn return_types_name_their_owner() {
    assert!(return_type_matches_owner("Result<Graph, Error>", "crate::graph::Graph"));
    assert!(return_type_matches_owner("Self", "crate::a::Self"));
    assert!(!return_type_matches_owner("Option<Id>", "crate::id::Id"));
    assert!(!return_type_matches_owner("Vec<u8>", "crate::graph::Graph"));
}

#[test]
fn use_lists_name_every_word() {
    let names = use_declaration_names("pub use crate::{assert_eq as check, other};");
    assert_eq!(names, vec!["crate", "assert_eq", "check", "other"]);
}

#[test]
fn nested_macro_invocations_are_detected() {
    assert!(contains_bang_macro_invocation("a == vec![1]"));
    assert!(!contains_bang_macro_invocation("a != b"));
    assert!(contains_bang_macro_invocation("9x!(y)"));
    assert!(!contains_bang_macro_invocation("12!"));
    assert!(!contains_bang_macro_invocation("(x)!"));
}

#[test]
fn macro_arguments_to_trust() {
    assert!(is_safe_to_trust_macro_arguments("add(1, 2) == 3"));
    assert!(!is_safe_to_trust_macro_arguments("{ let x = 1; x }"));
    assert!(!is_safe_to_trust_macro_arguments("|x| x"));
    assert!(!is_safe_to_trust_macro_arguments("let_me == fn_x || let == 1"));
    assert!(!is_safe_to_trust_macro_arguments("format!(\"{}\", 1)"));
    assert!(is_safe_to_trust_macro_arguments("a != b"));
}

#[test]
fn whitespace_collapses_to_single_spaces() {
    assert_eq!(collapse_whitespace("  T:\n Clone  +\tSend "), "T: Clone + Send");
    assert_eq!(collapse_whitespace("   "), "");
}

#[test]
fn cfg_attribute_texts() {
    assert!(is_cfg_attr_text("#[cfg(test)]"));
    assert!(is_cfg_attr_text(" #![cfg_attr(feature = \"x\", allow(dead_code))]"));
    assert!(is_cfg_attr_text("cfg"));
    assert!(!is_cfg_attr_text("#[ cfg ]"));
    assert!(!is_cfg_attr_text("#[derive(Debug)]"));
    assert!(!is_cfg_attr_text("#[cfgx]"));
}

#[test]
fn bare_heads_of_annotations() {
    assert_eq!(bare_head(" Graph<u8> ").as_deref(), Some("Graph"));
    assert_eq!(bare_head("&Graph").as_deref(), Some("&Graph"));
    assert_eq!(bare_head("a::B"), None);
    assert_eq!(bare_head("<T>"), None);
}

#[test]
fn qualifiers_bind_their_last_piece() {
    assert_eq!(last_ident("crate::a::b ::  c "), "c");
    assert_eq!(qualifier_binding("self.client"), "client");
    assert_eq!(qualifier_binding("a::b:: "), "");
    assert_eq!(qualifier_binding("a::b::"), "b");
    assert_eq!(qualifier_binding(" .. "), "");
    assert_eq!(direct_qualifier_binding("  client_1 ").as_deref(), Some("client_1"));
    assert_eq!(direct_qualifier_binding("self.client"), None);
    assert_eq!(direct_qualifier_binding("   "), None);
}

#[test]
fn string_literals_rebind_names() {
    let literals = vec!["pkg.mod.helper".to_string(), "other".to_string()];
    assert!(string_rebound("helper", &literals));
    assert!(string_rebound("other", &literals));
    assert!(!string_rebound("elper", &literals));
}

#[test]
fn dotted_python_annotations() {
    assert_eq!(python_qualified_type_name("models.User").as_deref(), Some("User"));
    assert_eq!(python_qualified_type_name("User").as_deref(), Some("User"));
    assert_eq!(python_qualified_type_name("models..User"), None);
    assert_eq!(python_qualified_type_name("list[int]"), None);
}

#[test]
fn definition_kinds_per_language() {
    assert!(is_function_kind(Lang::Rust, "function_item"));
    assert!(is_function_kind(Lang::Python, "function_definition"));
    assert!(!is_function_kind(Lang::Rust, "function_definition"));
    assert!(is_type_kind(Lang::Rust, "trait_item"));
    assert!(is_type_kind(Lang::Python, "class_definition"));
    assert!(!is_type_kind(Lang::Python, "struct_item"));
}
