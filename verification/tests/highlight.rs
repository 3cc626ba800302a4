use aether::highlight::{classify, spans_of_leaves, HlKind, HlSpan, LeafToken};
use aether::sources::Lang;
use aether::syntax::{spans, IncrementalParser};

#[test]
fn tokens_are_classified_by_kind() {
    assert_eq!(classify("line_comment", None, true), Some(HlKind::Comment));
    assert_eq!(classify("string_content", None, true), Some(HlKind::Str));
    assert_eq!(classify("char_literal", None, true), Some(HlKind::Str));
    assert_eq!(classify("integer_literal", None, true), Some(HlKind::Number));
    assert_eq!(classify("float_literal", None, true), Some(HlKind::Number));
    assert_eq!(classify("number", None, true), Some(HlKind::Number));
    assert_eq!(classify("primitive_type", None, true), Some(HlKind::Type));
    assert_eq!(classify("identifier", Some("call_expression"), true), Some(HlKind::Function));
    assert_eq!(classify("identifier", Some("let_declaration"), true), Some(HlKind::Ident));
    assert_eq!(classify("identifier", None, true), Some(HlKind::Ident));
    assert_eq!(classify("fn", None, false), Some(HlKind::Keyword));
    assert_eq!(classify("::", None, false), Some(HlKind::Punct));
    assert_eq!(classify("", None, false), Some(HlKind::Punct));
    assert_eq!(classify("field_identifier", None, true), None);
}

fn leaf(kind: &str, start: usize) -> LeafToken {
    LeafToken { kind: kind.to_string(), parent_kind: None, is_named: false, start, end: start + 1 }
}

#[test]
fn spans_are_stably_sorted_by_start() {
    let leaves = vec![leaf("b", 5), leaf("(", 2), leaf("a", 2), leaf("x", 0)];
    let s = spans_of_leaves(&leaves);
    assert_eq!(
        s,
        vec![
            HlSpan { start: 0, end: 1, kind: HlKind::Keyword },
            HlSpan { start: 2, end: 3, kind: HlKind::Punct },
            HlSpan { start: 2, end: 3, kind: HlKind::Keyword },
            HlSpan { start: 5, end: 6, kind: HlKind::Keyword },
        ]
    );
}

#[test]
fn rust_source_is_highlighted() {
    let s = spans("fn main() { let x = 1; }", Lang::Rust);
    assert_eq!(s.first(), Some(&HlSpan { start: 0, end: 2, kind: HlKind::Keyword }));
    assert!(s.contains(&HlSpan { start: 3, end: 7, kind: HlKind::Function }));
    assert!(s.contains(&HlSpan { start: 20, end: 21, kind: HlKind::Number }));
    assert!(s.windows(2).all(|w| w[0].start <= w[1].start));
}

#[test]
fn python_source_is_highlighted() {
    let s = spans("# hi\nprint(1)\n", Lang::Python);
    assert_eq!(s.first(), Some(&HlSpan { start: 0, end: 4, kind: HlKind::Comment }));
    assert!(s.contains(&HlSpan { start: 5, end: 10, kind: HlKind::Function }));
}

#[test]
fn parser_keeps_its_tree_for_reparsing() {
    let mut p = IncrementalParser::new(Lang::Go);
    assert!(p.parse("package main\n").is_some());
    assert!(p.reparse("package main\nfunc f() {}\n").is_some());
    assert_eq!(p.lang, Lang::Go);
}

fn texts_are_pieces(n: &aether::tree::SyntaxNode, source: &str) -> bool {
    source.contains(n.text.as_str()) && n.children.iter().all(|c| texts_are_pieces(c, source))
}

#[test]
fn syntax_tree_root_fills_no_field_and_texts_are_pieces_of_source() {
    let source = "fn main() { let x = 1; }\n";
    let root = aether::syntax::syntax_tree(source, Lang::Rust).unwrap();
    assert!(root.field.is_none());
    assert_eq!(root.kind, "source_file");
    assert!(texts_are_pieces(&root, source));
}

#[test]
fn spans_are_ordered_well_formed_and_never_plain() {
    let source = "fn main() {\n    // note\n    let s = \"hi\";\n    call(s, 42);\n}\n";
    let s = spans(source, Lang::Rust);
    assert!(!s.is_empty());
    for w in s.windows(2) {
        assert!(w[0].start <= w[1].start);
    }
    for x in &s {
        assert!(x.start <= x.end && x.end <= source.len());
        assert!(x.kind != HlKind::Plain);
    }
}
