use aether::edits::{byte_to_point, whole_buffer_edit_range, TextPoint};
use aether::sources::Lang;
use aether::syntax::{syntax_tree, whole_buffer_edit, IncrementalParser};

#[test]
fn points_count_rows_and_byte_columns() {
    assert_eq!(byte_to_point("ab\ncd", 4), TextPoint { row: 1, column: 1 });
    assert_eq!(byte_to_point("ab\ncd", 0), TextPoint { row: 0, column: 0 });
    assert_eq!(byte_to_point("é\nx", 2), TextPoint { row: 0, column: 2 });
    assert_eq!(byte_to_point("ab", 99), TextPoint { row: 0, column: 2 });
}

#[test]
fn whole_buffer_edits_start_at_the_first_difference() {
    let e = whole_buffer_edit_range("fn a() {}\nfn b() {}\n", "fn a() {}\nfn c() {}\n");
    assert_eq!(e.start_byte, 13);
    assert_eq!(e.old_end_byte, 20);
    assert_eq!(e.new_end_byte, 20);
    assert_eq!(e.start_position, TextPoint { row: 1, column: 3 });
    assert_eq!(e.old_end_position, TextPoint { row: 2, column: 0 });
    // A change inside a multi-byte character backs off to its start.
    let e = whole_buffer_edit_range("é", "è");
    assert_eq!(e.start_byte, 0);
    assert_eq!(e.old_end_byte, 2);
}

#[test]
fn an_edited_tree_reparses() {
    let old = "fn a() {}\n";
    let new = "fn a() {}\nfn b() {}\n";
    let mut parser = IncrementalParser::new(Lang::Rust);
    assert!(parser.parse(old).is_some());
    parser.apply_edit(&whole_buffer_edit(old, new));
    let tree = parser.reparse(new).unwrap();
    assert_eq!(tree.root_node().named_child_count(), 2);
    let root = syntax_tree(new, Lang::Rust).unwrap();
    assert_eq!(root.children.len(), 2);
}
