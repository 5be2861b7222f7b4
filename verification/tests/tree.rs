use lint_engine::tree::{NodeKind, Span, SyntaxTree, TreeError};

fn span(line: u32) -> Span {
    Span { start_line: line, start_col: 0, end_line: line, end_col: 1 }
}

#[test]
fn new_tree_holds_only_its_root() {
    let tree = SyntaxTree::new(NodeKind::SourceFile, span(1), "");
    assert_eq!(tree.len(), 1);
    assert_eq!(tree.kind(0), NodeKind::SourceFile);
    assert_eq!(tree.parent(0), None);
    assert_eq!(tree.first_child(0), None);
    assert_eq!(tree.preorder(), vec![0]);
}

#[test]
fn add_child_refuses_an_unknown_parent() {
    let mut tree = SyntaxTree::new(NodeKind::SourceFile, span(1), "");
    assert_eq!(tree.add_child(1, NodeKind::Block, span(2), ""), Err(TreeError::UnknownParent));
    assert_eq!(tree.len(), 1);
}

#[test]
fn preorder_follows_the_document_not_the_table() {
    let mut tree = SyntaxTree::new(NodeKind::SourceFile, span(1), "");
    let a = tree.add_child(0, NodeKind::FunctionItem, span(2), "").unwrap();
    let b = tree.add_child(0, NodeKind::FunctionItem, span(5), "").unwrap();
    let a1 = tree.add_child(a, NodeKind::Block, span(3), "").unwrap();
    let b1 = tree.add_child(b, NodeKind::Block, span(6), "").unwrap();
    let a2 = tree.add_child(a, NodeKind::Identifier, span(4), "x").unwrap();
    assert_eq!((a, b, a1, b1, a2), (1, 2, 3, 4, 5));
    assert_eq!(tree.preorder(), vec![0, a, a1, a2, b, b1]);
    assert_eq!(tree.next_sibling(a1), Some(a2));
    assert_eq!(tree.prev_sibling(a2), Some(a1));
    assert_eq!(tree.last_child(a), Some(a2));
    assert_eq!(tree.text(a2), "x");
}
