use lint_engine::adjacency::has_adjacent_justification;
use lint_engine::catalog::RuleCatalog;
use lint_engine::engine::{analyze, judge};
use lint_engine::rule::{Matcher, Rule, Severity};
use lint_engine::shape::Outcome;
use lint_engine::tree::{NodeKind, Span, SyntaxTree};
use lint_engine::tree::NodeKind::{
    Block, BlockComment, CallExpression, ExpressionStatement, FunctionItem, Identifier,
    LetDeclaration, LineComment, Other, Parameters, UnsafeBlock, Whitespace,
};

struct N {
    kind: NodeKind,
    text: &'static str,
    kids: Vec<N>,
}

fn n(kind: NodeKind, kids: Vec<N>) -> N {
    N { kind, text: "", kids }
}

fn t(kind: NodeKind, text: &'static str) -> N {
    N { kind, text, kids: Vec::new() }
}

fn grow(tree: &mut SyntaxTree, parent: usize, node: &N) {
    let at = tree.len() as u32;
    let span = Span { start_line: at, start_col: 0, end_line: at, end_col: 1 };
    let id = tree.add_child(parent, node.kind, span, node.text).unwrap();
    for kid in &node.kids {
        grow(tree, id, kid);
    }
}

fn build(items: Vec<N>) -> SyntaxTree {
    let mut tree = SyntaxTree::new(
        NodeKind::SourceFile,
        Span { start_line: 0, start_col: 0, end_line: 0, end_col: 0 },
        "",
    );
    for item in &items {
        grow(&mut tree, 0, item);
    }
    tree
}

fn body(statements: Vec<N>) -> SyntaxTree {
    build(vec![n(FunctionItem, vec![t(Identifier, "f"), n(Parameters, vec![]), n(Block, statements)])])
}

fn unsafe_statement() -> N {
    n(ExpressionStatement, vec![n(UnsafeBlock, vec![n(Block, vec![t(Other, "work")])])])
}

fn the_unsafe_block(tree: &SyntaxTree) -> usize {
    (0..tree.len()).find(|&i| tree.kind(i) == UnsafeBlock).unwrap()
}

fn justified(tree: &SyntaxTree) -> bool {
    has_adjacent_justification(tree, the_unsafe_block(tree), &"SAFETY:".to_string())
}

#[test]
fn comment_directly_above_justifies() {
    assert!(justified(&body(vec![t(LineComment, "// SAFETY: checked above"), unsafe_statement()])));
    assert!(justified(&body(vec![t(BlockComment, "/* SAFETY: checked above */"), unsafe_statement()])));
}

#[test]
fn any_comment_of_the_run_may_carry_the_marker() {
    assert!(justified(&body(vec![
        t(LineComment, "// SAFETY: the pointer is valid"),
        t(LineComment, "// and aligned."),
        unsafe_statement(),
    ])));
    assert!(justified(&body(vec![
        t(LineComment, "// Read the first element."),
        t(LineComment, "// SAFETY: the slice is not empty"),
        unsafe_statement(),
    ])));
}

#[test]
fn blank_lines_do_not_break_the_run() {
    assert!(justified(&body(vec![
        t(LineComment, "// SAFETY: the pointer is valid"),
        t(Whitespace, "\n\n"),
        t(LineComment, "// second thought"),
        t(Whitespace, "\n"),
        unsafe_statement(),
    ])));
}

#[test]
fn no_comment_or_another_comment_does_not_justify() {
    assert!(!justified(&body(vec![unsafe_statement()])));
    assert!(!justified(&body(vec![t(LineComment, "// This comment is not a SAFETY comment"), unsafe_statement()])));
    assert!(!justified(&body(vec![t(LineComment, "// safety: lower case"), unsafe_statement()])));
    assert!(!justified(&body(vec![t(Whitespace, "\n"), unsafe_statement()])));
}

#[test]
fn code_between_comment_and_construct_breaks_the_run() {
    assert!(!justified(&body(vec![
        t(LineComment, "// SAFETY: for something else"),
        n(LetDeclaration, vec![t(Identifier, "x"), t(Other, "1")]),
        unsafe_statement(),
    ])));
    assert!(!justified(&body(vec![
        t(LineComment, "// SAFETY: for something else"),
        n(LetDeclaration, vec![t(Identifier, "x"), t(Other, "1")]),
        t(LineComment, "// now the block"),
        unsafe_statement(),
    ])));
}

#[test]
fn comment_elsewhere_in_the_file_does_not_justify() {
    let inside = n(
        ExpressionStatement,
        vec![n(UnsafeBlock, vec![n(Block, vec![t(LineComment, "// SAFETY: inside"), t(Other, "work")])])],
    );
    assert!(!justified(&body(vec![inside])));
    assert!(!justified(&body(vec![unsafe_statement(), t(LineComment, "// SAFETY: below")])));
    let tree = build(vec![
        t(LineComment, "// SAFETY: at the top of the file"),
        n(FunctionItem, vec![t(Identifier, "f"), n(Parameters, vec![]), n(Block, vec![unsafe_statement()])]),
    ]);
    assert!(!justified(&tree));
}

#[test]
fn comment_on_the_declaration_does_not_justify_its_first_statement() {
    let tree = build(vec![
        t(LineComment, "/// SAFETY: documents the function"),
        n(FunctionItem, vec![n(Block, vec![unsafe_statement()])]),
    ]);
    assert!(!justified(&tree));
    let tail = build(vec![
        t(LineComment, "/// SAFETY: documents the function"),
        n(FunctionItem, vec![n(Block, vec![n(UnsafeBlock, vec![])])]),
    ]);
    assert!(!justified(&tail));
}

#[test]
fn sole_statement_of_a_block_is_justified_above_the_enclosing_statement() {
    let guarded = n(Other, vec![n(Block, vec![unsafe_statement()])]);
    assert!(justified(&body(vec![t(LineComment, "// SAFETY: guarded by the check"), guarded])));
    let two = n(Other, vec![n(Block, vec![unsafe_statement(), t(Other, "more")])]);
    assert!(!justified(&body(vec![t(LineComment, "// SAFETY: guarded by the check"), two])));
    let trailing =
        n(Other, vec![n(Block, vec![unsafe_statement(), t(LineComment, "// done")])]);
    assert!(justified(&body(vec![t(LineComment, "// SAFETY: guarded by the check"), trailing])));
}

#[test]
fn root_has_no_justification() {
    let tree = build(vec![]);
    assert!(!has_adjacent_justification(&tree, 0, &"SAFETY:".to_string()));
}

fn guarded_rule(matcher: Matcher) -> Rule {
    Rule {
        id: "G1".to_string(),
        severity: Severity::MustNever,
        description: "needs a reason".to_string(),
        matcher,
        justification: Some("REASON:".to_string()),
    }
}

#[test]
fn justification_silences_only_where_the_pattern_matches() {
    let rule = guarded_rule(Matcher::Kind(UnsafeBlock));
    let with = body(vec![t(LineComment, "// REASON: measured"), unsafe_statement()]);
    let without = body(vec![t(LineComment, "// SAFETY: other marker"), unsafe_statement()]);
    assert_eq!(judge(&with, the_unsafe_block(&with), &rule), Outcome::Silent);
    assert_eq!(judge(&without, the_unsafe_block(&without), &rule), Outcome::Fires);
    assert_eq!(judge(&with, 1, &rule), Outcome::Silent);
}

#[test]
fn fault_is_not_hidden_by_a_justification() {
    let rule = guarded_rule(Matcher::CallTo { module: "mem".to_string(), function: "forget".to_string() });
    let tree = body(vec![
        t(LineComment, "// REASON: measured"),
        n(ExpressionStatement, vec![n(CallExpression, vec![])]),
    ]);
    let call = (0..tree.len()).find(|&i| tree.kind(i) == CallExpression).unwrap();
    assert_eq!(judge(&tree, call, &rule), Outcome::Fault);
    let mut catalog = RuleCatalog::new();
    catalog.register(rule).unwrap();
    assert!(analyze(&tree, &catalog, "f.rs").is_err());
}
