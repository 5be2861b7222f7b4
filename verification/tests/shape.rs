use lint_engine::rule::Matcher;
use lint_engine::shape::{
    contains_text, find_first_code_child, find_last_code_child, find_next_code_sibling,
    find_prev_code_sibling, match_shape, Outcome,
};
use lint_engine::tree::{NodeKind, Span, SyntaxTree};
use lint_engine::tree::NodeKind::{
    Arguments, BlockComment, CallExpression, CastExpression, FieldDeclaration, FieldExpression,
    FieldIdentifier, FunctionItem, GenericFunction, GenericType, Identifier, LetDeclaration,
    LineComment, MutableSpecifier, Other, Parameter, PrimitiveType, ReferenceType,
    ScopedIdentifier, StringLiteral, TypeArguments, TypeIdentifier, UnsafeBlock, Whitespace,
};

struct N {
    kind: NodeKind,
    text: &'static str,
    kids: Vec<N>,
}

fn n(kind: NodeKind, kids: Vec<N>) -> N {
    N { kind, text: "", kids }
}

fn t(kind: NodeKind, text: &'static str) -> N {
    N { kind, text, kids: Vec::new() }
}

fn grow(tree: &mut SyntaxTree, parent: usize, node: &N) {
    let at = tree.len() as u32;
    let span = Span { start_line: at, start_col: 0, end_line: at, end_col: 1 };
    let id = tree.add_child(parent, node.kind, span, node.text).unwrap();
    for kid in &node.kids {
        grow(tree, id, kid);
    }
}

/// The tree whose root holds `node` as its only child: `node` is node 1.
fn under_root(node: N) -> SyntaxTree {
    let mut tree = SyntaxTree::new(
        NodeKind::SourceFile,
        Span { start_line: 0, start_col: 0, end_line: 0, end_col: 0 },
        "",
    );
    grow(&mut tree, 0, &node);
    tree
}

fn says(node: N, matcher: &Matcher) -> Outcome {
    match_shape(&under_root(node), 1, matcher)
}

fn transmute() -> Matcher {
    Matcher::CallTo { module: "mem".to_string(), function: "transmute".to_string() }
}

fn path(segments: &[&'static str]) -> N {
    let mut node = t(Identifier, segments[0]);
    for s in &segments[1..] {
        node = n(ScopedIdentifier, vec![node, t(Identifier, s)]);
    }
    node
}

fn call(callee: N) -> N {
    n(CallExpression, vec![callee, n(Arguments, vec![t(Identifier, "x")])])
}

fn method(name: &'static str, args: Vec<N>) -> N {
    n(
        CallExpression,
        vec![n(FieldExpression, vec![t(Identifier, "it"), t(FieldIdentifier, name)]), n(Arguments, args)],
    )
}

#[test]
fn call_is_matched_however_the_path_is_written() {
    assert_eq!(says(call(path(&["transmute"])), &transmute()), Outcome::Fires);
    assert_eq!(says(call(path(&["mem", "transmute"])), &transmute()), Outcome::Fires);
    assert_eq!(says(call(path(&["std", "mem", "transmute"])), &transmute()), Outcome::Fires);
    assert_eq!(says(call(path(&["core", "mem", "transmute"])), &transmute()), Outcome::Fires);
    let generic = n(
        GenericFunction,
        vec![path(&["mem", "transmute"]), n(TypeArguments, vec![t(PrimitiveType, "u8")])],
    );
    assert_eq!(says(call(generic), &transmute()), Outcome::Fires);
    let bare_generic =
        n(GenericFunction, vec![path(&["transmute"]), n(TypeArguments, vec![t(PrimitiveType, "u8")])]);
    assert_eq!(says(call(bare_generic), &transmute()), Outcome::Fires);
}

#[test]
fn call_of_another_function_is_not_matched() {
    assert_eq!(says(call(path(&["forget"])), &transmute()), Outcome::Silent);
    assert_eq!(says(call(path(&["mem", "forget"])), &transmute()), Outcome::Silent);
    assert_eq!(says(call(path(&["other", "transmute"])), &transmute()), Outcome::Silent);
    assert_eq!(says(call(path(&["mem", "transmute", "inner"])), &transmute()), Outcome::Silent);
    assert_eq!(says(call(path(&["Transmute"])), &transmute()), Outcome::Silent);
    assert_eq!(says(method("transmute", vec![]), &transmute()), Outcome::Silent);
    let qualified_by_type = n(ScopedIdentifier, vec![t(Other, "<T as Trait>"), t(Identifier, "transmute")]);
    assert_eq!(says(call(qualified_by_type), &transmute()), Outcome::Silent);
}

#[test]
fn name_in_a_string_or_comment_is_not_a_call() {
    assert_eq!(says(t(StringLiteral, "mem::transmute(x)"), &transmute()), Outcome::Silent);
    assert_eq!(says(t(LineComment, "// mem::transmute(x)"), &transmute()), Outcome::Silent);
    assert_eq!(says(call(t(StringLiteral, "transmute")), &transmute()), Outcome::Silent);
    assert_eq!(says(path(&["mem", "transmute"]), &transmute()), Outcome::Silent);
}

#[test]
fn comments_between_the_parts_of_a_call_are_passed_over() {
    let spaced = n(
        CallExpression,
        vec![
            t(BlockComment, "/* forget */"),
            t(Whitespace, " "),
            n(
                ScopedIdentifier,
                vec![t(Identifier, "mem"), t(LineComment, "// forget"), t(Identifier, "transmute"), t(Whitespace, " ")],
            ),
            t(BlockComment, "/* forget */"),
            n(Arguments, vec![]),
        ],
    );
    assert_eq!(says(spaced, &transmute()), Outcome::Fires);
}

#[test]
fn node_without_the_child_of_its_kind_is_a_fault() {
    assert_eq!(says(n(CallExpression, vec![]), &transmute()), Outcome::Fault);
    assert_eq!(says(n(CallExpression, vec![t(LineComment, "// transmute")]), &transmute()), Outcome::Fault);
    let names = Matcher::MethodCall { names: vec!["offset".to_string()] };
    assert_eq!(says(n(CallExpression, vec![]), &names), Outcome::Fault);
    let expect = Matcher::EmptyMessage { method: "expect".to_string() };
    assert_eq!(says(n(CallExpression, vec![]), &expect), Outcome::Fault);
    let owned = Matcher::ParameterOfType { ty: "String".to_string() };
    assert_eq!(says(n(Parameter, vec![]), &owned), Outcome::Fault);
    let boxed = Matcher::FieldOfType { ty: "Box".to_string() };
    assert_eq!(says(n(FieldDeclaration, vec![]), &boxed), Outcome::Fault);
    let casts = Matcher::CastTo { types: vec!["u8".to_string()] };
    assert_eq!(says(n(CastExpression, vec![]), &casts), Outcome::Fault);
    assert_eq!(says(n(CastExpression, vec![t(PrimitiveType, "u8")]), &casts), Outcome::Fault);
}

#[test]
fn kind_matches_every_node_of_the_kind() {
    let unsafe_blocks = Matcher::Kind(UnsafeBlock);
    assert_eq!(says(n(UnsafeBlock, vec![]), &unsafe_blocks), Outcome::Fires);
    assert_eq!(says(n(NodeKind::Block, vec![]), &unsafe_blocks), Outcome::Silent);
}

#[test]
fn method_call_is_matched_by_its_name() {
    let moves = Matcher::MethodCall { names: vec!["offset".to_string(), "wrapping_offset".to_string()] };
    assert_eq!(says(method("offset", vec![t(Identifier, "n")]), &moves), Outcome::Fires);
    assert_eq!(says(method("wrapping_offset", vec![]), &moves), Outcome::Fires);
    assert_eq!(says(method("len", vec![]), &moves), Outcome::Silent);
    assert_eq!(says(call(path(&["offset"])), &moves), Outcome::Silent);
    assert_eq!(says(call(path(&["ptr", "offset"])), &moves), Outcome::Silent);
    let none = Matcher::MethodCall { names: vec![] };
    assert_eq!(says(method("offset", vec![]), &none), Outcome::Silent);
}

#[test]
fn expect_needs_a_message() {
    let expect = Matcher::EmptyMessage { method: "expect".to_string() };
    assert_eq!(says(method("expect", vec![t(StringLiteral, "")]), &expect), Outcome::Fires);
    assert_eq!(says(method("expect", vec![]), &expect), Outcome::Fires);
    assert_eq!(says(method("expect", vec![t(StringLiteral, "no value")]), &expect), Outcome::Silent);
    assert_eq!(says(method("expect", vec![t(StringLiteral, " ")]), &expect), Outcome::Silent);
    assert_eq!(says(method("expect", vec![t(Identifier, "message")]), &expect), Outcome::Silent);
    assert_eq!(says(method("unwrap", vec![]), &expect), Outcome::Silent);
    assert_eq!(says(call(path(&["expect"])), &expect), Outcome::Silent);
    let commented = method("expect", vec![t(BlockComment, "/* why */"), t(StringLiteral, "")]);
    assert_eq!(says(commented, &expect), Outcome::Fires);
}

fn param(ty: N) -> N {
    n(Parameter, vec![t(Identifier, "name"), ty])
}

fn generic(name: &'static str, arg: N) -> N {
    n(GenericType, vec![t(TypeIdentifier, name), n(TypeArguments, vec![arg])])
}

#[test]
fn parameter_is_matched_by_its_declared_type() {
    let string = Matcher::ParameterOfType { ty: "String".to_string() };
    let vec = Matcher::ParameterOfType { ty: "Vec".to_string() };
    assert_eq!(says(param(t(TypeIdentifier, "String")), &string), Outcome::Fires);
    assert_eq!(says(param(n(ReferenceType, vec![t(TypeIdentifier, "String")])), &string), Outcome::Fires);
    assert_eq!(says(param(generic("Vec", t(PrimitiveType, "i32"))), &vec), Outcome::Fires);
    assert_eq!(says(param(n(ReferenceType, vec![generic("Vec", t(PrimitiveType, "i32"))])), &vec), Outcome::Fires);
    assert_eq!(says(param(t(PrimitiveType, "str")), &string), Outcome::Silent);
    assert_eq!(says(param(n(ReferenceType, vec![t(PrimitiveType, "str")])), &string), Outcome::Silent);
    assert_eq!(says(param(t(TypeIdentifier, "String")), &vec), Outcome::Silent);
    assert_eq!(says(param(generic("Option", t(TypeIdentifier, "String"))), &string), Outcome::Silent);
    let by_mut = n(ReferenceType, vec![t(MutableSpecifier, "mut"), t(TypeIdentifier, "String")]);
    assert_eq!(says(param(by_mut), &string), Outcome::Silent);
    let twice = n(ReferenceType, vec![n(ReferenceType, vec![t(TypeIdentifier, "String")])]);
    assert_eq!(says(param(twice), &string), Outcome::Silent);
    assert_eq!(says(n(Parameter, vec![t(Identifier, "String")]), &string), Outcome::Silent);
}

#[test]
fn field_is_matched_by_its_declared_type() {
    let boxed = Matcher::FieldOfType { ty: "Box".to_string() };
    let field = |ty: N| n(FieldDeclaration, vec![t(FieldIdentifier, "data"), ty]);
    assert_eq!(says(field(generic("Box", t(TypeIdentifier, "String"))), &boxed), Outcome::Fires);
    assert_eq!(says(field(t(TypeIdentifier, "Box")), &boxed), Outcome::Fires);
    assert_eq!(says(field(t(TypeIdentifier, "String")), &boxed), Outcome::Silent);
    assert_eq!(says(field(generic("Vec", t(TypeIdentifier, "Box"))), &boxed), Outcome::Silent);
    assert_eq!(says(field(n(ReferenceType, vec![generic("Box", t(TypeIdentifier, "T"))])), &boxed), Outcome::Silent);
    assert_eq!(says(param(generic("Box", t(TypeIdentifier, "T"))), &boxed), Outcome::Silent);
}

#[test]
fn medial_capital_is_judged_on_names_that_are_given() {
    let rule = Matcher::MedialCapital;
    let function = under_root(n(FunctionItem, vec![t(Identifier, "badFunction"), n(NodeKind::Block, vec![])]));
    assert_eq!(match_shape(&function, 2, &rule), Outcome::Fires);
    let fine = under_root(n(FunctionItem, vec![t(Identifier, "good_function")]));
    assert_eq!(match_shape(&fine, 2, &rule), Outcome::Silent);
    let bound = under_root(n(LetDeclaration, vec![t(Identifier, "myValue"), t(Identifier, "otherValue")]));
    assert_eq!(match_shape(&bound, 2, &rule), Outcome::Fires);
    assert_eq!(match_shape(&bound, 3, &rule), Outcome::Silent);
    let mutable = under_root(n(
        LetDeclaration,
        vec![t(MutableSpecifier, "mut"), t(Identifier, "myValue"), t(Other, "42")],
    ));
    assert_eq!(match_shape(&mutable, 3, &rule), Outcome::Fires);
    let parameter = under_root(n(Parameter, vec![t(Identifier, "userName"), t(TypeIdentifier, "UserName")]));
    assert_eq!(match_shape(&parameter, 2, &rule), Outcome::Fires);
    assert_eq!(match_shape(&parameter, 3, &rule), Outcome::Silent);
    let used = under_root(n(Arguments, vec![t(Identifier, "myValue")]));
    assert_eq!(match_shape(&used, 2, &rule), Outcome::Silent);
    assert_eq!(says(t(Identifier, "myValue"), &rule), Outcome::Silent);
    assert_eq!(says(t(StringLiteral, "myValue"), &rule), Outcome::Silent);
}

#[test]
fn cast_is_matched_by_its_target() {
    let casts = Matcher::CastTo { types: vec!["u8".to_string(), "u32".to_string()] };
    let cast = |ty: N| n(CastExpression, vec![t(Identifier, "x"), ty]);
    assert_eq!(says(cast(t(PrimitiveType, "u32")), &casts), Outcome::Fires);
    assert_eq!(says(cast(t(PrimitiveType, "u8")), &casts), Outcome::Fires);
    assert_eq!(says(cast(t(PrimitiveType, "bool")), &casts), Outcome::Silent);
    assert_eq!(says(cast(t(TypeIdentifier, "u32")), &casts), Outcome::Silent);
    assert_eq!(says(cast(t(Other, "*const u8")), &casts), Outcome::Silent);
}

#[test]
fn code_children_and_siblings_pass_over_trivia() {
    let tree = under_root(n(
        NodeKind::Block,
        vec![
            t(LineComment, "// a"),
            t(Identifier, "first"),
            t(Whitespace, " "),
            t(Identifier, "second"),
            t(BlockComment, "/* b */"),
        ],
    ));
    assert_eq!(find_first_code_child(&tree, 1), Some(3));
    assert_eq!(find_last_code_child(&tree, 1), Some(5));
    assert_eq!(find_next_code_sibling(&tree, 3), Some(5));
    assert_eq!(find_next_code_sibling(&tree, 5), None);
    assert_eq!(find_prev_code_sibling(&tree, 5), Some(3));
    assert_eq!(find_prev_code_sibling(&tree, 3), None);
    assert_eq!(find_first_code_child(&tree, 3), None);
    let only_trivia = under_root(n(NodeKind::Block, vec![t(LineComment, "// a"), t(Whitespace, " ")]));
    assert_eq!(find_first_code_child(&only_trivia, 1), None);
    assert_eq!(find_last_code_child(&only_trivia, 1), None);
}

#[test]
fn contains_text_compares_whole_names() {
    let names = vec!["offset".to_string(), "add".to_string()];
    assert!(contains_text(&names, &"add".to_string()));
    assert!(!contains_text(&names, &"ad".to_string()));
    assert!(!contains_text(&names, &"Add".to_string()));
    assert!(!contains_text(&Vec::new(), &"add".to_string()));
}
