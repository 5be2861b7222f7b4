//! Matching a pattern against the shape of a node.
//!
//! The shapes follow the usual layout of a Rust syntax tree. A call holds its
//! callee first and its arguments after it; a path holds what qualifies it
//! first and its name last; a declaration holds its type last. Comments and
//! white space may stand anywhere between the children of a node and are
//! passed over. A node that lacks the child by which its kind is defined (a
//! call without a callee, a cast without a target) cannot be judged: matching
//! reports a fault for it instead of guessing.

use vstd::prelude::*;
use crate::rule::{texts, Matcher, MatcherView};
use crate::text::{has_medial_capital, medial_capital, utf8};
use crate::tree::{forward, node_wf, NodeKind, NodeView, SyntaxTree};

verus! {

/// What a pattern says of a node.
#[derive(Clone, Copy, PartialEq, Eq, Debug, Structural)]
pub enum Outcome {
    /// The node is not what the pattern looks for.
    Silent,
    /// The node is what the pattern looks for.
    Fires,
    /// The node has the kind that the pattern looks for, but not the shape of
    /// that kind.
    Fault,
}

/// A link out of node `i` that leads back to an earlier node. In a tree every
/// link to an earlier sibling does.
pub open spec fn backward(t: Seq<NodeView>, i: usize, link: Option<usize>) -> Option<usize> {
    match link {
        Some(j) if j < i && i < t.len() => Some(j),
        _ => None,
    }
}

/// The first node that is code among `start` and the siblings after it.
pub open spec fn code_from(t: Seq<NodeView>, start: Option<usize>) -> Option<usize>
    decreases
        (match start {
            Some(i) => t.len() - i,
            None => 0,
        }),
{
    match start {
        Some(i) if i < t.len() => if t[i as int].kind.spec_is_trivia() {
            code_from(t, forward(t, i, t[i as int].next_sibling))
        } else {
            Some(i)
        },
        _ => None,
    }
}

/// The last node that is code among `start` and the siblings before it.
pub open spec fn code_back_from(t: Seq<NodeView>, start: Option<usize>) -> Option<usize>
    decreases
        (match start {
            Some(i) => i + 1,
            None => 0,
        }),
{
    match start {
        Some(i) if i < t.len() => if t[i as int].kind.spec_is_trivia() {
            code_back_from(t, backward(t, i, t[i as int].prev_sibling))
        } else {
            Some(i)
        },
        _ => None,
    }
}

/// The first child of `i` that is code.
pub open spec fn first_code_child(t: Seq<NodeView>, i: usize) -> Option<usize> {
    if i < t.len() {
        code_from(t, forward(t, i, t[i as int].first_child))
    } else {
        None
    }
}

/// The last child of `i` that is code.
pub open spec fn last_code_child(t: Seq<NodeView>, i: usize) -> Option<usize> {
    if i < t.len() {
        code_back_from(t, forward(t, i, t[i as int].last_child))
    } else {
        None
    }
}

/// The nearest sibling after `i` that is code.
pub open spec fn next_code_sibling(t: Seq<NodeView>, i: usize) -> Option<usize> {
    if i < t.len() {
        code_from(t, forward(t, i, t[i as int].next_sibling))
    } else {
        None
    }
}

/// The nearest sibling before `i` that is code.
pub open spec fn prev_code_sibling(t: Seq<NodeView>, i: usize) -> Option<usize> {
    if i < t.len() {
        code_back_from(t, backward(t, i, t[i as int].prev_sibling))
    } else {
        None
    }
}

/// What a call calls: its first child, or the function inside that child
/// where the child adds generic arguments to it.
pub open spec fn callee(t: Seq<NodeView>, call: usize) -> Option<usize> {
    match first_code_child(t, call) {
        Some(f) => if t[f as int].kind == NodeKind::GenericFunction {
            first_code_child(t, f)
        } else {
            Some(f)
        },
        None => None,
    }
}

/// The name that ends a scoped path.
pub open spec fn scoped_name(t: Seq<NodeView>, x: usize) -> Option<Seq<char>> {
    match last_code_child(t, x) {
        Some(l) if t[l as int].kind == NodeKind::Identifier => Some(t[l as int].text),
        _ => None,
    }
}

/// The name by which a node qualifies a path: an identifier's text, or the
/// name that ends a scoped path.
pub open spec fn segment_name(t: Seq<NodeView>, q: usize) -> Option<Seq<char>> {
    if t[q as int].kind == NodeKind::Identifier {
        Some(t[q as int].text)
    } else if t[q as int].kind == NodeKind::ScopedIdentifier {
        scoped_name(t, q)
    } else {
        None
    }
}

/// The segment just before the name of a scoped path.
pub open spec fn scoped_qualifier(t: Seq<NodeView>, x: usize) -> Option<Seq<char>> {
    match first_code_child(t, x) {
        Some(q) if last_code_child(t, x) != Some(q) => segment_name(t, q),
        _ => None,
    }
}

/// Whether the path at `x` names `function`: bare, or with `module` as the
/// segment before it.
pub open spec fn names_function(
    t: Seq<NodeView>,
    x: usize,
    module: Seq<char>,
    function: Seq<char>,
) -> bool {
    ||| t[x as int].kind == NodeKind::Identifier && t[x as int].text == function
    ||| t[x as int].kind == NodeKind::ScopedIdentifier && scoped_name(t, x) == Some(function)
        && scoped_qualifier(t, x) == Some(module)
}

/// The name of the method that a callee selects, where the callee is a field
/// access.
pub open spec fn method_name(t: Seq<NodeView>, x: usize) -> Option<Seq<char>> {
    if t[x as int].kind == NodeKind::FieldExpression {
        match last_code_child(t, x) {
            Some(l) if t[l as int].kind == NodeKind::FieldIdentifier => Some(t[l as int].text),
            _ => None,
        }
    } else {
        None
    }
}

/// The first argument of a call.
pub open spec fn first_argument(t: Seq<NodeView>, call: usize) -> Option<usize> {
    match first_code_child(t, call) {
        Some(f) => match next_code_sibling(t, f) {
            Some(a) if t[a as int].kind == NodeKind::Arguments => first_code_child(t, a),
            _ => None,
        },
        None => None,
    }
}

/// Whether a call passes no message: it has no first argument, or that
/// argument is an empty string literal.
pub open spec fn passes_no_message(t: Seq<NodeView>, call: usize) -> bool {
    match first_argument(t, call) {
        Some(m) => t[m as int].kind == NodeKind::StringLiteral && t[m as int].text.len() == 0,
        None => true,
    }
}

/// Whether the type at `d` is the type `name`, with or without generic
/// arguments.
pub open spec fn named_type(t: Seq<NodeView>, d: usize, name: Seq<char>) -> bool {
    ||| t[d as int].kind == NodeKind::TypeIdentifier && t[d as int].text == name
    ||| t[d as int].kind == NodeKind::GenericType && (match first_code_child(t, d) {
        Some(h) => t[h as int].kind == NodeKind::TypeIdentifier && t[h as int].text == name,
        None => false,
    })
}

/// The type behind a shared reference: the last child of a reference type,
/// unless `mut` stands before it.
pub open spec fn shared_referent(t: Seq<NodeView>, d: usize) -> Option<usize> {
    if t[d as int].kind == NodeKind::ReferenceType {
        match last_code_child(t, d) {
            Some(inner) => match prev_code_sibling(t, inner) {
                Some(m) if t[m as int].kind == NodeKind::MutableSpecifier => None,
                _ => Some(inner),
            },
            None => None,
        }
    } else {
        None
    }
}

/// Whether a parameter's declared type `d` is `name`, owned or behind a
/// shared reference.
pub open spec fn declares(t: Seq<NodeView>, d: usize, name: Seq<char>) -> bool {
    named_type(t, d, name) || (match shared_referent(t, d) {
        Some(inner) => named_type(t, inner, name),
        None => false,
    })
}

/// Whether the identifier at `i` is the name that a declaration gives: the
/// name of a function, or the name bound by a `let` or by a parameter, which
/// is the identifier with which the declaration begins (after `mut`, if that
/// is there).
pub open spec fn names_binding(t: Seq<NodeView>, i: usize) -> bool {
    match t[i as int].parent {
        Some(p) if p < t.len() => {
            let k = t[p as int].kind;
            k == NodeKind::FunctionItem || ((k == NodeKind::LetDeclaration || k
                == NodeKind::Parameter) && (match prev_code_sibling(t, i) {
                Some(m) => t[m as int].kind == NodeKind::MutableSpecifier,
                None => true,
            }))
        },
        _ => false,
    }
}

/// What the pattern `m` says of node `node`, by the node's kind and shape
/// alone.
pub open spec fn shape_outcome(t: Seq<NodeView>, node: usize, m: MatcherView) -> Outcome {
    if node >= t.len() || t[node as int].kind != m.kind() {
        Outcome::Silent
    } else {
        match m {
            MatcherView::Kind(_) => Outcome::Fires,
            MatcherView::CallTo { module, function } => match callee(t, node) {
                Some(x) => if names_function(t, x, module, function) {
                    Outcome::Fires
                } else {
                    Outcome::Silent
                },
                None => Outcome::Fault,
            },
            MatcherView::MethodCall { names } => match callee(t, node) {
                Some(x) => match method_name(t, x) {
                    Some(n) if names.contains(n) => Outcome::Fires,
                    _ => Outcome::Silent,
                },
                None => Outcome::Fault,
            },
            MatcherView::EmptyMessage { method } => match callee(t, node) {
                Some(x) => if method_name(t, x) == Some(method) && passes_no_message(t, node) {
                    Outcome::Fires
                } else {
                    Outcome::Silent
                },
                None => Outcome::Fault,
            },
            MatcherView::ParameterOfType { ty } => match last_code_child(t, node) {
                Some(d) => if declares(t, d, ty) {
                    Outcome::Fires
                } else {
                    Outcome::Silent
                },
                None => Outcome::Fault,
            },
            MatcherView::FieldOfType { ty } => match last_code_child(t, node) {
                Some(d) => if named_type(t, d, ty) {
                    Outcome::Fires
                } else {
                    Outcome::Silent
                },
                None => Outcome::Fault,
            },
            MatcherView::MedialCapital => if names_binding(t, node) && has_medial_capital(
                utf8(t[node as int].text),
            ) {
                Outcome::Fires
            } else {
                Outcome::Silent
            },
            MatcherView::CastTo { types } => match last_code_child(t, node) {
                Some(d) => if first_code_child(t, node) == Some(d) {
                    Outcome::Fault
                } else if t[d as int].kind == NodeKind::PrimitiveType && types.contains(
                    t[d as int].text,
                ) {
                    Outcome::Fires
                } else {
                    Outcome::Silent
                },
                None => Outcome::Fault,
            },
        }
    }
}

/// Finds `code_from`.
pub fn find_code_from(tree: &SyntaxTree, start: Option<usize>) -> (r: Option<usize>)
    requires
        tree.wf(),
        start matches Some(i) ==> i < tree@.len(),
    ensures
        r == code_from(tree@, start),
        r matches Some(j) ==> j < tree@.len(),
{
    let mut cur: Option<usize> = start;
    loop
        invariant
            tree.wf(),
            cur matches Some(i) ==> i < tree@.len(),
            code_from(tree@, cur) == code_from(tree@, start),
        decreases
            (match cur {
                Some(i) => tree@.len() - i,
                None => 0,
            }),
    {
        match cur {
            None => {
                return None;
            },
            Some(i) => {
                if !tree.kind(i).is_trivia() {
                    return Some(i);
                }
                proof {
                    assert(node_wf(tree@, i as int));
                }
                cur = tree.next_sibling(i);
            },
        }
    }
}

/// Finds `code_back_from`.
pub fn find_code_back_from(tree: &SyntaxTree, start: Option<usize>) -> (r: Option<usize>)
    requires
        tree.wf(),
        start matches Some(i) ==> i < tree@.len(),
    ensures
        r == code_back_from(tree@, start),
        r matches Some(j) ==> j < tree@.len(),
{
    let mut cur: Option<usize> = start;
    loop
        invariant
            tree.wf(),
            cur matches Some(i) ==> i < tree@.len(),
            code_back_from(tree@, cur) == code_back_from(tree@, start),
        decreases
            (match cur {
                Some(i) => i + 1,
                None => 0,
            }),
    {
        match cur {
            None => {
                return None;
            },
            Some(i) => {
                if !tree.kind(i).is_trivia() {
                    return Some(i);
                }
                proof {
                    assert(node_wf(tree@, i as int));
                }
                cur = tree.prev_sibling(i);
            },
        }
    }
}

/// Finds `first_code_child`.
pub fn find_first_code_child(tree: &SyntaxTree, i: usize) -> (r: Option<usize>)
    requires
        tree.wf(),
        i < tree@.len(),
    ensures
        r == first_code_child(tree@, i),
        r matches Some(j) ==> j < tree@.len(),
{
    proof {
        assert(node_wf(tree@, i as int));
    }
    find_code_from(tree, tree.first_child(i))
}

/// Finds `last_code_child`.
pub fn find_last_code_child(tree: &SyntaxTree, i: usize) -> (r: Option<usize>)
    requires
        tree.wf(),
        i < tree@.len(),
    ensures
        r == last_code_child(tree@, i),
        r matches Some(j) ==> j < tree@.len(),
{
    proof {
        assert(node_wf(tree@, i as int));
    }
    find_code_back_from(tree, tree.last_child(i))
}

/// Finds `next_code_sibling`.
pub fn find_next_code_sibling(tree: &SyntaxTree, i: usize) -> (r: Option<usize>)
    requires
        tree.wf(),
        i < tree@.len(),
    ensures
        r == next_code_sibling(tree@, i),
        r matches Some(j) ==> j < tree@.len(),
{
    proof {
        assert(node_wf(tree@, i as int));
    }
    find_code_from(tree, tree.next_sibling(i))
}

/// Finds `prev_code_sibling`.
pub fn find_prev_code_sibling(tree: &SyntaxTree, i: usize) -> (r: Option<usize>)
    requires
        tree.wf(),
        i < tree@.len(),
    ensures
        r == prev_code_sibling(tree@, i),
        r matches Some(j) ==> j < tree@.len(),
{
    proof {
        assert(node_wf(tree@, i as int));
    }
    find_code_back_from(tree, tree.prev_sibling(i))
}

fn find_callee(tree: &SyntaxTree, call: usize) -> (r: Option<usize>)
    requires
        tree.wf(),
        call < tree@.len(),
    ensures
        r == callee(tree@, call),
        r matches Some(j) ==> j < tree@.len(),
{
    match find_first_code_child(tree, call) {
        Some(f) => {
            if tree.kind(f) == NodeKind::GenericFunction {
                find_first_code_child(tree, f)
            } else {
                Some(f)
            }
        },
        None => None,
    }
}

fn has_scoped_name(tree: &SyntaxTree, x: usize, name: &String) -> (r: bool)
    requires
        tree.wf(),
        x < tree@.len(),
    ensures
        r == (scoped_name(tree@, x) == Some(name@)),
{
    match find_last_code_child(tree, x) {
        Some(l) => tree.kind(l) == NodeKind::Identifier && *tree.text(l) == *name,
        None => false,
    }
}

fn has_scoped_qualifier(tree: &SyntaxTree, x: usize, name: &String) -> (r: bool)
    requires
        tree.wf(),
        x < tree@.len(),
    ensures
        r == (scoped_qualifier(tree@, x) == Some(name@)),
{
    let first: Option<usize> = find_first_code_child(tree, x);
    let last: Option<usize> = find_last_code_child(tree, x);
    match first {
        Some(q) => {
            if last == Some(q) {
                false
            } else if tree.kind(q) == NodeKind::Identifier {
                *tree.text(q) == *name
            } else if tree.kind(q) == NodeKind::ScopedIdentifier {
                has_scoped_name(tree, q, name)
            } else {
                false
            }
        },
        None => false,
    }
}

fn is_function(tree: &SyntaxTree, x: usize, module: &String, function: &String) -> (r: bool)
    requires
        tree.wf(),
        x < tree@.len(),
    ensures
        r == names_function(tree@, x, module@, function@),
{
    let k: NodeKind = tree.kind(x);
    if k == NodeKind::Identifier {
        *tree.text(x) == *function
    } else if k == NodeKind::ScopedIdentifier {
        has_scoped_name(tree, x, function) && has_scoped_qualifier(tree, x, module)
    } else {
        false
    }
}

fn find_method_name(tree: &SyntaxTree, x: usize) -> (r: Option<usize>)
    requires
        tree.wf(),
        x < tree@.len(),
    ensures
        match r {
            Some(l) => l < tree@.len() && method_name(tree@, x) == Some(tree@[l as int].text),
            None => method_name(tree@, x) is None,
        },
{
    if tree.kind(x) == NodeKind::FieldExpression {
        match find_last_code_child(tree, x) {
            Some(l) => {
                if tree.kind(l) == NodeKind::FieldIdentifier {
                    Some(l)
                } else {
                    None
                }
            },
            None => None,
        }
    } else {
        None
    }
}

fn find_first_argument(tree: &SyntaxTree, call: usize) -> (r: Option<usize>)
    requires
        tree.wf(),
        call < tree@.len(),
    ensures
        r == first_argument(tree@, call),
        r matches Some(j) ==> j < tree@.len(),
{
    match find_first_code_child(tree, call) {
        Some(f) => match find_next_code_sibling(tree, f) {
            Some(a) => {
                if tree.kind(a) == NodeKind::Arguments {
                    find_first_code_child(tree, a)
                } else {
                    None
                }
            },
            None => None,
        },
        None => None,
    }
}

fn has_no_message(tree: &SyntaxTree, call: usize) -> (r: bool)
    requires
        tree.wf(),
        call < tree@.len(),
    ensures
        r == passes_no_message(tree@, call),
{
    match find_first_argument(tree, call) {
        Some(m) => tree.kind(m) == NodeKind::StringLiteral && tree.text(m).as_str().is_empty(),
        None => true,
    }
}

fn is_named_type(tree: &SyntaxTree, d: usize, name: &String) -> (r: bool)
    requires
        tree.wf(),
        d < tree@.len(),
    ensures
        r == named_type(tree@, d, name@),
{
    let k: NodeKind = tree.kind(d);
    if k == NodeKind::TypeIdentifier {
        *tree.text(d) == *name
    } else if k == NodeKind::GenericType {
        match find_first_code_child(tree, d) {
            Some(h) => tree.kind(h) == NodeKind::TypeIdentifier && *tree.text(h) == *name,
            None => false,
        }
    } else {
        false
    }
}

fn find_shared_referent(tree: &SyntaxTree, d: usize) -> (r: Option<usize>)
    requires
        tree.wf(),
        d < tree@.len(),
    ensures
        r == shared_referent(tree@, d),
        r matches Some(j) ==> j < tree@.len(),
{
    if tree.kind(d) == NodeKind::ReferenceType {
        match find_last_code_child(tree, d) {
            Some(inner) => match find_prev_code_sibling(tree, inner) {
                Some(m) => {
                    if tree.kind(m) == NodeKind::MutableSpecifier {
                        None
                    } else {
                        Some(inner)
                    }
                },
                None => Some(inner),
            },
            None => None,
        }
    } else {
        None
    }
}

fn is_declared(tree: &SyntaxTree, d: usize, name: &String) -> (r: bool)
    requires
        tree.wf(),
        d < tree@.len(),
    ensures
        r == declares(tree@, d, name@),
{
    if is_named_type(tree, d, name) {
        true
    } else {
        match find_shared_referent(tree, d) {
            Some(inner) => is_named_type(tree, inner, name),
            None => false,
        }
    }
}

fn is_binding_name(tree: &SyntaxTree, i: usize) -> (r: bool)
    requires
        tree.wf(),
        i < tree@.len(),
    ensures
        r == names_binding(tree@, i),
{
    proof {
        assert(node_wf(tree@, i as int));
    }
    match tree.parent(i) {
        Some(p) => {
            let k: NodeKind = tree.kind(p);
            if k == NodeKind::FunctionItem {
                true
            } else if k == NodeKind::LetDeclaration || k == NodeKind::Parameter {
                match find_prev_code_sibling(tree, i) {
                    Some(m) => tree.kind(m) == NodeKind::MutableSpecifier,
                    None => true,
                }
            } else {
                false
            }
        },
        None => false,
    }
}

/// Whether `name` is one of `names`.
pub fn contains_text(names: &Vec<String>, name: &String) -> (r: bool)
    ensures
        r == texts(names@).contains(name@),
{
    let mut i: usize = 0;
    while i < names.len()
        invariant
            i <= names@.len(),
            forall|j: int| 0 <= j < i ==> texts(names@)[j] != name@,
        decreases names@.len() - i,
    {
        if names[i] == *name {
            assert(texts(names@)[i as int] == name@);
            return true;
        }
        i = i + 1;
    }
    false
}

/// Decides what the pattern `matcher` says of node `node`.
pub fn match_shape(tree: &SyntaxTree, node: usize, matcher: &Matcher) -> (o: Outcome)
    requires
        tree.wf(),
        node < tree@.len(),
    ensures
        o == shape_outcome(tree@, node, matcher@),
{
    if tree.kind(node) != matcher.kind() {
        return Outcome::Silent;
    }
    match matcher {
        Matcher::Kind(_) => Outcome::Fires,
        Matcher::CallTo { module, function } => match find_callee(tree, node) {
            Some(x) => {
                if is_function(tree, x, module, function) {
                    Outcome::Fires
                } else {
                    Outcome::Silent
                }
            },
            None => Outcome::Fault,
        },
        Matcher::MethodCall { names } => match find_callee(tree, node) {
            Some(x) => match find_method_name(tree, x) {
                Some(l) => {
                    if contains_text(names, tree.text(l)) {
                        Outcome::Fires
                    } else {
                        Outcome::Silent
                    }
                },
                None => Outcome::Silent,
            },
            None => Outcome::Fault,
        },
        Matcher::EmptyMessage { method } => match find_callee(tree, node) {
            Some(x) => match find_method_name(tree, x) {
                Some(l) => {
                    if *tree.text(l) == *method && has_no_message(tree, node) {
                        Outcome::Fires
                    } else {
                        Outcome::Silent
                    }
                },
                None => Outcome::Silent,
            },
            None => Outcome::Fault,
        },
        Matcher::ParameterOfType { ty } => match find_last_code_child(tree, node) {
            Some(d) => {
                if is_declared(tree, d, ty) {
                    Outcome::Fires
                } else {
                    Outcome::Silent
                }
            },
            None => Outcome::Fault,
        },
        Matcher::FieldOfType { ty } => match find_last_code_child(tree, node) {
            Some(d) => {
                if is_named_type(tree, d, ty) {
                    Outcome::Fires
                } else {
                    Outcome::Silent
                }
            },
            None => Outcome::Fault,
        },
        Matcher::MedialCapital => {
            if is_binding_name(tree, node) && medial_capital(tree.text(node).as_str().as_bytes()) {
                Outcome::Fires
            } else {
                Outcome::Silent
            }
        },
        Matcher::CastTo { types } => match find_last_code_child(tree, node) {
            Some(d) => {
                if find_first_code_child(tree, node) == Some(d) {
                    Outcome::Fault
                } else if tree.kind(d) == NodeKind::PrimitiveType && contains_text(
                    types,
                    tree.text(d),
                ) {
                    Outcome::Fires
                } else {
                    Outcome::Silent
                }
            },
            None => Outcome::Fault,
        },
    }
}

} // verus!
