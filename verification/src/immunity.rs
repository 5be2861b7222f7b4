//! What is written in comments and string literals is never taken for code.
//!
//! Two trees that differ only in the text of their comments and string
//! literals hold the same code. A pattern says the same of a node in both:
//! it reads kinds, links and the texts of names, never what a comment or a
//! string says (of a string literal it sees only whether it is empty). A
//! rule that accepts a justification reads comments for that marker and for
//! nothing else, so it too is blind to what the strings of a file say.

use vstd::prelude::*;
use crate::adjacency::{justified, nearest_above, run_is_marked};
use crate::engine::evaluate;
use crate::rule::{MatcherView, RuleView};
use crate::shape::{
    backward, callee, code_back_from, code_from, declares, first_code_child, last_code_child,
    method_name, named_type, names_binding, names_function, next_code_sibling,
    passes_no_message, prev_code_sibling, scoped_name, shape_outcome,
};
use crate::text::utf8;
use crate::tree::{forward, NodeKind, NodeView};

verus! {

/// Two nodes that are alike but for what they say, if they are a comment or
/// a string literal. A string literal is empty in both or in neither.
pub open spec fn same_code_at(x: NodeView, y: NodeView) -> bool {
    &&& x.kind == y.kind
    &&& x.span == y.span
    &&& x.parent == y.parent
    &&& x.prev_sibling == y.prev_sibling
    &&& x.next_sibling == y.next_sibling
    &&& x.first_child == y.first_child
    &&& x.last_child == y.last_child
    &&& !x.kind.spec_is_prose() ==> x.text == y.text
    &&& x.kind == NodeKind::StringLiteral ==> (x.text.len() == 0 <==> y.text.len() == 0)
}

/// Two trees that hold the same code.
pub open spec fn same_code(a: Seq<NodeView>, b: Seq<NodeView>) -> bool {
    &&& a.len() == b.len()
    &&& forall|i: int| 0 <= i < a.len() ==> same_code_at(#[trigger] a[i], b[i])
}

/// Two trees whose comments say the same.
pub open spec fn same_comments(a: Seq<NodeView>, b: Seq<NodeView>) -> bool {
    &&& a.len() == b.len()
    &&& forall|i: int|
        0 <= i < a.len() && (#[trigger] a[i]).kind.spec_is_comment() ==> a[i].text == b[i].text
}

proof fn lemma_code_from_alike(a: Seq<NodeView>, b: Seq<NodeView>, start: Option<usize>)
    requires
        same_code(a, b),
    ensures
        code_from(a, start) == code_from(b, start),
    decreases
        (match start {
            Some(i) => a.len() - i,
            None => 0,
        }),
{
    if let Some(i) = start {
        if i < a.len() {
            assert(same_code_at(a[i as int], b[i as int]));
            lemma_code_from_alike(a, b, forward(a, i, a[i as int].next_sibling));
        }
    }
}

proof fn lemma_code_back_from_alike(a: Seq<NodeView>, b: Seq<NodeView>, start: Option<usize>)
    requires
        same_code(a, b),
    ensures
        code_back_from(a, start) == code_back_from(b, start),
    decreases
        (match start {
            Some(i) => i + 1,
            None => 0,
        }),
{
    if let Some(i) = start {
        if i < a.len() {
            assert(same_code_at(a[i as int], b[i as int]));
            lemma_code_back_from_alike(a, b, backward(a, i, a[i as int].prev_sibling));
        }
    }
}

proof fn lemma_code_from_in_range(a: Seq<NodeView>, start: Option<usize>)
    ensures
        code_from(a, start) matches Some(j) ==> j < a.len(),
    decreases
        (match start {
            Some(i) => a.len() - i,
            None => 0,
        }),
{
    if let Some(i) = start {
        if i < a.len() {
            lemma_code_from_in_range(a, forward(a, i, a[i as int].next_sibling));
        }
    }
}

proof fn lemma_code_back_from_in_range(a: Seq<NodeView>, start: Option<usize>)
    ensures
        code_back_from(a, start) matches Some(j) ==> j < a.len(),
    decreases
        (match start {
            Some(i) => i + 1,
            None => 0,
        }),
{
    if let Some(i) = start {
        if i < a.len() {
            lemma_code_back_from_in_range(a, backward(a, i, a[i as int].prev_sibling));
        }
    }
}

spec fn within(link: Option<usize>, n: nat) -> bool {
    link matches Some(j) ==> j < n
}

/// The code children and code siblings of a node are the same nodes in both
/// trees, and nodes of the trees.
spec fn steps_alike(a: Seq<NodeView>, b: Seq<NodeView>) -> bool {
    &&& forall|i: usize| #[trigger] first_code_child(a, i) == first_code_child(b, i)
    &&& forall|i: usize| #[trigger] last_code_child(a, i) == last_code_child(b, i)
    &&& forall|i: usize| #[trigger] next_code_sibling(a, i) == next_code_sibling(b, i)
    &&& forall|i: usize| #[trigger] prev_code_sibling(a, i) == prev_code_sibling(b, i)
    &&& forall|i: usize| within(#[trigger] first_code_child(a, i), a.len())
    &&& forall|i: usize| within(#[trigger] last_code_child(a, i), a.len())
    &&& forall|i: usize| within(#[trigger] next_code_sibling(a, i), a.len())
    &&& forall|i: usize| within(#[trigger] prev_code_sibling(a, i), a.len())
}

proof fn lemma_steps_alike(a: Seq<NodeView>, b: Seq<NodeView>)
    requires
        same_code(a, b),
    ensures
        steps_alike(a, b),
{
    assert forall|i: usize| #[trigger] first_code_child(a, i) == first_code_child(b, i) by {
        if i < a.len() {
            assert(same_code_at(a[i as int], b[i as int]));
            lemma_code_from_alike(a, b, forward(a, i, a[i as int].first_child));
        }
    }
    assert forall|i: usize| #[trigger] last_code_child(a, i) == last_code_child(b, i) by {
        if i < a.len() {
            assert(same_code_at(a[i as int], b[i as int]));
            lemma_code_back_from_alike(a, b, forward(a, i, a[i as int].last_child));
        }
    }
    assert forall|i: usize| #[trigger] next_code_sibling(a, i) == next_code_sibling(b, i) by {
        if i < a.len() {
            assert(same_code_at(a[i as int], b[i as int]));
            lemma_code_from_alike(a, b, forward(a, i, a[i as int].next_sibling));
        }
    }
    assert forall|i: usize| #[trigger] prev_code_sibling(a, i) == prev_code_sibling(b, i) by {
        if i < a.len() {
            assert(same_code_at(a[i as int], b[i as int]));
            lemma_code_back_from_alike(a, b, backward(a, i, a[i as int].prev_sibling));
        }
    }
    assert forall|i: usize| within(#[trigger] first_code_child(a, i), a.len()) by {
        if i < a.len() {
            lemma_code_from_in_range(a, forward(a, i, a[i as int].first_child));
        }
    }
    assert forall|i: usize| within(#[trigger] last_code_child(a, i), a.len()) by {
        if i < a.len() {
            lemma_code_back_from_in_range(a, forward(a, i, a[i as int].last_child));
        }
    }
    assert forall|i: usize| within(#[trigger] next_code_sibling(a, i), a.len()) by {
        if i < a.len() {
            lemma_code_from_in_range(a, forward(a, i, a[i as int].next_sibling));
        }
    }
    assert forall|i: usize| within(#[trigger] prev_code_sibling(a, i), a.len()) by {
        if i < a.len() {
            lemma_code_back_from_in_range(a, backward(a, i, a[i as int].prev_sibling));
        }
    }
}

proof fn lemma_callee_alike(a: Seq<NodeView>, b: Seq<NodeView>, call: usize)
    requires
        same_code(a, b),
        steps_alike(a, b),
    ensures
        callee(a, call) == callee(b, call),
        callee(a, call) matches Some(x) ==> x < a.len(),
{
    if let Some(f) = first_code_child(a, call) {
        assert(same_code_at(a[f as int], b[f as int]));
    }
}

proof fn lemma_scoped_name_alike(a: Seq<NodeView>, b: Seq<NodeView>, x: usize)
    requires
        same_code(a, b),
        steps_alike(a, b),
    ensures
        scoped_name(a, x) == scoped_name(b, x),
{
    if let Some(l) = last_code_child(a, x) {
        assert(same_code_at(a[l as int], b[l as int]));
    }
}

proof fn lemma_names_function_alike(
    a: Seq<NodeView>,
    b: Seq<NodeView>,
    x: usize,
    module: Seq<char>,
    function: Seq<char>,
)
    requires
        same_code(a, b),
        steps_alike(a, b),
        x < a.len(),
    ensures
        names_function(a, x, module, function) == names_function(b, x, module, function),
{
    assert(same_code_at(a[x as int], b[x as int]));
    lemma_scoped_name_alike(a, b, x);
    if let Some(q) = first_code_child(a, x) {
        assert(same_code_at(a[q as int], b[q as int]));
        lemma_scoped_name_alike(a, b, q);
    }
}

proof fn lemma_method_name_alike(a: Seq<NodeView>, b: Seq<NodeView>, x: usize)
    requires
        same_code(a, b),
        steps_alike(a, b),
        x < a.len(),
    ensures
        method_name(a, x) == method_name(b, x),
{
    assert(same_code_at(a[x as int], b[x as int]));
    if let Some(l) = last_code_child(a, x) {
        assert(same_code_at(a[l as int], b[l as int]));
    }
}

proof fn lemma_passes_no_message_alike(a: Seq<NodeView>, b: Seq<NodeView>, call: usize)
    requires
        same_code(a, b),
        steps_alike(a, b),
    ensures
        passes_no_message(a, call) == passes_no_message(b, call),
{
    if let Some(f) = first_code_child(a, call) {
        if let Some(args) = next_code_sibling(a, f) {
            assert(same_code_at(a[args as int], b[args as int]));
            if let Some(m) = first_code_child(a, args) {
                assert(same_code_at(a[m as int], b[m as int]));
            }
        }
    }
}

proof fn lemma_named_type_alike(a: Seq<NodeView>, b: Seq<NodeView>, d: usize, name: Seq<char>)
    requires
        same_code(a, b),
        steps_alike(a, b),
        d < a.len(),
    ensures
        named_type(a, d, name) == named_type(b, d, name),
{
    assert(same_code_at(a[d as int], b[d as int]));
    if let Some(h) = first_code_child(a, d) {
        assert(same_code_at(a[h as int], b[h as int]));
    }
}

proof fn lemma_declares_alike(a: Seq<NodeView>, b: Seq<NodeView>, d: usize, name: Seq<char>)
    requires
        same_code(a, b),
        steps_alike(a, b),
        d < a.len(),
    ensures
        declares(a, d, name) == declares(b, d, name),
{
    assert(same_code_at(a[d as int], b[d as int]));
    lemma_named_type_alike(a, b, d, name);
    if let Some(inner) = last_code_child(a, d) {
        lemma_named_type_alike(a, b, inner, name);
        if let Some(m) = prev_code_sibling(a, inner) {
            assert(same_code_at(a[m as int], b[m as int]));
        }
    }
}

proof fn lemma_names_binding_alike(a: Seq<NodeView>, b: Seq<NodeView>, i: usize)
    requires
        same_code(a, b),
        steps_alike(a, b),
        i < a.len(),
    ensures
        names_binding(a, i) == names_binding(b, i),
{
    assert(same_code_at(a[i as int], b[i as int]));
    if let Some(p) = a[i as int].parent {
        if p < a.len() {
            assert(same_code_at(a[p as int], b[p as int]));
        }
    }
    if let Some(m) = prev_code_sibling(a, i) {
        assert(same_code_at(a[m as int], b[m as int]));
    }
}

/// A pattern says the same of a node in two trees that hold the same code:
/// no pattern reads what a comment or a string literal says.
pub proof fn lemma_patterns_do_not_read_prose(
    a: Seq<NodeView>,
    b: Seq<NodeView>,
    node: usize,
    m: MatcherView,
)
    requires
        same_code(a, b),
    ensures
        shape_outcome(a, node, m) == shape_outcome(b, node, m),
{
    lemma_steps_alike(a, b);
    if node < a.len() {
        assert(same_code_at(a[node as int], b[node as int]));
        match m {
            MatcherView::Kind(_) => {},
            MatcherView::CallTo { module, function } => {
                lemma_callee_alike(a, b, node);
                if let Some(x) = callee(a, node) {
                    lemma_names_function_alike(a, b, x, module, function);
                }
            },
            MatcherView::MethodCall { names } => {
                lemma_callee_alike(a, b, node);
                if let Some(x) = callee(a, node) {
                    lemma_method_name_alike(a, b, x);
                }
            },
            MatcherView::EmptyMessage { method } => {
                lemma_callee_alike(a, b, node);
                if let Some(x) = callee(a, node) {
                    lemma_method_name_alike(a, b, x);
                }
                lemma_passes_no_message_alike(a, b, node);
            },
            MatcherView::ParameterOfType { ty } => {
                if let Some(d) = last_code_child(a, node) {
                    lemma_declares_alike(a, b, d, ty);
                }
            },
            MatcherView::FieldOfType { ty } => {
                if let Some(d) = last_code_child(a, node) {
                    lemma_named_type_alike(a, b, d, ty);
                }
            },
            MatcherView::MedialCapital => {
                lemma_names_binding_alike(a, b, node);
            },
            MatcherView::CastTo { types } => {
                if let Some(d) = last_code_child(a, node) {
                    assert(same_code_at(a[d as int], b[d as int]));
                }
            },
        }
    }
}

proof fn lemma_nearest_above_alike(a: Seq<NodeView>, b: Seq<NodeView>, start: Option<usize>)
    requires
        same_code(a, b),
    ensures
        nearest_above(a, start) == nearest_above(b, start),
    decreases
        (match start {
            Some(i) => i + 1,
            None => 0,
        }),
{
    if let Some(i) = start {
        if i < a.len() {
            assert(same_code_at(a[i as int], b[i as int]));
            lemma_nearest_above_alike(a, b, backward(a, i, a[i as int].prev_sibling));
        }
    }
}

proof fn lemma_run_alike(
    a: Seq<NodeView>,
    b: Seq<NodeView>,
    start: Option<usize>,
    marker: Seq<u8>,
)
    requires
        same_code(a, b),
        same_comments(a, b),
    ensures
        run_is_marked(a, start, marker) == run_is_marked(b, start, marker),
    decreases
        (match start {
            Some(i) => i + 1,
            None => 0,
        }),
{
    if let Some(i) = start {
        if i < a.len() {
            assert(same_code_at(a[i as int], b[i as int]));
            lemma_run_alike(a, b, backward(a, i, a[i as int].prev_sibling), marker);
        }
    }
}

proof fn lemma_justified_alike(a: Seq<NodeView>, b: Seq<NodeView>, i: usize, marker: Seq<u8>)
    requires
        same_code(a, b),
        same_comments(a, b),
    ensures
        justified(a, i, marker) == justified(b, i, marker),
    decreases i,
{
    if i < a.len() {
        assert(same_code_at(a[i as int], b[i as int]));
        let prev = backward(a, i, a[i as int].prev_sibling);
        lemma_nearest_above_alike(a, b, prev);
        lemma_run_alike(a, b, prev, marker);
        lemma_code_from_alike(a, b, forward(a, i, a[i as int].next_sibling));
        if let Some(p) = a[i as int].parent {
            if p < i {
                assert(same_code_at(a[p as int], b[p as int]));
                lemma_justified_alike(a, b, p, marker);
            }
        }
    }
}

/// A rule says the same of a node in two trees that hold the same code,
/// provided that the rule accepts no justification or that the comments of
/// the two trees say the same. What the string literals say never matters.
pub proof fn lemma_rules_do_not_read_prose(
    a: Seq<NodeView>,
    b: Seq<NodeView>,
    node: usize,
    rule: RuleView,
)
    requires
        same_code(a, b),
        rule.justification is None || same_comments(a, b),
    ensures
        evaluate(a, node, rule) == evaluate(b, node, rule),
{
    lemma_patterns_do_not_read_prose(a, b, node, rule.matcher);
    if let Some(marker) = rule.justification {
        lemma_justified_alike(a, b, node, utf8(marker));
    }
}

} // verus!
