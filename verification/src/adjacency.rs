//! Whether a justification comment stands directly above a construct.
//!
//! Only the run of comments that immediately precedes the construct counts:
//! the siblings just before it, read upwards until the first piece of code.
//! White space between them does not break the run. Where the construct has
//! nothing before it and is all the code that its parent holds, the parent
//! stands for it, and the run above the parent is read instead; a declaration
//! never stands for the code inside it, so what documents a function does not
//! justify a statement in its body. A comment inside the construct, further
//! up, or elsewhere in the file never counts.

use vstd::prelude::*;
use crate::shape::{backward, find_next_code_sibling, next_code_sibling};
use crate::text::{begins_with_marker, starts_with_marker, utf8};
use crate::tree::{node_wf, NodeKind, NodeView, SyntaxTree};

verus! {

/// The nearest node that is not white space among `start` and the siblings
/// before it.
pub open spec fn nearest_above(t: Seq<NodeView>, start: Option<usize>) -> Option<usize>
    decreases
        (match start {
            Some(i) => i + 1,
            None => 0,
        }),
{
    match start {
        Some(i) if i < t.len() => if t[i as int].kind == NodeKind::Whitespace {
            nearest_above(t, backward(t, i, t[i as int].prev_sibling))
        } else {
            Some(i)
        },
        _ => None,
    }
}

/// Whether the run of comments that ends at `start` holds a comment that
/// begins with `marker`. The run is read upwards from `start` and ends at the
/// first node that is neither a comment nor white space.
pub open spec fn run_is_marked(t: Seq<NodeView>, start: Option<usize>, marker: Seq<u8>) -> bool
    decreases
        (match start {
            Some(i) => i + 1,
            None => 0,
        }),
{
    match start {
        Some(i) if i < t.len() => {
            let above = backward(t, i, t[i as int].prev_sibling);
            if t[i as int].kind.spec_is_comment() {
                begins_with_marker(utf8(t[i as int].text), marker) || run_is_marked(
                    t,
                    above,
                    marker,
                )
            } else if t[i as int].kind == NodeKind::Whitespace {
                run_is_marked(t, above, marker)
            } else {
                false
            }
        },
        _ => false,
    }
}

/// Whether node `p` stands for its child `i` when a justification is looked
/// for: `p` is no declaration, and no code follows `i` under it.
pub open spec fn stands_for(t: Seq<NodeView>, p: usize, i: usize) -> bool {
    p < t.len() && !t[p as int].kind.spec_is_declaration() && next_code_sibling(t, i) is None
}

/// Whether a comment that begins with `marker` stands directly above node `i`.
pub open spec fn justified(t: Seq<NodeView>, i: usize, marker: Seq<u8>) -> bool
    decreases i,
{
    if i >= t.len() {
        false
    } else {
        let prev = backward(t, i, t[i as int].prev_sibling);
        if nearest_above(t, prev) is Some {
            run_is_marked(t, prev, marker)
        } else {
            match t[i as int].parent {
                Some(p) if p < i => stands_for(t, p, i) && justified(t, p, marker),
                _ => false,
            }
        }
    }
}

fn find_nearest_above(tree: &SyntaxTree, start: Option<usize>) -> (r: Option<usize>)
    requires
        tree.wf(),
        start matches Some(i) ==> i < tree@.len(),
    ensures
        r == nearest_above(tree@, start),
{
    let mut cur: Option<usize> = start;
    loop
        invariant
            tree.wf(),
            cur matches Some(i) ==> i < tree@.len(),
            nearest_above(tree@, cur) == nearest_above(tree@, start),
        decreases
            (match cur {
                Some(i) => i + 1,
                None => 0,
            }),
    {
        match cur {
            None => {
                return None;
            },
            Some(i) => {
                if tree.kind(i) != NodeKind::Whitespace {
                    return Some(i);
                }
                proof {
                    assert(node_wf(tree@, i as int));
                }
                cur = tree.prev_sibling(i);
            },
        }
    }
}

fn is_run_marked(tree: &SyntaxTree, start: Option<usize>, marker: &String) -> (r: bool)
    requires
        tree.wf(),
        start matches Some(i) ==> i < tree@.len(),
    ensures
        r == run_is_marked(tree@, start, utf8(marker@)),
{
    let mut cur: Option<usize> = start;
    loop
        invariant
            tree.wf(),
            cur matches Some(i) ==> i < tree@.len(),
            run_is_marked(tree@, cur, utf8(marker@)) == run_is_marked(
                tree@,
                start,
                utf8(marker@),
            ),
        decreases
            (match cur {
                Some(i) => i + 1,
                None => 0,
            }),
    {
        match cur {
            None => {
                return false;
            },
            Some(i) => {
                let k: NodeKind = tree.kind(i);
                if k.is_comment() {
                    if starts_with_marker(
                        tree.text(i).as_str().as_bytes(),
                        marker.as_str().as_bytes(),
                    ) {
                        return true;
                    }
                } else if k != NodeKind::Whitespace {
                    return false;
                }
                proof {
                    assert(node_wf(tree@, i as int));
                }
                cur = tree.prev_sibling(i);
            },
        }
    }
}

/// Decides whether a comment that begins with `marker` stands directly above
/// node `node`.
pub fn has_adjacent_justification(tree: &SyntaxTree, node: usize, marker: &String) -> (r: bool)
    requires
        tree.wf(),
        node < tree@.len(),
    ensures
        r == justified(tree@, node, utf8(marker@)),
{
    let mut cur: usize = node;
    loop
        invariant
            tree.wf(),
            cur < tree@.len(),
            justified(tree@, cur, utf8(marker@)) == justified(tree@, node, utf8(marker@)),
        decreases cur,
    {
        proof {
            assert(node_wf(tree@, cur as int));
        }
        let prev: Option<usize> = tree.prev_sibling(cur);
        if find_nearest_above(tree, prev).is_some() {
            return is_run_marked(tree, prev, marker);
        }
        match tree.parent(cur) {
            None => {
                return false;
            },
            Some(p) => {
                if tree.kind(p).is_declaration() {
                    return false;
                }
                if find_next_code_sibling(tree, cur).is_some() {
                    return false;
                }
                cur = p;
            },
        }
    }
}

/// A comment that begins with the marker and stands just before a node
/// justifies it.
pub proof fn lemma_marked_comment_above_justifies(
    t: Seq<NodeView>,
    i: usize,
    c: usize,
    marker: Seq<u8>,
)
    requires
        i < t.len(),
        c < i,
        t[i as int].prev_sibling == Some(c),
        t[c as int].kind.spec_is_comment(),
        begins_with_marker(utf8(t[c as int].text), marker),
    ensures
        justified(t, i, marker),
{
}

/// Code that stands just before a node leaves it without justification,
/// whatever comments the file holds elsewhere.
pub proof fn lemma_code_above_blocks(t: Seq<NodeView>, i: usize, c: usize, marker: Seq<u8>)
    requires
        i < t.len(),
        c < i,
        t[i as int].prev_sibling == Some(c),
        !t[c as int].kind.spec_is_trivia(),
    ensures
        !justified(t, i, marker),
{
}

/// A run without a comment that begins with the marker justifies nothing: if
/// a run is marked, one of the nodes in it, at or before its end, is a
/// comment that begins with the marker.
pub proof fn lemma_marked_run_has_witness(t: Seq<NodeView>, start: Option<usize>, marker: Seq<u8>)
    requires
        run_is_marked(t, start, marker),
    ensures
        exists|c: usize|
            c < t.len() && start is Some && c <= start->0 && (#[trigger] t[c as int]).kind.spec_is_comment()
                && begins_with_marker(utf8(t[c as int].text), marker),
    decreases
        (match start {
            Some(i) => i + 1,
            None => 0,
        }),
{
    let i = start->0;
    if t[i as int].kind.spec_is_comment() && begins_with_marker(utf8(t[i as int].text), marker) {
        assert(t[i as int].kind.spec_is_comment());
    } else {
        lemma_marked_run_has_witness(t, backward(t, i, t[i as int].prev_sibling), marker);
    }
}

/// The first node of a declaration's body is never justified by what stands
/// above the declaration: a node with nothing before it, whose parent is a
/// declaration, has no justification.
pub proof fn lemma_declaration_does_not_stand_in(t: Seq<NodeView>, i: usize, marker: Seq<u8>)
    requires
        i < t.len(),
        t[i as int].prev_sibling is None,
        t[i as int].parent matches Some(p) && p < t.len() && t[p as int].kind.spec_is_declaration(),
    ensures
        !justified(t, i, marker),
{
}

} // verus!
