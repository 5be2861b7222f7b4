//! The traversal visits every node of a tree, and each of them once.
//!
//! Document order is defined by the links of the tree alone: a node, then
//! what hangs below its first child, then what follows its next sibling. A
//! node is reached from exactly one other node, its earlier sibling or, for a
//! first child, its parent, and so stands in the order exactly once.

use vstd::prelude::*;
use crate::tree::{forward, node_wf, preorder, tree_wf, walk, NodeView};

verus! {

/// How often `j` stands in `s`.
pub open spec fn occurrences(s: Seq<usize>, j: usize) -> nat
    decreases s.len(),
{
    if s.len() == 0 {
        0
    } else {
        occurrences(s.drop_last(), j) + if s.last() == j {
            1nat
        } else {
            0nat
        }
    }
}

/// The node from which the traversal comes to `j`: the sibling before it or,
/// for a first child, the parent.
pub open spec fn came_from(t: Seq<NodeView>, j: usize) -> Option<usize> {
    match t[j as int].prev_sibling {
        Some(q) => Some(q),
        None => t[j as int].parent,
    }
}

/// Whether the traversal that starts at `i` comes to `j`.
pub open spec fn reaches(t: Seq<NodeView>, i: usize, j: usize) -> bool
    decreases j,
{
    j == i || (i < j && j < t.len() && (match came_from(t, j) {
        Some(p) if p < j => reaches(t, i, p),
        _ => false,
    }))
}

/// Whether the traversal that starts at `start`, if anywhere, comes to `j`.
pub open spec fn reaches_from(t: Seq<NodeView>, start: Option<usize>, j: usize) -> bool {
    match start {
        Some(i) => reaches(t, i, j),
        None => false,
    }
}

proof fn lemma_occurrences_concat(a: Seq<usize>, b: Seq<usize>, j: usize)
    ensures
        occurrences(a + b, j) == occurrences(a, j) + occurrences(b, j),
    decreases b.len(),
{
    if b.len() == 0 {
        assert(a + b =~= a);
    } else {
        assert((a + b).drop_last() =~= a + b.drop_last());
        assert((a + b).last() == b.last());
        lemma_occurrences_concat(a, b.drop_last(), j);
    }
}

proof fn lemma_reaches_forward(t: Seq<NodeView>, i: usize, j: usize)
    requires
        reaches(t, i, j),
    ensures
        i <= j,
{
}

/// The traversal from `i` comes to `j` if `j` is `i`, or if the traversal
/// from the first child of `i` or from its next sibling does; and by one of
/// these ways only.
proof fn lemma_reaches_splits(t: Seq<NodeView>, i: usize, j: usize)
    requires
        tree_wf(t),
        i < t.len(),
        j < t.len(),
    ensures
        reaches(t, i, j) == (j == i || reaches_from(t, t[i as int].first_child, j) || reaches_from(
            t,
            t[i as int].next_sibling,
            j,
        )),
        !(reaches_from(t, t[i as int].first_child, j) && reaches_from(
            t,
            t[i as int].next_sibling,
            j,
        )),
        j == i ==> !reaches_from(t, t[i as int].first_child, j) && !reaches_from(
            t,
            t[i as int].next_sibling,
            j,
        ),
    decreases j,
{
    let first = t[i as int].first_child;
    let next = t[i as int].next_sibling;
    assert(node_wf(t, i as int));
    assert(node_wf(t, j as int));
    assert(reaches(t, i, i));
    if let Some(c) = first {
        assert(node_wf(t, c as int));
        assert(reaches(t, c, c));
        if reaches(t, c, j) {
            lemma_reaches_forward(t, c, j);
        }
    }
    if let Some(s) = next {
        assert(node_wf(t, s as int));
        assert(reaches(t, s, s));
        if reaches(t, s, j) {
            lemma_reaches_forward(t, s, j);
        }
    }
    if j > i {
        let p = came_from(t, j)->0;
        assert(came_from(t, j) is Some && p < j);
        if p == i {
            if let Some(c) = first {
                if c != j && reaches(t, c, j) {
                    assert(reaches(t, c, i));
                    lemma_reaches_forward(t, c, i);
                }
            }
            if let Some(s) = next {
                if s != j && reaches(t, s, j) {
                    assert(reaches(t, s, i));
                    lemma_reaches_forward(t, s, i);
                }
            }
        } else {
            lemma_reaches_splits(t, i, p);
            if let Some(c) = first {
                if reaches(t, c, p) {
                    lemma_reaches_forward(t, c, p);
                }
            }
            if let Some(s) = next {
                if reaches(t, s, p) {
                    lemma_reaches_forward(t, s, p);
                }
            }
        }
    }
}

/// A node stands once in the walk from `start` if the walk comes to it, and
/// not at all if it does not.
proof fn lemma_walk_counts(t: Seq<NodeView>, start: Option<usize>, j: usize)
    requires
        tree_wf(t),
        start matches Some(i) ==> i < t.len(),
        j < t.len(),
    ensures
        occurrences(walk(t, start), j) == if reaches_from(t, start, j) {
            1nat
        } else {
            0nat
        },
    decreases
        (match start {
            Some(i) => t.len() - i,
            None => 0,
        }),
{
    if let Some(i) = start {
        assert(node_wf(t, i as int));
        let first = t[i as int].first_child;
        let next = t[i as int].next_sibling;
        assert(forward(t, i, first) == first);
        assert(forward(t, i, next) == next);
        lemma_walk_counts(t, first, j);
        lemma_walk_counts(t, next, j);
        lemma_reaches_splits(t, i, j);
        let head = seq![i];
        assert(head.drop_last() =~= Seq::<usize>::empty());
        assert(head.last() == i);
        assert(occurrences(head.drop_last(), j) == 0);
        assert(occurrences(head, j) == if i == j {
            1nat
        } else {
            0nat
        });
        lemma_occurrences_concat(head, walk(t, first), j);
        lemma_occurrences_concat(head + walk(t, first), walk(t, next), j);
    }
}

/// The traversal from the root comes to every node.
proof fn lemma_root_reaches_all(t: Seq<NodeView>, j: usize)
    requires
        tree_wf(t),
        j < t.len(),
    ensures
        reaches(t, 0, j),
    decreases j,
{
    assert(node_wf(t, j as int));
    if j > 0 {
        let p = came_from(t, j)->0;
        lemma_root_reaches_all(t, p);
    }
}

/// Every node of a tree stands in its document order exactly once.
pub proof fn lemma_preorder_visits_each_node_once(t: Seq<NodeView>, j: usize)
    requires
        tree_wf(t),
        j < t.len(),
    ensures
        occurrences(preorder(t), j) == 1,
{
    lemma_root_reaches_all(t, j);
    lemma_walk_counts(t, Some(0usize), j);
}

} // verus!
