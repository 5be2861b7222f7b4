//! What holds of every analysis.
//!
//! The statements here relate the functions of the engine to one another.
//! Each is proved from the specifications that the functions' own contracts
//! use, so it holds of every tree, every catalog and every file.

use vstd::prelude::*;
use crate::aggregate::{aggregated, lemma_aggregated_draws_from};
use crate::catalog::catalog_wf;
use crate::engine::{
    analysis, evaluate, fired, raw_matches, reported, AnalysisErrorView,
};
use crate::harness::fires_in;
use crate::rule::{MatcherView, RuleView};
use crate::adjacency::justified;
use crate::shape::{shape_outcome, Outcome};
use crate::text::utf8;
use crate::tree::{preorder, NodeView};
use crate::violation::{violation_of, ViolationView};

verus! {

/// A rule fires only on a node of the kind that its pattern looks for.
pub proof fn lemma_fires_only_on_its_kind(t: Seq<NodeView>, node: usize, rule: RuleView)
    requires
        evaluate(t, node, rule) == Outcome::Fires,
    ensures
        node < t.len(),
        t[node as int].kind == rule.matcher.kind(),
{
}

/// Where the pattern of a rule matches a node, the rule fires unless it
/// accepts a justification and one stands directly above the node.
pub proof fn lemma_justification_decides(t: Seq<NodeView>, node: usize, rule: RuleView)
    requires
        shape_outcome(t, node, rule.matcher) == Outcome::Fires,
    ensures
        evaluate(t, node, rule) == Outcome::Fires <==> !(rule.justification matches Some(marker)
            && justified(t, node, utf8(marker))),
        evaluate(t, node, rule) != Outcome::Fault,
{
}

/// No pattern but `Kind` looks for comments, white space or string literals:
/// the constructs that rules name are code.
pub proof fn lemma_patterns_look_for_code(m: MatcherView)
    requires
        !(m is Kind),
    ensures
        !m.kind().spec_is_prose(),
        !m.kind().spec_is_trivia(),
{
}

/// Every violation reported for a node comes from a rule that fires on it.
pub proof fn lemma_fired_comes_from_a_rule(
    t: Seq<NodeView>,
    rules: Seq<RuleView>,
    file: Seq<char>,
    node: usize,
    upto: int,
    i: int,
)
    requires
        0 <= upto <= rules.len(),
        0 <= i < fired(t, rules, file, node, upto).len(),
    ensures
        exists|r: int|
            0 <= r < upto && evaluate(t, node, #[trigger] rules[r]) == Outcome::Fires && fired(
                t,
                rules,
                file,
                node,
                upto,
            )[i] == violation_of(rules[r], file, t[node as int].span),
    decreases upto,
{
    let before = fired(t, rules, file, node, upto - 1);
    if i < before.len() {
        lemma_fired_comes_from_a_rule(t, rules, file, node, upto - 1, i);
        let r = choose|r: int|
            0 <= r < upto - 1 && evaluate(t, node, #[trigger] rules[r]) == Outcome::Fires
                && before[i] == violation_of(rules[r], file, t[node as int].span);
        assert(fired(t, rules, file, node, upto)[i] == before[i]);
    } else {
        assert(evaluate(t, node, rules[upto - 1]) == Outcome::Fires);
    }
}

/// Every raw match comes from a node of the traversal and a rule that fires
/// on it.
pub proof fn lemma_match_comes_from_a_node(
    t: Seq<NodeView>,
    rules: Seq<RuleView>,
    file: Seq<char>,
    order: Seq<usize>,
    upto: int,
    i: int,
)
    requires
        0 <= upto <= order.len(),
        0 <= i < reported(t, rules, file, order, upto).len(),
    ensures
        exists|k: int, r: int|
            0 <= k < upto && 0 <= r < rules.len() && evaluate(
                t,
                #[trigger] order[k],
                #[trigger] rules[r],
            ) == Outcome::Fires && reported(t, rules, file, order, upto)[i] == violation_of(
                rules[r],
                file,
                t[order[k] as int].span,
            ),
    decreases upto,
{
    let before = reported(t, rules, file, order, upto - 1);
    let node = order[upto - 1];
    let here = fired(t, rules, file, node, rules.len() as int);
    if i < before.len() {
        lemma_match_comes_from_a_node(t, rules, file, order, upto - 1, i);
        let (k, r) = choose|k: int, r: int|
            0 <= k < upto - 1 && 0 <= r < rules.len() && evaluate(
                t,
                #[trigger] order[k],
                #[trigger] rules[r],
            ) == Outcome::Fires && before[i] == violation_of(
                rules[r],
                file,
                t[order[k] as int].span,
            );
        assert(reported(t, rules, file, order, upto)[i] == before[i]);
        assert(evaluate(t, order[k], rules[r]) == Outcome::Fires);
    } else {
        lemma_fired_comes_from_a_rule(t, rules, file, node, rules.len() as int, i - before.len());
        let r = choose|r: int|
            0 <= r < rules.len() && evaluate(t, node, #[trigger] rules[r]) == Outcome::Fires
                && here[i - before.len()] == violation_of(rules[r], file, t[node as int].span);
        assert(reported(t, rules, file, order, upto)[i] == here[i - before.len()]);
        assert(evaluate(t, order[upto - 1], rules[r]) == Outcome::Fires);
    }
}

/// A rule reports nothing for a file that holds no node of the kind that its
/// pattern looks for, whatever the comments and string literals of the file
/// say: a file that only mentions a construct does not contain it.
pub proof fn lemma_silent_without_its_kind(
    t: Seq<NodeView>,
    rules: Seq<RuleView>,
    file: Seq<char>,
    r: int,
)
    requires
        catalog_wf(rules),
        0 <= r < rules.len(),
        forall|n: int| 0 <= n < t.len() ==> (#[trigger] t[n]).kind != rules[r].matcher.kind(),
    ensures
        raw_matches(t, rules, file) matches Ok(raw) ==> !fires_in(raw, rules[r].id),
        analysis(Ok(t), rules, file) matches Ok(report) ==> !fires_in(report, rules[r].id),
{
    if let Ok(raw) = raw_matches(t, rules, file) {
        let order = preorder(t);
        assert forall|i: int| 0 <= i < raw.len() implies (#[trigger] raw[i]).rule_id
            != rules[r].id by {
            lemma_match_comes_from_a_node(t, rules, file, order, order.len() as int, i);
            let (k, q) = choose|k: int, q: int|
                0 <= k < order.len() && 0 <= q < rules.len() && evaluate(
                    t,
                    #[trigger] order[k],
                    #[trigger] rules[q],
                ) == Outcome::Fires && raw[i] == violation_of(
                    rules[q],
                    file,
                    t[order[k] as int].span,
                );
            lemma_fires_only_on_its_kind(t, order[k], rules[q]);
            assert(t[order[k] as int].kind == rules[q].matcher.kind());
            if q != r {
                if q < r {
                    assert(rules[q].id != rules[r].id);
                } else {
                    assert(rules[r].id != rules[q].id);
                }
            }
        }
        let report = aggregated(raw);
        assert forall|i: int| 0 <= i < report.len() implies (#[trigger] report[i]).rule_id
            != rules[r].id by {
            lemma_aggregated_draws_from(raw, i);
        }
    }
}

/// How often the rule `id` is named in `s`.
pub open spec fn count_of(s: Seq<ViolationView>, id: Seq<char>) -> nat
    decreases s.len(),
{
    if s.len() == 0 {
        0
    } else {
        count_of(s.drop_last(), id) + if s.last().rule_id == id {
            1nat
        } else {
            0nat
        }
    }
}

/// On how many of the first `upto` nodes of `order` the rule fires.
pub open spec fn firings(t: Seq<NodeView>, rule: RuleView, order: Seq<usize>, upto: int) -> nat
    decreases upto,
{
    if upto <= 0 {
        0
    } else {
        firings(t, rule, order, upto - 1) + if evaluate(t, order[upto - 1], rule)
            == Outcome::Fires {
            1nat
        } else {
            0nat
        }
    }
}

/// Counting in two sequences counts in what they make together.
pub proof fn lemma_count_of_concat(a: Seq<ViolationView>, b: Seq<ViolationView>, id: Seq<char>)
    ensures
        count_of(a + b, id) == count_of(a, id) + count_of(b, id),
    decreases b.len(),
{
    if b.len() == 0 {
        assert(a + b =~= a);
    } else {
        assert((a + b).drop_last() =~= a + b.drop_last());
        assert((a + b).last() == b.last());
        lemma_count_of_concat(a, b.drop_last(), id);
    }
}

/// Among the violations reported for one node, a rule is named once if it
/// fires on the node and not at all if it does not.
pub proof fn lemma_one_violation_per_rule(
    t: Seq<NodeView>,
    rules: Seq<RuleView>,
    file: Seq<char>,
    node: usize,
    upto: int,
    r: int,
)
    requires
        catalog_wf(rules),
        0 <= upto <= rules.len(),
        0 <= r < rules.len(),
    ensures
        count_of(fired(t, rules, file, node, upto), rules[r].id) == if r < upto && evaluate(
            t,
            node,
            rules[r],
        ) == Outcome::Fires {
            1nat
        } else {
            0nat
        },
    decreases upto,
{
    if upto > 0 {
        lemma_one_violation_per_rule(t, rules, file, node, upto - 1, r);
        let before = fired(t, rules, file, node, upto - 1);
        let q = upto - 1;
        if evaluate(t, node, rules[q]) == Outcome::Fires {
            let v = violation_of(rules[q], file, t[node as int].span);
            assert(before.push(v).drop_last() =~= before);
            if q < r {
                assert(rules[q].id != rules[r].id);
            } else if r < q {
                assert(rules[r].id != rules[q].id);
            }
        }
    }
}

/// A rule is named in the raw matches once for every node of the traversal
/// on which it fires: one violation for each place where the construct
/// stands, however it is written there.
pub proof fn lemma_one_violation_per_firing(
    t: Seq<NodeView>,
    rules: Seq<RuleView>,
    file: Seq<char>,
    order: Seq<usize>,
    upto: int,
    r: int,
)
    requires
        catalog_wf(rules),
        0 <= upto <= order.len(),
        0 <= r < rules.len(),
    ensures
        count_of(reported(t, rules, file, order, upto), rules[r].id) == firings(
            t,
            rules[r],
            order,
            upto,
        ),
    decreases upto,
{
    if upto > 0 {
        lemma_one_violation_per_firing(t, rules, file, order, upto - 1, r);
        let before = reported(t, rules, file, order, upto - 1);
        let here = fired(t, rules, file, order[upto - 1], rules.len() as int);
        lemma_count_of_concat(before, here, rules[r].id);
        lemma_one_violation_per_rule(t, rules, file, order[upto - 1], rules.len() as int, r);
    }
}

/// Two analyses of the same file with the same catalog give the same
/// outcome: the same violations in the same order, or the same error.
pub proof fn lemma_analysis_is_deterministic(
    parsed: Result<Seq<NodeView>, Seq<char>>,
    rules: Seq<RuleView>,
    file: Seq<char>,
    first: Result<Seq<ViolationView>, AnalysisErrorView>,
    second: Result<Seq<ViolationView>, AnalysisErrorView>,
)
    requires
        first == analysis(parsed, rules, file),
        second == analysis(parsed, rules, file),
    ensures
        first == second,
{
}

/// A file that could not be parsed has an error that names it, and only such
/// a file has: a failure of the parser on one file shows in the outcome of
/// that file and of no other.
pub proof fn lemma_parse_failure_is_isolated(
    parsed: Result<Seq<NodeView>, Seq<char>>,
    rules: Seq<RuleView>,
    file: Seq<char>,
)
    ensures
        parsed matches Err(message) ==> analysis(parsed, rules, file) == Err::<
            Seq<ViolationView>,
            AnalysisErrorView,
        >(AnalysisErrorView::Parse { file, message }),
        parsed is Ok ==> !(analysis(parsed, rules, file) matches Err(
            AnalysisErrorView::Parse { .. },
        )),
{
}

} // verus!
