//! The query engine: one traversal of a tree, asking at each node the rules
//! that look for its kind.
//!
//! The nodes are visited in document order and the rules of a node are asked
//! in the order of the catalog, so the raw matches of a file come out in one
//! fixed order. A rule fires on a node when its pattern matches and, if the
//! rule accepts a justification, none stands above the node. A node that the
//! pattern of a rule cannot judge is a fault of the analysis: the file then
//! has no report, and the error names the rule and the node of the first
//! fault in the order of the traversal.

use vstd::prelude::*;
use crate::adjacency::{has_adjacent_justification, justified};
use crate::aggregate::{aggregate, aggregated, Report};
use crate::catalog::{files_under, lemma_gap_has_other_kinds, RuleCatalog};
use crate::rule::{Rule, RuleView};
use crate::shape::{match_shape, shape_outcome, Outcome};
use crate::text::utf8;
use crate::tree::{preorder, NodeKind, NodeView, Span, SyntaxTree};
use crate::violation::{lemma_views_push, violation_of, views, Violation, ViolationView};

verus! {

/// What a parser reports of a file that it could not turn into a tree.
#[derive(Clone, Debug, PartialEq, Eq)]
pub struct ParseError {
    pub message: String,
}

/// Why a file has no report.
#[derive(Debug, PartialEq, Eq)]
pub enum AnalysisError {
    /// The file could not be parsed.
    Parse { file: String, message: String },
    /// The rule `rule_id` could not judge the node at `span`.
    RuleFault { file: String, rule_id: String, span: Span },
}

/// An `AnalysisError` with its texts as sequences of characters.
pub enum AnalysisErrorView {
    Parse { file: Seq<char>, message: Seq<char> },
    RuleFault { file: Seq<char>, rule_id: Seq<char>, span: Span },
}

impl View for AnalysisError {
    type V = AnalysisErrorView;

    open spec fn view(&self) -> AnalysisErrorView {
        match *self {
            AnalysisError::Parse { file, message } => AnalysisErrorView::Parse {
                file: file@,
                message: message@,
            },
            AnalysisError::RuleFault { file, rule_id, span } => AnalysisErrorView::RuleFault {
                file: file@,
                rule_id: rule_id@,
                span,
            },
        }
    }
}

/// What `rule` says of node `node`: what its pattern says, but silence where
/// the pattern matches and the justification that the rule accepts stands
/// above the node.
pub open spec fn evaluate(t: Seq<NodeView>, node: usize, rule: RuleView) -> Outcome {
    let shape = shape_outcome(t, node, rule.matcher);
    match rule.justification {
        Some(marker) => if shape == Outcome::Fires && justified(t, node, utf8(marker)) {
            Outcome::Silent
        } else {
            shape
        },
        None => shape,
    }
}

/// Decides what `rule` says of node `node`.
pub fn judge(tree: &SyntaxTree, node: usize, rule: &Rule) -> (o: Outcome)
    requires
        tree.wf(),
        node < tree@.len(),
    ensures
        o == evaluate(tree@, node, rule@),
{
    let shape: Outcome = match_shape(tree, node, &rule.matcher);
    match &rule.justification {
        Some(marker) => {
            if shape == Outcome::Fires && has_adjacent_justification(tree, node, marker) {
                Outcome::Silent
            } else {
                shape
            }
        },
        None => shape,
    }
}

/// The violations that the first `upto` rules report for node `node`, in the
/// order of the rules.
pub open spec fn fired(
    t: Seq<NodeView>,
    rules: Seq<RuleView>,
    file: Seq<char>,
    node: usize,
    upto: int,
) -> Seq<ViolationView>
    decreases upto,
{
    if upto <= 0 {
        Seq::empty()
    } else {
        let before = fired(t, rules, file, node, upto - 1);
        if evaluate(t, node, rules[upto - 1]) == Outcome::Fires {
            before.push(violation_of(rules[upto - 1], file, t[node as int].span))
        } else {
            before
        }
    }
}

/// The violations that the rules report for the first `upto` nodes of
/// `order`, node by node.
pub open spec fn reported(
    t: Seq<NodeView>,
    rules: Seq<RuleView>,
    file: Seq<char>,
    order: Seq<usize>,
    upto: int,
) -> Seq<ViolationView>
    decreases upto,
{
    if upto <= 0 {
        Seq::empty()
    } else {
        reported(t, rules, file, order, upto - 1) + fired(
            t,
            rules,
            file,
            order[upto - 1],
            rules.len() as int,
        )
    }
}

/// The first rule from position `from` on that cannot judge node `node`.
pub open spec fn first_fault_of(
    t: Seq<NodeView>,
    rules: Seq<RuleView>,
    node: usize,
    from: int,
) -> Option<int>
    decreases rules.len() - from,
{
    if from < 0 || from >= rules.len() {
        None
    } else if evaluate(t, node, rules[from]) == Outcome::Fault {
        Some(from)
    } else {
        first_fault_of(t, rules, node, from + 1)
    }
}

/// The first fault from position `from` of `order` on: the position of the
/// node in `order` and the position of the rule in the catalog.
pub open spec fn first_fault(
    t: Seq<NodeView>,
    rules: Seq<RuleView>,
    order: Seq<usize>,
    from: int,
) -> Option<(int, int)>
    decreases order.len() - from,
{
    if from < 0 || from >= order.len() {
        None
    } else {
        match first_fault_of(t, rules, order[from], 0) {
            Some(r) => Some((from, r)),
            None => first_fault(t, rules, order, from + 1),
        }
    }
}

/// The raw matches of a file: what the rules report for the nodes of the tree
/// in document order, or the first fault.
pub open spec fn raw_matches(t: Seq<NodeView>, rules: Seq<RuleView>, file: Seq<char>) -> Result<
    Seq<ViolationView>,
    AnalysisErrorView,
> {
    let order = preorder(t);
    match first_fault(t, rules, order, 0) {
        Some((k, r)) => Err(
            AnalysisErrorView::RuleFault {
                file,
                rule_id: rules[r].id,
                span: t[order[k] as int].span,
            },
        ),
        None => Ok(reported(t, rules, file, order, order.len() as int)),
    }
}

/// What the analysis of a file gives: the error of the parser, or the first
/// fault, or the report of the raw matches.
pub open spec fn analysis(
    parsed: Result<Seq<NodeView>, Seq<char>>,
    rules: Seq<RuleView>,
    file: Seq<char>,
) -> Result<Seq<ViolationView>, AnalysisErrorView> {
    match parsed {
        Ok(t) => match raw_matches(t, rules, file) {
            Ok(raw) => Ok(aggregated(raw)),
            Err(e) => Err(e),
        },
        Err(message) => Err(AnalysisErrorView::Parse { file, message }),
    }
}

/// Rules that stay silent on a node add nothing to what is reported for it.
pub proof fn lemma_fired_skips_silent(
    t: Seq<NodeView>,
    rules: Seq<RuleView>,
    file: Seq<char>,
    node: usize,
    from: int,
    to: int,
)
    requires
        0 <= from <= to <= rules.len(),
        forall|i: int| from <= i < to ==> evaluate(t, node, #[trigger] rules[i]) != Outcome::Fires,
    ensures
        fired(t, rules, file, node, to) == fired(t, rules, file, node, from),
    decreases to - from,
{
    if from < to {
        assert(evaluate(t, node, rules[to - 1]) != Outcome::Fires);
        lemma_fired_skips_silent(t, rules, file, node, from, to - 1);
    }
}

/// Rules that can judge a node are passed over when the first fault is
/// looked for.
pub proof fn lemma_first_fault_skips_sound(
    t: Seq<NodeView>,
    rules: Seq<RuleView>,
    node: usize,
    from: int,
    to: int,
)
    requires
        0 <= from <= to <= rules.len(),
        forall|i: int| from <= i < to ==> evaluate(t, node, #[trigger] rules[i]) != Outcome::Fault,
    ensures
        first_fault_of(t, rules, node, from) == first_fault_of(t, rules, node, to),
    decreases to - from,
{
    if from < to {
        assert(evaluate(t, node, rules[from]) != Outcome::Fault);
        lemma_first_fault_skips_sound(t, rules, node, from + 1, to);
    }
}

/// A rule says nothing of a node of another kind than it looks for.
pub proof fn lemma_other_kind_is_silent(t: Seq<NodeView>, node: usize, rule: RuleView)
    requires
        node < t.len(),
        rule.matcher.kind() != t[node as int].kind,
    ensures
        evaluate(t, node, rule) == Outcome::Silent,
{
}

fn report_of(rule: &Rule, file: &str, span: Span) -> (v: Violation)
    ensures
        v@ == violation_of(rule@, file@, span),
{
    Violation {
        rule_id: rule.id.clone(),
        severity: rule.severity,
        file: file.to_owned(),
        span,
        message: rule.description.clone(),
    }
}

/// The position in the catalog up to which the rules of a node have been
/// asked once `j` entries of its list were: the next entry, or the end of the
/// catalog.
spec fn asked_upto(rules: Seq<RuleView>, list: Seq<usize>, j: int) -> int {
    if j < list.len() {
        list[j] as int
    } else {
        rules.len() as int
    }
}

/// The rules between two entries of the list of a node's kind say nothing of
/// the node: leaving them out changes neither what is reported for it nor
/// where its first fault is.
proof fn lemma_gap(
    t: Seq<NodeView>,
    rules: Seq<RuleView>,
    file: Seq<char>,
    node: usize,
    list: Seq<usize>,
    j: int,
)
    requires
        node < t.len(),
        files_under(rules, t[node as int].kind, list),
        0 <= j <= list.len(),
    ensures
        ({
            let from = if j == 0 {
                0
            } else {
                list[j - 1] + 1
            };
            let to = asked_upto(rules, list, j);
            &&& 0 <= from <= to <= rules.len()
            &&& fired(t, rules, file, node, to) == fired(t, rules, file, node, from)
            &&& first_fault_of(t, rules, node, from) == first_fault_of(t, rules, node, to)
        }),
{
    let from = if j == 0 {
        0
    } else {
        list[j - 1] + 1
    };
    let to = asked_upto(rules, list, j);
    if j > 0 && j < list.len() {
        assert(list[j - 1] < list[j]);
    }
    assert forall|i: int| from <= i < to implies evaluate(t, node, #[trigger] rules[i])
        == Outcome::Silent by {
        lemma_gap_has_other_kinds(rules, t[node as int].kind, list, j, i);
        lemma_other_kind_is_silent(t, node, rules[i]);
    }
    lemma_fired_skips_silent(t, rules, file, node, from, to);
    lemma_first_fault_skips_sound(t, rules, node, from, to);
}

/// One traversal of `tree`: the raw matches of the rules of `catalog`, in
/// document order and, for one node, in the order of the catalog; or the
/// first fault.
pub fn analyze(tree: &SyntaxTree, catalog: &RuleCatalog, file: &str) -> (r: Result<
    Vec<Violation>,
    AnalysisError,
>)
    requires
        tree.wf(),
        catalog.wf(),
    ensures
        match r {
            Ok(raw) => raw_matches(tree@, catalog@, file@) == Ok::<
                Seq<ViolationView>,
                AnalysisErrorView,
            >(views(raw@)),
            Err(e) => raw_matches(tree@, catalog@, file@) == Err::<
                Seq<ViolationView>,
                AnalysisErrorView,
            >(e@),
        },
{
    let order: Vec<usize> = tree.preorder();
    let mut out: Vec<Violation> = Vec::new();
    let ghost t = tree@;
    let ghost rules = catalog@;
    let mut k: usize = 0;
    proof {
        assert(views(out@) =~= reported(t, rules, file@, order@, 0));
    }
    while k < order.len()
        invariant
            tree.wf(),
            catalog.wf(),
            t == tree@,
            rules == catalog@,
            order@ == preorder(t),
            forall|i: int| 0 <= i < order@.len() ==> order@[i] < t.len(),
            k <= order@.len(),
            views(out@) == reported(t, rules, file@, order@, k as int),
            first_fault(t, rules, order@, 0) == first_fault(t, rules, order@, k as int),
        decreases order@.len() - k,
    {
        let node: usize = order[k];
        let kind: NodeKind = tree.kind(node);
        let list: &Vec<usize> = catalog.applicable(kind);
        let span: Span = tree.span(node);
        let ghost base = views(out@);
        let mut j: usize = 0;
        proof {
            lemma_gap(t, rules, file@, node, list@, 0);
            assert(base + fired(t, rules, file@, node, 0) =~= base);
        }
        while j < list.len()
            invariant
                tree.wf(),
                t == tree@,
                rules == catalog@,
                node < t.len(),
                span == t[node as int].span,
                files_under(rules, t[node as int].kind, list@),
                j <= list@.len(),
                views(out@) == base + fired(
                    t,
                    rules,
                    file@,
                    node,
                    asked_upto(rules, list@, j as int),
                ),
                first_fault_of(t, rules, node, 0) == first_fault_of(
                    t,
                    rules,
                    node,
                    asked_upto(rules, list@, j as int),
                ),
                order@ == preorder(t),
                k < order@.len(),
                node == order@[k as int],
                first_fault(t, rules, order@, 0) == first_fault(t, rules, order@, k as int),
            decreases list@.len() - j,
        {
            let index: usize = list[j];
            let rule: &Rule = catalog.get(index);
            let outcome: Outcome = judge(tree, node, rule);
            match outcome {
                Outcome::Fault => {
                    proof {
                        assert(asked_upto(rules, list@, j as int) == index);
                        assert(first_fault_of(t, rules, node, index as int) == Some(index as int));
                        assert(first_fault(t, rules, order@, k as int) == Some(
                            (k as int, index as int),
                        ));
                    }
                    return Err(
                        AnalysisError::RuleFault {
                            file: file.to_owned(),
                            rule_id: rule.id.clone(),
                            span,
                        },
                    );
                },
                Outcome::Fires => {
                    let v: Violation = report_of(rule, file, span);
                    proof {
                        lemma_views_push(out@, v);
                    }
                    out.push(v);
                },
                Outcome::Silent => {},
            }
            proof {
                let after = fired(t, rules, file@, node, index + 1);
                assert(views(out@) =~= base + after);
                lemma_gap(t, rules, file@, node, list@, j + 1);
            }
            j = j + 1;
        }
        proof {
            assert(views(out@) =~= reported(t, rules, file@, order@, k + 1));
        }
        k = k + 1;
    }
    Ok(out)
}

/// Analyses one file: the report of its raw matches, or why there is none.
/// `parsed` is what the parser made of the file.
pub fn analyze_file(file: &str, parsed: Result<SyntaxTree, ParseError>, catalog: &RuleCatalog) -> (r:
    Result<Report, AnalysisError>)
    requires
        catalog.wf(),
        parsed matches Ok(tree) ==> tree.wf(),
    ensures
        outcome_view(r) == analysis(parse_view(parsed), catalog@, file@),
        r matches Ok(report) ==> report.wf(),
{
    match parsed {
        Ok(tree) => match analyze(&tree, catalog, file) {
            Ok(raw) => Ok(aggregate(raw)),
            Err(e) => Err(e),
        },
        Err(e) => Err(AnalysisError::Parse { file: file.to_owned(), message: e.message }),
    }
}

/// What a parser made of a file, with the tree as its table of nodes and the
/// error as its message.
pub open spec fn parse_view(parsed: Result<SyntaxTree, ParseError>) -> Result<
    Seq<NodeView>,
    Seq<char>,
> {
    match parsed {
        Ok(tree) => Ok(tree@),
        Err(e) => Err(e.message@),
    }
}

/// The outcome of an analysis, with the report as its sequence of violations.
pub open spec fn outcome_view(r: Result<Report, AnalysisError>) -> Result<
    Seq<ViolationView>,
    AnalysisErrorView,
> {
    match r {
        Ok(report) => Ok(report@),
        Err(e) => Err(e@),
    }
}

/// A file of a corpus: its path, and what the parser made of it.
#[derive(Debug)]
pub struct ParsedFile {
    pub path: String,
    pub parsed: Result<SyntaxTree, ParseError>,
}

/// Analyses the files of a corpus, each by itself: the outcome for a file is
/// that of `analyze_file` on it, whatever became of the others.
pub fn analyze_corpus(files: Vec<ParsedFile>, catalog: &RuleCatalog) -> (results: Vec<
    Result<Report, AnalysisError>,
>)
    requires
        catalog.wf(),
        forall|i: int|
            0 <= i < files@.len() ==> ((#[trigger] files@[i]).parsed matches Ok(tree)
                ==> tree.wf()),
    ensures
        results@.len() == files@.len(),
        forall|i: int|
            0 <= i < files@.len() ==> outcome_view(#[trigger] results@[i]) == analysis(
                parse_view(files@[i].parsed),
                catalog@,
                files@[i].path@,
            ),
{
    let mut results: Vec<Result<Report, AnalysisError>> = Vec::new();
    for f in iter: files
        invariant
            catalog.wf(),
            iter.seq() == files@,
            forall|i: int|
                0 <= i < files@.len() ==> ((#[trigger] files@[i]).parsed matches Ok(tree)
                    ==> tree.wf()),
            results@.len() == iter.index(),
            forall|i: int|
                0 <= i < iter.index() ==> outcome_view(#[trigger] results@[i]) == analysis(
                    parse_view(files@[i].parsed),
                    catalog@,
                    files@[i].path@,
                ),
    {
        assert(f == files@[iter.index() as int]);
        let r = analyze_file(f.path.as_str(), f.parsed, catalog);
        results.push(r);
    }
    results
}

} // verus!
