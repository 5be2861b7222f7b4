//! Checking the engine against labelled examples.
//!
//! A fixture is a file together with rule ids and a label. Under the label
//! `MustFire` each of the rules must report at least one violation in the
//! file; under `MustStaySilent` none of them may report any. The verdict
//! names the rules that did not behave as labelled, so that a failure says
//! what went wrong and not only that something did.

use vstd::prelude::*;
use crate::aggregate::Report;
use crate::catalog::RuleCatalog;
use crate::engine::{
    analysis, analyze_file, parse_view, AnalysisError, AnalysisErrorView, ParseError,
};
use crate::rule::texts;
use crate::tree::SyntaxTree;
use crate::violation::{views, ViolationView};

verus! {

/// What a fixture says of its rules.
#[derive(Clone, Copy, PartialEq, Eq, Debug, Structural)]
pub enum Expectation {
    /// Each rule reports at least one violation in the file.
    MustFire,
    /// No rule reports a violation in the file.
    MustStaySilent,
}

/// A labelled example.
#[derive(Debug)]
pub struct FixtureCase {
    pub path: String,
    /// What the parser made of the file.
    pub parsed: Result<SyntaxTree, ParseError>,
    pub expectation: Expectation,
    /// The ids of the rules that the label speaks of.
    pub rule_ids: Vec<String>,
}

/// The verdict on a fixture.
#[derive(Debug, PartialEq, Eq)]
pub enum FixtureOutcome {
    /// Every rule behaved as labelled.
    Pass,
    /// Some rules did not: `missing` should have fired and did not,
    /// `unexpected` should have stayed silent and fired. Both keep the order
    /// in which the fixture names its rules.
    Mismatch { missing: Vec<String>, unexpected: Vec<String> },
    /// The file has no report.
    Unanalyzed(AnalysisError),
}

/// A `FixtureOutcome` with its texts as sequences of characters.
pub enum FixtureOutcomeView {
    Pass,
    Mismatch { missing: Seq<Seq<char>>, unexpected: Seq<Seq<char>> },
    Unanalyzed(AnalysisErrorView),
}

impl View for FixtureOutcome {
    type V = FixtureOutcomeView;

    open spec fn view(&self) -> FixtureOutcomeView {
        match *self {
            FixtureOutcome::Pass => FixtureOutcomeView::Pass,
            FixtureOutcome::Mismatch { missing, unexpected } => FixtureOutcomeView::Mismatch {
                missing: texts(missing@),
                unexpected: texts(unexpected@),
            },
            FixtureOutcome::Unanalyzed(e) => FixtureOutcomeView::Unanalyzed(e@),
        }
    }
}

/// Whether the rule `id` reports a violation in `report`.
pub open spec fn fires_in(report: Seq<ViolationView>, id: Seq<char>) -> bool {
    exists|i: int| 0 <= i < report.len() && (#[trigger] report[i]).rule_id == id
}

/// Those of the first `upto` ids that fire in `report` (if `firing`), or
/// that do not (if not `firing`), in the order of `ids`.
pub open spec fn select(
    ids: Seq<Seq<char>>,
    report: Seq<ViolationView>,
    firing: bool,
    upto: int,
) -> Seq<Seq<char>>
    decreases upto,
{
    if upto <= 0 {
        Seq::empty()
    } else {
        let before = select(ids, report, firing, upto - 1);
        if fires_in(report, ids[upto - 1]) == firing {
            before.push(ids[upto - 1])
        } else {
            before
        }
    }
}

/// The rules that should have fired in `report` and did not.
pub open spec fn missing_from(
    report: Seq<ViolationView>,
    expectation: Expectation,
    ids: Seq<Seq<char>>,
) -> Seq<Seq<char>> {
    match expectation {
        Expectation::MustFire => select(ids, report, false, ids.len() as int),
        Expectation::MustStaySilent => Seq::empty(),
    }
}

/// The rules that should have stayed silent in `report` and fired.
pub open spec fn unexpected_in(
    report: Seq<ViolationView>,
    expectation: Expectation,
    ids: Seq<Seq<char>>,
) -> Seq<Seq<char>> {
    match expectation {
        Expectation::MustFire => Seq::empty(),
        Expectation::MustStaySilent => select(ids, report, true, ids.len() as int),
    }
}

/// The verdict on a report.
pub open spec fn verdict_on(
    report: Seq<ViolationView>,
    expectation: Expectation,
    ids: Seq<Seq<char>>,
) -> FixtureOutcomeView {
    let missing = missing_from(report, expectation, ids);
    let unexpected = unexpected_in(report, expectation, ids);
    if missing.len() == 0 && unexpected.len() == 0 {
        FixtureOutcomeView::Pass
    } else {
        FixtureOutcomeView::Mismatch { missing, unexpected }
    }
}

/// The verdict on what an analysis gave.
pub open spec fn verdict(
    outcome: Result<Seq<ViolationView>, AnalysisErrorView>,
    expectation: Expectation,
    ids: Seq<Seq<char>>,
) -> FixtureOutcomeView {
    match outcome {
        Ok(report) => verdict_on(report, expectation, ids),
        Err(e) => FixtureOutcomeView::Unanalyzed(e),
    }
}

/// Where nothing is selected, every id is on the other side.
pub proof fn lemma_select_empty(
    ids: Seq<Seq<char>>,
    report: Seq<ViolationView>,
    firing: bool,
    upto: int,
)
    requires
        0 <= upto <= ids.len(),
        select(ids, report, firing, upto).len() == 0,
    ensures
        forall|k: int| 0 <= k < upto ==> fires_in(report, #[trigger] ids[k]) != firing,
    decreases upto,
{
    if upto > 0 {
        lemma_select_empty(ids, report, firing, upto - 1);
    }
}

/// A fixture passes only if its rules behaved as labelled: under `MustFire`
/// every rule fired in the report, under `MustStaySilent` none did.
pub proof fn lemma_pass_is_sound(
    report: Seq<ViolationView>,
    expectation: Expectation,
    ids: Seq<Seq<char>>,
)
    requires
        verdict_on(report, expectation, ids) == FixtureOutcomeView::Pass,
    ensures
        forall|k: int|
            0 <= k < ids.len() ==> (fires_in(report, #[trigger] ids[k]) <==> expectation
                == Expectation::MustFire),
{
    match expectation {
        Expectation::MustFire => {
            lemma_select_empty(ids, report, false, ids.len() as int);
        },
        Expectation::MustStaySilent => {
            lemma_select_empty(ids, report, true, ids.len() as int);
        },
    }
}

/// Whether the rule `id` reports a violation in `report`.
pub fn fires(report: &Report, id: &String) -> (r: bool)
    ensures
        r == fires_in(report@, id@),
{
    let list = report.violations();
    let mut i: usize = 0;
    while i < list.len()
        invariant
            i <= list@.len(),
            views(list@) == report@,
            forall|j: int| 0 <= j < i ==> (#[trigger] report@[j]).rule_id != id@,
        decreases list@.len() - i,
    {
        if list[i].rule_id == *id {
            assert(report@[i as int].rule_id == id@);
            return true;
        }
        i = i + 1;
    }
    false
}

fn pick(report: &Report, ids: &Vec<String>, firing: bool) -> (out: Vec<String>)
    ensures
        texts(out@) == select(texts(ids@), report@, firing, ids@.len() as int),
{
    let mut out: Vec<String> = Vec::new();
    let mut k: usize = 0;
    proof {
        assert(texts(out@) =~= select(texts(ids@), report@, firing, 0));
    }
    while k < ids.len()
        invariant
            k <= ids@.len(),
            texts(out@) == select(texts(ids@), report@, firing, k as int),
        decreases ids@.len() - k,
    {
        if fires(report, &ids[k]) == firing {
            let id: String = ids[k].clone();
            proof {
                assert(texts(out@.push(id)) =~= texts(out@).push(id@));
            }
            out.push(id);
        }
        k = k + 1;
    }
    out
}

/// Holds a report against a label: which of the rules did not behave as
/// labelled.
pub fn compare(report: &Report, expectation: Expectation, rule_ids: &Vec<String>) -> (outcome:
    FixtureOutcome)
    ensures
        outcome@ == verdict_on(report@, expectation, texts(rule_ids@)),
{
    let (missing, unexpected) = match expectation {
        Expectation::MustFire => (pick(report, rule_ids, false), Vec::new()),
        Expectation::MustStaySilent => (Vec::new(), pick(report, rule_ids, true)),
    };
    proof {
        assert(texts(Seq::<String>::empty()) =~= Seq::<Seq<char>>::empty());
    }
    if missing.len() == 0 && unexpected.len() == 0 {
        FixtureOutcome::Pass
    } else {
        FixtureOutcome::Mismatch { missing, unexpected }
    }
}

/// Runs the analysis on a fixture and holds the outcome against its label.
pub fn verify_fixture(case: FixtureCase, catalog: &RuleCatalog) -> (outcome: FixtureOutcome)
    requires
        catalog.wf(),
        case.parsed matches Ok(tree) ==> tree.wf(),
    ensures
        outcome@ == verdict(
            analysis(parse_view(case.parsed), catalog@, case.path@),
            case.expectation,
            texts(case.rule_ids@),
        ),
{
    let FixtureCase { path, parsed, expectation, rule_ids } = case;
    match analyze_file(path.as_str(), parsed, catalog) {
        Ok(report) => compare(&report, expectation, &rule_ids),
        Err(e) => FixtureOutcome::Unanalyzed(e),
    }
}

} // verus!
