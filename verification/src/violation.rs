//! What the engine reports: one violation for one rule at one place.

use vstd::prelude::*;
use crate::rule::{RuleView, Severity};
use crate::tree::Span;

verus! {

/// One instance of a rule matching one place in one file.
#[derive(Debug, PartialEq, Eq)]
pub struct Violation {
    /// The id of the rule that fired.
    pub rule_id: String,
    pub severity: Severity,
    /// The path of the file, as it was given to the analysis.
    pub file: String,
    /// The span of the node on which the rule fired.
    pub span: Span,
    /// The description of the rule.
    pub message: String,
}

/// A `Violation` with its texts as sequences of characters.
pub struct ViolationView {
    pub rule_id: Seq<char>,
    pub severity: Severity,
    pub file: Seq<char>,
    pub span: Span,
    pub message: Seq<char>,
}

impl View for Violation {
    type V = ViolationView;

    open spec fn view(&self) -> ViolationView {
        ViolationView {
            rule_id: self.rule_id@,
            severity: self.severity,
            file: self.file@,
            span: self.span,
            message: self.message@,
        }
    }
}

impl Clone for Violation {
    fn clone(&self) -> (r: Self)
        ensures
            r@ == self@,
    {
        Violation {
            rule_id: self.rule_id.clone(),
            severity: self.severity,
            file: self.file.clone(),
            span: self.span,
            message: self.message.clone(),
        }
    }
}

/// The views of a list of violations.
pub open spec fn views(s: Seq<Violation>) -> Seq<ViolationView> {
    s.map_values(|v: Violation| v@)
}

/// The violation that `rule` reports for a node with span `span` in `file`.
pub open spec fn violation_of(rule: RuleView, file: Seq<char>, span: Span) -> ViolationView {
    ViolationView {
        rule_id: rule.id,
        severity: rule.severity,
        file,
        span,
        message: rule.description,
    }
}

/// Adding a violation to a list adds its view to the views.
pub proof fn lemma_views_push(s: Seq<Violation>, v: Violation)
    ensures
        views(s.push(v)) == views(s).push(v@),
{
    assert(views(s.push(v)) =~= views(s).push(v@));
}

} // verus!
