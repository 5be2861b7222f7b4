//! Rules: what to look for, and how serious a finding is.
//!
//! A rule names a construct by a `Matcher`, a pattern over the kind and shape
//! of a node. It never reads the text of a comment or of a string literal to
//! find code. A rule may ask for a justification: it then stays silent where a
//! comment that begins with its marker stands directly above the construct.

use vstd::prelude::*;
use crate::tree::NodeKind;

verus! {

/// The enforcement tier of a rule. The tiers are classes, not steps of a
/// scale: nothing is said of one being more or less than another.
#[derive(Clone, Copy, PartialEq, Eq, Debug, Hash, Structural)]
pub enum Severity {
    /// A hard prohibition.
    MustNever,
    /// Mandatory.
    Must,
    /// Advisory.
    Should,
}

/// A pattern over the kind and shape of a node.
#[derive(Clone, Debug, PartialEq, Eq)]
pub enum Matcher {
    /// Any node of the kind.
    Kind(NodeKind),
    /// A call of `function`, named bare or as `module::function`, with
    /// whatever stands before `module` and with or without generic arguments.
    CallTo { module: String, function: String },
    /// A call of a method whose name is one of `names`.
    MethodCall { names: Vec<String> },
    /// A call of the method `method` that passes no message: no argument at
    /// all, or an empty string literal as the first one.
    EmptyMessage { method: String },
    /// A parameter declared with the type `ty`, owned or behind a
    /// shared reference.
    ParameterOfType { ty: String },
    /// A field declared with the type `ty`.
    FieldOfType { ty: String },
    /// The name of a function or of a variable, written with a medial capital.
    MedialCapital,
    /// A cast to a primitive type whose name is one of `types`.
    CastTo { types: Vec<String> },
}

/// A `Matcher` with its texts as sequences of characters.
pub enum MatcherView {
    Kind(NodeKind),
    CallTo { module: Seq<char>, function: Seq<char> },
    MethodCall { names: Seq<Seq<char>> },
    EmptyMessage { method: Seq<char> },
    ParameterOfType { ty: Seq<char> },
    FieldOfType { ty: Seq<char> },
    MedialCapital,
    CastTo { types: Seq<Seq<char>> },
}

/// The texts of a list of strings.
pub open spec fn texts(names: Seq<String>) -> Seq<Seq<char>> {
    names.map_values(|s: String| s@)
}

impl View for Matcher {
    type V = MatcherView;

    open spec fn view(&self) -> MatcherView {
        match *self {
            Matcher::Kind(k) => MatcherView::Kind(k),
            Matcher::CallTo { module, function } => MatcherView::CallTo {
                module: module@,
                function: function@,
            },
            Matcher::MethodCall { names } => MatcherView::MethodCall { names: texts(names@) },
            Matcher::EmptyMessage { method } => MatcherView::EmptyMessage { method: method@ },
            Matcher::ParameterOfType { ty } => MatcherView::ParameterOfType {
                ty: ty@,
            },
            Matcher::FieldOfType { ty } => MatcherView::FieldOfType {
                ty: ty@,
            },
            Matcher::MedialCapital => MatcherView::MedialCapital,
            Matcher::CastTo { types } => MatcherView::CastTo {
                types: texts(types@),
            },
        }
    }
}

impl MatcherView {
    /// The one kind of node that the pattern can match. Rules are filed under
    /// it, and it is never a comment, white space or a string literal unless
    /// the pattern is `Kind` of just that.
    pub open spec fn kind(self) -> NodeKind {
        match self {
            MatcherView::Kind(k) => k,
            MatcherView::CallTo { .. } => NodeKind::CallExpression,
            MatcherView::MethodCall { .. } => NodeKind::CallExpression,
            MatcherView::EmptyMessage { .. } => NodeKind::CallExpression,
            MatcherView::ParameterOfType { .. } => NodeKind::Parameter,
            MatcherView::FieldOfType { .. } => NodeKind::FieldDeclaration,
            MatcherView::MedialCapital => NodeKind::Identifier,
            MatcherView::CastTo { .. } => NodeKind::CastExpression,
        }
    }
}

impl Matcher {
    /// The one kind of node that the pattern can match.
    pub fn kind(&self) -> (k: NodeKind)
        ensures
            k == self@.kind(),
    {
        match self {
            Matcher::Kind(k) => *k,
            Matcher::CallTo { .. } => NodeKind::CallExpression,
            Matcher::MethodCall { .. } => NodeKind::CallExpression,
            Matcher::EmptyMessage { .. } => NodeKind::CallExpression,
            Matcher::ParameterOfType { .. } => NodeKind::Parameter,
            Matcher::FieldOfType { .. } => NodeKind::FieldDeclaration,
            Matcher::MedialCapital => NodeKind::Identifier,
            Matcher::CastTo { .. } => NodeKind::CastExpression,
        }
    }
}

/// A rule of the catalog.
#[derive(Clone, Debug, PartialEq, Eq)]
pub struct Rule {
    /// The short code by which findings name the rule, such as `N1`.
    pub id: String,
    pub severity: Severity,
    /// What a finding of this rule tells its reader.
    pub description: String,
    pub matcher: Matcher,
    /// The marker with which a justification comment begins, for a rule that
    /// accepts one.
    pub justification: Option<String>,
}

/// A `Rule` with its texts as sequences of characters.
pub struct RuleView {
    pub id: Seq<char>,
    pub severity: Severity,
    pub description: Seq<char>,
    pub matcher: MatcherView,
    pub justification: Option<Seq<char>>,
}

impl View for Rule {
    type V = RuleView;

    open spec fn view(&self) -> RuleView {
        RuleView {
            id: self.id@,
            severity: self.severity,
            description: self.description@,
            matcher: self.matcher@,
            justification: match self.justification {
                Some(m) => Some(m@),
                None => None,
            },
        }
    }
}

impl RuleView {
    /// A rule that accepts a justification must look for a construct above
    /// which a comment can stand.
    pub open spec fn adjacency_ok(self) -> bool {
        self.justification is Some ==> self.matcher.kind().spec_supports_adjacency()
    }
}

/// The views of a list of rules.
pub open spec fn rule_views(rules: Seq<Rule>) -> Seq<RuleView> {
    rules.map_values(|r: Rule| r@)
}

} // verus!
