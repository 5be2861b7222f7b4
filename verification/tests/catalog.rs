use lint_engine::catalog::{ConfigError, RuleCatalog};
use lint_engine::rule::{Matcher, Rule, Severity};
use lint_engine::standard::standard_catalog;
use lint_engine::tree::NodeKind;

fn rule(id: &str, matcher: Matcher, marker: Option<&str>) -> Rule {
    Rule {
        id: id.to_string(),
        severity: Severity::Must,
        description: format!("rule {}", id),
        matcher,
        justification: marker.map(|m| m.to_string()),
    }
}

fn call_to(function: &str) -> Matcher {
    Matcher::CallTo { module: "mem".to_string(), function: function.to_string() }
}

#[test]
fn new_catalog_is_empty() {
    let catalog = RuleCatalog::new();
    assert_eq!(catalog.len(), 0);
    assert!(catalog.all().is_empty());
    assert!(catalog.applicable(NodeKind::CallExpression).is_empty());
}

#[test]
fn rules_keep_the_order_of_registration() {
    let mut catalog = RuleCatalog::new();
    assert_eq!(catalog.register(rule("Z9", call_to("forget"), None)), Ok(()));
    assert_eq!(catalog.register(rule("A1", Matcher::MedialCapital, None)), Ok(()));
    assert_eq!(catalog.register(rule("M5", call_to("transmute"), None)), Ok(()));
    let ids: Vec<&str> = catalog.all().iter().map(|r| r.id.as_str()).collect();
    assert_eq!(ids, vec!["Z9", "A1", "M5"]);
    assert_eq!(catalog.get(1).id, "A1");
    assert_eq!(catalog.len(), 3);
}

#[test]
fn duplicate_id_is_refused_and_nothing_changes() {
    let mut catalog = RuleCatalog::new();
    assert_eq!(catalog.register(rule("N2", call_to("transmute"), None)), Ok(()));
    assert_eq!(
        catalog.register(rule("N2", Matcher::MedialCapital, None)),
        Err(ConfigError::DuplicateRuleId)
    );
    assert_eq!(catalog.len(), 1);
    assert_eq!(catalog.get(0).matcher, call_to("transmute"));
    assert!(catalog.applicable(NodeKind::Identifier).is_empty());
}

#[test]
fn justification_needs_a_construct_that_can_have_one() {
    let mut catalog = RuleCatalog::new();
    assert_eq!(
        catalog.register(rule("S6", Matcher::MedialCapital, Some("NAME:"))),
        Err(ConfigError::AdjacencyUnsupported)
    );
    assert_eq!(
        catalog.register(rule("M5", Matcher::FieldOfType { ty: "Box".to_string() }, Some("BOX:"))),
        Err(ConfigError::AdjacencyUnsupported)
    );
    assert_eq!(
        catalog.register(rule("C1", Matcher::Kind(NodeKind::LineComment), Some("X:"))),
        Err(ConfigError::AdjacencyUnsupported)
    );
    assert_eq!(catalog.len(), 0);
    assert_eq!(catalog.register(rule("N1", Matcher::Kind(NodeKind::UnsafeBlock), Some("SAFETY:"))), Ok(()));
    assert_eq!(catalog.register(rule("N2", call_to("transmute"), Some("SAFETY:"))), Ok(()));
    assert_eq!(
        catalog.register(rule("S8", Matcher::CastTo { types: vec!["u8".to_string()] }, Some("CAST:"))),
        Ok(())
    );
    assert_eq!(catalog.len(), 3);
}

#[test]
fn duplicate_id_is_reported_before_the_justification() {
    let mut catalog = RuleCatalog::new();
    assert_eq!(catalog.register(rule("S6", Matcher::MedialCapital, None)), Ok(()));
    assert_eq!(
        catalog.register(rule("S6", Matcher::MedialCapital, Some("NAME:"))),
        Err(ConfigError::DuplicateRuleId)
    );
}

#[test]
fn rules_are_filed_under_the_kind_they_look_for() {
    let mut catalog = RuleCatalog::new();
    catalog.register(rule("A", call_to("transmute"), None)).unwrap();
    catalog.register(rule("B", Matcher::MedialCapital, None)).unwrap();
    catalog.register(rule("C", Matcher::EmptyMessage { method: "expect".to_string() }, None)).unwrap();
    catalog.register(rule("D", Matcher::Kind(NodeKind::UnsafeBlock), None)).unwrap();
    catalog.register(rule("E", Matcher::MethodCall { names: vec!["offset".to_string()] }, None)).unwrap();
    assert_eq!(catalog.applicable(NodeKind::CallExpression), &vec![0, 2, 4]);
    assert_eq!(catalog.applicable(NodeKind::Identifier), &vec![1]);
    assert_eq!(catalog.applicable(NodeKind::UnsafeBlock), &vec![3]);
    assert!(catalog.applicable(NodeKind::Block).is_empty());
    assert!(catalog.contains_id(&"C".to_string()));
    assert!(!catalog.contains_id(&"F".to_string()));
}

#[test]
fn matcher_names_its_kind() {
    assert_eq!(Matcher::Kind(NodeKind::Block).kind(), NodeKind::Block);
    assert_eq!(call_to("forget").kind(), NodeKind::CallExpression);
    assert_eq!(Matcher::MethodCall { names: vec![] }.kind(), NodeKind::CallExpression);
    assert_eq!(Matcher::EmptyMessage { method: "expect".to_string() }.kind(), NodeKind::CallExpression);
    assert_eq!(Matcher::ParameterOfType { ty: "String".to_string() }.kind(), NodeKind::Parameter);
    assert_eq!(Matcher::FieldOfType { ty: "Box".to_string() }.kind(), NodeKind::FieldDeclaration);
    assert_eq!(Matcher::MedialCapital.kind(), NodeKind::Identifier);
    assert_eq!(Matcher::CastTo { types: vec![] }.kind(), NodeKind::CastExpression);
}

#[test]
fn standard_catalog_holds_the_table() {
    let catalog = standard_catalog();
    let ids: Vec<&str> = catalog.all().iter().map(|r| r.id.as_str()).collect();
    assert_eq!(ids, vec!["N1", "N2", "N5", "N6", "N7", "M3", "M4", "M5", "S6", "S8"]);
    let tiers: Vec<Severity> = catalog.all().iter().map(|r| r.severity).collect();
    assert_eq!(&tiers[..5], &[Severity::MustNever; 5]);
    assert_eq!(&tiers[5..8], &[Severity::Must; 3]);
    assert_eq!(&tiers[8..], &[Severity::Should; 2]);
    assert_eq!(catalog.get(0).justification, Some("SAFETY:".to_string()));
    assert!(catalog.all()[1..].iter().all(|r| r.justification.is_none()));
    assert_eq!(catalog.get(1).matcher, call_to("transmute"));
    assert_eq!(catalog.get(4).matcher, call_to("forget"));
    assert_eq!(catalog.applicable(NodeKind::CallExpression), &vec![1, 2, 3, 4]);
    assert_eq!(catalog.applicable(NodeKind::Parameter), &vec![5, 6]);
    match &catalog.get(9).matcher {
        Matcher::CastTo { types } => {
            assert_eq!(types.len(), 14);
            assert!(types.contains(&"usize".to_string()));
            assert!(!types.contains(&"bool".to_string()));
        },
        other => panic!("unexpected matcher {:?}", other),
    }
}

#[test]
fn kinds_are_numbered_in_the_order_of_their_declaration() {
    assert_eq!(NodeKind::SourceFile.ordinal(), 0);
    assert_eq!(NodeKind::CallExpression.ordinal(), 11);
    assert_eq!(NodeKind::Other.ordinal(), 29);
    assert!(NodeKind::LineComment.is_comment());
    assert!(NodeKind::BlockComment.is_trivia());
    assert!(NodeKind::Whitespace.is_trivia());
    assert!(!NodeKind::Whitespace.is_comment());
    assert!(NodeKind::StringLiteral.is_prose());
    assert!(!NodeKind::StringLiteral.is_trivia());
    assert!(NodeKind::FunctionItem.is_declaration());
    assert!(!NodeKind::Block.is_declaration());
    assert!(NodeKind::UnsafeBlock.supports_adjacency());
    assert!(!NodeKind::Identifier.supports_adjacency());
}
