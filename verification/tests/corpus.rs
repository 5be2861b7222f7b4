use lint_engine::aggregate::aggregate;
use lint_engine::catalog::RuleCatalog;
use lint_engine::engine::{analyze_corpus, analyze_file, AnalysisError, ParseError, ParsedFile};
use lint_engine::harness::{compare, fires, verify_fixture, Expectation, FixtureCase, FixtureOutcome};
use lint_engine::rule::{Matcher, Rule, Severity};
use lint_engine::standard::standard_catalog;
use lint_engine::tree::{NodeKind, Span, SyntaxTree};
use lint_engine::violation::Violation;

fn span(line: u32) -> Span {
    Span { start_line: line, start_col: 0, end_line: line, end_col: 1 }
}

/// A file with `count` unsafe blocks, none of them justified.
fn file_with_unsafe_blocks(count: u32) -> SyntaxTree {
    let mut tree = SyntaxTree::new(NodeKind::SourceFile, span(0), "");
    let function = tree.add_child(0, NodeKind::FunctionItem, span(1), "").unwrap();
    let block = tree.add_child(function, NodeKind::Block, span(1), "").unwrap();
    for i in 0..count {
        let statement = tree.add_child(block, NodeKind::ExpressionStatement, span(2 + i), "").unwrap();
        tree.add_child(statement, NodeKind::UnsafeBlock, span(2 + i), "").unwrap();
    }
    tree
}

fn parse_error(message: &str) -> ParseError {
    ParseError { message: message.to_string() }
}

#[test]
fn unparsed_file_has_an_error_that_names_it() {
    let catalog = standard_catalog();
    let err = analyze_file("broken.rs", Err(parse_error("unexpected token at 3:7")), &catalog).unwrap_err();
    assert_eq!(
        err,
        AnalysisError::Parse { file: "broken.rs".to_string(), message: "unexpected token at 3:7".to_string() }
    );
}

#[test]
fn one_malformed_file_among_ten_fails_alone() {
    let catalog = standard_catalog();
    let mut files: Vec<ParsedFile> = Vec::new();
    for i in 0..10u32 {
        let parsed = if i == 4 { Err(parse_error("unbalanced brace")) } else { Ok(file_with_unsafe_blocks(i)) };
        files.push(ParsedFile { path: format!("src/file{}.rs", i), parsed });
    }
    let results = analyze_corpus(files, &catalog);
    assert_eq!(results.len(), 10);
    assert_eq!(results.iter().filter(|r| r.is_ok()).count(), 9);
    assert_eq!(results.iter().filter(|r| r.is_err()).count(), 1);
    for (i, result) in results.iter().enumerate() {
        match result {
            Ok(report) => {
                assert_ne!(i, 4);
                assert_eq!(report.len(), i);
                assert!(report.violations().iter().all(|v| v.file == format!("src/file{}.rs", i)));
            },
            Err(e) => {
                assert_eq!(i, 4);
                assert_eq!(
                    e,
                    &AnalysisError::Parse {
                        file: "src/file4.rs".to_string(),
                        message: "unbalanced brace".to_string()
                    }
                );
            },
        }
    }
}

#[test]
fn empty_corpus_gives_no_results() {
    let catalog = standard_catalog();
    assert!(analyze_corpus(Vec::new(), &catalog).is_empty());
}

#[test]
fn faulty_file_fails_alone_too() {
    let mut broken = SyntaxTree::new(NodeKind::SourceFile, span(0), "");
    broken.add_child(0, NodeKind::CastExpression, span(3), "").unwrap();
    let files = vec![
        ParsedFile { path: "a.rs".to_string(), parsed: Ok(file_with_unsafe_blocks(1)) },
        ParsedFile { path: "b.rs".to_string(), parsed: Ok(broken) },
        ParsedFile { path: "c.rs".to_string(), parsed: Ok(file_with_unsafe_blocks(2)) },
    ];
    let results = analyze_corpus(files, &standard_catalog());
    assert_eq!(results[0].as_ref().unwrap().len(), 1);
    assert_eq!(
        results[1].as_ref().unwrap_err(),
        &AnalysisError::RuleFault { file: "b.rs".to_string(), rule_id: "S8".to_string(), span: span(3) }
    );
    assert_eq!(results[2].as_ref().unwrap().len(), 2);
}

#[test]
fn first_fault_in_document_order_is_reported() {
    let mut tree = SyntaxTree::new(NodeKind::SourceFile, span(0), "");
    let first = tree.add_child(0, NodeKind::FunctionItem, span(1), "").unwrap();
    let second = tree.add_child(0, NodeKind::FunctionItem, span(5), "").unwrap();
    tree.add_child(second, NodeKind::CastExpression, span(6), "").unwrap();
    tree.add_child(first, NodeKind::CallExpression, span(2), "").unwrap();
    let err = analyze_file("f.rs", Ok(tree), &standard_catalog()).unwrap_err();
    assert_eq!(
        err,
        AnalysisError::RuleFault { file: "f.rs".to_string(), rule_id: "N2".to_string(), span: span(2) }
    );
}

#[test]
fn empty_catalog_reports_nothing_and_faults_nothing() {
    let mut tree = file_with_unsafe_blocks(3);
    tree.add_child(0, NodeKind::CallExpression, span(9), "").unwrap();
    let report = analyze_file("f.rs", Ok(tree), &RuleCatalog::new()).unwrap();
    assert!(report.is_empty());
}

fn found(rule: &str, line: u32) -> Violation {
    Violation {
        rule_id: rule.to_string(),
        severity: Severity::Must,
        file: "f.rs".to_string(),
        span: span(line),
        message: String::new(),
    }
}

fn ids(list: &[&str]) -> Vec<String> {
    list.iter().map(|s| s.to_string()).collect()
}

#[test]
fn must_fire_names_the_rules_that_stayed_silent() {
    let report = aggregate(vec![found("N1", 3), found("N2", 4), found("N1", 9)]);
    assert_eq!(compare(&report, Expectation::MustFire, &ids(&["N1", "N2"])), FixtureOutcome::Pass);
    assert_eq!(compare(&report, Expectation::MustFire, &ids(&[])), FixtureOutcome::Pass);
    assert_eq!(
        compare(&report, Expectation::MustFire, &ids(&["N7", "N1", "M3"])),
        FixtureOutcome::Mismatch { missing: ids(&["N7", "M3"]), unexpected: vec![] }
    );
}

#[test]
fn must_stay_silent_names_the_rules_that_fired() {
    let report = aggregate(vec![found("N1", 3), found("N2", 4), found("N1", 9)]);
    assert_eq!(compare(&report, Expectation::MustStaySilent, &ids(&["N7", "M3"])), FixtureOutcome::Pass);
    assert_eq!(compare(&report, Expectation::MustStaySilent, &ids(&[])), FixtureOutcome::Pass);
    assert_eq!(
        compare(&report, Expectation::MustStaySilent, &ids(&["N2", "N7", "N1"])),
        FixtureOutcome::Mismatch { missing: vec![], unexpected: ids(&["N2", "N1"]) }
    );
    assert!(fires(&report, &"N1".to_string()));
    assert!(!fires(&report, &"N7".to_string()));
    assert!(!fires(&report, &"N".to_string()));
}

#[test]
fn fixture_that_cannot_be_analysed_is_no_pass() {
    let case = FixtureCase {
        path: "broken.rs".to_string(),
        parsed: Err(parse_error("eof")),
        expectation: Expectation::MustStaySilent,
        rule_ids: ids(&["N1"]),
    };
    assert_eq!(
        verify_fixture(case, &standard_catalog()),
        FixtureOutcome::Unanalyzed(AnalysisError::Parse {
            file: "broken.rs".to_string(),
            message: "eof".to_string()
        })
    );
}

#[test]
fn rules_of_a_node_are_asked_in_the_order_of_the_catalog() {
    let mut catalog = RuleCatalog::new();
    for id in ["Z", "A", "M"] {
        catalog
            .register(Rule {
                id: id.to_string(),
                severity: Severity::Should,
                description: String::new(),
                matcher: Matcher::Kind(NodeKind::UnsafeBlock),
                justification: None,
            })
            .unwrap();
    }
    let raw = lint_engine::engine::analyze(&file_with_unsafe_blocks(2), &catalog, "f.rs").unwrap();
    let order: Vec<(u32, &str)> = raw.iter().map(|v| (v.span.start_line, v.rule_id.as_str())).collect();
    assert_eq!(order, vec![(2, "Z"), (2, "A"), (2, "M"), (3, "Z"), (3, "A"), (3, "M")]);
    let report = aggregate(raw);
    let sorted: Vec<(u32, &str)> =
        report.violations().iter().map(|v| (v.span.start_line, v.rule_id.as_str())).collect();
    assert_eq!(sorted, vec![(2, "A"), (2, "M"), (2, "Z"), (3, "A"), (3, "M"), (3, "Z")]);
}
