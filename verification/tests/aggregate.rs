use lint_engine::aggregate::{aggregate, comes_before, is_same_place};
use lint_engine::rule::Severity;
use lint_engine::tree::Span;
use lint_engine::violation::Violation;

fn at(rule: &str, file: &str, line: u32, col: u32) -> Violation {
    Violation {
        rule_id: rule.to_string(),
        severity: Severity::Must,
        file: file.to_string(),
        span: Span { start_line: line, start_col: col, end_line: line, end_col: col + 4 },
        message: format!("{} at {}:{}", rule, line, col),
    }
}

fn keys(list: &[Violation]) -> Vec<(String, u32, u32, String)> {
    list.iter()
        .map(|v| (v.file.clone(), v.span.start_line, v.span.start_col, v.rule_id.clone()))
        .collect()
}

fn key(file: &str, line: u32, col: u32, rule: &str) -> (String, u32, u32, String) {
    (file.to_string(), line, col, rule.to_string())
}

#[test]
fn report_is_sorted_by_file_line_column_rule() {
    let raw = vec![
        at("N2", "b.rs", 1, 1),
        at("N1", "a.rs", 9, 3),
        at("N2", "a.rs", 9, 3),
        at("S8", "a.rs", 9, 1),
        at("M3", "a.rs", 2, 7),
        at("N1", "b.rs", 1, 1),
        at("N1", "a.rs", 10, 0),
    ];
    let report = aggregate(raw);
    assert_eq!(
        keys(report.violations()),
        vec![
            key("a.rs", 2, 7, "M3"),
            key("a.rs", 9, 1, "S8"),
            key("a.rs", 9, 3, "N1"),
            key("a.rs", 9, 3, "N2"),
            key("a.rs", 10, 0, "N1"),
            key("b.rs", 1, 1, "N1"),
            key("b.rs", 1, 1, "N2"),
        ]
    );
}

#[test]
fn repeats_are_reported_once_and_the_first_stays() {
    let mut second = at("N1", "a.rs", 3, 0);
    second.message = "found again".to_string();
    second.severity = Severity::Should;
    let raw = vec![at("N1", "a.rs", 3, 0), at("N2", "a.rs", 3, 0), second, at("N1", "a.rs", 3, 0)];
    let report = aggregate(raw);
    assert_eq!(report.len(), 2);
    assert_eq!(report.violations()[0], at("N1", "a.rs", 3, 0));
    assert_eq!(report.violations()[1], at("N2", "a.rs", 3, 0));
}

#[test]
fn same_node_may_be_reported_by_several_rules() {
    let report = aggregate(vec![at("N2", "a.rs", 3, 0), at("N1", "a.rs", 3, 0)]);
    assert_eq!(keys(report.violations()), vec![key("a.rs", 3, 0, "N1"), key("a.rs", 3, 0, "N2")]);
}

#[test]
fn spans_that_start_together_are_ordered_by_their_end() {
    let mut long = at("N1", "a.rs", 3, 0);
    long.span.end_line = 8;
    let mut wide = at("N1", "a.rs", 3, 0);
    wide.span.end_col = 40;
    let short = at("N1", "a.rs", 3, 0);
    let report = aggregate(vec![long.clone(), wide.clone(), short.clone()]);
    assert_eq!(report.violations(), &vec![short, wide, long]);
}

#[test]
fn aggregating_a_report_again_changes_nothing() {
    let raw = vec![
        at("N2", "b.rs", 1, 1),
        at("N1", "a.rs", 9, 3),
        at("N1", "a.rs", 9, 3),
        at("S8", "a.rs", 9, 1),
    ];
    let once = aggregate(raw);
    let again = aggregate(once.violations().clone());
    assert_eq!(once.violations(), again.violations());
    assert_eq!(again.len(), 3);
}

#[test]
fn order_of_the_raw_matches_does_not_matter() {
    let a = vec![at("N2", "b.rs", 1, 1), at("N1", "a.rs", 9, 3), at("S8", "a.rs", 9, 1)];
    let b = vec![at("S8", "a.rs", 9, 1), at("N2", "b.rs", 1, 1), at("N1", "a.rs", 9, 3)];
    assert_eq!(aggregate(a).into_violations(), aggregate(b).into_violations());
}

#[test]
fn empty_input_gives_an_empty_report() {
    let report = aggregate(Vec::new());
    assert!(report.is_empty());
    assert_eq!(report.len(), 0);
}

#[test]
fn comes_before_follows_the_key() {
    assert!(comes_before(&at("N9", "a.rs", 9, 9), &at("N1", "b.rs", 1, 1)));
    assert!(comes_before(&at("N9", "a.rs", 1, 9), &at("N1", "a.rs", 2, 1)));
    assert!(comes_before(&at("N9", "a.rs", 2, 1), &at("N1", "a.rs", 2, 2)));
    assert!(comes_before(&at("N1", "a.rs", 2, 2), &at("N2", "a.rs", 2, 2)));
    assert!(!comes_before(&at("N1", "a.rs", 2, 2), &at("N1", "a.rs", 2, 2)));
    assert!(!comes_before(&at("N2", "a.rs", 2, 2), &at("N1", "a.rs", 2, 2)));
}

#[test]
fn same_place_is_rule_file_and_span() {
    let mut other_message = at("N1", "a.rs", 2, 2);
    other_message.message = "else".to_string();
    assert!(is_same_place(&at("N1", "a.rs", 2, 2), &other_message));
    assert!(!is_same_place(&at("N1", "a.rs", 2, 2), &at("N2", "a.rs", 2, 2)));
    assert!(!is_same_place(&at("N1", "a.rs", 2, 2), &at("N1", "b.rs", 2, 2)));
    assert!(!is_same_place(&at("N1", "a.rs", 2, 2), &at("N1", "a.rs", 2, 3)));
}
