//! The standard rules.
//!
//! The table names, for each rule, its id, its tier, what a finding says,
//! the construct that it looks for and, where it accepts one, the marker of
//! its justification. The order of the table is the order of the catalog.

use vstd::prelude::*;
use crate::catalog::{has_id, RuleCatalog};
use crate::rule::{texts, Matcher, MatcherView, Rule, RuleView, Severity};
use crate::tree::NodeKind;

verus! {

/// The methods that move a raw pointer.
pub open spec fn pointer_moves() -> Seq<Seq<char>> {
    seq!["offset"@, "wrapping_offset"@, "byte_offset"@, "wrapping_byte_offset"@]
}

/// The primitive number types.
pub open spec fn number_types() -> Seq<Seq<char>> {
    seq![
        "u8"@,
        "u16"@,
        "u32"@,
        "u64"@,
        "u128"@,
        "usize"@,
        "i8"@,
        "i16"@,
        "i32"@,
        "i64"@,
        "i128"@,
        "isize"@,
        "f32"@,
        "f64"@,
    ]
}

/// The table of the standard rules.
pub open spec fn standard_rules() -> Seq<RuleView> {
    seq![
        RuleView {
            id: "N1"@,
            severity: Severity::MustNever,
            description: "unsafe block without a SAFETY comment directly above it"@,
            matcher: MatcherView::Kind(NodeKind::UnsafeBlock),
            justification: Some("SAFETY:"@),
        },
        RuleView {
            id: "N2"@,
            severity: Severity::MustNever,
            description: "call of mem::transmute"@,
            matcher: MatcherView::CallTo { module: "mem"@, function: "transmute"@ },
            justification: None,
        },
        RuleView {
            id: "N5"@,
            severity: Severity::MustNever,
            description: "expect without a message"@,
            matcher: MatcherView::EmptyMessage { method: "expect"@ },
            justification: None,
        },
        RuleView {
            id: "N6"@,
            severity: Severity::MustNever,
            description: "arithmetic on a raw pointer"@,
            matcher: MatcherView::MethodCall { names: pointer_moves() },
            justification: None,
        },
        RuleView {
            id: "N7"@,
            severity: Severity::MustNever,
            description: "call of mem::forget"@,
            matcher: MatcherView::CallTo { module: "mem"@, function: "forget"@ },
            justification: None,
        },
        RuleView {
            id: "M3"@,
            severity: Severity::Must,
            description: "parameter of type String where &str would do"@,
            matcher: MatcherView::ParameterOfType { ty: "String"@ },
            justification: None,
        },
        RuleView {
            id: "M4"@,
            severity: Severity::Must,
            description: "parameter of type Vec where a slice would do"@,
            matcher: MatcherView::ParameterOfType { ty: "Vec"@ },
            justification: None,
        },
        RuleView {
            id: "M5"@,
            severity: Severity::Must,
            description: "field of type Box around a single value"@,
            matcher: MatcherView::FieldOfType { ty: "Box"@ },
            justification: None,
        },
        RuleView {
            id: "S6"@,
            severity: Severity::Should,
            description: "name with a medial capital"@,
            matcher: MatcherView::MedialCapital,
            justification: None,
        },
        RuleView {
            id: "S8"@,
            severity: Severity::Should,
            description: "cast between number types with as"@,
            matcher: MatcherView::CastTo { types: number_types() },
            justification: None,
        },
    ]
}

fn rule(id: &str, severity: Severity, description: &str, matcher: Matcher) -> (r: Rule)
    ensures
        r@ == (RuleView {
            id: id@,
            severity,
            description: description@,
            matcher: matcher@,
            justification: None,
        }),
{
    Rule {
        id: id.to_owned(),
        severity,
        description: description.to_owned(),
        matcher,
        justification: None,
    }
}

fn enter(catalog: &mut RuleCatalog, rule: Rule)
    requires
        old(catalog).wf(),
        !has_id(old(catalog)@, rule@.id),
        rule@.adjacency_ok(),
    ensures
        final(catalog).wf(),
        final(catalog)@ == old(catalog)@.push(rule@),
        forall|id: Seq<char>|
            has_id(final(catalog)@, id) <==> has_id(old(catalog)@, id) || id == rule@.id,
{
    let ghost before = catalog@;
    let ghost view = rule@;
    let r = catalog.register(rule);
    proof {
        assert(r is Ok);
        assert forall|id: Seq<char>| has_id(catalog@, id) <==> has_id(before, id) || id
            == view.id by {
            if has_id(before, id) {
                let i = choose|i: int| 0 <= i < before.len() && (#[trigger] before[i]).id == id;
                assert(catalog@[i].id == id);
            }
            if id == view.id {
                assert(catalog@[before.len() as int].id == id);
            }
            if has_id(catalog@, id) {
                let i = choose|i: int| 0 <= i < catalog@.len() && (#[trigger] catalog@[i]).id == id;
                if i < before.len() {
                    assert(before[i].id == id);
                }
            }
        }
    }
}

fn pointer_move_names() -> (names: Vec<String>)
    ensures
        texts(names@) == pointer_moves(),
{
    let mut names: Vec<String> = Vec::new();
    names.push("offset".to_owned());
    names.push("wrapping_offset".to_owned());
    names.push("byte_offset".to_owned());
    names.push("wrapping_byte_offset".to_owned());
    assert(texts(names@) =~= pointer_moves());
    names
}

fn number_type_names() -> (names: Vec<String>)
    ensures
        texts(names@) == number_types(),
{
    let mut names: Vec<String> = Vec::new();
    names.push("u8".to_owned());
    names.push("u16".to_owned());
    names.push("u32".to_owned());
    names.push("u64".to_owned());
    names.push("u128".to_owned());
    names.push("usize".to_owned());
    names.push("i8".to_owned());
    names.push("i16".to_owned());
    names.push("i32".to_owned());
    names.push("i64".to_owned());
    names.push("i128".to_owned());
    names.push("isize".to_owned());
    names.push("f32".to_owned());
    names.push("f64".to_owned());
    assert(texts(names@) =~= number_types());
    names
}

/// The catalog of the standard rules.
pub fn standard_catalog() -> (catalog: RuleCatalog)
    ensures
        catalog.wf(),
        catalog@ == standard_rules(),
{
    proof {
        reveal_strlit("N1");
        reveal_strlit("N2");
        reveal_strlit("N5");
        reveal_strlit("N6");
        reveal_strlit("N7");
        reveal_strlit("M3");
        reveal_strlit("M4");
        reveal_strlit("M5");
        reveal_strlit("S6");
        reveal_strlit("S8");
        assert("N1"@[0] == 'N' && "N1"@[1] == '1');
        assert("N2"@[0] == 'N' && "N2"@[1] == '2');
        assert("N5"@[0] == 'N' && "N5"@[1] == '5');
        assert("N6"@[0] == 'N' && "N6"@[1] == '6');
        assert("N7"@[0] == 'N' && "N7"@[1] == '7');
        assert("M3"@[0] == 'M' && "M3"@[1] == '3');
        assert("M4"@[0] == 'M' && "M4"@[1] == '4');
        assert("M5"@[0] == 'M' && "M5"@[1] == '5');
        assert("S6"@[0] == 'S' && "S6"@[1] == '6');
        assert("S8"@[0] == 'S' && "S8"@[1] == '8');
    }
    let mut catalog = RuleCatalog::new();
    let n1 = Rule {
        id: "N1".to_owned(),
        severity: Severity::MustNever,
        description: "unsafe block without a SAFETY comment directly above it".to_owned(),
        matcher: Matcher::Kind(NodeKind::UnsafeBlock),
        justification: Some("SAFETY:".to_owned()),
    };
    enter(&mut catalog, n1);
    enter(
        &mut catalog,
        rule(
            "N2",
            Severity::MustNever,
            "call of mem::transmute",
            Matcher::CallTo { module: "mem".to_owned(), function: "transmute".to_owned() },
        ),
    );
    enter(
        &mut catalog,
        rule(
            "N5",
            Severity::MustNever,
            "expect without a message",
            Matcher::EmptyMessage { method: "expect".to_owned() },
        ),
    );
    enter(
        &mut catalog,
        rule(
            "N6",
            Severity::MustNever,
            "arithmetic on a raw pointer",
            Matcher::MethodCall { names: pointer_move_names() },
        ),
    );
    enter(
        &mut catalog,
        rule(
            "N7",
            Severity::MustNever,
            "call of mem::forget",
            Matcher::CallTo { module: "mem".to_owned(), function: "forget".to_owned() },
        ),
    );
    enter(
        &mut catalog,
        rule(
            "M3",
            Severity::Must,
            "parameter of type String where &str would do",
            Matcher::ParameterOfType { ty: "String".to_owned() },
        ),
    );
    enter(
        &mut catalog,
        rule(
            "M4",
            Severity::Must,
            "parameter of type Vec where a slice would do",
            Matcher::ParameterOfType { ty: "Vec".to_owned() },
        ),
    );
    enter(
        &mut catalog,
        rule(
            "M5",
            Severity::Must,
            "field of type Box around a single value",
            Matcher::FieldOfType { ty: "Box".to_owned() },
        ),
    );
    enter(
        &mut catalog,
        rule("S6", Severity::Should, "name with a medial capital", Matcher::MedialCapital),
    );
    enter(
        &mut catalog,
        rule(
            "S8",
            Severity::Should,
            "cast between number types with as",
            Matcher::CastTo { types: number_type_names() },
        ),
    );
    assert(catalog@ =~= standard_rules());
    catalog
}

} // verus!
