//! From raw matches to a report.
//!
//! A report holds each violation once and in a fixed order, so that the same
//! matches always give the same report, in whatever order they were found.
//! Two matches are the same violation when they name the same rule, the same
//! file and the same span; of such repeats the one found first stays. The
//! order is by file path, then by the line and the column at which the span
//! starts, then by rule id. Two violations that agree in all of these differ
//! in where their spans end, and the one that ends first comes first.

use vstd::prelude::*;
use crate::text::{compare_text, lemma_text_lt_strict_total, text_lt, Order};
use crate::violation::{views, Violation, ViolationView};

verus! {

/// Whether two violations name the same rule at the same place.
pub open spec fn same_place(a: ViolationView, b: ViolationView) -> bool {
    a.rule_id == b.rule_id && a.file == b.file && a.span == b.span
}

/// The order of a report: by file, start line, start column, rule id, then
/// by end line and end column.
pub open spec fn key_lt(a: ViolationView, b: ViolationView) -> bool {
    if a.file != b.file {
        text_lt(a.file, b.file)
    } else if a.span.start_line != b.span.start_line {
        a.span.start_line < b.span.start_line
    } else if a.span.start_col != b.span.start_col {
        a.span.start_col < b.span.start_col
    } else if a.rule_id != b.rule_id {
        text_lt(a.rule_id, b.rule_id)
    } else if a.span.end_line != b.span.end_line {
        a.span.end_line < b.span.end_line
    } else {
        a.span.end_col < b.span.end_col
    }
}

/// `key_lt` is a strict order, and total on violations of different places.
pub proof fn lemma_key_lt_strict_total(a: ViolationView, b: ViolationView, c: ViolationView)
    ensures
        !key_lt(a, a),
        key_lt(a, b) && key_lt(b, c) ==> key_lt(a, c),
        key_lt(a, b) || same_place(a, b) || key_lt(b, a),
        !(key_lt(a, b) && same_place(a, b)),
{
    lemma_text_lt_strict_total(a.file, b.file, c.file);
    lemma_text_lt_strict_total(b.file, a.file, c.file);
    lemma_text_lt_strict_total(a.rule_id, b.rule_id, c.rule_id);
    lemma_text_lt_strict_total(b.rule_id, a.rule_id, c.rule_id);
}

/// Each violation comes before all that follow it. Such a sequence holds no
/// place twice.
pub open spec fn is_ordered(s: Seq<ViolationView>) -> bool {
    forall|i: int, j: int| 0 <= i < j < s.len() ==> key_lt(#[trigger] s[i], #[trigger] s[j])
}

/// Where `v` belongs in `s`: behind the last violation that comes before it.
pub open spec fn insert_at(s: Seq<ViolationView>, v: ViolationView) -> int
    decreases s.len(),
{
    if s.len() == 0 {
        0
    } else if key_lt(s.last(), v) {
        s.len() as int
    } else {
        insert_at(s.drop_last(), v)
    }
}

/// `s` with `v` put in its place, unless `s` already holds a violation of the
/// same place there.
pub open spec fn with_violation(s: Seq<ViolationView>, v: ViolationView) -> Seq<ViolationView> {
    let p = insert_at(s, v);
    if p < s.len() && same_place(s[p], v) {
        s
    } else {
        s.insert(p, v)
    }
}

/// The report for the raw matches `raw`.
pub open spec fn aggregated(raw: Seq<ViolationView>) -> Seq<ViolationView>
    decreases raw.len(),
{
    if raw.len() == 0 {
        Seq::empty()
    } else {
        with_violation(aggregated(raw.drop_last()), raw.last())
    }
}

/// Whether `s` holds a violation of the place of `v`.
pub open spec fn holds_place(s: Seq<ViolationView>, v: ViolationView) -> bool {
    exists|i: int| 0 <= i < s.len() && same_place(#[trigger] s[i], v)
}

/// Whether `raw[j]` is the first of `raw` at its place.
pub open spec fn is_first_of_place(raw: Seq<ViolationView>, j: int) -> bool {
    0 <= j < raw.len() && forall|k: int| 0 <= k < j ==> !same_place(#[trigger] raw[k], raw[j])
}

/// The place in an ordered sequence where a violation belongs: all before it
/// come before the violation, none from there on does.
pub proof fn lemma_insert_at(s: Seq<ViolationView>, v: ViolationView)
    requires
        is_ordered(s),
    ensures
        0 <= insert_at(s, v) <= s.len(),
        forall|i: int| 0 <= i < insert_at(s, v) ==> key_lt(#[trigger] s[i], v),
        forall|i: int| insert_at(s, v) <= i < s.len() ==> !key_lt(#[trigger] s[i], v),
    decreases s.len(),
{
    if s.len() > 0 {
        if key_lt(s.last(), v) {
            assert forall|i: int| 0 <= i < s.len() implies key_lt(#[trigger] s[i], v) by {
                if i < s.len() - 1 {
                    assert(key_lt(s[i], s[s.len() - 1]));
                    lemma_key_lt_strict_total(s[i], s.last(), v);
                }
            }
        } else {
            let t = s.drop_last();
            assert forall|i: int, j: int| 0 <= i < j < t.len() implies key_lt(
                #[trigger] t[i],
                #[trigger] t[j],
            ) by {
                assert(key_lt(s[i], s[j]));
            }
            lemma_insert_at(t, v);
            assert forall|i: int| 0 <= i < insert_at(s, v) implies key_lt(#[trigger] s[i], v) by {
                assert(s[i] == t[i]);
            }
            assert forall|i: int| insert_at(s, v) <= i < s.len() implies !key_lt(
                #[trigger] s[i],
                v,
            ) by {
                if i < t.len() {
                    assert(s[i] == t[i]);
                }
            }
        }
    }
}

/// Putting a violation into an ordered sequence keeps it ordered, keeps what
/// it held, and makes it hold the violation's place.
pub proof fn lemma_with_violation(s: Seq<ViolationView>, v: ViolationView)
    requires
        is_ordered(s),
    ensures
        is_ordered(with_violation(s, v)),
        holds_place(with_violation(s, v), v),
        holds_place(s, v) ==> with_violation(s, v) == s,
        !holds_place(s, v) ==> with_violation(s, v) == s.insert(insert_at(s, v), v),
{
    lemma_insert_at(s, v);
    let p = insert_at(s, v);
    let u = with_violation(s, v);
    if p < s.len() && same_place(s[p], v) {
        assert(same_place(u[p], v));
        assert(holds_place(s, v));
    } else {
        assert(u[p] == v);
        assert(same_place(u[p], v));
        // From `p` on every violation of `s` comes after `v`: none comes
        // before it, and none is at its place.
        assert forall|i: int| p <= i < s.len() implies key_lt(v, #[trigger] s[i]) by {
            lemma_key_lt_strict_total(v, s[i], v);
            if i > p && same_place(v, s[i]) {
                assert(key_lt(s[p], s[i]));
                lemma_same_place_orders_alike(v, s[i], s[p]);
            }
        }
        assert forall|i: int, j: int| 0 <= i < j < u.len() implies key_lt(
            #[trigger] u[i],
            #[trigger] u[j],
        ) by {
            if j < p {
                assert(key_lt(s[i], s[j]));
            } else if j == p {
                assert(key_lt(s[i], v));
            } else if i == p {
                assert(key_lt(v, s[j - 1]));
            } else if i < p {
                assert(key_lt(s[i], s[j - 1]));
            } else {
                assert(key_lt(s[i - 1], s[j - 1]));
            }
        }
        if holds_place(s, v) {
            let i = choose|i: int| 0 <= i < s.len() && same_place(#[trigger] s[i], v);
            lemma_key_lt_strict_total(s[i], v, v);
            if i >= p {
                assert(key_lt(v, s[i]));
                lemma_key_lt_strict_total(v, s[i], v);
            }
        }
    }
}

/// Two violations of the same place stand alike to any third.
pub proof fn lemma_same_place_orders_alike(a: ViolationView, b: ViolationView, c: ViolationView)
    requires
        same_place(a, b),
    ensures
        key_lt(a, c) == key_lt(b, c),
        key_lt(c, a) == key_lt(c, b),
        same_place(a, c) == same_place(b, c),
{
}

/// A report is ordered.
pub proof fn lemma_aggregated_is_ordered(raw: Seq<ViolationView>)
    ensures
        is_ordered(aggregated(raw)),
    decreases raw.len(),
{
    if raw.len() > 0 {
        lemma_aggregated_is_ordered(raw.drop_last());
        lemma_with_violation(aggregated(raw.drop_last()), raw.last());
    }
}

/// A report holds the place of every raw match.
pub proof fn lemma_aggregated_covers(raw: Seq<ViolationView>, j: int)
    requires
        0 <= j < raw.len(),
    ensures
        holds_place(aggregated(raw), raw[j]),
    decreases raw.len(),
{
    let rest = raw.drop_last();
    let s = aggregated(rest);
    lemma_aggregated_is_ordered(rest);
    lemma_with_violation(s, raw.last());
    let u = aggregated(raw);
    if j < raw.len() - 1 {
        lemma_aggregated_covers(rest, j);
        assert(rest[j] == raw[j]);
        let i = choose|i: int| 0 <= i < s.len() && same_place(#[trigger] s[i], raw[j]);
        if holds_place(s, raw.last()) {
            assert(u == s);
        } else {
            let p = insert_at(s, raw.last());
            lemma_insert_at(s, raw.last());
            if i < p {
                assert(u[i] == s[i]);
            } else {
                assert(u[i + 1] == s[i]);
            }
        }
    }
}

/// Every violation of a report is a raw match: the first one at its place.
pub proof fn lemma_aggregated_draws_from(raw: Seq<ViolationView>, i: int)
    requires
        0 <= i < aggregated(raw).len(),
    ensures
        exists|j: int| is_first_of_place(raw, j) && #[trigger] raw[j] == aggregated(raw)[i],
    decreases raw.len(),
{
    let rest = raw.drop_last();
    let s = aggregated(rest);
    let v = raw.last();
    lemma_aggregated_is_ordered(rest);
    lemma_with_violation(s, v);
    lemma_insert_at(s, v);
    let u = aggregated(raw);
    let p = insert_at(s, v);
    if !holds_place(s, v) && i == p {
        let j = raw.len() - 1;
        assert forall|k: int| 0 <= k < j implies !same_place(#[trigger] raw[k], raw[j]) by {
            if same_place(raw[k], raw[j]) {
                lemma_aggregated_covers(rest, k);
                assert(rest[k] == raw[k]);
                let m = choose|m: int| 0 <= m < s.len() && same_place(#[trigger] s[m], rest[k]);
                assert(same_place(s[m], v));
            }
        }
        assert(is_first_of_place(raw, j));
        assert(raw[j] == u[i]);
    } else {
        let i0 = if holds_place(s, v) || i < p {
            i
        } else {
            i - 1
        };
        assert(u[i] == s[i0]);
        lemma_aggregated_draws_from(rest, i0);
        let j = choose|j: int| is_first_of_place(rest, j) && #[trigger] rest[j] == s[i0];
        assert(raw[j] == rest[j]);
        assert forall|k: int| 0 <= k < j implies !same_place(#[trigger] raw[k], raw[j]) by {
            assert(raw[k] == rest[k]);
        }
        assert(is_first_of_place(raw, j));
    }
}

/// Aggregating a sequence that is already ordered changes nothing.
pub proof fn lemma_aggregated_of_ordered(s: Seq<ViolationView>)
    requires
        is_ordered(s),
    ensures
        aggregated(s) == s,
    decreases s.len(),
{
    if s.len() == 0 {
        assert(s =~= Seq::empty());
    } else {
        let t = s.drop_last();
        assert forall|i: int, j: int| 0 <= i < j < t.len() implies key_lt(
            #[trigger] t[i],
            #[trigger] t[j],
        ) by {
            assert(key_lt(s[i], s[j]));
        }
        lemma_aggregated_of_ordered(t);
        if t.len() > 0 {
            assert(key_lt(s[t.len() - 1], s[s.len() - 1]));
            assert(t.last() == s[t.len() - 1]);
        }
        assert(insert_at(t, s.last()) == t.len());
        assert(t.insert(t.len() as int, s.last()) =~= s);
    }
}

/// Aggregating a report again gives the same report.
pub proof fn lemma_aggregate_idempotent(raw: Seq<ViolationView>)
    ensures
        aggregated(aggregated(raw)) == aggregated(raw),
{
    lemma_aggregated_is_ordered(raw);
    lemma_aggregated_of_ordered(aggregated(raw));
}

/// Decides `key_lt`.
pub fn comes_before(a: &Violation, b: &Violation) -> (r: bool)
    ensures
        r == key_lt(a@, b@),
{
    match compare_text(&a.file, &b.file) {
        Order::Less => true,
        Order::Greater => false,
        Order::Equal => {
            if a.span.start_line != b.span.start_line {
                a.span.start_line < b.span.start_line
            } else if a.span.start_col != b.span.start_col {
                a.span.start_col < b.span.start_col
            } else {
                match compare_text(&a.rule_id, &b.rule_id) {
                    Order::Less => true,
                    Order::Greater => false,
                    Order::Equal => {
                        if a.span.end_line != b.span.end_line {
                            a.span.end_line < b.span.end_line
                        } else {
                            a.span.end_col < b.span.end_col
                        }
                    },
                }
            }
        },
    }
}

/// Decides `same_place`.
pub fn is_same_place(a: &Violation, b: &Violation) -> (r: bool)
    ensures
        r == same_place(a@, b@),
{
    a.span == b.span && a.rule_id == b.rule_id && a.file == b.file
}

fn put(out: &mut Vec<Violation>, v: Violation)
    ensures
        views(final(out)@) == with_violation(views(old(out)@), v@),
{
    let ghost s = views(out@);
    let mut p: usize = out.len();
    proof {
        assert(s.take(p as int) =~= s);
    }
    while p > 0 && !comes_before(&out[p - 1], &v)
        invariant
            p <= out@.len(),
            s == views(out@),
            insert_at(s, v@) == insert_at(s.take(p as int), v@),
        decreases p,
    {
        proof {
            let t = s.take(p as int);
            assert(t.last() == s[p - 1]);
            assert(t.drop_last() =~= s.take(p - 1));
        }
        p = p - 1;
    }
    proof {
        let t = s.take(p as int);
        if p > 0 {
            assert(t.last() == s[p - 1]);
        }
        assert(insert_at(s, v@) == p);
    }
    if p < out.len() && is_same_place(&out[p], &v) {
    } else {
        let ghost view = v@;
        out.insert(p, v);
        proof {
            assert(views(out@) =~= s.insert(p as int, view));
        }
    }
}

/// The violations of one analysis, each once, in the order of `key_lt`.
#[derive(Debug)]
pub struct Report {
    violations: Vec<Violation>,
}

impl View for Report {
    type V = Seq<ViolationView>;

    closed spec fn view(&self) -> Seq<ViolationView> {
        views(self.violations@)
    }
}

impl Report {
    /// The report is ordered, and so holds no place twice.
    pub open spec fn wf(&self) -> bool {
        is_ordered(self@)
    }

    /// The number of violations.
    pub fn len(&self) -> (n: usize)
        ensures
            n == self@.len(),
    {
        self.violations.len()
    }

    /// Whether the report holds no violation.
    pub fn is_empty(&self) -> (r: bool)
        ensures
            r == (self@.len() == 0),
    {
        self.violations.len() == 0
    }

    /// The violations in the order of the report.
    pub fn violations(&self) -> (list: &Vec<Violation>)
        ensures
            views(list@) == self@,
    {
        &self.violations
    }

    /// The raw matches that make up the report: its violations, in order.
    pub fn into_violations(self) -> (list: Vec<Violation>)
        ensures
            views(list@) == self@,
    {
        self.violations
    }
}

/// Builds the report for the raw matches `raw`: each place once, with the
/// match that was found first for it, in the order of `key_lt`.
pub fn aggregate(raw: Vec<Violation>) -> (report: Report)
    ensures
        report@ == aggregated(views(raw@)),
        report.wf(),
{
    let mut out: Vec<Violation> = Vec::new();
    let ghost all = views(raw@);
    proof {
        assert(views(out@) =~= aggregated(all.take(0)));
    }
    for v in iter: raw
        invariant
            iter.seq() == raw@,
            all == views(raw@),
            views(out@) == aggregated(all.take(iter.index() as int)),
    {
        proof {
            let i = iter.index() as int;
            assert(all.take(i + 1).drop_last() =~= all.take(i));
            assert(all.take(i + 1).last() == v@);
        }
        put(&mut out, v);
    }
    proof {
        assert(all.take(all.len() as int) =~= all);
        lemma_aggregated_is_ordered(all);
    }
    Report { violations: out }
}

} // verus!
