//! The catalog: the rules that an analysis applies, in the order in which
//! they were registered.
//!
//! The catalog is built once, before any file is analysed, and is read-only
//! from then on. It refuses a rule whose id it already holds, and a rule that
//! asks for a justification comment above a construct that cannot have one.
//! Beside the rules it keeps, for every kind of node, the list of the rules
//! that look for that kind, so that an analysis asks only those.

use vstd::prelude::*;
use crate::rule::{rule_views, Rule, RuleView};
use crate::tree::{lemma_ordinal_injective, NodeKind, KIND_COUNT};

verus! {

/// Why a rule was refused.
#[derive(Clone, Copy, PartialEq, Eq, Debug, Structural)]
pub enum ConfigError {
    /// The catalog already holds a rule with this id.
    DuplicateRuleId,
    /// The rule accepts a justification comment, but looks for a kind of
    /// node above which no such comment can stand.
    AdjacencyUnsupported,
}

/// Whether some rule of `rules` has the id `id`.
pub open spec fn has_id(rules: Seq<RuleView>, id: Seq<char>) -> bool {
    exists|i: int| 0 <= i < rules.len() && (#[trigger] rules[i]).id == id
}

/// What holds of the rules of every catalog: no two share an id, and each
/// that accepts a justification looks for a construct that can have one.
pub open spec fn catalog_wf(rules: Seq<RuleView>) -> bool {
    &&& forall|i: int, j: int|
        0 <= i < j < rules.len() ==> (#[trigger] rules[i]).id != (#[trigger] rules[j]).id
    &&& forall|i: int| 0 <= i < rules.len() ==> (#[trigger] rules[i]).adjacency_ok()
}

/// Whether the rule at position `i` stands in `list`.
pub open spec fn is_filed(list: Seq<usize>, i: int) -> bool {
    exists|a: int| 0 <= a < list.len() && #[trigger] list[a] == i
}

/// Whether `list` is the list under which the rules for `kind` are filed:
/// the indices of exactly the rules that look for `kind`, in ascending order.
pub open spec fn files_under(rules: Seq<RuleView>, kind: NodeKind, list: Seq<usize>) -> bool {
    &&& forall|a: int, b: int| 0 <= a < b < list.len() ==> list[a] < list[b]
    &&& forall|a: int|
        0 <= a < list.len() ==> list[a] < rules.len() && rules[list[a] as int].matcher.kind()
            == kind
    &&& forall|i: int|
        0 <= i < rules.len() && (#[trigger] rules[i]).matcher.kind() == kind ==> is_filed(list, i)
}

/// Between two neighbours of the list for `kind` (and before its first entry,
/// and after its last) no rule looks for `kind`.
pub proof fn lemma_gap_has_other_kinds(
    rules: Seq<RuleView>,
    kind: NodeKind,
    list: Seq<usize>,
    j: int,
    i: int,
)
    requires
        files_under(rules, kind, list),
        0 <= j <= list.len(),
        0 <= i < rules.len(),
        j > 0 ==> list[j - 1] < i,
        j < list.len() ==> i < list[j],
    ensures
        rules[i].matcher.kind() != kind,
{
    if rules[i].matcher.kind() == kind {
        assert(is_filed(list, i));
        let m = choose|m: int| 0 <= m < list.len() && #[trigger] list[m] == i;
        if m < j {
            assert(m <= j - 1);
            if m < j - 1 {
                assert(list[m] < list[j - 1]);
            }
        } else {
            if m > j {
                assert(list[j] < list[m]);
            }
        }
    }
}

/// The rules of an analysis.
#[derive(Debug)]
pub struct RuleCatalog {
    rules: Vec<Rule>,
    by_kind: Vec<Vec<usize>>,
}

impl View for RuleCatalog {
    type V = Seq<RuleView>;

    closed spec fn view(&self) -> Seq<RuleView> {
        rule_views(self.rules@)
    }
}

impl RuleCatalog {
    spec fn filed(&self, kind: NodeKind) -> Seq<usize> {
        self.by_kind[kind.spec_ordinal() as int]@
    }

    /// The catalog's rules are well formed, and its lists by kind agree with
    /// them.
    pub closed spec fn wf(&self) -> bool {
        &&& catalog_wf(self@)
        &&& self.by_kind.len() == KIND_COUNT
        &&& forall|kind: NodeKind| files_under(self@, kind, #[trigger] self.filed(kind))
    }

    /// The rules of a well-formed catalog are well formed.
    pub proof fn lemma_wf(&self)
        requires
            self.wf(),
        ensures
            catalog_wf(self@),
    {
    }

    /// A catalog without rules.
    pub fn new() -> (catalog: Self)
        ensures
            catalog.wf(),
            catalog@ == Seq::<RuleView>::empty(),
    {
        let mut by_kind: Vec<Vec<usize>> = Vec::new();
        let mut k: usize = 0;
        while k < KIND_COUNT
            invariant
                k <= KIND_COUNT,
                by_kind@.len() == k,
                forall|o: int| 0 <= o < k ==> (#[trigger] by_kind@[o])@.len() == 0,
            decreases KIND_COUNT - k,
        {
            by_kind.push(Vec::new());
            k = k + 1;
        }
        let catalog = RuleCatalog { rules: Vec::new(), by_kind };
        proof {
            assert(catalog@ =~= Seq::<RuleView>::empty());
            assert forall|kind: NodeKind| files_under(catalog@, kind, #[trigger] catalog.filed(kind)) by {
                assert(catalog.by_kind@[kind.spec_ordinal() as int]@.len() == 0);
            }
        }
        catalog
    }

    /// The number of rules.
    pub fn len(&self) -> (n: usize)
        ensures
            n == self@.len(),
    {
        self.rules.len()
    }

    /// The rules, in the order in which they were registered.
    pub fn all(&self) -> (rules: &Vec<Rule>)
        ensures
            rule_views(rules@) == self@,
    {
        &self.rules
    }

    /// The rule at position `i` of the order of registration.
    pub fn get(&self, i: usize) -> (rule: &Rule)
        requires
            i < self@.len(),
        ensures
            rule@ == self@[i as int],
    {
        &self.rules[i]
    }

    /// Whether the catalog holds a rule with the id `id`.
    pub fn contains_id(&self, id: &String) -> (r: bool)
        ensures
            r == has_id(self@, id@),
    {
        let mut i: usize = 0;
        while i < self.rules.len()
            invariant
                i <= self.rules@.len(),
                forall|j: int| 0 <= j < i ==> (#[trigger] self@[j]).id != id@,
            decreases self.rules@.len() - i,
        {
            if self.rules[i].id == *id {
                assert(self@[i as int].id == id@);
                return true;
            }
            i = i + 1;
        }
        false
    }

    /// The rules that look for nodes of `kind`: their positions in the order
    /// of registration, ascending.
    pub fn applicable(&self, kind: NodeKind) -> (list: &Vec<usize>)
        requires
            self.wf(),
        ensures
            files_under(self@, kind, list@),
    {
        assert(files_under(self@, kind, self.filed(kind)));
        &self.by_kind[kind.ordinal()]
    }

    /// Adds a rule at the end of the catalog, unless its id is taken or it
    /// accepts a justification where none can stand.
    pub fn register(&mut self, rule: Rule) -> (r: Result<(), ConfigError>)
        requires
            old(self).wf(),
        ensures
            final(self).wf(),
            r is Ok <==> !has_id(old(self)@, rule@.id) && rule@.adjacency_ok(),
            r is Ok ==> final(self)@ == old(self)@.push(rule@),
            r is Err ==> final(self)@ == old(self)@,
            r == Err::<(), ConfigError>(ConfigError::DuplicateRuleId) <==> has_id(
                old(self)@,
                rule@.id,
            ),
            r == Err::<(), ConfigError>(ConfigError::AdjacencyUnsupported) <==> !has_id(
                old(self)@,
                rule@.id,
            ) && !rule@.adjacency_ok(),
    {
        if self.contains_id(&rule.id) {
            return Err(ConfigError::DuplicateRuleId);
        }
        let kind: NodeKind = rule.matcher.kind();
        if rule.justification.is_some() && !kind.supports_adjacency() {
            return Err(ConfigError::AdjacencyUnsupported);
        }
        let index: usize = self.rules.len();
        let ordinal: usize = kind.ordinal();
        let ghost before = self@;
        let ghost view = rule@;
        self.by_kind[ordinal].push(index);
        self.rules.push(rule);
        proof {
            assert(self@ =~= before.push(view));
            assert forall|i: int, j: int| 0 <= i < j < self@.len() implies (#[trigger] self@[i]).id
                != (#[trigger] self@[j]).id by {
                if j == before.len() {
                    assert(before[i].id != view.id);
                }
            }
            assert forall|k: NodeKind| files_under(self@, k, #[trigger] self.filed(k)) by {
                let list = self.filed(k);
                let was = old(self).filed(k);
                assert(files_under(before, k, was));
                if k != kind {
                    if k.spec_ordinal() == kind.spec_ordinal() {
                        lemma_ordinal_injective(k, kind);
                    }
                    assert(list == was);
                    assert forall|i: int|
                        0 <= i < self@.len() && (#[trigger] self@[i]).matcher.kind()
                            == k implies is_filed(list, i) by {
                        assert(before[i].matcher.kind() == k);
                        assert(is_filed(was, i));
                    }
                } else {
                    assert(list == was.push(index));
                    assert forall|i: int|
                        0 <= i < self@.len() && (#[trigger] self@[i]).matcher.kind()
                            == k implies is_filed(list, i) by {
                        if i < before.len() {
                            assert(before[i].matcher.kind() == k);
                            assert(is_filed(was, i));
                            let m = choose|m: int| 0 <= m < was.len() && #[trigger] was[m] == i;
                            assert(list[m] == i);
                        } else {
                            assert(list[was.len() as int] == index);
                        }
                    }
                }
            }
        }
        Ok(())
    }
}

} // verus!
