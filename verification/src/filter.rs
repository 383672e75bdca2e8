use vstd::prelude::*;

use crate::model::{Dimension, DimensionValue, Mark, MarkV, marks_v};
use crate::sort::config::DimensionStage;
use crate::sort::stages::{spec_stage_key, stage_key};
use crate::syntax::{lower_seq, str_eq_ignore_ascii_case};
use crate::utils::str_eq;

verus! {

/// The dimension value a rule extracts from a mark: the stage's key,
/// tagged with its dimension.
pub open spec fn spec_extract(stage: DimensionStage, m: MarkV, roots: Seq<Seq<char>>) -> Option<
    (Dimension, Seq<char>),
> {
    match spec_stage_key(stage, m, roots) {
        Some(k) => Some((stage.spec_dimension(), k)),
        None => None,
    }
}

/// A rule value matches an extracted value when the dimensions agree and
/// the texts agree: case-insensitively for marks and languages, exactly
/// for paths and folders.
pub open spec fn spec_value_matches(v: DimensionValue, d: Dimension, k: Seq<char>) -> bool {
    &&& v.spec_dimension() == d
    &&& match d {
        Dimension::Mark => lower_seq(v.value_seq()) == lower_seq(k),
        Dimension::Language => lower_seq(v.value_seq()) == lower_seq(k),
        Dimension::Path => v.value_seq() == k,
        Dimension::Folder => v.value_seq() == k,
    }
}

/// Allow keeps a mark whose value is listed; deny keeps one whose value is
/// not; a mark without a value fails every allow rule and passes every
/// deny rule.
#[derive(Clone, Debug)]
pub enum ValuePredicate {
    Allow { values: Vec<DimensionValue> },
    Deny { values: Vec<DimensionValue> },
}

/// One filter rule: a dimension (with its stage configuration) and a
/// predicate on the extracted value.
#[derive(Clone, Debug)]
pub struct FilterRule {
    pub stage: DimensionStage,
    pub predicate: ValuePredicate,
}

/// The post-scan filter: a conjunction of rules.
#[derive(Clone, Debug)]
pub struct FilterConfig {
    pub rules: Vec<FilterRule>,
}

impl Default for FilterConfig {
    fn default() -> (r: FilterConfig)
        ensures
            r.rules@.len() == 0,
    {
        FilterConfig { rules: Vec::new() }
    }
}

pub open spec fn spec_values_contain(values: Seq<DimensionValue>, d: Dimension, k: Seq<char>) -> bool {
    exists|i: int| 0 <= i < values.len() && spec_value_matches(#[trigger] values[i], d, k)
}

pub open spec fn spec_predicate_allows(
    pred: ValuePredicate,
    val: Option<(Dimension, Seq<char>)>,
) -> bool {
    match pred {
        ValuePredicate::Allow { values } => match val {
            Some(p) => spec_values_contain(values@, p.0, p.1),
            None => false,
        },
        ValuePredicate::Deny { values } => match val {
            Some(p) => !spec_values_contain(values@, p.0, p.1),
            None => true,
        },
    }
}

pub open spec fn spec_rule_allows(rule: FilterRule, m: MarkV, roots: Seq<Seq<char>>) -> bool {
    spec_predicate_allows(rule.predicate, spec_extract(rule.stage, m, roots))
}

/// A mark passes the filter when every rule allows it.
pub open spec fn spec_filter_allows(rules: Seq<FilterRule>, m: MarkV, roots: Seq<Seq<char>>) -> bool {
    forall|i: int| 0 <= i < rules.len() ==> spec_rule_allows(#[trigger] rules[i], m, roots)
}

/// The marks that pass the filter, in input order.
pub open spec fn spec_apply_filter(rules: Seq<FilterRule>, ms: Seq<MarkV>, roots: Seq<Seq<char>>) -> Seq<
    MarkV,
> {
    ms.filter(|m: MarkV| spec_filter_allows(rules, m, roots))
}

/// The dimension value of a mark for one stage, or `None` when its mark
/// word is not canonical.
pub fn extract_dimension_value(stage: &DimensionStage, mark: &Mark, roots: &Vec<String>) -> (r:
    Option<DimensionValue>)
    ensures
        match r {
            Some(v) => spec_extract(*stage, mark@, roots.deep_view()) == Some(
                (v.spec_dimension(), v.value_seq()),
            ),
            None => spec_extract(*stage, mark@, roots.deep_view()) is None,
        },
{
    match stage_key(stage, mark, roots) {
        Some(k) => Some(
            match stage {
                DimensionStage::Mark(_) => DimensionValue::Mark(k),
                DimensionStage::Language(_) => DimensionValue::Language(k),
                DimensionStage::Path(_) => DimensionValue::Path(k),
                DimensionStage::Folder(_) => DimensionValue::Folder(k),
            },
        ),
        None => None,
    }
}

fn value_matches(v: &DimensionValue, d: Dimension, k: &str) -> (r: bool)
    ensures
        r == spec_value_matches(*v, d, k@),
{
    match (v, d) {
        (DimensionValue::Mark(s), Dimension::Mark) => str_eq_ignore_ascii_case(s.as_str(), k),
        (DimensionValue::Language(s), Dimension::Language) => str_eq_ignore_ascii_case(
            s.as_str(),
            k,
        ),
        (DimensionValue::Path(s), Dimension::Path) => str_eq(s.as_str(), k),
        (DimensionValue::Folder(s), Dimension::Folder) => str_eq(s.as_str(), k),
        _ => false,
    }
}

fn values_contain(values: &Vec<DimensionValue>, d: Dimension, k: &str) -> (r: bool)
    ensures
        r == spec_values_contain(values@, d, k@),
{
    let mut i: usize = 0;
    while i < values.len()
        invariant
            i <= values@.len(),
            forall|t: int| 0 <= t < i ==> !spec_value_matches(#[trigger] values@[t], d, k@),
        decreases values@.len() - i,
    {
        if value_matches(&values[i], d, k) {
            return true;
        }
        i = i + 1;
    }
    false
}

impl FilterConfig {
    /// No rules are configured.
    pub fn is_empty(&self) -> (r: bool)
        ensures
            r == (self.rules@.len() == 0),
    {
        self.rules.len() == 0
    }

    /// Every rule allows this mark.
    fn allows(&self, mark: &Mark, roots: &Vec<String>) -> (r: bool)
        ensures
            r == spec_filter_allows(self.rules@, mark@, roots.deep_view()),
    {
        let mut i: usize = 0;
        while i < self.rules.len()
            invariant
                i <= self.rules@.len(),
                forall|t: int|
                    0 <= t < i ==> spec_rule_allows(
                        #[trigger] self.rules@[t],
                        mark@,
                        roots.deep_view(),
                    ),
            decreases self.rules@.len() - i,
        {
            let rule = &self.rules[i];
            let value = extract_dimension_value(&rule.stage, mark, roots);
            let allowed = match (&rule.predicate, &value) {
                (ValuePredicate::Allow { values }, Some(v)) => values_contain(
                    values,
                    v.dimension(),
                    v.text(),
                ),
                (ValuePredicate::Allow { values: _ }, None) => false,
                (ValuePredicate::Deny { values }, Some(v)) => !values_contain(
                    values,
                    v.dimension(),
                    v.text(),
                ),
                (ValuePredicate::Deny { values: _ }, None) => true,
            };
            if !allowed {
                return false;
            }
            i = i + 1;
        }
        true
    }

    /// Keep the marks that every rule allows, in input order.
    pub fn apply(&self, marks: Vec<Mark>, roots: &Vec<String>) -> (r: Vec<Mark>)
        ensures
            marks_v(r@) == spec_apply_filter(self.rules@, marks_v(marks@), roots.deep_view()),
    {
        let ghost ms = marks_v(marks@);
        let ghost rv = roots.deep_view();
        let mut out: Vec<Mark> = Vec::new();
        let mut j: usize = 0;
        while j < marks.len()
            invariant
                ms == marks_v(marks@),
                rv == roots.deep_view(),
                j <= marks@.len(),
                marks_v(out@) == spec_apply_filter(self.rules@, ms.take(j as int), rv),
            decreases marks@.len() - j,
        {
            proof {
                assert(ms.take(j + 1).drop_last() =~= ms.take(j as int));
                assert(ms.take(j + 1).last() == ms[j as int]);
                assert(ms[j as int] == marks@[j as int]@);
            }
            let ghost out_old = out@;
            if self.allows(&marks[j], roots) {
                out.push(marks[j].duplicate());
                proof {
                    assert(marks_v(out@) =~= marks_v(out_old).push(marks@[j as int]@));
                }
            }
            proof {
                let pred = |m: MarkV| spec_filter_allows(self.rules@, m, rv);
                crate::utils::lemma_filter_unfold(ms.take(j + 1), pred);
            }
            j = j + 1;
        }
        proof {
            assert(ms.take(ms.len() as int) =~= ms);
        }
        out
    }
}

} // verus!
