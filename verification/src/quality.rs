//! Data quality rules over feature collections.
use vstd::prelude::*;
use crate::feature::FeatureCollection;
use crate::geometry::{geometry_type_name, spec_geometry_type_name};

verus! {

/// A data quality rule.
#[derive(Debug)]
pub enum QualityRule {
    /// Every geometry has this type name (`Point`, `Polygon`, ...).
    GeometryType(String),
}

/// Outcome of a quality rule.
#[derive(Debug)]
pub struct QualityResult {
    pub rule: String,
    pub passed: bool,
    pub message: String,
}

/// Number of features whose geometry type name differs from `name`.
pub open spec fn mismatched_types(fc: FeatureCollection, name: Seq<char>, k: int) -> nat
    decreases k,
{
    if k <= 0 {
        0
    } else {
        mismatched_types(fc, name, k - 1) + if spec_geometry_type_name(fc.features@[k - 1].geometry) != name {
            1nat
        } else {
            0nat
        }
    }
}

/// The outcome of a rule: its text, whether it passed and a message.
pub open spec fn spec_check_rule(fc: FeatureCollection, rule: QualityRule) -> (Seq<char>, bool, Seq<char>) {
    match rule {
        QualityRule::GeometryType(t) => {
            let bad = mismatched_types(fc, t@, fc.features@.len() as int);
            (
                "geometry_type("@ + t@ + ")"@,
                bad == 0,
                if bad == 0 {
                    "all geometries match"@
                } else {
                    crate::text::decimal(bad) + " geometries of another type"@
                },
            )
        },
    }
}

proof fn lemma_mismatched_bound(fc: FeatureCollection, name: Seq<char>, k: int)
    requires
        0 <= k <= fc.features@.len(),
    ensures
        mismatched_types(fc, name, k) <= k,
    decreases k,
{
    if k > 0 {
        lemma_mismatched_bound(fc, name, k - 1);
    }
}

/// Checks one rule (see `spec_check_rule`).
pub fn check_rule(fc: &FeatureCollection, rule: &QualityRule) -> (r: QualityResult)
    ensures
        (r.rule@, r.passed, r.message@) == spec_check_rule(*fc, *rule),
{
    match rule {
        QualityRule::GeometryType(t) => {
            let mut bad: usize = 0;
            let mut i: usize = 0;
            while i < fc.features.len()
                invariant
                    i <= fc.features@.len(),
                    bad == mismatched_types(*fc, t@, i as int),
                decreases fc.features@.len() - i,
            {
                proof {
                    lemma_mismatched_bound(*fc, t@, i as int);
                }
                let name = geometry_type_name(&fc.features[i].geometry);
                if !crate::text::str_eq(name.as_str(), t.as_str()) {
                    bad = bad + 1;
                }
                i = i + 1;
            }
            let rule_text = crate::text::cat3("geometry_type(", t.as_str(), ")");
            let message = if bad == 0 {
                String::from_str("all geometries match")
            } else {
                let mut m = crate::text::u64_text(bad as u64);
                m.append(" geometries of another type");
                m
            };
            QualityResult { rule: rule_text, passed: bad == 0, message }
        },
    }
}

/// Checks each rule against a collection, in order.
pub fn check_quality(fc: &FeatureCollection, rules: &[QualityRule]) -> (r: Vec<QualityResult>)
    ensures
        r@.len() == rules@.len(),
        forall|i: int| 0 <= i < rules@.len() ==> (#[trigger] r@[i].rule@, r@[i].passed, r@[i].message@)
            == spec_check_rule(*fc, rules@[i]),
{
    let mut out: Vec<QualityResult> = Vec::new();
    let mut i: usize = 0;
    while i < rules.len()
        invariant
            i <= rules@.len(),
            out@.len() == i,
            forall|q: int| 0 <= q < i ==> (#[trigger] out@[q].rule@, out@[q].passed, out@[q].message@)
                == spec_check_rule(*fc, rules@[q]),
        decreases rules@.len() - i,
    {
        out.push(check_rule(fc, &rules[i]));
        i = i + 1;
    }
    out
}

} // verus!
