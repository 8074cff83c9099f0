//! Pipeline tests: assertions on output counts, properties, geometry types and CRS.
use vstd::prelude::*;
use crate::feature::{FeatureCollection, prop_keys};
use crate::geometry::spec_is_empty_geometry;
use crate::quality::{QualityRule, spec_check_rule};
use crate::text::{debug_quoted, decimal};

verus! {

/// A test of one output node.
#[derive(Debug)]
pub struct PipelineTest {
    pub name: String,
    pub node: String,
    pub assertions: Vec<TestAssertion>,
}

/// An assertion on an output.
#[derive(Debug)]
pub enum TestAssertion {
    /// Output must have exactly N features.
    FeatureCount(usize),
    /// Output must have at least N features.
    MinFeatures(usize),
    /// Output must have at most N features.
    MaxFeatures(usize),
    /// All features must have this property.
    HasProperty(String),
    /// All geometries must be of this type.
    GeometryType(String),
    /// A data quality rule.
    QualityRule(QualityRule),
    /// The CRS must match.
    Crs(String),
    /// No empty geometries.
    NoEmpty,
}

/// Result of running a pipeline test.
#[derive(Debug)]
pub struct TestResult {
    pub test_name: String,
    pub passed: bool,
    pub details: Vec<AssertionResult>,
}

/// Result of a single assertion.
#[derive(Debug)]
pub struct AssertionResult {
    pub assertion: String,
    pub passed: bool,
    pub message: String,
}

/// Number of features among the first `k` with an empty geometry.
pub open spec fn empty_count(fc: FeatureCollection, k: int) -> nat
    decreases k,
{
    if k <= 0 {
        0
    } else {
        empty_count(fc, k - 1) + if spec_is_empty_geometry(fc.features@[k - 1].geometry) {
            1nat
        } else {
            0nat
        }
    }
}

/// Every feature has property `p`.
pub open spec fn all_have_property(fc: FeatureCollection, p: Seq<char>) -> bool {
    forall|i: int| 0 <= i < fc.features@.len() ==> #[trigger] prop_keys(fc.features@[i].properties@).contains(p)
}

/// The debug text of an optional CRS: `None` or `Some("...")`.
pub open spec fn crs_debug(crs: Option<String>) -> Seq<char> {
    match crs {
        Some(c) => "Some("@ + debug_quoted(c@) + ")"@,
        None => "None"@,
    }
}

/// What an assertion reports on a collection: its text, whether it passed, and a message.
pub open spec fn spec_check_assertion(a: TestAssertion, fc: FeatureCollection) -> (Seq<char>, bool, Seq<char>) {
    let n = fc.features@.len();
    match a {
        TestAssertion::FeatureCount(e) => ("feature_count == "@ + decimal(e as nat), n == e, "actual: "@ + decimal(n)),
        TestAssertion::MinFeatures(e) => ("feature_count >= "@ + decimal(e as nat), n >= e, "actual: "@ + decimal(n)),
        TestAssertion::MaxFeatures(e) => ("feature_count <= "@ + decimal(e as nat), n <= e, "actual: "@ + decimal(n)),
        TestAssertion::HasProperty(p) => (
            "has_property("@ + p@ + ")"@,
            all_have_property(fc, p@),
            if all_have_property(fc, p@) {
                "all features have property"@
            } else {
                "some features missing property"@
            },
        ),
        TestAssertion::GeometryType(t) => {
            let r = spec_check_rule(fc, QualityRule::GeometryType(t));
            ("geometry_type("@ + t@ + ")"@, r.1, r.2)
        },
        TestAssertion::QualityRule(rule) => spec_check_rule(fc, rule),
        TestAssertion::Crs(e) => (
            "crs == "@ + e@,
            fc.crs matches Some(c) && c@ == e@,
            "actual: "@ + crs_debug(fc.crs),
        ),
        TestAssertion::NoEmpty => {
            let k = empty_count(fc, n as int);
            (
                "no_empty_geometries"@,
                k == 0,
                if k == 0 {
                    "no empty geometries"@
                } else {
                    decimal(k) + " empty geometries found"@
                },
            )
        },
    }
}

proof fn lemma_empty_bound(fc: FeatureCollection, k: int)
    requires
        0 <= k <= fc.features@.len(),
    ensures
        empty_count(fc, k) <= k,
    decreases k,
{
    if k > 0 {
        lemma_empty_bound(fc, k - 1);
    }
}

fn count_text(prefix: &str, n: usize) -> (r: String)
    ensures
        r@ == prefix@ + decimal(n as nat),
{
    let mut s = String::from_str(prefix);
    crate::text::append_decimal(&mut s, n as u64);
    s
}

/// Checks one assertion against a collection (see `spec_check_assertion`).
pub fn check_assertion(assertion: &TestAssertion, fc: &FeatureCollection) -> (r: AssertionResult)
    ensures
        (r.assertion@, r.passed, r.message@) == spec_check_assertion(*assertion, *fc),
{
    let n = fc.len();
    match assertion {
        TestAssertion::FeatureCount(e) => AssertionResult {
            assertion: count_text("feature_count == ", *e),
            passed: n == *e,
            message: count_text("actual: ", n),
        },
        TestAssertion::MinFeatures(e) => AssertionResult {
            assertion: count_text("feature_count >= ", *e),
            passed: n >= *e,
            message: count_text("actual: ", n),
        },
        TestAssertion::MaxFeatures(e) => AssertionResult {
            assertion: count_text("feature_count <= ", *e),
            passed: n <= *e,
            message: count_text("actual: ", n),
        },
        TestAssertion::HasProperty(p) => {
            let mut all = true;
            let mut i: usize = 0;
            while i < fc.features.len()
                invariant
                    i <= fc.features@.len(),
                    all == forall|j: int| 0 <= j < i ==> #[trigger] prop_keys(fc.features@[j].properties@).contains(p@),
                decreases fc.features@.len() - i,
            {
                let present = crate::feature::prop_contains(&fc.features[i].properties, p.as_str());
                all = all && present;
                proof {
                    if !present {
                        assert(!prop_keys(fc.features@[i as int].properties@).contains(p@));
                    }
                }
                i = i + 1;
            }
            AssertionResult {
                assertion: crate::text::cat3("has_property(", p.as_str(), ")"),
                passed: all,
                message: if all {
                    String::from_str("all features have property")
                } else {
                    String::from_str("some features missing property")
                },
            }
        },
        TestAssertion::GeometryType(t) => {
            let rule = QualityRule::GeometryType(t.clone());
            let r = crate::quality::check_rule(fc, &rule);
            AssertionResult {
                assertion: crate::text::cat3("geometry_type(", t.as_str(), ")"),
                passed: r.passed,
                message: r.message,
            }
        },
        TestAssertion::QualityRule(rule) => {
            let r = crate::quality::check_rule(fc, rule);
            AssertionResult { assertion: r.rule, passed: r.passed, message: r.message }
        },
        TestAssertion::Crs(e) => {
            let passed = match &fc.crs {
                Some(c) => crate::text::str_eq(c.as_str(), e.as_str()),
                None => false,
            };
            let mut message = String::from_str("actual: ");
            match &fc.crs {
                Some(c) => {
                    message.append("Some(");
                    let d = crate::text::debug_str(c.as_str());
                    message.append(d.as_str());
                    message.append(")");
                },
                None => {
                    message.append("None");
                },
            }
            AssertionResult { assertion: crate::text::cat("crs == ", e.as_str()), passed, message }
        },
        TestAssertion::NoEmpty => {
            let mut k: usize = 0;
            let mut i: usize = 0;
            while i < fc.features.len()
                invariant
                    i <= fc.features@.len(),
                    k == empty_count(*fc, i as int),
                decreases fc.features@.len() - i,
            {
                proof {
                    lemma_empty_bound(*fc, i as int);
                }
                if crate::geometry::is_empty_geometry(&fc.features[i].geometry) {
                    k = k + 1;
                }
                i = i + 1;
            }
            let message = if k == 0 {
                String::from_str("no empty geometries")
            } else {
                let mut m = crate::text::u64_text(k as u64);
                m.append(" empty geometries found");
                m
            };
            AssertionResult { assertion: String::from_str("no_empty_geometries"), passed: k == 0, message }
        },
    }
}

/// The outputs of a run: node name and data, the first entry of a name counting.
pub type Outputs = Vec<(String, FeatureCollection)>;

/// Names of the outputs.
pub open spec fn output_names(o: Seq<(String, FeatureCollection)>) -> Seq<Seq<char>> {
    o.map_values(|e: (String, FeatureCollection)| e.0@)
}

/// `res` is the result of running test `t` against `outputs`.
pub open spec fn is_test_result(t: PipelineTest, outputs: Seq<(String, FeatureCollection)>, res: TestResult) -> bool {
    let names = output_names(outputs);
    &&& res.test_name@ == t.name@
    &&& res.passed == forall|j: int| 0 <= j < res.details@.len() ==> #[trigger] res.details@[j].passed
    &&& if names.contains(t.node@) {
        let fc = outputs[crate::dag::first_index(names, t.node@)].1;
        &&& res.details@.len() == t.assertions@.len()
        &&& forall|j: int| 0 <= j < t.assertions@.len() ==> (#[trigger] res.details@[j].assertion@,
            res.details@[j].passed, res.details@[j].message@) == spec_check_assertion(t.assertions@[j], fc)
    } else {
        &&& res.details@.len() == 1
        &&& res.details@[0].assertion@ == "node_exists"@
        &&& !res.details@[0].passed
        &&& res.details@[0].message@ == "Node '"@ + t.node@ + "' not found in outputs"@
    }
}

/// Runs each test against the outputs: a test whose node has no output fails with a
/// single `node_exists` detail; otherwise each assertion is checked, and the test
/// passes when all do.
pub fn run_tests(tests: &[PipelineTest], outputs: &Outputs) -> (r: Vec<TestResult>)
    ensures
        r@.len() == tests@.len(),
        forall|i: int| 0 <= i < tests@.len() ==> is_test_result(tests@[i], outputs@, #[trigger] r@[i]),
{
    let mut out: Vec<TestResult> = Vec::new();
    let mut i: usize = 0;
    while i < tests.len()
        invariant
            i <= tests@.len(),
            out@.len() == i,
            forall|q: int| 0 <= q < i ==> is_test_result(tests@[q], outputs@, #[trigger] out@[q]),
        decreases tests@.len() - i,
    {
        let t = &tests[i];
        let pos = output_position(outputs, t.node.as_str());
        let details = match pos {
            Some(k) => {
                let fc = &outputs[k].1;
                let mut ds: Vec<AssertionResult> = Vec::new();
                let mut j: usize = 0;
                while j < t.assertions.len()
                    invariant
                        j <= t.assertions@.len(),
                        ds@.len() == j,
                        forall|q: int| 0 <= q < j ==> (#[trigger] ds@[q].assertion@, ds@[q].passed, ds@[q].message@)
                            == spec_check_assertion(t.assertions@[q], *fc),
                    decreases t.assertions@.len() - j,
                {
                    ds.push(check_assertion(&t.assertions[j], fc));
                    j = j + 1;
                }
                ds
            },
            None => {
                let mut ds: Vec<AssertionResult> = Vec::new();
                ds.push(AssertionResult {
                    assertion: String::from_str("node_exists"),
                    passed: false,
                    message: crate::text::cat3("Node '", t.node.as_str(), "' not found in outputs"),
                });
                ds
            },
        };
        let passed = all_passed(&details);
        let ghost dv = details@;
        assert(passed == forall|j: int| 0 <= j < dv.len() ==> #[trigger] dv[j].passed);
        let res = TestResult { test_name: t.name.clone(), passed, details };
        proof {
            let names = output_names(outputs@);
            assert(res.test_name@ == t.name@);
            assert(res.details@ == dv);
            assert(res.passed == forall|j: int| 0 <= j < res.details@.len() ==> #[trigger] res.details@[j].passed);
            match pos {
                Some(k) => {
                    assert(names.contains(t.node@));
                    assert(res.details@.len() == t.assertions@.len());
                },
                None => {
                    assert(!names.contains(t.node@));
                    assert(res.details@.len() == 1);
                },
            }
        }
        assert(is_test_result(tests@[i as int], outputs@, res));
        let ghost before = out@;
        out.push(res);
        proof {
            assert forall|q: int| 0 <= q < i implies #[trigger] out@[q] == before[q] by {}
        }
        i = i + 1;
    }
    out
}

/// Whether every assertion passed.
fn all_passed(details: &Vec<AssertionResult>) -> (r: bool)
    ensures
        r == forall|j: int| 0 <= j < details@.len() ==> #[trigger] details@[j].passed,
{
    let mut j: usize = 0;
    while j < details.len()
        invariant
            j <= details@.len(),
            forall|q: int| 0 <= q < j ==> #[trigger] details@[q].passed,
        decreases details@.len() - j,
    {
        if !details[j].passed {
            return false;
        }
        j = j + 1;
    }
    true
}

/// Position of the first output named `name`.
fn output_position(outputs: &Outputs, name: &str) -> (r: Option<usize>)
    ensures
        r matches Some(k) ==> k < outputs@.len() && output_names(outputs@).contains(name@)
            && k as int == crate::dag::first_index(output_names(outputs@), name@),
        r is None ==> !output_names(outputs@).contains(name@),
{
    let ghost keys = output_names(outputs@);
    let mut i: usize = 0;
    while i < outputs.len()
        invariant
            i <= outputs@.len(),
            keys == output_names(outputs@),
            crate::dag::first_index(keys.take(i as int), name@) == -1,
        decreases outputs@.len() - i,
    {
        proof {
            crate::dag::lemma_first_index_step(keys, i as int, name@);
        }
        if crate::text::str_eq(outputs[i].0.as_str(), name) {
            proof {
                assert(keys[i as int] == name@);
                crate::dag::lemma_first_index_prefix(keys, i + 1, name@);
            }
            return Some(i);
        }
        i = i + 1;
    }
    proof {
        assert(keys.take(outputs@.len() as int) =~= keys);
        crate::dag::lemma_first_index(keys, name@);
    }
    None
}

} // verus!
