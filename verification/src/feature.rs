//! Features: the unit of data flowing through a pipeline.
use vstd::prelude::*;
use crate::geometry::{Geometry, clone_geometry, same_variant, same_shape};
use crate::dag::{first_index, lemma_first_index, lemma_first_index_step, lemma_first_index_prefix};

verus! {

/// A property value.
///
/// A floating-point value is held by its shortest round-trip decimal text (the
/// text `{:?}` prints for it, such as `0.95` or `1e20`).
#[derive(Debug)]
pub enum Value {
    Null,
    Bool(bool),
    Integer(i64),
    Float(String),
    String(String),
}

/// Mathematical view of a property value.
pub enum ValueV {
    Null,
    Bool(bool),
    Integer(i64),
    Float(Seq<char>),
    String(Seq<char>),
}

impl View for Value {
    type V = ValueV;

    open spec fn view(&self) -> ValueV {
        match self {
            Value::Null => ValueV::Null,
            Value::Bool(b) => ValueV::Bool(*b),
            Value::Integer(n) => ValueV::Integer(*n),
            Value::Float(s) => ValueV::Float(s@),
            Value::String(s) => ValueV::String(s@),
        }
    }
}

/// The text of a zero (`0.0` or `-0.0`).
pub open spec fn zero_text(t: Seq<char>) -> bool {
    t == "0.0"@ || t == "-0.0"@
}

/// Two floats, held by their shortest round-trip texts, are equal as `f64`
/// compares them: the texts are equal and not `NaN` (which equals nothing), or
/// both are zeros.
pub open spec fn float_text_eq(a: Seq<char>, b: Seq<char>) -> bool {
    (a == b && a != "NaN"@) || (zero_text(a) && zero_text(b))
}

/// Equality of property values: floats as `f64` compares them, the rest by value.
pub open spec fn value_eq(a: ValueV, b: ValueV) -> bool {
    match (a, b) {
        (ValueV::Float(x), ValueV::Float(y)) => float_text_eq(x, y),
        _ => a == b,
    }
}

/// Two lookups agree: both absent, or both present with equal values (`value_eq`).
pub open spec fn same_lookup(a: Option<ValueV>, b: Option<ValueV>) -> bool {
    match (a, b) {
        (Some(x), Some(y)) => value_eq(x, y),
        (None, None) => true,
        _ => false,
    }
}

/// The value is a not-a-number float.
pub open spec fn is_nan_value(v: ValueV) -> bool {
    v == ValueV::Float("NaN"@)
}

fn is_zero_text(t: &str) -> (r: bool)
    ensures
        r == zero_text(t@),
{
    crate::text::str_eq(t, "0.0") || crate::text::str_eq(t, "-0.0")
}

impl Value {
    /// Copies the value.
    pub fn duplicate(&self) -> (r: Value)
        ensures
            r == *self,
    {
        match self {
            Value::Null => Value::Null,
            Value::Bool(b) => Value::Bool(*b),
            Value::Integer(n) => Value::Integer(*n),
            Value::Float(s) => Value::Float(s.clone()),
            Value::String(s) => Value::String(s.clone()),
        }
    }

    /// Whether two values are equal (same variant, same payload).
    pub fn same_as(&self, other: &Value) -> (r: bool)
        ensures
            r == value_eq(self@, other@),
    {
        match (self, other) {
            (Value::Null, Value::Null) => true,
            (Value::Bool(a), Value::Bool(b)) => *a == *b,
            (Value::Integer(a), Value::Integer(b)) => *a == *b,
            (Value::Float(a), Value::Float(b)) => (crate::text::str_eq(a.as_str(), b.as_str())
                && !crate::text::str_eq(a.as_str(), "NaN")) || (is_zero_text(a.as_str())
                && is_zero_text(b.as_str())),
            (Value::String(a), Value::String(b)) => crate::text::str_eq(a.as_str(), b.as_str()),
            _ => false,
        }
    }
}

/// Key-value property map of a feature, in insertion order, keys distinct.
pub type Properties = Vec<(String, Value)>;

/// The keys of a property map.
pub open spec fn prop_keys(p: Seq<(String, Value)>) -> Seq<Seq<char>> {
    p.map_values(|e: (String, Value)| e.0@)
}

/// The value stored under `k`, by its first occurrence.
pub open spec fn prop_get(p: Seq<(String, Value)>, k: Seq<char>) -> Option<ValueV> {
    if prop_keys(p).contains(k) {
        Some(p[first_index(prop_keys(p), k)].1@)
    } else {
        None
    }
}

/// Position of the entry with key `key`.
pub fn prop_position(p: &Properties, key: &str) -> (r: Option<usize>)
    ensures
        r matches Some(i) ==> i as int == first_index(prop_keys(p@), key@) && i < p@.len()
            && p@[i as int].0@ == key@,
        r is None <==> !prop_keys(p@).contains(key@),
{
    let ghost keys = prop_keys(p@);
    let mut i: usize = 0;
    while i < p.len()
        invariant
            i <= p@.len(),
            keys == prop_keys(p@),
            first_index(keys.take(i as int), key@) == -1,
        decreases p@.len() - i,
    {
        proof {
            lemma_first_index_step(keys, i as int, key@);
        }
        if crate::text::str_eq(p[i].0.as_str(), key) {
            proof {
                lemma_first_index_prefix(keys, i + 1, key@);
            }
            return Some(i);
        }
        i = i + 1;
    }
    proof {
        assert(keys.take(p@.len() as int) =~= keys);
        lemma_first_index(keys, key@);
    }
    None
}

/// The value stored under `key`.
pub fn prop_lookup<'a>(p: &'a Properties, key: &str) -> (r: Option<&'a Value>)
    ensures
        r matches Some(v) ==> prop_get(p@, key@) == Some(v@),
        r is None <==> prop_get(p@, key@) is None,
{
    match prop_position(p, key) {
        Some(i) => {
            proof {
                assert(prop_keys(p@).contains(key@)) by {
                    assert(prop_keys(p@)[i as int] == key@);
                }
            }
            Some(&p[i].1)
        },
        None => None,
    }
}

/// Whether `key` is present.
pub fn prop_contains(p: &Properties, key: &str) -> (r: bool)
    ensures
        r == prop_keys(p@).contains(key@),
{
    match prop_position(p, key) {
        Some(i) => {
            proof {
                assert(prop_keys(p@)[i as int] == key@);
            }
            true
        },
        None => false,
    }
}

/// Copies a property map entry by entry.
pub fn clone_properties(p: &Properties) -> (r: Properties)
    ensures
        r@ == p@,
{
    let mut out: Properties = Vec::new();
    let mut i: usize = 0;
    while i < p.len()
        invariant
            i <= p@.len(),
            out@ == p@.take(i as int),
        decreases p@.len() - i,
    {
        out.push((p[i].0.clone(), p[i].1.duplicate()));
        assert(out@ =~= p@.take(i + 1));
        i = i + 1;
    }
    assert(p@.take(p@.len() as int) =~= p@);
    out
}

/// A single geospatial feature with geometry and properties.
#[derive(Debug)]
pub struct Feature {
    pub geometry: Geometry,
    pub properties: Properties,
}

impl Feature {
    /// Copies the feature.
    pub fn duplicate(&self) -> (r: Feature)
        ensures
            same_variant(r.geometry, self.geometry),
            same_shape(r.geometry, self.geometry),
            r.properties@ == self.properties@,
    {
        Feature { geometry: clone_geometry(&self.geometry), properties: clone_properties(&self.properties) }
    }
}

/// A collection of features: the data unit passed between pipeline stages.
#[derive(Debug)]
pub struct FeatureCollection {
    pub features: Vec<Feature>,
    pub crs: Option<String>,
}

impl FeatureCollection {
    /// A collection of the given features and reference system.
    pub fn new(features: Vec<Feature>, crs: Option<String>) -> (r: Self)
        ensures
            r.features == features,
            r.crs == crs,
    {
        FeatureCollection { features, crs }
    }

    /// An empty collection without a reference system.
    pub fn empty() -> (r: Self)
        ensures
            r.features@.len() == 0,
            r.crs is None,
    {
        FeatureCollection { features: Vec::new(), crs: None }
    }

    /// Number of features.
    pub fn len(&self) -> (r: usize)
        ensures
            r == self.features@.len(),
    {
        self.features.len()
    }

    /// Whether there are no features.
    pub fn is_empty(&self) -> (r: bool)
        ensures
            r == (self.features@.len() == 0),
    {
        self.features.len() == 0
    }
}

} // verus!

verus! {

/// The `{:?}` text of a property value.
pub open spec fn value_debug_text(v: ValueV) -> Seq<char> {
    match v {
        ValueV::Null => "Null"@,
        ValueV::Bool(b) => "Bool("@ + crate::text::bool_text(b) + ")"@,
        ValueV::Integer(n) => "Integer("@ + crate::text::signed_decimal(n as int) + ")"@,
        ValueV::Float(t) => "Float("@ + t + ")"@,
        ValueV::String(s) => "String("@ + crate::text::debug_quoted(s) + ")"@,
    }
}

impl Value {
    /// The `{:?}` text of the value (`value_debug_text`).
    pub fn debug_text(&self) -> (r: String)
        ensures
            r@ == value_debug_text(self@),
    {
        match self {
            Value::Null => String::from_str("Null"),
            Value::Bool(b) => crate::text::cat3("Bool(", crate::text::bool_str(*b), ")"),
            Value::Integer(n) => {
                let t = crate::text::i64_text(*n);
                crate::text::cat3("Integer(", t.as_str(), ")")
            },
            Value::Float(t) => crate::text::cat3("Float(", t.as_str(), ")"),
            Value::String(s) => {
                let q = crate::text::debug_str(s.as_str());
                crate::text::cat3("String(", q.as_str(), ")")
            },
        }
    }
}

} // verus!
