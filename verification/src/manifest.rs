//! The pipeline manifest: a project header, sources, transforms and sinks.
use vstd::prelude::*;
use toml::Value as TomlValue;

verus! {

/// A TOML parameter value, as written in a transform's parameter table.
///
/// A floating-point value is held by its `{:?}` text (as a property value is),
/// except that a not-a-number is held as TOML writes it, `nan`; a datetime is
/// held by its TOML text.
#[derive(Debug)]
pub enum ParamValue {
    String(String),
    Integer(i64),
    Float(String),
    Boolean(bool),
    Datetime(String),
    Array(Vec<ParamValue>),
    Table(Vec<(String, ParamValue)>),
}

/// Mathematical view of a parameter value: texts by their characters, arrays
/// and tables by the views of their items.
#[verifier::ext_equal]
pub enum ParamView {
    String(Seq<char>),
    Integer(i64),
    Float(Seq<char>),
    Boolean(bool),
    Datetime(Seq<char>),
    Array(Seq<ParamView>),
    Table(Seq<(Seq<char>, ParamView)>),
}

/// The view of a parameter value.
pub open spec fn param_view(v: ParamValue) -> ParamView
    decreases v,
{
    match v {
        ParamValue::String(s) => ParamView::String(s@),
        ParamValue::Integer(n) => ParamView::Integer(n),
        ParamValue::Float(t) => ParamView::Float(t@),
        ParamValue::Boolean(b) => ParamView::Boolean(b),
        ParamValue::Datetime(t) => ParamView::Datetime(t@),
        ParamValue::Array(items) => ParamView::Array(
            Seq::new(
                items@.len(),
                |i: int|
                    if 0 <= i < items@.len() {
                        param_view(items@[i])
                    } else {
                        ParamView::Integer(0)
                    },
            ),
        ),
        ParamValue::Table(entries) => ParamView::Table(
            Seq::new(
                entries@.len(),
                |i: int|
                    if 0 <= i < entries@.len() {
                        (entries@[i].0@, param_view(entries@[i].1))
                    } else {
                        (Seq::empty(), ParamView::Integer(0))
                    },
            ),
        ),
    }
}

/// A transform's parameter table, in the order it was written.
pub type Params = Vec<(String, ParamValue)>;

/// Project header of a manifest.
#[derive(Debug)]
pub struct Project {
    pub name: String,
    pub version: String,
}

/// A data source.
#[derive(Debug)]
pub struct Source {
    pub name: String,
    pub format: String,
    pub path: String,
    pub crs: Option<String>,
}

/// A transform step reading one input node.
#[derive(Debug)]
pub struct Transform {
    pub name: String,
    pub input: String,
    pub operation: String,
    pub params: Params,
}

/// A sink writing one input node.
#[derive(Debug)]
pub struct Sink {
    pub name: String,
    pub input: String,
    pub format: String,
    pub path: String,
}

/// A complete pipeline manifest.
#[derive(Debug)]
pub struct Manifest {
    pub project: Project,
    pub source: Vec<Source>,
    pub transform: Vec<Transform>,
    pub sink: Vec<Sink>,
}

#[verifier::external_type_specification]
#[verifier::external_body]
pub struct ExTomlValue(TomlValue);

/// TOML text of a parameter value, as `toml::Value`'s `Display` renders it.
pub uninterp spec fn toml_text(v: ParamValue) -> Seq<char>;

/// The parameter value as a `toml::Value`; float and datetime texts are read back
/// with `toml::de::ValueDeserializer` (a text that does not parse as a TOML value
/// stays a string).
#[verifier::external_body]
fn to_toml_value(v: &ParamValue) -> TomlValue {
    match v {
        ParamValue::String(s) => TomlValue::String(s.clone()),
        ParamValue::Integer(n) => TomlValue::Integer(*n),
        ParamValue::Boolean(b) => TomlValue::Boolean(*b),
        ParamValue::Float(t) | ParamValue::Datetime(t) => {
            let r: Result<TomlValue, toml::de::Error> = serde::Deserialize::deserialize(
                toml::de::ValueDeserializer::new(t));
            r.unwrap_or_else(|_| TomlValue::String(t.clone()))
        },
        ParamValue::Array(a) => TomlValue::Array(a.iter().map(to_toml_value).collect()),
        ParamValue::Table(e) => TomlValue::Table(
            e.iter().map(|(k, x)| (k.clone(), to_toml_value(x))).collect()),
    }
}

/// TOML text of a parameter value (`<toml::Value as Display>::fmt`). The result
/// is a function of the value; the TOML rendering rules are left unsaid.
#[verifier::external_body]
pub(crate) fn param_display(v: &ParamValue) -> (r: String)
    ensures
        r@ == toml_text(*v),
{
    to_toml_value(v).to_string()
}

/// Names of sources.
pub open spec fn source_names(ss: Seq<Source>) -> Seq<Seq<char>> {
    ss.map_values(|s: Source| s.name@)
}

/// Names of transforms.
pub open spec fn transform_names(ts: Seq<Transform>) -> Seq<Seq<char>> {
    ts.map_values(|t: Transform| t.name@)
}

/// Names of sinks.
pub open spec fn sink_names(ss: Seq<Sink>) -> Seq<Seq<char>> {
    ss.map_values(|s: Sink| s.name@)
}

/// Names of all nodes of a manifest: sources, then transforms, then sinks.
pub open spec fn manifest_names(m: Manifest) -> Seq<Seq<char>> {
    m.source@.map_values(|s: Source| s.name@)
        + m.transform@.map_values(|t: Transform| t.name@)
        + m.sink@.map_values(|s: Sink| s.name@)
}

/// Number of nodes of a manifest.
pub open spec fn manifest_node_count(m: Manifest) -> int {
    (m.source@.len() + m.transform@.len() + m.sink@.len()) as int
}

} // verus!

verus! {

/// Copies a string.
pub fn clone_string(s: &String) -> (r: String)
    ensures
        r == *s,
{
    s.clone()
}

/// Copies an optional string.
pub fn clone_opt_string(s: &Option<String>) -> (r: Option<String>)
    ensures
        r == *s,
{
    match s {
        Some(v) => Some(v.clone()),
        None => None,
    }
}

/// `r` is a copy of `v`: the same view, and equal outright for scalar values.
pub open spec fn param_copy(r: ParamValue, v: ParamValue) -> bool {
    &&& param_view(r) == param_view(v)
    &&& !(v is Array || v is Table) ==> r == v
    &&& (v is Array <==> r is Array)
    &&& (v is Table <==> r is Table)
}

/// Copies a parameter value (see `param_copy`).
pub fn clone_param(v: &ParamValue) -> (r: ParamValue)
    ensures
        param_copy(r, *v),
    decreases v,
{
    match v {
        ParamValue::String(s) => ParamValue::String(s.clone()),
        ParamValue::Integer(n) => ParamValue::Integer(*n),
        ParamValue::Float(s) => ParamValue::Float(s.clone()),
        ParamValue::Boolean(b) => ParamValue::Boolean(*b),
        ParamValue::Datetime(s) => ParamValue::Datetime(s.clone()),
        ParamValue::Array(items) => {
            let mut out: Vec<ParamValue> = Vec::new();
            let mut i: usize = 0;
            while i < items.len()
                invariant
                    i <= items@.len(),
                    v is Array,
                    v->Array_0 == *items,
                    out@.len() == i,
                    forall|j: int| 0 <= j < i ==> #[trigger] param_view(out@[j]) == param_view(items@[j]),
                decreases items@.len() - i,
            {
                proof {
                    assert(decreases_to!(*v => v->Array_0));
                    assert(decreases_to!(v->Array_0 => v->Array_0[i as int]));
                }
                out.push(clone_param(&items[i]));
                i = i + 1;
            }
            let ghost vs = out@;
            let r = ParamValue::Array(out);
            proof {
                let a = param_view(r)->Array_0;
                let b = param_view(*v)->Array_0;
                assert(a.len() == b.len());
                assert forall|j: int| 0 <= j < a.len() implies a[j] == b[j] by {
                    assert(param_view(vs[j]) == param_view(items@[j]));
                }
                assert(a =~= b);
            }
            r
        },
        ParamValue::Table(entries) => {
            let mut out: Vec<(String, ParamValue)> = Vec::new();
            let mut i: usize = 0;
            while i < entries.len()
                invariant
                    i <= entries@.len(),
                    v is Table,
                    v->Table_0 == *entries,
                    out@.len() == i,
                    forall|j: int| 0 <= j < i ==> #[trigger] out@[j].0@ == entries@[j].0@
                        && param_view(out@[j].1) == param_view(entries@[j].1),
                decreases entries@.len() - i,
            {
                proof {
                    assert(decreases_to!(*v => v->Table_0));
                    assert(decreases_to!(v->Table_0 => v->Table_0[i as int]));
                    assert(decreases_to!(v->Table_0[i as int] => v->Table_0[i as int].1));
                }
                let k = entries[i].0.clone();
                let val = clone_param(&entries[i].1);
                out.push((k, val));
                i = i + 1;
            }
            let ghost es = out@;
            let r = ParamValue::Table(out);
            proof {
                let a = param_view(r)->Table_0;
                let b = param_view(*v)->Table_0;
                assert(a.len() == b.len());
                assert forall|j: int| 0 <= j < a.len() implies a[j] == b[j] by {
                    assert(es[j].0@ == entries@[j].0@);
                    assert(param_view(es[j].1) == param_view(entries@[j].1));
                }
                assert(a =~= b);
            }
            r
        },
    }
}

/// Copies a parameter table, keeping its keys and order.
pub fn clone_params(ps: &Params) -> (r: Params)
    ensures
        r@.len() == ps@.len(),
        forall|i: int| 0 <= i < ps@.len() ==> #[trigger] r@[i].0 == ps@[i].0 && param_copy(r@[i].1, ps@[i].1),
{
    let mut out: Vec<(String, ParamValue)> = Vec::new();
    let mut i: usize = 0;
    while i < ps.len()
        invariant
            i <= ps@.len(),
            out@.len() == i,
            forall|j: int| 0 <= j < i ==> #[trigger] out@[j].0 == ps@[j].0 && param_copy(out@[j].1, ps@[j].1),
        decreases ps@.len() - i,
    {
        let k = ps[i].0.clone();
        let val = clone_param(&ps[i].1);
        out.push((k, val));
        i = i + 1;
    }
    out
}

/// `r` is a copy of transform `t`: the same name, input and operation, and
/// parameters with the same keys, in order, whose values are copies.
pub open spec fn transform_copy(r: Transform, t: Transform) -> bool {
    &&& r.name == t.name
    &&& r.input == t.input
    &&& r.operation == t.operation
    &&& r.params@.len() == t.params@.len()
    &&& forall|j: int|
        0 <= j < t.params@.len() ==> #[trigger] r.params@[j].0@ == t.params@[j].0@ && param_copy(
            r.params@[j].1,
            t.params@[j].1,
        )
}

impl Source {
    /// Copies the source description.
    pub fn duplicate(&self) -> (r: Source)
        ensures
            r == *self,
    {
        Source {
            name: self.name.clone(),
            format: self.format.clone(),
            path: self.path.clone(),
            crs: clone_opt_string(&self.crs),
        }
    }
}

impl Transform {
    /// Copies the transform description.
    pub fn duplicate(&self) -> (r: Transform)
        ensures
            transform_copy(r, *self),
            r.name == self.name,
            r.input == self.input,
            r.operation == self.operation,
            r.params@.len() == self.params@.len(),
            forall|j: int|
                0 <= j < self.params@.len() ==> #[trigger] r.params@[j].0@ == self.params@[j].0@
                    && param_copy(r.params@[j].1, self.params@[j].1),
    {
        Transform {
            name: self.name.clone(),
            input: self.input.clone(),
            operation: self.operation.clone(),
            params: clone_params(&self.params),
        }
    }
}

impl Sink {
    /// Copies the sink description.
    pub fn duplicate(&self) -> (r: Sink)
        ensures
            r == *self,
    {
        Sink {
            name: self.name.clone(),
            input: self.input.clone(),
            format: self.format.clone(),
            path: self.path.clone(),
        }
    }
}

} // verus!
