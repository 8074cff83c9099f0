//! Property-level transforms: schema mapping (rename, drop and add columns).
use vstd::prelude::*;
use crate::feature::{Feature, FeatureCollection, Properties, Value, ValueV};
use crate::geometry::{same_shape, same_variant};
use crate::keyed::{key_position, raw_entries, set_entry, set_keyed, find_keyed};
use crate::manifest::{ParamValue, ParamView, Params, param_view};
use crate::pipeline::{PipelineError, TransformOp};

verus! {

/// Schema map operation: rename, drop and add property columns.
pub struct SchemaMapTransform;

/// The property value given by a TOML parameter value: strings, integers,
/// floats and booleans as themselves, anything else as null.
pub open spec fn toml_value(v: ParamValue) -> Value {
    match v {
        ParamValue::String(s) => Value::String(s),
        ParamValue::Integer(n) => Value::Integer(n),
        ParamValue::Float(t) => Value::Float(t),
        ParamValue::Boolean(b) => Value::Bool(b),
        _ => Value::Null,
    }
}

/// The property value given by a TOML parameter value (`toml_value`).
pub fn toml_to_value(v: &ParamValue) -> (r: Value)
    ensures
        r == toml_value(*v),
{
    match v {
        ParamValue::String(s) => Value::String(s.clone()),
        ParamValue::Integer(n) => Value::Integer(*n),
        ParamValue::Float(t) => Value::Float(t.clone()),
        ParamValue::Boolean(b) => Value::Bool(*b),
        _ => Value::Null,
    }
}

/// The value of parameter `k`, if present.
pub open spec fn param_get(ps: Seq<(String, ParamValue)>, k: Seq<char>) -> Option<ParamValue> {
    let i = key_position(raw_entries(ps), k);
    if i >= 0 {
        Some(ps[i].1)
    } else {
        None
    }
}

/// The renaming `old -> new` given by the string entries of a table.
pub open spec fn rename_pairs(t: Seq<(String, ParamValue)>) -> Seq<(Seq<char>, Seq<char>)>
    decreases t.len(),
{
    if t.len() == 0 {
        Seq::empty()
    } else {
        let acc = rename_pairs(t.drop_last());
        match t.last().1 {
            ParamValue::String(s) => set_entry(acc, t.last().0@, s@),
            _ => acc,
        }
    }
}

/// The names listed by the string items of an array.
pub open spec fn drop_names(a: Seq<ParamValue>) -> Seq<Seq<char>>
    decreases a.len(),
{
    if a.len() == 0 {
        Seq::empty()
    } else {
        let acc = drop_names(a.drop_last());
        match a.last() {
            ParamValue::String(s) => acc.push(s@),
            _ => acc,
        }
    }
}

/// The columns to add, with their default values, given by a table.
pub open spec fn add_pairs(t: Seq<(String, ParamValue)>) -> Seq<(Seq<char>, Value)>
    decreases t.len(),
{
    if t.len() == 0 {
        Seq::empty()
    } else {
        set_entry(add_pairs(t.drop_last()), t.last().0@, toml_value(t.last().1))
    }
}

/// The `rename` table of the parameters (empty when absent or not a table).
pub open spec fn renames_of(ps: Seq<(String, ParamValue)>) -> Seq<(Seq<char>, Seq<char>)> {
    match param_get(ps, "rename"@) {
        Some(ParamValue::Table(t)) => rename_pairs(t@),
        _ => Seq::empty(),
    }
}

/// The `drop` list of the parameters (empty when absent or not an array).
pub open spec fn drops_of(ps: Seq<(String, ParamValue)>) -> Seq<Seq<char>> {
    match param_get(ps, "drop"@) {
        Some(ParamValue::Array(a)) => drop_names(a@),
        _ => Seq::empty(),
    }
}

/// The `add` table of the parameters (empty when absent or not a table).
pub open spec fn adds_of(ps: Seq<(String, ParamValue)>) -> Seq<(Seq<char>, Value)> {
    match param_get(ps, "add"@) {
        Some(ParamValue::Table(t)) => add_pairs(t@),
        _ => Seq::empty(),
    }
}

/// The new name of column `k`.
pub open spec fn renamed(k: Seq<char>, renames: Seq<(Seq<char>, Seq<char>)>) -> Seq<char> {
    let i = key_position(renames, k);
    if i >= 0 {
        renames[i].1
    } else {
        k
    }
}

/// The properties kept, under their new names, inserted in order into one map.
pub open spec fn mapped_props(
    ps: Seq<(Seq<char>, Value)>,
    renames: Seq<(Seq<char>, Seq<char>)>,
    drops: Seq<Seq<char>>,
) -> Seq<(Seq<char>, Value)>
    decreases ps.len(),
{
    if ps.len() == 0 {
        Seq::empty()
    } else {
        let acc = mapped_props(ps.drop_last(), renames, drops);
        let k = ps.last().0;
        if drops.contains(k) {
            acc
        } else {
            set_entry(acc, renamed(k, renames), ps.last().1)
        }
    }
}

/// `acc` with each added column that it lacks, holding its default value.
pub open spec fn with_defaults(acc: Seq<(Seq<char>, Value)>, adds: Seq<(Seq<char>, Value)>) -> Seq<
    (Seq<char>, Value),
>
    decreases adds.len(),
{
    if adds.len() == 0 {
        acc
    } else {
        let r = with_defaults(acc, adds.drop_last());
        if key_position(r, adds.last().0) < 0 {
            r.push(adds.last())
        } else {
            r
        }
    }
}

/// The properties of a feature after the schema mapping `params`.
pub open spec fn schema_mapped(ps: Seq<(Seq<char>, Value)>, params: Seq<(String, ParamValue)>) -> Seq<
    (Seq<char>, Value),
> {
    with_defaults(mapped_props(ps, renames_of(params), drops_of(params)), adds_of(params))
}

/// The value of parameter `key` (`param_get`).
fn get_param<'a>(ps: &'a Params, key: &str) -> (r: Option<&'a ParamValue>)
    ensures
        match r {
            Some(v) => param_get(ps@, key@) == Some(*v),
            None => param_get(ps@, key@) is None,
        },
{
    match find_keyed(ps, key) {
        Some(i) => Some(&ps[i].1),
        None => None,
    }
}

/// The `rename` table (`renames_of`).
fn parse_renames(ps: &Params) -> (r: Vec<(String, String)>)
    ensures
        r@.map_values(|e: (String, String)| (e.0@, e.1@)) == renames_of(ps@),
{
    let mut out: Vec<(String, String)> = Vec::new();
    match get_param(ps, "rename") {
        Some(ParamValue::Table(t)) => {
            let mut i: usize = 0;
            while i < t.len()
                invariant
                    i <= t@.len(),
                    out@.map_values(|e: (String, String)| (e.0@, e.1@)) == rename_pairs(t@.take(i as int)),
                decreases t@.len() - i,
            {
                proof {
                    assert(t@.take(i + 1).drop_last() =~= t@.take(i as int));
                    assert(t@.take(i + 1).last() == t@[i as int]);
                }
                match &t[i].1 {
                    ParamValue::String(s) => {
                        let ghost before = out@;
                        set_renamed(&mut out, t[i].0.clone(), s.clone());
                    },
                    _ => {},
                }
                i = i + 1;
            }
            proof {
                assert(t@.take(t@.len() as int) =~= t@);
            }
        },
        _ => {},
    }
    out
}

/// Map insertion into a renaming (`set_entry` on the texts).
fn set_renamed(v: &mut Vec<(String, String)>, k: String, x: String)
    ensures
        final(v)@.map_values(|e: (String, String)| (e.0@, e.1@)) == set_entry(
            old(v)@.map_values(|e: (String, String)| (e.0@, e.1@)),
            k@,
            x@,
        ),
{
    let ghost es = v@.map_values(|e: (String, String)| (e.0@, e.1@));
    let mut i: usize = 0;
    while i < v.len()
        invariant
            i <= v@.len(),
            es == v@.map_values(|e: (String, String)| (e.0@, e.1@)),
            es == old(v)@.map_values(|e: (String, String)| (e.0@, e.1@)),
            forall|j: int| 0 <= j < i ==> es[j].0 != k@,
        decreases v@.len() - i,
    {
        if crate::text::str_eq(v[i].0.as_str(), k.as_str()) {
            proof {
                crate::keyed::lemma_key_position(es, k@, i as int);
            }
            let ghost kv = k@;
            let ghost xv = x@;
            v.set(i, (k, x));
            proof {
                assert(v@.map_values(|e: (String, String)| (e.0@, e.1@)) =~= set_entry(es, kv, xv));
            }
            return;
        }
        i = i + 1;
    }
    proof {
        crate::keyed::lemma_key_position(es, k@, i as int);
    }
    let ghost kv = k@;
    let ghost xv = x@;
    v.push((k, x));
    proof {
        assert(v@.map_values(|e: (String, String)| (e.0@, e.1@)) =~= set_entry(es, kv, xv));
    }
}

/// The `drop` list (`drops_of`).
fn parse_drops(ps: &Params) -> (r: Vec<String>)
    ensures
        crate::order::string_views(r@) == drops_of(ps@),
{
    let mut out: Vec<String> = Vec::new();
    match get_param(ps, "drop") {
        Some(ParamValue::Array(a)) => {
            let mut i: usize = 0;
            while i < a.len()
                invariant
                    i <= a@.len(),
                    out@.len() == drop_names(a@.take(i as int)).len(),
                    crate::order::string_views(out@) == drop_names(a@.take(i as int)),
                decreases a@.len() - i,
            {
                proof {
                    assert(a@.take(i + 1).drop_last() =~= a@.take(i as int));
                    assert(a@.take(i + 1).last() == a@[i as int]);
                }
                match &a[i] {
                    ParamValue::String(s) => {
                        let ghost before = out@;
                        out.push(s.clone());
                        proof {
                            assert(crate::order::string_views(out@) =~= crate::order::string_views(
                                before,
                            ).push(s@));
                        }
                    },
                    _ => {},
                }
                i = i + 1;
            }
            proof {
                assert(a@.take(a@.len() as int) =~= a@);
            }
        },
        _ => {},
    }
    out
}

/// The `add` table (`adds_of`).
fn parse_adds(ps: &Params) -> (r: Properties)
    ensures
        raw_entries(r@) == adds_of(ps@),
{
    let mut out: Properties = Vec::new();
    match get_param(ps, "add") {
        Some(ParamValue::Table(t)) => {
            let mut i: usize = 0;
            while i < t.len()
                invariant
                    i <= t@.len(),
                    raw_entries(out@) == add_pairs(t@.take(i as int)),
                decreases t@.len() - i,
            {
                proof {
                    assert(t@.take(i + 1).drop_last() =~= t@.take(i as int));
                    assert(t@.take(i + 1).last() == t@[i as int]);
                }
                set_keyed(&mut out, t[i].0.clone(), toml_to_value(&t[i].1));
                i = i + 1;
            }
            proof {
                assert(t@.take(t@.len() as int) =~= t@);
            }
        },
        _ => {},
    }
    out
}

} // verus!

verus! {

/// Texts of a renaming.
pub open spec fn rename_views(v: Seq<(String, String)>) -> Seq<(Seq<char>, Seq<char>)> {
    v.map_values(|e: (String, String)| (e.0@, e.1@))
}

/// The new name of column `k` (`renamed`).
fn rename_key(renames: &Vec<(String, String)>, k: &String) -> (r: String)
    ensures
        r@ == renamed(k@, rename_views(renames@)),
{
    let ghost es = rename_views(renames@);
    let mut i: usize = 0;
    while i < renames.len()
        invariant
            i <= renames@.len(),
            es == rename_views(renames@),
            forall|j: int| 0 <= j < i ==> es[j].0 != k@,
        decreases renames@.len() - i,
    {
        if crate::text::str_eq(renames[i].0.as_str(), k.as_str()) {
            proof {
                crate::keyed::lemma_key_position(es, k@, i as int);
            }
            return renames[i].1.clone();
        }
        i = i + 1;
    }
    proof {
        crate::keyed::lemma_key_position(es, k@, i as int);
    }
    k.clone()
}

/// The properties of one feature after the mapping (`schema_mapped`).
fn map_properties(
    props: &Properties,
    renames: &Vec<(String, String)>,
    drops: &Vec<String>,
    adds: &Properties,
) -> (r: Properties)
    ensures
        raw_entries(r@) == with_defaults(
            mapped_props(raw_entries(props@), rename_views(renames@), crate::order::string_views(drops@)),
            raw_entries(adds@),
        ),
{
    let ghost ps = raw_entries(props@);
    let ghost rn = rename_views(renames@);
    let ghost dr = crate::order::string_views(drops@);
    let mut out: Properties = Vec::new();
    let mut i: usize = 0;
    while i < props.len()
        invariant
            i <= props@.len(),
            ps == raw_entries(props@),
            rn == rename_views(renames@),
            dr == crate::order::string_views(drops@),
            raw_entries(out@) == mapped_props(ps.take(i as int), rn, dr),
        decreases props@.len() - i,
    {
        proof {
            assert(ps.take(i + 1).drop_last() =~= ps.take(i as int));
            assert(ps.take(i + 1).last() == ps[i as int]);
        }
        if !crate::order::contains_string(drops, props[i].0.as_str()) {
            let key = rename_key(renames, &props[i].0);
            set_keyed(&mut out, key, props[i].1.duplicate());
        }
        i = i + 1;
    }
    proof {
        assert(ps.take(props@.len() as int) =~= ps);
    }
    let ghost base = raw_entries(out@);
    let ghost ad = raw_entries(adds@);
    let mut j: usize = 0;
    while j < adds.len()
        invariant
            j <= adds@.len(),
            ad == raw_entries(adds@),
            raw_entries(out@) == with_defaults(base, ad.take(j as int)),
        decreases adds@.len() - j,
    {
        proof {
            assert(ad.take(j + 1).drop_last() =~= ad.take(j as int));
            assert(ad.take(j + 1).last() == ad[j as int]);
        }
        match find_keyed(&out, adds[j].0.as_str()) {
            Some(_) => {},
            None => {
                let ghost before = out@;
                out.push((adds[j].0.clone(), adds[j].1.duplicate()));
                proof {
                    assert(raw_entries(out@) =~= raw_entries(before).push(ad[j as int]));
                }
            },
        }
        j = j + 1;
    }
    proof {
        assert(ad.take(adds@.len() as int) =~= ad);
    }
    out
}

impl TransformOp for SchemaMapTransform {
    /// Renames, drops and adds property columns of every feature
    /// (`schema_mapped`); geometries and the reference system are kept.
    fn apply(&self, input: &FeatureCollection, params: &Params) -> (r: Result<
        FeatureCollection,
        PipelineError,
    >)
        ensures
            r matches Ok(out) && out.features@.len() == input.features@.len() && out.crs
                == input.crs && forall|i: int|
                0 <= i < input.features@.len() ==> {
                    let (a, b) = (#[trigger] out.features@[i], input.features@[i]);
                    &&& raw_entries(a.properties@) == schema_mapped(raw_entries(b.properties@), params@)
                    &&& same_variant(a.geometry, b.geometry)
                    &&& same_shape(a.geometry, b.geometry)
                },
    {
        let renames = parse_renames(params);
        let drops = parse_drops(params);
        let adds = parse_adds(params);
        let mut features: Vec<Feature> = Vec::new();
        let mut i: usize = 0;
        while i < input.features.len()
            invariant
                i <= input.features@.len(),
                rename_views(renames@) == renames_of(params@),
                crate::order::string_views(drops@) == drops_of(params@),
                raw_entries(adds@) == adds_of(params@),
                features@.len() == i,
                forall|j: int|
                    0 <= j < i ==> {
                        let (a, b) = (#[trigger] features@[j], input.features@[j]);
                        &&& raw_entries(a.properties@) == schema_mapped(
                            raw_entries(b.properties@),
                            params@,
                        )
                        &&& same_variant(a.geometry, b.geometry)
                        &&& same_shape(a.geometry, b.geometry)
                    },
            decreases input.features@.len() - i,
        {
            let f = &input.features[i];
            let properties = map_properties(&f.properties, &renames, &drops, &adds);
            let geometry = crate::geometry::clone_geometry(&f.geometry);
            features.push(Feature { geometry, properties });
            i = i + 1;
        }
        Ok(FeatureCollection { features, crs: crate::manifest::clone_opt_string(&input.crs) })
    }
}

} // verus!

verus! {

/// What an expression of the expression operation asks for.
#[derive(Debug)]
pub enum ExpressionKind {
    /// `$area`: the area of a polygon geometry.
    Area,
    /// `$length`: the length of a line geometry.
    Length,
    /// `$num_vertices`: the number of vertices.
    VertexCount,
    /// `$geom_type`: the geometry's type name.
    GeometryType,
    /// `$prop.<name>`: the value of a property.
    Property(String),
    /// Anything else: arithmetic on a property, or a literal text.
    Other(String),
}

/// The kind of a trimmed expression text: 0 to 3 for the four measures, 4 for a
/// property reference, 5 for anything else.
pub open spec fn expression_tag(t: Seq<char>) -> int {
    if t == "$area"@ {
        0
    } else if t == "$length"@ {
        1
    } else if t == "$num_vertices"@ {
        2
    } else if t == "$geom_type"@ {
        3
    } else if crate::text::has_prefix(t, "$prop."@) {
        4
    } else {
        5
    }
}

/// Reads what an expression asks for from its text without surrounding
/// whitespace (`expression_tag`); a property reference keeps the name after
/// `$prop.`, anything else keeps the trimmed text.
pub fn expression_kind(expr: &str) -> (r: ExpressionKind)
    ensures
        r is Area <==> expression_tag(crate::text::trimmed(expr@)) == 0,
        r is Length <==> expression_tag(crate::text::trimmed(expr@)) == 1,
        r is VertexCount <==> expression_tag(crate::text::trimmed(expr@)) == 2,
        r is GeometryType <==> expression_tag(crate::text::trimmed(expr@)) == 3,
        r is Property <==> expression_tag(crate::text::trimmed(expr@)) == 4,
        r matches ExpressionKind::Property(f) ==> f@ == crate::text::trimmed(expr@).skip(6),
        r matches ExpressionKind::Other(o) ==> o@ == crate::text::trimmed(expr@),
{
    let t = crate::text::trim(expr);
    proof {
        reveal_strlit("$prop.");
    }
    if crate::text::str_eq(t, "$area") {
        ExpressionKind::Area
    } else if crate::text::str_eq(t, "$length") {
        ExpressionKind::Length
    } else if crate::text::str_eq(t, "$num_vertices") {
        ExpressionKind::VertexCount
    } else if crate::text::str_eq(t, "$geom_type") {
        ExpressionKind::GeometryType
    } else if crate::text::starts_with(t, "$prop.") {
        let n = t.unicode_len();
        let name = t.substring_char(6, n);
        proof {
            assert(name@ =~= t@.skip(6));
        }
        ExpressionKind::Property(String::from_str(name))
    } else {
        ExpressionKind::Other(String::from_str(t))
    }
}

/// Whether the filter operation keeps a feature whose value of the filtered
/// field is `value`: with no field named, always; otherwise when the value and
/// the expected one are texts, integers or booleans and equal, or both floats
/// that lie within machine epsilon of each other (`floats_close`, which the
/// caller computes in floating point).
pub open spec fn spec_filter_keeps(
    field: Seq<char>,
    value: Option<ValueV>,
    expected: Option<ParamView>,
    floats_close: bool,
) -> bool {
    if field.len() == 0 {
        true
    } else {
        match (value, expected) {
            (Some(ValueV::String(s)), Some(ParamView::String(e))) => s == e,
            (Some(ValueV::Integer(n)), Some(ParamView::Integer(e))) => n == e,
            (Some(ValueV::Float(_)), Some(ParamView::Float(_))) => floats_close,
            (Some(ValueV::Bool(b)), Some(ParamView::Boolean(e))) => b == e,
            _ => false,
        }
    }
}

/// The filter operation's decision for one feature (`spec_filter_keeps`).
pub fn filter_keeps(
    field: &str,
    value: Option<&Value>,
    expected: Option<&ParamValue>,
    floats_close: bool,
) -> (r: bool)
    ensures
        r == spec_filter_keeps(
            field@,
            match value {
                Some(v) => Some(v@),
                None => None,
            },
            match expected {
                Some(e) => Some(param_view(*e)),
                None => None,
            },
            floats_close,
        ),
{
    if field.unicode_len() == 0 {
        return true;
    }
    match (value, expected) {
        (Some(Value::String(s)), Some(ParamValue::String(e))) => crate::text::str_eq(s.as_str(), e.as_str()),
        (Some(Value::Integer(n)), Some(ParamValue::Integer(e))) => *n == *e,
        (Some(Value::Float(_)), Some(ParamValue::Float(_))) => floats_close,
        (Some(Value::Bool(b)), Some(ParamValue::Boolean(e))) => *b == *e,
        _ => false,
    }
}

} // verus!
