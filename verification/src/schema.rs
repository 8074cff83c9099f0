//! Schema detection: column types, nullability and value statistics inferred
//! from the properties of a feature collection.
use vstd::prelude::*;
use crate::feature::{FeatureCollection, Value, ValueV, prop_get, prop_keys, prop_lookup};
use crate::order::{insert_sorted, strictly_sorted, string_views};

verus! {

/// Detected column type.
#[derive(Debug, Clone, Copy, PartialEq, Eq, Structural)]
pub enum ColumnType {
    Boolean,
    Integer,
    Float,
    String,
    Null,
    Mixed,
}

/// Statistics for a detected column. The range of numeric values (floating
/// point) is not part of it.
#[derive(Debug)]
pub struct ColumnStats {
    pub col_type: ColumnType,
    pub nullable: bool,
    pub null_count: usize,
    pub distinct_count: usize,
    pub sample_count: usize,
    /// Longest string value, in bytes (for string values).
    pub max_length: Option<usize>,
}

/// A detected schema for a feature collection.
#[derive(Debug)]
pub struct DetectedSchema {
    pub columns: Vec<(String, ColumnStats)>,
    pub geometry_type: Option<String>,
    pub feature_count: usize,
    pub crs: Option<String>,
}

/// Most distinct strings counted per column.
pub const DISTINCT_LIMIT: usize = 100;

/// Variant number of a value: null, boolean, integer, float, string.
pub open spec fn value_tag(v: ValueV) -> int {
    match v {
        ValueV::Null => 0,
        ValueV::Bool(_) => 1,
        ValueV::Integer(_) => 2,
        ValueV::Float(_) => 3,
        ValueV::String(_) => 4,
    }
}

/// Number of values with variant number `t`.
pub open spec fn count_tag(vs: Seq<ValueV>, t: int) -> nat
    decreases vs.len(),
{
    if vs.len() == 0 {
        0
    } else {
        count_tag(vs.drop_last(), t) + if value_tag(vs.last()) == t { 1nat } else { 0nat }
    }
}

/// The type of a column with values `vs`: all integers, all numbers, all
/// booleans or all strings (nulls aside); `Null` without non-null values, else `Mixed`.
pub open spec fn column_type(vs: Seq<ValueV>) -> ColumnType {
    let non_null = vs.len() - count_tag(vs, 0);
    if non_null == 0 {
        ColumnType::Null
    } else if count_tag(vs, 2) == non_null {
        ColumnType::Integer
    } else if count_tag(vs, 3) == non_null || count_tag(vs, 2) + count_tag(vs, 3) == non_null {
        ColumnType::Float
    } else if count_tag(vs, 1) == non_null {
        ColumnType::Boolean
    } else if count_tag(vs, 4) == non_null {
        ColumnType::String
    } else {
        ColumnType::Mixed
    }
}

/// Length in bytes of a text (`str::len`: its UTF-8 encoding).
pub open spec fn byte_len(s: Seq<char>) -> usize {
    vstd::utf8::encode_utf8(s).len() as usize
}

/// Longest string value, in bytes; 0 without string values.
pub open spec fn max_str_len(vs: Seq<ValueV>) -> usize
    decreases vs.len(),
{
    if vs.len() == 0 {
        0
    } else {
        let acc = max_str_len(vs.drop_last());
        match vs.last() {
            ValueV::String(s) => if byte_len(s) > acc { byte_len(s) } else { acc },
            _ => acc,
        }
    }
}

/// The distinct string values.
pub open spec fn string_set(vs: Seq<ValueV>) -> Set<Seq<char>>
    decreases vs.len(),
{
    if vs.len() == 0 {
        Set::empty()
    } else {
        let acc = string_set(vs.drop_last());
        match vs.last() {
            ValueV::String(s) => acc.insert(s),
            _ => acc,
        }
    }
}

/// `st` describes a column with values `vs` in a collection of `total` features.
pub open spec fn is_column_stats(st: ColumnStats, vs: Seq<ValueV>, total: nat) -> bool {
    &&& st.col_type == column_type(vs)
    &&& st.null_count == count_tag(vs, 0)
    &&& st.nullable == (count_tag(vs, 0) > 0 || vs.len() < total)
    &&& st.sample_count == vs.len()
    &&& st.distinct_count == (if string_set(vs).len() < 100 { string_set(vs).len() } else { 100 })
    &&& st.max_length == (if max_str_len(vs) > 0 { Some(max_str_len(vs)) } else { None })
}

/// Views of a list of value references.
pub open spec fn ref_views(vs: Seq<&Value>) -> Seq<ValueV> {
    vs.map_values(|v: &Value| v@)
}

proof fn lemma_count_le(vs: Seq<ValueV>, t: int)
    ensures
        count_tag(vs, t) <= vs.len(),
    decreases vs.len(),
{
    if vs.len() > 0 {
        lemma_count_le(vs.drop_last(), t);
    }
}

proof fn lemma_counts_sum(vs: Seq<ValueV>)
    ensures
        count_tag(vs, 0) + count_tag(vs, 1) + count_tag(vs, 2) + count_tag(vs, 3) + count_tag(vs, 4)
            == vs.len(),
    decreases vs.len(),
{
    if vs.len() > 0 {
        lemma_counts_sum(vs.drop_last());
    }
}

proof fn lemma_string_set_finite(vs: Seq<ValueV>)
    ensures
        string_set(vs).finite(),
    decreases vs.len(),
{
    if vs.len() > 0 {
        lemma_string_set_finite(vs.drop_last());
    }
}

/// Whether `xs` holds the text of `x`.
fn holds_string(xs: &Vec<String>, x: &String) -> (r: bool)
    ensures
        r == string_views(xs@).contains(x@),
{
    let ghost v = string_views(xs@);
    let mut i: usize = 0;
    while i < xs.len()
        invariant
            i <= xs@.len(),
            v == string_views(xs@),
            forall|j: int| 0 <= j < i ==> v[j] != x@,
        decreases xs@.len() - i,
    {
        if crate::text::str_eq(xs[i].as_str(), x.as_str()) {
            assert(v[i as int] == x@);
            return true;
        }
        i = i + 1;
    }
    false
}

/// Statistics of a column with values `values` in a collection of
/// `total_features` features (`is_column_stats`).
pub fn analyze_column(values: &[&Value], total_features: usize) -> (r: ColumnStats)
    ensures
        is_column_stats(r, ref_views(values@), total_features as nat),
{
    let ghost vs = ref_views(values@);
    let mut null_count: usize = 0;
    let mut bool_count: usize = 0;
    let mut int_count: usize = 0;
    let mut float_count: usize = 0;
    let mut string_count: usize = 0;
    let mut max_length: usize = 0;
    let mut distinct: Vec<String> = Vec::new();
    let mut i: usize = 0;
    while i < values.len()
        invariant
            i <= vs.len(),
            vs == ref_views(values@),
            null_count == count_tag(vs.take(i as int), 0),
            bool_count == count_tag(vs.take(i as int), 1),
            int_count == count_tag(vs.take(i as int), 2),
            float_count == count_tag(vs.take(i as int), 3),
            string_count == count_tag(vs.take(i as int), 4),
            max_length == max_str_len(vs.take(i as int)),
            string_views(distinct@).no_duplicates(),
            string_views(distinct@).len() <= 100,
            string_views(distinct@).to_set().subset_of(string_set(vs.take(i as int))),
            string_views(distinct@).len() < 100 ==> string_views(distinct@).to_set() == string_set(
                vs.take(i as int),
            ),
        decreases vs.len() - i,
    {
        let ghost pre = vs.take(i as int);
        let ghost dv = string_views(distinct@);
        proof {
            assert(vs.take(i + 1).drop_last() =~= pre);
            assert(vs.take(i + 1).last() == vs[i as int]);
            lemma_counts_sum(pre);
        }
        match values[i] {
            Value::Null => {
                null_count = null_count + 1;
            },
            Value::Bool(_) => {
                bool_count = bool_count + 1;
            },
            Value::Integer(_) => {
                int_count = int_count + 1;
            },
            Value::Float(_) => {
                float_count = float_count + 1;
            },
            Value::String(s) => {
                string_count = string_count + 1;
                let n = s.as_str().len();
                if n > max_length {
                    max_length = n;
                }
                if distinct.len() < DISTINCT_LIMIT && !holds_string(&distinct, s) {
                    distinct.push(s.clone());
                    proof {
                        assert(string_views(distinct@) =~= dv.push(s@));
                        let now = string_views(distinct@);
                        assert forall|y: Seq<char>| now.to_set().contains(y) implies dv.to_set().insert(s@).contains(y) by {
                            let k = choose|k: int| 0 <= k < now.len() && now[k] == y;
                            if k < dv.len() {
                                assert(dv[k] == y);
                            }
                        }
                        assert forall|y: Seq<char>| dv.to_set().insert(s@).contains(y) implies now.to_set().contains(y) by {
                            if y == s@ {
                                assert(now[dv.len() as int] == y);
                            } else {
                                let k = choose|k: int| 0 <= k < dv.len() && dv[k] == y;
                                assert(now[k] == y);
                            }
                        }
                        assert(now.to_set() =~= dv.to_set().insert(s@));
                    }
                }
                proof {
                    let now = string_views(distinct@);
                    if now.len() < 100 && now == dv {
                        assert(dv.contains(s@));
                        assert(dv.to_set().contains(s@));
                        assert(dv.to_set().insert(s@) =~= dv.to_set());
                    }
                }
            },
        }
        i = i + 1;
    }
    proof {
        assert(vs.take(vs.len() as int) =~= vs);
        lemma_counts_sum(vs);
    }
    let non_null = values.len() - null_count;
    let col_type = if non_null == 0 {
        ColumnType::Null
    } else if int_count == non_null {
        ColumnType::Integer
    } else if float_count == non_null || int_count + float_count == non_null {
        ColumnType::Float
    } else if bool_count == non_null {
        ColumnType::Boolean
    } else if string_count == non_null {
        ColumnType::String
    } else {
        ColumnType::Mixed
    };
    let nullable = null_count > 0 || values.len() < total_features;
    proof {
        let dv = string_views(distinct@);
        let ss = string_set(vs);
        lemma_string_set_finite(vs);
        dv.unique_seq_to_set();
        if dv.len() == 100 {
            vstd::set_lib::lemma_len_subset(dv.to_set(), ss);
        }
    }
    ColumnStats {
        col_type,
        nullable,
        null_count,
        distinct_count: distinct.len(),
        sample_count: values.len(),
        max_length: if max_length > 0 {
            Some(max_length)
        } else {
            None
        },
    }
}

} // verus!

verus! {

/// All property keys of the features.
pub open spec fn all_keys(fs: Seq<crate::feature::Feature>) -> Set<Seq<char>>
    decreases fs.len(),
{
    if fs.len() == 0 {
        Set::empty()
    } else {
        all_keys(fs.drop_last()).union(prop_keys(fs.last().properties@).to_set())
    }
}

/// The values of column `k`: each feature's value for `k`, in feature order.
pub open spec fn column_values(fs: Seq<crate::feature::Feature>, k: Seq<char>) -> Seq<ValueV>
    decreases fs.len(),
{
    if fs.len() == 0 {
        Seq::empty()
    } else {
        let acc = column_values(fs.drop_last(), k);
        match prop_get(fs.last().properties@, k) {
            Some(v) => acc.push(v),
            None => acc,
        }
    }
}

/// Names of the detected columns.
pub open spec fn column_names(cs: Seq<(String, ColumnStats)>) -> Seq<Seq<char>> {
    cs.map_values(|c: (String, ColumnStats)| c.0@)
}

/// `s` is the schema of `fc`: one column per property key in ascending key
/// order with its statistics, the first feature's geometry type, the count of
/// features and the reference system.
pub open spec fn is_schema_of(s: DetectedSchema, fc: FeatureCollection) -> bool {
    let fs = fc.features@;
    &&& strictly_sorted(column_names(s.columns@))
    &&& column_names(s.columns@).to_set() == all_keys(fs)
    &&& forall|i: int|
        0 <= i < s.columns@.len() ==> is_column_stats(
            (#[trigger] s.columns@[i]).1,
            column_values(fs, s.columns@[i].0@),
            fs.len(),
        )
    &&& match s.geometry_type {
        Some(g) => fs.len() > 0 && g@ == crate::geometry::spec_geometry_type_name(fs[0].geometry),
        None => fs.len() == 0,
    }
    &&& s.feature_count == fs.len()
    &&& s.crs == fc.crs
}

/// The property keys of the features, sorted.
fn sorted_keys(fc: &FeatureCollection) -> (r: Vec<String>)
    ensures
        strictly_sorted(string_views(r@)),
        string_views(r@).to_set() == all_keys(fc.features@),
{
    let ghost fs = fc.features@;
    let mut keys: Vec<String> = Vec::new();
    let mut i: usize = 0;
    proof {
        assert(string_views(keys@).to_set() =~= all_keys(fs.take(0)));
    }
    while i < fc.features.len()
        invariant
            i <= fs.len(),
            fs == fc.features@,
            strictly_sorted(string_views(keys@)),
            string_views(keys@).to_set() == all_keys(fs.take(i as int)),
        decreases fs.len() - i,
    {
        let props = &fc.features[i].properties;
        let ghost pk = prop_keys(props@);
        let ghost base = all_keys(fs.take(i as int));
        proof {
            assert(pk.take(0).to_set() =~= Set::<Seq<char>>::empty());
            assert(base.union(pk.take(0).to_set()) =~= base);
        }
        let mut j: usize = 0;
        while j < props.len()
            invariant
                j <= props@.len(),
                pk == prop_keys(props@),
                strictly_sorted(string_views(keys@)),
                string_views(keys@).to_set() == base.union(pk.take(j as int).to_set()),
            decreases props@.len() - j,
        {
            proof {
                crate::order::lemma_take_to_set(pk, j as int);
                assert(pk[j as int] == props@[j as int].0@);
            }
            insert_sorted(&mut keys, props[j].0.clone());
            proof {
                assert(base.union(pk.take(j + 1).to_set()) =~= base.union(pk.take(j as int).to_set()).insert(
                    pk[j as int],
                ));
            }
            j = j + 1;
        }
        proof {
            assert(pk.take(props@.len() as int) =~= pk);
            assert(fs.take(i + 1).drop_last() =~= fs.take(i as int));
            assert(fs.take(i + 1).last() == fs[i as int]);
        }
        i = i + 1;
    }
    proof {
        assert(fs.take(fs.len() as int) =~= fs);
    }
    keys
}

/// The values of column `key` (`column_values`).
fn collect_column<'a>(fc: &'a FeatureCollection, key: &str) -> (r: Vec<&'a Value>)
    ensures
        ref_views(r@) == column_values(fc.features@, key@),
{
    let ghost fs = fc.features@;
    let mut out: Vec<&Value> = Vec::new();
    let mut i: usize = 0;
    while i < fc.features.len()
        invariant
            i <= fs.len(),
            fs == fc.features@,
            ref_views(out@) == column_values(fs.take(i as int), key@),
        decreases fs.len() - i,
    {
        proof {
            assert(fs.take(i + 1).drop_last() =~= fs.take(i as int));
            assert(fs.take(i + 1).last() == fs[i as int]);
        }
        let ghost before = out@;
        match prop_lookup(&fc.features[i].properties, key) {
            Some(v) => {
                out.push(v);
                proof {
                    assert(ref_views(out@) =~= ref_views(before).push(v@));
                }
            },
            None => {},
        }
        i = i + 1;
    }
    proof {
        assert(fs.take(fs.len() as int) =~= fs);
    }
    out
}

impl DetectedSchema {
    /// Detects the schema of a feature collection (`is_schema_of`).
    pub fn detect(fc: &FeatureCollection) -> (r: Self)
        ensures
            is_schema_of(r, *fc),
    {
        let keys = sorted_keys(fc);
        let feature_count = fc.features.len();
        let mut columns: Vec<(String, ColumnStats)> = Vec::new();
        let mut i: usize = 0;
        while i < keys.len()
            invariant
                i <= keys@.len(),
                feature_count == fc.features@.len(),
                columns@.len() == i,
                forall|j: int| 0 <= j < i ==> (#[trigger] columns@[j]).0@ == keys@[j]@,
                forall|j: int|
                    0 <= j < i ==> is_column_stats(
                        (#[trigger] columns@[j]).1,
                        column_values(fc.features@, columns@[j].0@),
                        fc.features@.len(),
                    ),
            decreases keys@.len() - i,
        {
            let values = collect_column(fc, keys[i].as_str());
            let stats = analyze_column(values.as_slice(), feature_count);
            columns.push((keys[i].clone(), stats));
            i = i + 1;
        }
        proof {
            assert(column_names(columns@) =~= string_views(keys@));
        }
        let geometry_type = if fc.features.len() > 0 {
            Some(crate::geometry::geometry_type_name(&fc.features[0].geometry))
        } else {
            None
        };
        let crs = crate::manifest::clone_opt_string(&fc.crs);
        DetectedSchema { columns, geometry_type, feature_count, crs }
    }
}

} // verus!

verus! {

/// Name of a column type (its `{:?}` text).
pub open spec fn column_type_name(t: ColumnType) -> Seq<char> {
    match t {
        ColumnType::Boolean => "Boolean"@,
        ColumnType::Integer => "Integer"@,
        ColumnType::Float => "Float"@,
        ColumnType::String => "String"@,
        ColumnType::Null => "Null"@,
        ColumnType::Mixed => "Mixed"@,
    }
}

/// The description line of a column.
pub open spec fn column_line(c: (String, ColumnStats)) -> Seq<char> {
    "  "@ + c.0@ + ": "@ + column_type_name(c.1.col_type) + (if c.1.nullable {
        "?"@
    } else {
        Seq::empty()
    }) + " ("@ + crate::text::decimal(c.1.sample_count as nat) + " samples, "@ + crate::text::decimal(
        c.1.null_count as nat,
    ) + " nulls)\n"@
}

/// The description lines of the columns.
pub open spec fn column_lines(cs: Seq<(String, ColumnStats)>) -> Seq<Seq<char>> {
    cs.map_values(|c: (String, ColumnStats)| column_line(c))
}

/// The human-readable description of a schema: a header with the feature count
/// and geometry type, the reference system when known, then one line per column.
pub open spec fn schema_text(s: DetectedSchema) -> Seq<char> {
    "Schema: "@ + crate::text::decimal(s.feature_count as nat) + " features, geometry="@ + (match s.geometry_type {
        Some(g) => g@,
        None => "unknown"@,
    }) + "\n"@ + (match s.crs {
        Some(c) => "CRS: "@ + c@ + "\n"@,
        None => Seq::empty(),
    }) + "Columns:\n"@ + crate::text::concat_all(column_lines(s.columns@))
}

fn column_type_str(t: ColumnType) -> (r: &'static str)
    ensures
        r@ == column_type_name(t),
{
    match t {
        ColumnType::Boolean => "Boolean",
        ColumnType::Integer => "Integer",
        ColumnType::Float => "Float",
        ColumnType::String => "String",
        ColumnType::Null => "Null",
        ColumnType::Mixed => "Mixed",
    }
}

fn append_usize(out: &mut String, n: usize)
    ensures
        final(out)@ == old(out)@ + crate::text::decimal(n as nat),
{
    crate::text::append_decimal(out, n as u64);
}

impl DetectedSchema {
    /// A human-readable description of the schema (`schema_text`).
    pub fn describe(&self) -> (r: String)
        ensures
            r@ == schema_text(*self),
    {
        let mut out = String::from_str("Schema: ");
        append_usize(&mut out, self.feature_count);
        out.append(" features, geometry=");
        match &self.geometry_type {
            Some(g) => out.append(g.as_str()),
            None => out.append("unknown"),
        }
        out.append("\n");
        match &self.crs {
            Some(c) => {
                out.append("CRS: ");
                out.append(c.as_str());
                out.append("\n");
            },
            None => {},
        }
        out.append("Columns:\n");
        let ghost head = out@;
        let ghost lines = column_lines(self.columns@);
        let mut i: usize = 0;
        while i < self.columns.len()
            invariant
                i <= self.columns@.len(),
                lines == column_lines(self.columns@),
                out@ == head + crate::text::concat_all(lines.take(i as int)),
            decreases self.columns@.len() - i,
        {
            let ghost before = out@;
            let c = &self.columns[i];
            out.append("  ");
            out.append(c.0.as_str());
            out.append(": ");
            out.append(column_type_str(c.1.col_type));
            if c.1.nullable {
                out.append("?");
            }
            out.append(" (");
            append_usize(&mut out, c.1.sample_count);
            out.append(" samples, ");
            append_usize(&mut out, c.1.null_count);
            out.append(" nulls)\n");
            proof {
                crate::text::lemma_concat_all_step(lines, i as int);
                assert(lines[i as int] == column_line(self.columns@[i as int]));
                assert(out@ =~= before + column_line(self.columns@[i as int]));
                crate::text::lemma_add_assoc(head, crate::text::concat_all(lines.take(i as int)), lines[i as int]);
            }
            i = i + 1;
        }
        proof {
            assert(lines.take(self.columns@.len() as int) =~= lines);
            assert(out@ =~= schema_text(*self));
        }
        out
    }
}

} // verus!

verus! {

/// The kinds of values that can share a column type: booleans; numbers
/// (integers and floats); strings; and nulls, which belong to none.
pub open spec fn value_kind(v: ValueV) -> int {
    match v {
        ValueV::Null => 0,
        ValueV::Bool(_) => 1,
        ValueV::Integer(_) => 2,
        ValueV::Float(_) => 2,
        ValueV::String(_) => 3,
    }
}

/// Each value is counted under exactly one variant.
proof fn lemma_counts_add_up(vs: Seq<ValueV>)
    ensures
        count_tag(vs, 0) + count_tag(vs, 1) + count_tag(vs, 2) + count_tag(vs, 3) + count_tag(vs, 4)
            == vs.len(),
    decreases vs.len(),
{
    if vs.len() > 0 {
        lemma_counts_add_up(vs.drop_last());
    }
}

/// A variant that no value has is counted zero times.
proof fn lemma_count_absent(vs: Seq<ValueV>, t: int)
    requires
        forall|i: int| 0 <= i < vs.len() ==> value_tag(#[trigger] vs[i]) != t,
    ensures
        count_tag(vs, t) == 0,
    decreases vs.len(),
{
    if vs.len() > 0 {
        assert(vs.last() == vs[vs.len() - 1]);
        lemma_count_absent(vs.drop_last(), t);
    }
}

/// A variant that some value has is counted at least once.
proof fn lemma_count_present(vs: Seq<ValueV>, t: int, i: int)
    requires
        0 <= i < vs.len(),
        value_tag(vs[i]) == t,
    ensures
        count_tag(vs, t) >= 1,
    decreases vs.len(),
{
    if i < vs.len() - 1 {
        assert(vs.drop_last()[i] == vs[i]);
        lemma_count_present(vs.drop_last(), t, i);
    }
}

/// The type a column's analysis reports (`analyze_column`, `column_type`):
/// a column whose non-null values are all numbers, at least one of them a
/// float, is `Float`; all integers is `Integer`; all booleans is `Boolean`; all
/// strings is `String`; no non-null value is `Null`; and `Mixed` only when two
/// non-null values are of different kinds, integers and floats counting as one
/// kind.
pub proof fn law_column_type(vs: Seq<ValueV>)
    ensures
        (forall|i: int| 0 <= i < vs.len() ==> (#[trigger] vs[i]) is Null) ==> column_type(vs)
            == ColumnType::Null,
        (exists|i: int| 0 <= i < vs.len() && (#[trigger] vs[i]) is Float) && (forall|i: int|
            0 <= i < vs.len() ==> (#[trigger] vs[i]) is Null || vs[i] is Integer || vs[i] is Float)
            ==> column_type(vs) == ColumnType::Float,
        (exists|i: int| 0 <= i < vs.len() && (#[trigger] vs[i]) is Integer) && (forall|i: int|
            0 <= i < vs.len() ==> (#[trigger] vs[i]) is Null || vs[i] is Integer) ==> column_type(vs)
            == ColumnType::Integer,
        (exists|i: int| 0 <= i < vs.len() && (#[trigger] vs[i]) is Bool) && (forall|i: int|
            0 <= i < vs.len() ==> (#[trigger] vs[i]) is Null || vs[i] is Bool) ==> column_type(vs)
            == ColumnType::Boolean,
        (exists|i: int| 0 <= i < vs.len() && (#[trigger] vs[i]) is String) && (forall|i: int|
            0 <= i < vs.len() ==> (#[trigger] vs[i]) is Null || vs[i] is String) ==> column_type(vs)
            == ColumnType::String,
        column_type(vs) == ColumnType::Mixed ==> exists|i: int, j: int|
            0 <= i < vs.len() && 0 <= j < vs.len() && !(vs[i] is Null) && !(vs[j] is Null)
                && value_kind(#[trigger] vs[i]) != value_kind(#[trigger] vs[j]),
{
    lemma_counts_add_up(vs);
    let n = vs.len();
    if forall|i: int| 0 <= i < n ==> (#[trigger] vs[i]) is Null {
        assert forall|t: int| 1 <= t <= 4 implies count_tag(vs, t) == 0 by {
            assert forall|i: int| 0 <= i < n implies value_tag(#[trigger] vs[i]) != t by {
                assert(vs[i] is Null);
            }
            lemma_count_absent(vs, t);
        }
        assert(count_tag(vs, 1) == 0 && count_tag(vs, 2) == 0 && count_tag(vs, 3) == 0
            && count_tag(vs, 4) == 0);
    }
    // Counts of the variants that no value has.
    assert forall|t: int|
        0 <= t <= 4 && (forall|i: int| 0 <= i < n ==> value_tag(#[trigger] vs[i]) != t) implies
        count_tag(vs, t) == 0 by {
        lemma_count_absent(vs, t);
    }
    assert forall|t: int, i: int| 0 <= i < n && value_tag(vs[i]) == t implies #[trigger] count_tag(
        vs,
        t,
    ) >= 1 && #[trigger] vs[i] == vs[i] by {
        lemma_count_present(vs, t, i);
    }
    if column_type(vs) == ColumnType::Mixed {
        let nn = n - count_tag(vs, 0);
        assert(nn > 0);
        // Some non-null value exists.
        let i0 = choose|i: int| 0 <= i < n && !(vs[i] is Null);
        if !(exists|i: int, j: int|
            0 <= i < n && 0 <= j < n && !(vs[i] is Null) && !(vs[j] is Null) && value_kind(
                #[trigger] vs[i],
            ) != value_kind(#[trigger] vs[j])) {
            assert forall|j: int| 0 <= j < n && !(vs[j] is Null) implies value_kind(#[trigger] vs[j])
                == value_kind(vs[i0]) by {}
            let k = value_kind(vs[i0]);
            if k == 1 {
                assert forall|i: int| 0 <= i < n implies value_tag(#[trigger] vs[i]) != 2 && value_tag(
                    vs[i],
                ) != 3 && value_tag(vs[i]) != 4 by {}
                lemma_count_absent(vs, 2);
                lemma_count_absent(vs, 3);
                lemma_count_absent(vs, 4);
            } else if k == 2 {
                assert forall|i: int| 0 <= i < n implies value_tag(#[trigger] vs[i]) != 1 && value_tag(
                    vs[i],
                ) != 4 by {}
                lemma_count_absent(vs, 1);
                lemma_count_absent(vs, 4);
            } else {
                assert forall|i: int| 0 <= i < n implies value_tag(#[trigger] vs[i]) != 1 && value_tag(
                    vs[i],
                ) != 2 && value_tag(vs[i]) != 3 by {}
                lemma_count_absent(vs, 1);
                lemma_count_absent(vs, 2);
                lemma_count_absent(vs, 3);
            }
        }
    }
}

} // verus!
