//! GeoPackage tables: the SQL that reads and writes a feature table, and the
//! conversion between its rows and features.
use vstd::prelude::*;
use crate::feature::{Feature, FeatureCollection, Properties, Value, prop_get, prop_keys, prop_lookup};
use crate::geometry::{Coord, Geometry};
use crate::order::string_views;
use crate::text::join;

verus! {

/// Statements creating the GeoPackage metadata tables when missing.
pub const METADATA_SQL: &'static str = "CREATE TABLE IF NOT EXISTS gpkg_contents (
            table_name TEXT NOT NULL PRIMARY KEY,
            data_type TEXT NOT NULL,
            identifier TEXT,
            description TEXT DEFAULT '',
            last_change DATETIME DEFAULT (strftime('%Y-%m-%dT%H:%M:%fZ','now')),
            min_x DOUBLE, min_y DOUBLE, max_x DOUBLE, max_y DOUBLE,
            srs_id INTEGER
        );
        CREATE TABLE IF NOT EXISTS gpkg_spatial_ref_sys (
            srs_name TEXT NOT NULL,
            srs_id INTEGER NOT NULL PRIMARY KEY,
            organization TEXT NOT NULL,
            organization_coordsys_id INTEGER NOT NULL,
            definition TEXT NOT NULL
        );";

/// Query for the first feature table listed in the contents table.
pub const FIRST_FEATURE_TABLE_SQL: &'static str =
    "SELECT table_name FROM gpkg_contents WHERE data_type='features' LIMIT 1";

/// Statement registering a feature table in the contents table (`?1`: its name).
pub const REGISTER_TABLE_SQL: &'static str =
    "INSERT OR REPLACE INTO gpkg_contents (table_name, data_type) VALUES (?1, 'features')";

/// Whether column `c` holds a property (not the geometry or the feature id).
pub open spec fn is_property_column(c: Seq<char>) -> bool {
    c != "geom"@ && c != "geometry"@ && c != "fid"@
}

/// The property columns among `cs`, in order.
pub open spec fn property_columns_of(cs: Seq<Seq<char>>) -> Seq<Seq<char>>
    decreases cs.len(),
{
    if cs.len() == 0 {
        Seq::empty()
    } else {
        let acc = property_columns_of(cs.drop_last());
        if is_property_column(cs.last()) {
            acc.push(cs.last())
        } else {
            acc
        }
    }
}

/// The property columns of a table with columns `columns` (`property_columns_of`).
pub fn property_columns(columns: &Vec<String>) -> (r: Vec<String>)
    ensures
        string_views(r@) == property_columns_of(string_views(columns@)),
{
    let ghost cs = string_views(columns@);
    let mut out: Vec<String> = Vec::new();
    let mut i: usize = 0;
    while i < columns.len()
        invariant
            i <= columns@.len(),
            cs == string_views(columns@),
            string_views(out@) == property_columns_of(cs.take(i as int)),
        decreases columns@.len() - i,
    {
        proof {
            assert(cs.take(i + 1).drop_last() =~= cs.take(i as int));
            assert(cs.take(i + 1).last() == cs[i as int]);
        }
        let c = columns[i].as_str();
        if !crate::text::str_eq(c, "geom") && !crate::text::str_eq(c, "geometry")
            && !crate::text::str_eq(c, "fid") {
            let ghost before = out@;
            out.push(columns[i].clone());
            proof {
                assert(string_views(out@) =~= string_views(before).push(cs[i as int]));
            }
        }
        i = i + 1;
    }
    proof {
        assert(cs.take(columns@.len() as int) =~= cs);
    }
    out
}

/// Query listing the columns of a table.
pub fn table_info_sql(table: &str) -> (r: String)
    ensures
        r@ == "PRAGMA table_info('"@ + table@ + "')"@,
{
    crate::text::cat3("PRAGMA table_info('", table, "')")
}

/// Query reading the property columns of a table.
pub fn select_sql(table: &str, columns: &Vec<String>) -> (r: String)
    ensures
        r@ == "SELECT "@ + join(string_views(columns@), ", "@) + " FROM \""@ + table@ + "\""@,
{
    let list = crate::text::join_strings(columns, ", ");
    let mut s = String::from_str("SELECT ");
    s.append(list.as_str());
    s.append(" FROM \"");
    s.append(table);
    s.append("\"");
    s
}

/// The text of cell `j` of a row, or empty when the row has none.
pub open spec fn cell_of(row: Seq<Option<String>>, j: int) -> Seq<char> {
    if 0 <= j < row.len() && row[j] is Some {
        row[j]->Some_0@
    } else {
        Seq::empty()
    }
}

/// `p` is the string property `key` with text `text`.
pub open spec fn is_text_prop(p: (String, Value), key: Seq<char>, text: Seq<char>) -> bool {
    p.0@ == key && p.1 is String && p.1->String_0@ == text
}

/// `fc` holds one feature per row, each with a string property per column
/// (its text, or empty when the row has none) at the origin point.
pub open spec fn features_of_rows(
    fc: FeatureCollection,
    columns: Seq<Seq<char>>,
    rows: Seq<Vec<Option<String>>>,
) -> bool {
    &&& fc.crs is None
    &&& fc.features@.len() == rows.len()
    &&& forall|i: int|
        0 <= i < rows.len() ==> {
            let f = #[trigger] fc.features@[i];
            &&& f.geometry == Geometry::Point(Coord { x: 0, y: 0 })
            &&& f.properties@.len() == columns.len()
            &&& forall|j: int|
                0 <= j < columns.len() ==> is_text_prop(#[trigger] f.properties@[j], columns[j], cell_of(rows[i]@, j))
        }
}

/// Features from the rows read from a table's property columns (`features_of_rows`).
pub fn features_from_rows(columns: &Vec<String>, rows: Vec<Vec<Option<String>>>) -> (r: FeatureCollection)
    ensures
        features_of_rows(r, string_views(columns@), rows@),
{
    let mut features: Vec<Feature> = Vec::new();
    let mut i: usize = 0;
    while i < rows.len()
        invariant
            i <= rows@.len(),
            features@.len() == i,
            forall|k: int|
                0 <= k < i ==> {
                    let f = #[trigger] features@[k];
                    &&& f.geometry == Geometry::Point(Coord { x: 0, y: 0 })
                    &&& f.properties@.len() == columns@.len()
                    &&& forall|j: int|
                        0 <= j < columns@.len() ==> is_text_prop(#[trigger] f.properties@[j], string_views(columns@)[j], cell_of(rows@[k]@, j))
                },
        decreases rows@.len() - i,
    {
        let row = &rows[i];
        let mut props: Properties = Vec::new();
        let mut j: usize = 0;
        while j < columns.len()
            invariant
                j <= columns@.len(),
                props@.len() == j,
                forall|q: int|
                    0 <= q < j ==> is_text_prop(#[trigger] props@[q], string_views(columns@)[q], cell_of(row@, q)),
            decreases columns@.len() - j,
        {
            let text = if j < row.len() {
                match &row[j] {
                    Some(t) => t.clone(),
                    None => String::new(),
                }
            } else {
                String::new()
            };
            props.push((columns[j].clone(), Value::String(text)));
            j = j + 1;
        }
        features.push(Feature { geometry: Geometry::Point(Coord { x: 0, y: 0 }), properties: props });
        i = i + 1;
    }
    FeatureCollection { features, crs: None }
}

/// The columns written for a collection: the first feature's property keys.
pub fn write_columns(fc: &FeatureCollection) -> (r: Vec<String>)
    ensures
        string_views(r@) == if fc.features@.len() > 0 {
            prop_keys(fc.features@[0].properties@)
        } else {
            Seq::empty()
        },
{
    let mut out: Vec<String> = Vec::new();
    if fc.features.len() > 0 {
        let props = &fc.features[0].properties;
        let ghost keys = prop_keys(props@);
        let mut i: usize = 0;
        while i < props.len()
            invariant
                i <= props@.len(),
                keys == prop_keys(props@),
                out@.len() == i,
                string_views(out@) == keys.take(i as int),
            decreases props@.len() - i,
        {
            let ghost before = out@;
            out.push(props[i].0.clone());
            proof {
                assert forall|j: int| 0 <= j < i + 1 implies #[trigger] string_views(out@)[j] == keys[j] by {
                    if j < i {
                        assert(string_views(before)[j] == keys.take(i as int)[j]);
                    }
                }
                assert(string_views(out@) =~= keys.take(i + 1));
            }
            i = i + 1;
        }
        proof {
            assert(keys.take(props@.len() as int) =~= keys);
        }
    }
    out
}

/// Each column name in double quotes, followed by `suffix`.
pub open spec fn quoted_columns(cs: Seq<Seq<char>>, suffix: Seq<char>) -> Seq<Seq<char>> {
    cs.map_values(|c: Seq<char>| "\""@ + c + "\""@ + suffix)
}

/// Quoted column names followed by `suffix` (`quoted_columns`).
fn quote_all(columns: &Vec<String>, suffix: &str) -> (r: Vec<String>)
    ensures
        string_views(r@) == quoted_columns(string_views(columns@), suffix@),
{
    let ghost want = quoted_columns(string_views(columns@), suffix@);
    let mut out: Vec<String> = Vec::new();
    let mut i: usize = 0;
    while i < columns.len()
        invariant
            i <= columns@.len(),
            want == quoted_columns(string_views(columns@), suffix@),
            out@.len() == i,
            forall|j: int| 0 <= j < i ==> #[trigger] string_views(out@)[j] == want[j],
        decreases columns@.len() - i,
    {
        let ghost before = out@;
        let mut s = String::from_str("\"");
        s.append(columns[i].as_str());
        s.append("\"");
        s.append(suffix);
        out.push(s);
        proof {
            assert forall|j: int| 0 <= j < i + 1 implies #[trigger] string_views(out@)[j] == want[j] by {
                if j < i {
                    assert(string_views(before)[j] == want[j]);
                }
            }
        }
        i = i + 1;
    }
    proof {
        assert(string_views(out@) =~= want);
    }
    out
}

/// Statement creating a feature table with an id column and a text column per property.
pub fn create_table_sql(table: &str, columns: &Vec<String>) -> (r: String)
    ensures
        r@ == "CREATE TABLE IF NOT EXISTS \""@ + table@
            + "\" (fid INTEGER PRIMARY KEY AUTOINCREMENT, "@ + join(
            quoted_columns(string_views(columns@), " TEXT"@),
            ", "@,
        ) + ")"@,
{
    let defs = quote_all(columns, " TEXT");
    let list = crate::text::join_strings(&defs, ", ");
    let mut s = String::from_str("CREATE TABLE IF NOT EXISTS \"");
    s.append(table);
    s.append("\" (fid INTEGER PRIMARY KEY AUTOINCREMENT, ");
    s.append(list.as_str());
    s.append(")");
    s
}

/// `n` copies of `x`.
pub open spec fn repeated(x: Seq<char>, n: nat) -> Seq<Seq<char>> {
    Seq::new(n, |i: int| x)
}

/// Statement inserting one row of property values.
pub fn insert_sql(table: &str, columns: &Vec<String>) -> (r: String)
    ensures
        r@ == "INSERT INTO \""@ + table@ + "\" ("@ + join(
            quoted_columns(string_views(columns@), Seq::empty()),
            ", "@,
        ) + ") VALUES ("@ + join(repeated("?"@, columns@.len()), ", "@) + ")"@,
{
    let names = quote_all(columns, "");
    let mut marks: Vec<String> = Vec::new();
    let mut i: usize = 0;
    while i < columns.len()
        invariant
            i <= columns@.len(),
            marks@.len() == i,
            forall|j: int| 0 <= j < i ==> #[trigger] marks@[j]@ == "?"@,
        decreases columns@.len() - i,
    {
        marks.push(String::from_str("?"));
        i = i + 1;
    }
    proof {
        assert(string_views(marks@) =~= repeated("?"@, columns@.len()));
        assert(""@ =~= Seq::<char>::empty()) by {
            reveal_strlit("");
        }
    }
    let name_list = crate::text::join_strings(&names, ", ");
    let mark_list = crate::text::join_strings(&marks, ", ");
    let mut s = String::from_str("INSERT INTO \"");
    s.append(table);
    s.append("\" (");
    s.append(name_list.as_str());
    s.append(") VALUES (");
    s.append(mark_list.as_str());
    s.append(")");
    s
}

/// The text written for a property value: a string as it is, any other value by
/// its debug text, nothing for a missing value.
pub open spec fn cell_text(v: Option<crate::feature::ValueV>) -> Seq<char> {
    match v {
        Some(crate::feature::ValueV::String(s)) => s,
        Some(other) => crate::feature::value_debug_text(other),
        None => Seq::empty(),
    }
}

/// The values written for a feature, one per column (`cell_text`).
pub fn row_values(feature: &Feature, columns: &Vec<String>) -> (r: Vec<String>)
    ensures
        r@.len() == columns@.len(),
        forall|j: int|
            0 <= j < columns@.len() ==> #[trigger] r@[j]@ == cell_text(
                prop_get(feature.properties@, columns@[j]@),
            ),
{
    let mut out: Vec<String> = Vec::new();
    let mut j: usize = 0;
    while j < columns.len()
        invariant
            j <= columns@.len(),
            out@.len() == j,
            forall|q: int|
                0 <= q < j ==> #[trigger] out@[q]@ == cell_text(
                    prop_get(feature.properties@, columns@[q]@),
                ),
        decreases columns@.len() - j,
    {
        let text = match prop_lookup(&feature.properties, columns[j].as_str()) {
            Some(Value::String(s)) => s.clone(),
            Some(v) => v.debug_text(),
            None => String::new(),
        };
        out.push(text);
        j = j + 1;
    }
    out
}

} // verus!
