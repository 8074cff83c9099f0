//! CSV sources: locating the coordinate columns and turning each record's other
//! fields into properties.
use vstd::prelude::*;
use crate::feature::{Feature, FeatureCollection, Properties, Value, ValueV};
use crate::geometry::{Coord, Geometry};
use crate::keyed::{raw_entries, set_entry, set_keyed};
use crate::order::string_views;
use crate::pipeline::PipelineError;
use crate::text::{decimal, lowercase};

verus! {

/// CSV source reader: expects a longitude column (`lon`, `longitude` or `x`) and
/// a latitude column (`lat`, `latitude` or `y`), matched without regard to case.
pub struct CsvReader;

/// Where the coordinates of a CSV file are: its lower-cased header names and
/// the positions of the longitude and latitude columns.
#[derive(Debug)]
pub struct CsvLayout {
    pub headers: Vec<String>,
    pub lon_idx: usize,
    pub lat_idx: usize,
}

/// Whether `h` names a longitude column.
pub open spec fn is_lon_header(h: Seq<char>) -> bool {
    h == "lon"@ || h == "longitude"@ || h == "x"@
}

/// Whether `h` names a latitude column.
pub open spec fn is_lat_header(h: Seq<char>) -> bool {
    h == "lat"@ || h == "latitude"@ || h == "y"@
}

/// Index of the first header satisfying `lon` (longitude) or else latitude, or -1.
pub open spec fn first_coord_column(hs: Seq<Seq<char>>, lon: bool) -> int
    decreases hs.len(),
{
    if hs.len() == 0 {
        -1
    } else {
        let r = first_coord_column(hs.drop_last(), lon);
        if r >= 0 {
            r
        } else if (if lon { is_lon_header(hs.last()) } else { is_lat_header(hs.last()) }) {
            hs.len() - 1
        } else {
            -1
        }
    }
}

/// Whether `c` is an ASCII digit.
pub open spec fn is_digit(c: char) -> bool {
    '0' <= c <= '9'
}

/// Value of a string of decimal digits.
pub open spec fn digits_value(d: Seq<char>) -> int
    decreases d.len(),
{
    if d.len() == 0 {
        0
    } else {
        digits_value(d.drop_last()) * 10 + (d.last() as int - '0' as int)
    }
}

/// Whether every character of `d` is an ASCII digit.
pub open spec fn all_digits(d: Seq<char>) -> bool {
    forall|i: int| 0 <= i < d.len() ==> is_digit(#[trigger] d[i])
}

/// Whether a text begins with a sign.
pub open spec fn has_sign(s: Seq<char>) -> bool {
    s.len() > 0 && (s[0] == '-' || s[0] == '+')
}

/// A text without its leading sign, if it has one.
pub open spec fn unsigned_part(s: Seq<char>) -> Seq<char> {
    if has_sign(s) {
        s.drop_first()
    } else {
        s
    }
}

/// The integer a text denotes as `i64::from_str` reads it: an optional sign and
/// one or more ASCII digits, within the range of `i64`.
pub open spec fn int_text_value(s: Seq<char>) -> Option<int> {
    let d = unsigned_part(s);
    let v = if has_sign(s) && s[0] == '-' { -digits_value(d) } else { digits_value(d) };
    if d.len() > 0 && all_digits(d) && i64::MIN <= v <= i64::MAX {
        Some(v)
    } else {
        None
    }
}

proof fn lemma_digits_nonneg(d: Seq<char>)
    requires
        all_digits(d),
    ensures
        digits_value(d) >= 0,
    decreases d.len(),
{
    if d.len() > 0 {
        lemma_digits_nonneg(d.drop_last());
        assert(is_digit(d[d.len() - 1]));
    }
}

/// Reads a decimal integer as `i64::from_str` does (`int_text_value`).
pub fn parse_i64(s: &str) -> (r: Option<i64>)
    ensures
        match r {
            Some(n) => int_text_value(s@) == Some(n as int),
            None => int_text_value(s@) is None,
        },
{
    let n = s.unicode_len();
    if n == 0 {
        return None;
    }
    let first = s.get_char(0);
    assert(s@[0] == first);
    let signed = first == '-' || first == '+';
    let neg = first == '-';
    let start: usize = if signed { 1 } else { 0 };
    let ghost d = if signed { s@.drop_first() } else { s@ };
    proof {
        assert(d =~= s@.skip(start as int));
        assert(d == unsigned_part(s@));
    }
    if start == n {
        return None;
    }
    let limit: u128 = 9223372036854775808;
    let mut acc: u128 = 0;
    let mut over = false;
    let mut i: usize = start;
    while i < n
        invariant
            start <= i <= n,
            n == s@.len(),
            d == s@.skip(start as int),
            d == unsigned_part(s@),
            all_digits(d.take(i - start)),
            !over ==> acc == digits_value(d.take(i - start)) && acc <= limit,
            over ==> digits_value(d.take(i - start)) > limit,
            limit == 9223372036854775808,
        decreases n - i,
    {
        let c = s.get_char(i);
        let ghost k = i - start;
        proof {
            assert(d[k] == c);
            assert(d.take(k + 1).drop_last() =~= d.take(k));
            assert(d.take(k + 1).last() == c);
        }
        if !('0' <= c && c <= '9') {
            proof {
                assert(!is_digit(d[k]));
                assert(!all_digits(d));
                assert(int_text_value(s@) is None);
            }
            return None;
        }
        let digit: u128 = ((c as u32) - 48) as u128;
        proof {
            lemma_digits_nonneg(d.take(k));

        }
        if !over {
            assert(acc * 10 + digit <= 10 * limit + 9) by (nonlinear_arith)
                requires
                    acc <= limit,
                    digit <= 9,
            ;
            acc = acc * 10 + digit;
            if acc > limit {
                over = true;
            }
        }
        i = i + 1;
    }
    proof {
        assert(d.take(n - start) =~= d);
        lemma_digits_nonneg(d);
    }
    if over {
        return None;
    }
    if neg {
        if acc == limit {
            Some(-9223372036854775807i64 - 1)
        } else {
            let m: i64 = acc as i64;
            Some(-m)
        }
    } else {
        if acc == limit {
            None
        } else {
            Some(acc as i64)
        }
    }
}

} // verus!

verus! {

/// Lower-cased texts of the headers.
pub open spec fn lowered(hs: Seq<Seq<char>>) -> Seq<Seq<char>> {
    hs.map_values(|h: Seq<char>| lowercase(h))
}

/// The layout of a CSV file with header row `headers`, read as format `format`
/// from `path`: the format must be `csv`, and both coordinate columns must exist.
pub open spec fn layout_result(format: Seq<char>, headers: Seq<Seq<char>>) -> Result<(int, int), int> {
    let hs = lowered(headers);
    if format != "csv"@ {
        Err(0)
    } else if first_coord_column(hs, true) < 0 {
        Err(1)
    } else if first_coord_column(hs, false) < 0 {
        Err(2)
    } else {
        Ok((first_coord_column(hs, true), first_coord_column(hs, false)))
    }
}

/// The message of a layout error (`layout_result`'s error code).
pub open spec fn layout_message(format: Seq<char>, c: int) -> Seq<char> {
    if c == 0 {
        "unsupported format: "@ + format
    } else if c == 1 {
        "no lon/longitude/x column found"@
    } else {
        "no lat/latitude/y column found"@
    }
}

/// A source error for `path` with `message`.
pub open spec fn is_source_error(e: PipelineError, path: Seq<char>, message: Seq<char>) -> bool {
    e matches PipelineError::Source { name, message: m } && name@ == path && m@ == message
}

/// Position of the first header naming a longitude (`lon`) or latitude column.
fn find_coord_column(hs: &Vec<String>, lon: bool) -> (r: Option<usize>)
    ensures
        match r {
            Some(i) => i as int == first_coord_column(string_views(hs@), lon) && i < hs@.len(),
            None => first_coord_column(string_views(hs@), lon) == -1,
        },
{
    let ghost v = string_views(hs@);
    let mut i: usize = 0;
    while i < hs.len()
        invariant
            i <= hs@.len(),
            v == string_views(hs@),
            first_coord_column(v.take(i as int), lon) == -1,
        decreases hs@.len() - i,
    {
        proof {
            assert(v.take(i + 1).drop_last() =~= v.take(i as int));
            assert(v.take(i + 1).last() == v[i as int]);
        }
        let h = hs[i].as_str();
        let hit = if lon {
            crate::text::str_eq(h, "lon") || crate::text::str_eq(h, "longitude") || crate::text::str_eq(h, "x")
        } else {
            crate::text::str_eq(h, "lat") || crate::text::str_eq(h, "latitude") || crate::text::str_eq(h, "y")
        };
        if hit {
            proof {
                lemma_first_coord_prefix(v, i + 1, lon);
            }
            return Some(i);
        }
        i = i + 1;
    }
    proof {
        assert(v.take(hs@.len() as int) =~= v);
    }
    None
}

/// A column found in a prefix is the first in the whole.
proof fn lemma_first_coord_prefix(v: Seq<Seq<char>>, k: int, lon: bool)
    requires
        0 <= k <= v.len(),
        first_coord_column(v.take(k), lon) >= 0,
    ensures
        first_coord_column(v, lon) == first_coord_column(v.take(k), lon),
    decreases v.len() - k,
{
    if k == v.len() {
        assert(v.take(k) =~= v);
    } else {
        assert(v.drop_last().take(k) =~= v.take(k));
        lemma_first_coord_prefix(v.drop_last(), k, lon);
    }
}

/// The property key of field `i`: its header, or `col_i` past the headers.
pub open spec fn field_key(hs: Seq<Seq<char>>, i: int) -> Seq<char> {
    if 0 <= i < hs.len() {
        hs[i]
    } else {
        "col_"@ + decimal(i as nat)
    }
}

/// The property value of a field: an integer when the text reads as one, else
/// a float when `float_text` (the text's `f64` reading, if any) is given, else
/// the text as a string.
pub open spec fn field_value(text: Seq<char>, float_text: Option<Seq<char>>) -> ValueV {
    match int_text_value(text) {
        Some(n) => ValueV::Integer(n as i64),
        None => match float_text {
            Some(t) => ValueV::Float(t),
            None => ValueV::String(text),
        },
    }
}

/// Entries of a property map, by key text and value view.
pub open spec fn prop_views(ps: Seq<(String, Value)>) -> Seq<(Seq<char>, ValueV)> {
    ps.map_values(|e: (String, Value)| (e.0@, e.1@))
}

/// The properties of a record: every field but the two coordinates, under its
/// key, inserted in order into one map.
pub open spec fn record_props(
    hs: Seq<Seq<char>>,
    fields: Seq<Seq<char>>,
    floats: Seq<Option<Seq<char>>>,
    lon: int,
    lat: int,
) -> Seq<(Seq<char>, ValueV)>
    decreases fields.len(),
{
    if fields.len() == 0 {
        Seq::empty()
    } else {
        let i = fields.len() - 1;
        let acc = record_props(hs, fields.drop_last(), floats, lon, lat);
        if i == lon || i == lat {
            acc
        } else {
            set_entry(
                acc,
                field_key(hs, i),
                field_value(fields[i], if i < floats.len() { floats[i] } else { None }),
            )
        }
    }
}

/// Texts of optional strings.
pub open spec fn opt_views(v: Seq<Option<String>>) -> Seq<Option<Seq<char>>> {
    v.map_values(|o: Option<String>| match o {
        Some(s) => Some(s@),
        None => None,
    })
}

impl CsvReader {
    /// Locates the coordinate columns among the header names (`layout_result`);
    /// errors name the path and say what is missing.
    pub fn layout(format: &str, path: &str, headers: &Vec<String>) -> (r: Result<
        CsvLayout,
        PipelineError,
    >)
        ensures
            match layout_result(format@, string_views(headers@)) {
                Ok((lon, lat)) => r matches Ok(l) && l.lon_idx == lon && l.lat_idx == lat
                    && string_views(l.headers@) == lowered(string_views(headers@)),
                Err(c) => r matches Err(e) && is_source_error(e, path@, layout_message(format@, c)),
            },
    {
        if !crate::text::str_eq(format, "csv") {
            return Err(
                PipelineError::Source {
                    name: String::from_str(path),
                    message: crate::text::cat("unsupported format: ", format),
                },
            );
        }
        let mut hs: Vec<String> = Vec::new();
        let mut i: usize = 0;
        while i < headers.len()
            invariant
                i <= headers@.len(),
                hs@.len() == i,
                forall|j: int| 0 <= j < i ==> #[trigger] hs@[j]@ == lowercase(headers@[j]@),
            decreases headers@.len() - i,
        {
            hs.push(crate::text::to_lowercase(headers[i].as_str()));
            i = i + 1;
        }
        proof {
            assert(string_views(hs@) =~= lowered(string_views(headers@)));
        }
        let lon_idx = match find_coord_column(&hs, true) {
            Some(k) => k,
            None => {
                return Err(
                    PipelineError::Source {
                        name: String::from_str(path),
                        message: String::from_str("no lon/longitude/x column found"),
                    },
                );
            },
        };
        let lat_idx = match find_coord_column(&hs, false) {
            Some(k) => k,
            None => {
                return Err(
                    PipelineError::Source {
                        name: String::from_str(path),
                        message: String::from_str("no lat/latitude/y column found"),
                    },
                );
            },
        };
        Ok(CsvLayout { headers: hs, lon_idx, lat_idx })
    }

    /// The property value of one field (`field_value`).
    pub fn field_value(text: &str, float_text: Option<&String>) -> (r: Value)
        ensures
            r@ == field_value(
                text@,
                match float_text {
                    Some(t) => Some(t@),
                    None => None,
                },
            ),
    {
        match parse_i64(text) {
            Some(n) => Value::Integer(n),
            None => match float_text {
                Some(t) => Value::Float(t.clone()),
                None => Value::String(String::from_str(text)),
            },
        }
    }

    /// The properties of one record (`record_props`): `fields` are its texts,
    /// and `floats` the `f64` reading of each, where it has one.
    pub fn record_properties(layout: &CsvLayout, fields: &Vec<String>, floats: &Vec<Option<String>>) -> (r: Properties)
        ensures
            prop_views(r@) == record_props(
                string_views(layout.headers@),
                string_views(fields@),
                opt_views(floats@),
                layout.lon_idx as int,
                layout.lat_idx as int,
            ),
    {
        let ghost hs = string_views(layout.headers@);
        let ghost fs = string_views(fields@);
        let ghost fl = opt_views(floats@);
        let mut props: Properties = Vec::new();
        let mut i: usize = 0;
        while i < fields.len()
            invariant
                i <= fields@.len(),
                hs == string_views(layout.headers@),
                fs == string_views(fields@),
                fl == opt_views(floats@),
                prop_views(props@) == record_props(hs, fs.take(i as int), fl, layout.lon_idx as int, layout.lat_idx as int),
            decreases fields@.len() - i,
        {
            proof {
                assert(fs.take(i + 1).drop_last() =~= fs.take(i as int));
                assert(fs.take(i + 1)[i as int] == fs[i as int]);
            }
            if i != layout.lon_idx && i != layout.lat_idx {
                let key = if i < layout.headers.len() {
                    layout.headers[i].clone()
                } else {
                    let n = crate::text::u64_text(i as u64);
                    crate::text::cat("col_", n.as_str())
                };
                let ft: Option<&String> = if i < floats.len() {
                    match &floats[i] {
                        Some(t) => Some(t),
                        None => None,
                    }
                } else {
                    None
                };
                let value = Self::field_value(fields[i].as_str(), ft);
                let ghost kv = key@;
                let ghost before = props@;
                set_keyed(&mut props, key, value);
                proof {
                    let rb = raw_entries(before);
                    let vb = prop_views(before);
                    assert forall|q: int| 0 <= q < rb.len() implies #[trigger] rb[q].0 == vb[q].0 by {}
                    crate::keyed::lemma_key_position_same_keys(rb, vb, kv);
                    let p = crate::keyed::key_position(vb, kv);
                    crate::keyed::lemma_key_position_range(vb, kv);
                    let after = prop_views(props@);
                    let want = set_entry(vb, kv, value@);
                    assert(raw_entries(props@) == set_entry(rb, kv, value));
                    assert(rb.len() == before.len());
                    assert(vb.len() == before.len());
                    assert(after.len() == props@.len());
                    if p < 0 {
                        assert(want.len() == vb.len() + 1);
                        assert(raw_entries(props@).len() == rb.len() + 1);
                    } else {
                        assert(want.len() == vb.len());
                        assert(raw_entries(props@).len() == rb.len());
                    }
                    assert(after.len() == want.len());
                    assert forall|q: int| 0 <= q < after.len() implies after[q] == want[q] by {
                        assert(after[q] == (raw_entries(props@)[q].0, raw_entries(props@)[q].1@));
                        if q < rb.len() && q != p {
                            assert(raw_entries(props@)[q] == rb[q]);
                        }
                    }
                    assert(after =~= want);
                }
            }
            i = i + 1;
        }
        proof {
            assert(fs.take(fields@.len() as int) =~= fs);
        }
        props
    }
}

} // verus!

verus! {

/// A CSV text as the csv crate reads it (a `csv::Reader` with its default
/// settings: a header row, records of equal length): the header fields, then
/// the records' fields or the message of the first record that cannot be read;
/// or the message of a header row that cannot be read.
pub uninterp spec fn csv_table(content: Seq<char>) -> Result<
    (Seq<Seq<char>>, Result<Seq<Seq<Seq<char>>>, Seq<char>>),
    Seq<char>,
>;

/// The fields of each record, as texts.
pub open spec fn row_views(rows: Seq<Vec<String>>) -> Seq<Seq<Seq<char>>> {
    rows.map_values(|r: Vec<String>| string_views(r@))
}

/// A read table by its texts.
pub open spec fn table_view(t: Result<(Vec<String>, Result<Vec<Vec<String>>, String>), String>) -> Result<
    (Seq<Seq<char>>, Result<Seq<Seq<Seq<char>>>, Seq<char>>),
    Seq<char>,
> {
    match t {
        Ok((hs, Ok(rows))) => Ok((string_views(hs@), Ok(row_views(rows@)))),
        Ok((hs, Err(m))) => Ok((string_views(hs@), Err(m@))),
        Err(m) => Err(m@),
    }
}

/// Reads a CSV text with `csv::Reader::from_reader` (`headers`, then `records`);
/// the result is a function of the text (`csv_table`). Errors are kept by their
/// message (`csv::Error`'s `Display`).
#[verifier::external_body]
fn csv_records(content: &str) -> (r: Result<(Vec<String>, Result<Vec<Vec<String>>, String>), String>)
    ensures
        table_view(r) == csv_table(content@),
{
    let mut rdr = csv::Reader::from_reader(content.as_bytes());
    let headers: Vec<String> = match rdr.headers() {
        Ok(h) => h.iter().map(|f| f.to_string()).collect(),
        Err(e) => return Err(e.to_string()),
    };
    let records: Result<Vec<Vec<String>>, csv::Error> = rdr
        .records()
        .map(|rec| rec.map(|fields| fields.iter().map(|f| f.to_string()).collect()))
        .collect();
    Ok((headers, records.map_err(|e| e.to_string())))
}

/// Reads the text of a CSV source at `path`: checks the format, reads the
/// header row, locates the coordinate columns, then reads the records. Each
/// failure is a source error for the path, in that order.
pub fn read_csv_text(format: &str, path: &str, content: &str) -> (r: Result<
    (CsvLayout, Vec<Vec<String>>),
    PipelineError,
>)
    ensures
        format@ != "csv"@ ==> (r matches Err(e) && is_source_error(e, path@, layout_message(format@, 0))),
        format@ == "csv"@ ==> match csv_table(content@) {
            Err(m) => r matches Err(e) && is_source_error(e, path@, m),
            Ok((hs, recs)) => match layout_result(format@, hs) {
                Err(c) => r matches Err(e) && is_source_error(e, path@, layout_message(format@, c)),
                Ok((lon, lat)) => match recs {
                    Err(m) => r matches Err(e) && is_source_error(e, path@, m),
                    Ok(rows) => r matches Ok((l, out)) && l.lon_idx == lon && l.lat_idx == lat
                        && string_views(l.headers@) == lowered(hs) && row_views(out@) == rows,
                },
            },
        },
{
    if !crate::text::str_eq(format, "csv") {
        return Err(
            PipelineError::Source {
                name: String::from_str(path),
                message: crate::text::cat("unsupported format: ", format),
            },
        );
    }
    let (headers, records) = match csv_records(content) {
        Ok(t) => t,
        Err(m) => {
            return Err(PipelineError::Source { name: String::from_str(path), message: m });
        },
    };
    let layout = match CsvReader::layout(format, path, &headers) {
        Ok(l) => l,
        Err(e) => {
            return Err(e);
        },
    };
    match records {
        Ok(rows) => Ok((layout, rows)),
        Err(m) => Err(PipelineError::Source { name: String::from_str(path), message: m }),
    }
}

} // verus!

verus! {

/// The reference system of a CSV source's points.
pub open spec fn csv_crs() -> Seq<char> {
    "EPSG:4326"@
}

impl CsvReader {
    /// The features of a CSV source: one per record, in order, each a point at
    /// the record's coordinates (`points`, read from its coordinate fields) with
    /// the record's properties (`record_properties`, given the `f64` reading of
    /// each field in `floats`); the collection's reference system is EPSG:4326.
    pub fn features(
        layout: &CsvLayout,
        rows: &Vec<Vec<String>>,
        floats: &Vec<Vec<Option<String>>>,
        points: &Vec<Coord>,
    ) -> (r: FeatureCollection)
        requires
            floats@.len() == rows@.len(),
            points@.len() == rows@.len(),
        ensures
            r.features@.len() == rows@.len(),
            forall|i: int|
                0 <= i < rows@.len() ==> {
                    &&& (#[trigger] r.features@[i]).geometry == Geometry::Point(points@[i])
                    &&& prop_views(r.features@[i].properties@) == record_props(
                        string_views(layout.headers@),
                        string_views(rows@[i]@),
                        opt_views(floats@[i]@),
                        layout.lon_idx as int,
                        layout.lat_idx as int,
                    )
                },
            r.crs matches Some(c) && c@ == csv_crs(),
    {
        let mut features: Vec<Feature> = Vec::new();
        let mut i: usize = 0;
        while i < rows.len()
            invariant
                i <= rows@.len(),
                floats@.len() == rows@.len(),
                points@.len() == rows@.len(),
                features@.len() == i,
                forall|j: int|
                    0 <= j < i ==> {
                        &&& (#[trigger] features@[j]).geometry == Geometry::Point(points@[j])
                        &&& prop_views(features@[j].properties@) == record_props(
                            string_views(layout.headers@),
                            string_views(rows@[j]@),
                            opt_views(floats@[j]@),
                            layout.lon_idx as int,
                            layout.lat_idx as int,
                        )
                    },
            decreases rows@.len() - i,
        {
            let properties = CsvReader::record_properties(layout, &rows[i], &floats[i]);
            features.push(Feature { geometry: Geometry::Point(points[i]), properties });
            i = i + 1;
        }
        FeatureCollection::new(features, Some(String::from_str("EPSG:4326")))
    }
}

} // verus!

verus! {

/// `first_coord_column` is the first header of the wanted kind, or -1 when
/// there is none.
proof fn lemma_first_coord(hs: Seq<Seq<char>>, lon: bool)
    ensures
        -1 <= first_coord_column(hs, lon) < hs.len(),
        first_coord_column(hs, lon) >= 0 ==> (if lon {
            is_lon_header(hs[first_coord_column(hs, lon)])
        } else {
            is_lat_header(hs[first_coord_column(hs, lon)])
        }),
        forall|i: int|
            0 <= i < hs.len() && (first_coord_column(hs, lon) < 0 || i < first_coord_column(hs, lon))
                ==> !(if lon {
                is_lon_header(#[trigger] hs[i])
            } else {
                is_lat_header(hs[i])
            }),
    decreases hs.len(),
{
    if hs.len() > 0 {
        lemma_first_coord(hs.drop_last(), lon);
        assert forall|i: int| 0 <= i < hs.len() - 1 implies hs.drop_last()[i] == #[trigger] hs[i] by {}
    }
}

/// Where a CSV file's coordinates are found (`CsvReader::layout`,
/// `read_csv_text`): with format `csv`, the longitude column is the first
/// header that reads `lon`, `longitude` or `x` and the latitude column the
/// first that reads `lat`, `latitude` or `y`, in any case; the layout is found
/// exactly when both exist, and otherwise the missing one is reported, the
/// longitude first.
pub proof fn law_coordinate_columns(headers: Seq<Seq<char>>)
    ensures
        (exists|j: int| 0 <= j < lowered(headers).len() && (#[trigger] lowered(headers)[j] == "lon"@ || #[trigger] lowered(headers)[j] == "longitude"@ || #[trigger] lowered(headers)[j] == "x"@))
            && (exists|j: int| 0 <= j < lowered(headers).len() && (#[trigger] lowered(headers)[j] == "lat"@ || #[trigger] lowered(headers)[j] == "latitude"@ || #[trigger] lowered(headers)[j] == "y"@))
            ==> (layout_result("csv"@, headers) matches Ok((lon, lat)) && 0 <= lon < lowered(headers).len()
            && 0 <= lat < lowered(headers).len() && (lowered(headers)[lon] == "lon"@ || lowered(headers)[lon] == "longitude"@ || lowered(headers)[lon] == "x"@) && (lowered(headers)[lat] == "lat"@ || lowered(headers)[lat] == "latitude"@ || lowered(headers)[lat] == "y"@)
            && (forall|i: int| 0 <= i < lon ==> !(#[trigger] lowered(headers)[i] == "lon"@ || #[trigger] lowered(headers)[i] == "longitude"@ || #[trigger] lowered(headers)[i] == "x"@))
            && (forall|i: int| 0 <= i < lat ==> !(#[trigger] lowered(headers)[i] == "lat"@ || #[trigger] lowered(headers)[i] == "latitude"@ || #[trigger] lowered(headers)[i] == "y"@))),
        !(exists|j: int| 0 <= j < lowered(headers).len() && (#[trigger] lowered(headers)[j] == "lon"@ || #[trigger] lowered(headers)[j] == "longitude"@ || #[trigger] lowered(headers)[j] == "x"@))
            ==> layout_result("csv"@, headers) == Err::<(int, int), int>(1),
        (exists|j: int| 0 <= j < lowered(headers).len() && (#[trigger] lowered(headers)[j] == "lon"@ || #[trigger] lowered(headers)[j] == "longitude"@ || #[trigger] lowered(headers)[j] == "x"@))
            && !(exists|j: int| 0 <= j < lowered(headers).len() && (#[trigger] lowered(headers)[j] == "lat"@ || #[trigger] lowered(headers)[j] == "latitude"@ || #[trigger] lowered(headers)[j] == "y"@))
            ==> layout_result("csv"@, headers) == Err::<(int, int), int>(2),
{
    let hs = lowered(headers);
    lemma_first_coord(hs, true);
    lemma_first_coord(hs, false);
}

} // verus!
