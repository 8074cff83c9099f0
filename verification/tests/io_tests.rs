use geodukt::cloud::CloudBackend;
use geodukt::csv::{CsvReader, parse_i64, read_csv_text};
use geodukt::database::{
    DatabaseBackend, DatabaseConfig, DatabaseConnector, DatabaseQuery, PostGisConnector,
    generate_create_table,
};
use geodukt::docgen;
use geodukt::feature::{Feature, FeatureCollection, Value};
use geodukt::geometry::{Coord, Geometry};
use geodukt::gpkg;
use geodukt::manifest::{Manifest, ParamValue, Project, Sink, Source, Transform};
use geodukt::pipeline::{PipelineError, TransformOp};
use geodukt::transforms::{ExpressionKind, SchemaMapTransform, expression_kind, filter_keeps};

fn param_value(v: &toml::Value) -> ParamValue {
    match v {
        toml::Value::String(s) => ParamValue::String(s.clone()),
        toml::Value::Integer(i) => ParamValue::Integer(*i),
        toml::Value::Float(f) if f.is_nan() => ParamValue::Float("nan".to_string()),
        toml::Value::Float(f) => ParamValue::Float(format!("{:?}", f)),
        toml::Value::Boolean(b) => ParamValue::Boolean(*b),
        toml::Value::Datetime(d) => ParamValue::Datetime(d.to_string()),
        toml::Value::Array(a) => ParamValue::Array(a.iter().map(param_value).collect()),
        toml::Value::Table(t) => {
            ParamValue::Table(t.iter().map(|(k, v)| (k.clone(), param_value(v))).collect())
        }
    }
}

fn text(t: &toml::Table, key: &str) -> String {
    t.get(key).and_then(|v| v.as_str()).unwrap_or("").to_string()
}

/// Reads a manifest written in TOML into the library's manifest type; a
/// transform's parameters are its keys other than `name`, `input` and `operation`.
fn manifest(source_text: &str) -> Manifest {
    let doc: toml::Table = source_text.parse().unwrap();
    let project = doc["project"].as_table().unwrap();
    let entries = |key: &str| -> Vec<toml::Table> {
        doc.get(key)
            .and_then(|v| v.as_array())
            .map(|a| a.iter().map(|v| v.as_table().unwrap().clone()).collect())
            .unwrap_or_default()
    };
    Manifest {
        project: Project { name: text(project, "name"), version: text(project, "version") },
        source: entries("source")
            .iter()
            .map(|t| Source {
                name: text(t, "name"),
                format: text(t, "format"),
                path: text(t, "path"),
                crs: t.get("crs").and_then(|v| v.as_str()).map(String::from),
            })
            .collect(),
        transform: entries("transform")
            .iter()
            .map(|t| Transform {
                name: text(t, "name"),
                input: text(t, "input"),
                operation: text(t, "operation"),
                params: t
                    .iter()
                    .filter(|(k, _)| !["name", "input", "operation"].contains(&k.as_str()))
                    .map(|(k, v)| (k.clone(), param_value(v)))
                    .collect(),
            })
            .collect(),
        sink: entries("sink")
            .iter()
            .map(|t| Sink {
                name: text(t, "name"),
                input: text(t, "input"),
                format: text(t, "format"),
                path: text(t, "path"),
            })
            .collect(),
    }
}

fn point(x: f64, y: f64) -> Geometry {
    Geometry::Point(Coord { x: x.to_bits(), y: y.to_bits() })
}

// ---------------------------------------------------------------------------
// Documentation
// ---------------------------------------------------------------------------

const SAMPLE_MANIFEST: &str = r#"
[project]
name = "test-pipeline"
version = "1.0.0"

[[source]]
name = "input"
format = "geojson"
path = "data/input.geojson"

[[transform]]
name = "buffered"
input = "input"
operation = "buffer"

[transform.params]
distance = 100.0

[[transform]]
name = "filtered"
input = "buffered"
operation = "filter"

[transform.params]
property = "type"
value = "road"

[[sink]]
name = "output"
input = "filtered"
format = "geojson"
path = "output/result.geojson"
"#;

#[test]
fn test_generate_markdown_has_sources() {
    let manifest = manifest(SAMPLE_MANIFEST);
    let md = docgen::generate_markdown(&manifest);
    assert!(md.contains("# test-pipeline"));
    assert!(md.contains("**Version:** 1.0.0"));
    assert!(md.contains("| input | geojson | data/input.geojson |"));
}

#[test]
fn test_generate_markdown_has_transforms() {
    let manifest = manifest(SAMPLE_MANIFEST);
    let md = docgen::generate_markdown(&manifest);
    assert!(md.contains("| buffered | input | buffer |"));
    assert!(md.contains("| filtered | buffered | filter |"));
}

#[test]
fn test_generate_markdown_has_sinks() {
    let manifest = manifest(SAMPLE_MANIFEST);
    let md = docgen::generate_markdown(&manifest);
    assert!(md.contains("| output | geojson | output/result.geojson |"));
}

#[test]
fn test_generate_markdown_has_mermaid_dag() {
    let manifest = manifest(SAMPLE_MANIFEST);
    let md = docgen::generate_markdown(&manifest);
    assert!(md.contains("```mermaid"));
    assert!(md.contains("graph LR"));
    assert!(md.contains("input --> |buffer| buffered"));
    assert!(md.contains("buffered --> |filter| filtered"));
    assert!(md.contains("filtered --> output"));
}

#[test]
fn test_generate_html_wraps_content() {
    let manifest = manifest(SAMPLE_MANIFEST);
    let html = docgen::generate_html(&manifest);
    assert!(html.contains("<!DOCTYPE html>"));
    assert!(html.contains("<title>test-pipeline"));
    assert!(html.contains("# test-pipeline"));
}

// ---------------------------------------------------------------------------
// Databases
// ---------------------------------------------------------------------------

fn config(backend: DatabaseBackend) -> DatabaseConfig {
    DatabaseConfig {
        backend,
        host: "localhost".into(),
        port: 5432,
        database: "gis".into(),
        username: "user".into(),
        password: "pass".into(),
        schema: Some("public".into()),
        ssl: false,
    }
}

#[test]
fn test_connection_string_postgis() {
    let config = config(DatabaseBackend::PostGIS);
    let conn = config.connection_string();
    assert!(conn.contains("host=localhost"));
    assert!(conn.contains("port=5432"));
}

#[test]
fn connection_string_exact_forms() {
    assert_eq!(
        config(DatabaseBackend::PostGIS).connection_string(),
        "host=localhost port=5432 dbname=gis user=user password=pass sslmode=disable options=-csearch_path=public"
    );
    assert_eq!(
        config(DatabaseBackend::SqlServer).connection_string(),
        "Server=localhost,5432;Database=gis;User Id=user;Password=pass;Encrypt=false;"
    );
    assert_eq!(config(DatabaseBackend::Oracle).connection_string(), "//localhost:5432/gis");
}

#[test]
fn test_query_builder() {
    let query = DatabaseQuery {
        query: "buildings".into(),
        geometry_column: "geom".into(),
        srid: Some(4326),
        limit: Some(100),
        bbox: Some(["0".into(), "0".into(), "10".into(), "10".into()]),
    };
    let sql = query.build_sql();
    assert!(sql.contains("SELECT * FROM buildings"));
    assert!(sql.contains("ST_Intersects"));
    assert!(sql.contains("LIMIT 100"));
}

#[test]
fn query_builder_exact() {
    let query = DatabaseQuery {
        query: "buildings".into(),
        geometry_column: "geom".into(),
        srid: None,
        limit: Some(100),
        bbox: Some(["0".into(), "0".into(), "10".into(), "10".into()]),
    };
    assert_eq!(
        query.build_sql(),
        "SELECT * FROM buildings WHERE ST_Intersects(geom, ST_MakeEnvelope(0, 0, 10, 10, 4326)) LIMIT 100"
    );
}

#[test]
fn test_query_builder_raw_sql() {
    let query = DatabaseQuery {
        query: "SELECT id, geom FROM parcels WHERE status = 'active'".into(),
        geometry_column: "geom".into(),
        srid: Some(4326),
        limit: None,
        bbox: None,
    };
    let sql = query.build_sql();
    assert!(sql.starts_with("SELECT id"));
}

#[test]
fn test_generate_ddl() {
    let f = Feature {
        geometry: point(1.0, 2.0),
        properties: vec![
            ("name".to_string(), Value::String("test".to_string())),
            ("pop".to_string(), Value::Integer(1000)),
        ],
    };
    let fc = FeatureCollection::new(vec![f], None);
    let ddl = generate_create_table("cities", &fc, "geom", 4326);
    assert!(ddl.contains("CREATE TABLE IF NOT EXISTS cities"));
    assert!(ddl.contains("geometry(POINT, 4326)"));
}

#[test]
fn ddl_of_an_empty_collection() {
    let ddl = generate_create_table("t", &FeatureCollection::empty(), "geom", 4326);
    assert_eq!(
        ddl,
        "CREATE TABLE IF NOT EXISTS t (\n    id SERIAL PRIMARY KEY,\n    geom geometry(GEOMETRY, 4326)\n);"
    );
}

#[test]
fn query_filter_joins_an_existing_where_clause() {
    let bbox = || Some(["0".to_string(), "0".to_string(), "1".to_string(), "1".to_string()]);
    let named = DatabaseQuery {
        query: "nowhere_roads".into(),
        geometry_column: "geom".into(),
        srid: None,
        limit: None,
        bbox: bbox(),
    };
    assert_eq!(
        named.build_sql(),
        "SELECT * FROM nowhere_roads WHERE ST_Intersects(geom, ST_MakeEnvelope(0, 0, 1, 1, 4326))"
    );
    let filtered = DatabaseQuery {
        query: "select * from roads where kind = 'a'".into(),
        geometry_column: "geom".into(),
        srid: None,
        limit: None,
        bbox: bbox(),
    };
    assert_eq!(
        filtered.build_sql(),
        "select * from roads where kind = 'a' AND ST_Intersects(geom, ST_MakeEnvelope(0, 0, 1, 1, 4326))"
    );
}

#[test]
fn test_postgis_connector() {
    let config = DatabaseConfig {
        backend: DatabaseBackend::PostGIS,
        host: "localhost".into(),
        port: 5432,
        database: "test".into(),
        username: "test".into(),
        password: "test".into(),
        schema: None,
        ssl: false,
    };
    let connector = PostGisConnector::new(config);
    assert!(connector.ping().is_ok());
}

// ---------------------------------------------------------------------------
// CSV
// ---------------------------------------------------------------------------

fn strings(v: &[&str]) -> Vec<String> {
    v.iter().map(|s| s.to_string()).collect()
}

fn float_readings(fields: &[String]) -> Vec<Option<String>> {
    fields.iter().map(|f| f.parse::<f64>().ok().map(|x| format!("{:?}", x))).collect()
}

#[test]
fn test_csv_reader() {
    let csv_data = "name,lon,lat\npark,1.5,2.5\nschool,-0.5,51.5\n";
    let (layout, rows) = read_csv_text("csv", "data.csv", csv_data).unwrap();
    let features: Vec<_> = rows
        .iter()
        .map(|fields| CsvReader::record_properties(&layout, fields, &float_readings(fields)))
        .collect();
    assert_eq!(features.len(), 2);
    let name = features[0].iter().find(|(k, _)| k == "name").map(|(_, v)| v);
    assert!(matches!(name, Some(Value::String(s)) if s == "park"));
}

#[test]
fn csv_features_are_points_in_wgs84() {
    let (layout, rows) = read_csv_text("csv", "d.csv", "name,lon,lat\npark,1.5,2.5\n").unwrap();
    let floats: Vec<Vec<Option<String>>> = rows.iter().map(|r| float_readings(r)).collect();
    let points = vec![Coord { x: 1.5f64.to_bits(), y: 2.5f64.to_bits() }];
    let fc = CsvReader::features(&layout, &rows, &floats, &points);
    assert_eq!(fc.crs.as_deref(), Some("EPSG:4326"));
    assert_eq!(fc.features.len(), 1);
    assert!(matches!(fc.features[0].geometry, Geometry::Point(c) if c == points[0]));
    let name = fc.features[0].properties.iter().find(|(k, _)| k == "name").map(|(_, v)| v);
    assert!(matches!(name, Some(Value::String(s)) if s == "park"));
}

#[test]
fn csv_text_reads_headers_and_records() {
    let (layout, rows) = read_csv_text("csv", "d.csv", "id,X,Y\n1,\"3,5\",4\n").unwrap();
    assert_eq!((layout.lon_idx, layout.lat_idx), (1, 2));
    assert_eq!(layout.headers, strings(&["id", "x", "y"]));
    assert_eq!(rows, vec![strings(&["1", "3,5", "4"])]);
}

#[test]
fn csv_text_errors() {
    match read_csv_text("json", "d.csv", "lon,lat\n1,2\n") {
        Err(PipelineError::Source { name, message }) => {
            assert_eq!(name, "d.csv");
            assert_eq!(message, "unsupported format: json");
        }
        _ => panic!("expected an error"),
    }
    match read_csv_text("csv", "d.csv", "name\na\n") {
        Err(PipelineError::Source { message, .. }) => {
            assert_eq!(message, "no lon/longitude/x column found")
        }
        _ => panic!("expected an error"),
    }
    // A record longer than the header row cannot be read.
    match read_csv_text("csv", "d.csv", "lon,lat\n1,2,3\n") {
        Err(PipelineError::Source { name, .. }) => assert_eq!(name, "d.csv"),
        _ => panic!("expected an error"),
    }
}

#[test]
fn csv_layout_errors() {
    match CsvReader::layout("geojson", "a.csv", &strings(&["lon", "lat"])) {
        Err(PipelineError::Source { name, message }) => {
            assert_eq!(name, "a.csv");
            assert_eq!(message, "unsupported format: geojson");
        }
        _ => panic!("expected an error"),
    }
    match CsvReader::layout("csv", "a.csv", &strings(&["Longitude", "name"])) {
        Err(PipelineError::Source { message, .. }) => {
            assert_eq!(message, "no lat/latitude/y column found")
        }
        _ => panic!("expected an error"),
    }
    match CsvReader::layout("csv", "a.csv", &strings(&["name"])) {
        Err(PipelineError::Source { message, .. }) => {
            assert_eq!(message, "no lon/longitude/x column found")
        }
        _ => panic!("expected an error"),
    }
    let layout = CsvReader::layout("csv", "a.csv", &strings(&["Y", "X", "id"])).unwrap();
    assert_eq!((layout.lon_idx, layout.lat_idx), (1, 0));
    assert_eq!(layout.headers, strings(&["y", "x", "id"]));
}

#[test]
fn csv_field_values() {
    let layout = CsvReader::layout("csv", "a.csv", &strings(&["x", "y", "n"])).unwrap();
    let fields = strings(&["1", "2", "-42", "0.25", "abc"]);
    let props = CsvReader::record_properties(&layout, &fields, &float_readings(&fields));
    assert_eq!(props.len(), 3);
    assert_eq!(props[0].0, "n");
    assert!(matches!(props[0].1, Value::Integer(-42)));
    assert_eq!(props[1].0, "col_3");
    assert!(matches!(&props[1].1, Value::Float(t) if t == "0.25"));
    assert_eq!(props[2].0, "col_4");
    assert!(matches!(&props[2].1, Value::String(s) if s == "abc"));
}

#[test]
fn integer_parsing_follows_std() {
    for s in ["0", "+7", "-7", "007", "9223372036854775807", "-9223372036854775808", "", "-", "+", "1.5", "9223372036854775808", " 1", "1a"] {
        assert_eq!(parse_i64(s), s.parse::<i64>().ok(), "text {:?}", s);
    }
}

// ---------------------------------------------------------------------------
// GeoPackage tables
// ---------------------------------------------------------------------------

#[test]
fn gpkg_read_sql_and_rows() {
    let cols = gpkg::property_columns(&strings(&["fid", "geom", "name", "geometry", "pop"]));
    assert_eq!(cols, strings(&["name", "pop"]));
    assert_eq!(gpkg::table_info_sql("t"), "PRAGMA table_info('t')");
    assert_eq!(gpkg::select_sql("t", &cols), "SELECT name, pop FROM \"t\"");
    let fc = gpkg::features_from_rows(&cols, vec![vec![Some("a".into()), None]]);
    assert_eq!(fc.len(), 1);
    assert!(matches!(&fc.features[0].properties[0].1, Value::String(s) if s == "a"));
    assert!(matches!(&fc.features[0].properties[1].1, Value::String(s) if s.is_empty()));
}

#[test]
fn gpkg_write_sql_and_values() {
    let f = Feature {
        geometry: point(1.0, 2.0),
        properties: vec![
            ("name".into(), Value::String("x \"y\"".into())),
            ("pop".into(), Value::Integer(5)),
            ("ok".into(), Value::Bool(true)),
        ],
    };
    let fc = FeatureCollection::new(vec![f], None);
    let cols = gpkg::write_columns(&fc);
    assert_eq!(cols, strings(&["name", "pop", "ok"]));
    assert_eq!(
        gpkg::create_table_sql("t", &cols),
        "CREATE TABLE IF NOT EXISTS \"t\" (fid INTEGER PRIMARY KEY AUTOINCREMENT, \"name\" TEXT, \"pop\" TEXT, \"ok\" TEXT)"
    );
    assert_eq!(
        gpkg::insert_sql("t", &cols),
        "INSERT INTO \"t\" (\"name\", \"pop\", \"ok\") VALUES (?, ?, ?)"
    );
    let mut with_missing = cols.clone();
    with_missing.push("gone".into());
    assert_eq!(
        gpkg::row_values(&fc.features[0], &with_missing),
        strings(&["x \"y\"", "Integer(5)", "Bool(true)", ""])
    );
}

// ---------------------------------------------------------------------------
// Cloud and transforms
// ---------------------------------------------------------------------------

#[test]
fn cloud_error_names() {
    let s3 = CloudBackend::S3 { bucket: "b".into(), region: "r".into() };
    let gcs = CloudBackend::Gcs { bucket: "b".into() };
    let azure = CloudBackend::Azure { container: "c".into(), account: "a".into() };
    assert_eq!(s3.error_name(), "cloud_s3");
    assert_eq!(gcs.error_name(), "cloud_gcs");
    assert_eq!(azure.error_name(), "cloud_azure");
}

#[test]
fn test_schema_map() {
    let features = vec![Feature {
        geometry: point(0.0, 0.0),
        properties: vec![
            ("old_name".into(), Value::String("hello".into())),
            ("remove_me".into(), Value::Integer(42)),
        ],
    }];
    let fc = FeatureCollection::new(features, None);

    let params = vec![
        (
            "rename".into(),
            ParamValue::Table(vec![("old_name".into(), ParamValue::String("new_name".into()))]),
        ),
        ("drop".into(), ParamValue::Array(vec![ParamValue::String("remove_me".into())])),
        ("add".into(), ParamValue::Table(vec![("source".into(), ParamValue::String("test".into()))])),
    ];

    let result = SchemaMapTransform.apply(&fc, &params).unwrap();
    let props = &result.features[0].properties;
    let has = |k: &str| props.iter().any(|(n, _)| n == k);
    assert!(has("new_name"));
    assert!(!has("old_name"));
    assert!(!has("remove_me"));
    let source = props.iter().find(|(n, _)| n == "source").map(|(_, v)| v);
    assert!(matches!(source, Some(Value::String(s)) if s == "test"));
}

#[test]
fn schema_map_keeps_existing_over_added() {
    let fc = FeatureCollection::new(
        vec![Feature { geometry: point(0.0, 0.0), properties: vec![("a".into(), Value::Integer(1))] }],
        Some("EPSG:4326".into()),
    );
    let params = vec![(
        "add".into(),
        ParamValue::Table(vec![
            ("a".into(), ParamValue::Integer(9)),
            ("b".into(), ParamValue::Array(vec![])),
        ]),
    )];
    let out = SchemaMapTransform.apply(&fc, &params).unwrap();
    assert_eq!(out.crs.as_deref(), Some("EPSG:4326"));
    let props = &out.features[0].properties;
    assert_eq!(props.len(), 2);
    assert!(matches!(props[0].1, Value::Integer(1)));
    assert!(matches!(props[1].1, Value::Null));
}

#[test]
fn expression_kinds() {
    assert!(matches!(expression_kind("  $area "), ExpressionKind::Area));
    assert!(matches!(expression_kind("$length"), ExpressionKind::Length));
    assert!(matches!(expression_kind("$num_vertices"), ExpressionKind::VertexCount));
    assert!(matches!(expression_kind("$geom_type"), ExpressionKind::GeometryType));
    assert!(matches!(expression_kind(" $prop.name"), ExpressionKind::Property(f) if f == "name"));
    assert!(matches!(expression_kind(" pop * 2 "), ExpressionKind::Other(o) if o == "pop * 2"));
}

#[test]
fn filter_decisions() {
    let a = Value::String("a".into());
    let one = Value::Integer(1);
    assert!(filter_keeps("", None, None, false));
    assert!(filter_keeps("k", Some(&a), Some(&ParamValue::String("a".into())), false));
    assert!(!filter_keeps("k", Some(&a), Some(&ParamValue::String("b".into())), false));
    assert!(filter_keeps("k", Some(&one), Some(&ParamValue::Integer(1)), false));
    assert!(!filter_keeps("k", Some(&one), Some(&ParamValue::String("1".into())), false));
    assert!(!filter_keeps("k", None, Some(&ParamValue::Integer(1)), false));
    let f = Value::Float("1.0".into());
    assert!(filter_keeps("k", Some(&f), Some(&ParamValue::Float("1.0".into())), true));
    assert!(!filter_keeps("k", Some(&f), Some(&ParamValue::Float("2.0".into())), false));
}
