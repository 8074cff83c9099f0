use geodukt::cdc::{CdcDetector, ChangeKind};
use geodukt::dag::{Dag, DagError};
use geodukt::diff::manifest_diff;
use geodukt::feature::{Feature, FeatureCollection, Value};
use geodukt::geometry::{Coord, Geometry};
use geodukt::incremental::{IncrementalState, hash_bytes, hash_file_contents};
use geodukt::lineage::{LineageTracker, SourceRef};
use geodukt::manifest::{Manifest, ParamValue, Params, Project, Sink, Source, Transform};
use geodukt::pipeline::{
    PipelineError, Pipeline, SinkWriter, SourceReader, TransformOp, TransformRegistry,
};
use geodukt::scheduler::ParallelScheduler;
use geodukt::schema::{ColumnType, DetectedSchema};
use geodukt::server::{RunLog, RunStatus};
use geodukt::streaming::{StreamProcessor, StreamRun, StreamSink};
use geodukt::template::{Template, TemplateParam, TemplateRegistry};
use geodukt::testing::{PipelineTest, TestAssertion, run_tests};
use geodukt::visual::{JsonParam, NodeKind, VisualPipeline};

fn param_value(v: &toml::Value) -> ParamValue {
    match v {
        toml::Value::String(s) => ParamValue::String(s.clone()),
        toml::Value::Integer(i) => ParamValue::Integer(*i),
        toml::Value::Float(f) if f.is_nan() => ParamValue::Float("nan".to_string()),
        toml::Value::Float(f) => ParamValue::Float(format!("{:?}", f)),
        toml::Value::Boolean(b) => ParamValue::Boolean(*b),
        toml::Value::Datetime(d) => ParamValue::Datetime(d.to_string()),
        toml::Value::Array(a) => ParamValue::Array(a.iter().map(param_value).collect()),
        toml::Value::Table(t) => {
            ParamValue::Table(t.iter().map(|(k, v)| (k.clone(), param_value(v))).collect())
        }
    }
}

fn text(t: &toml::Table, key: &str) -> String {
    t.get(key).and_then(|v| v.as_str()).unwrap_or("").to_string()
}

/// Reads a manifest written in TOML into the library's manifest type; a
/// transform's parameters are its keys other than `name`, `input` and `operation`.
fn manifest(source_text: &str) -> Manifest {
    let doc: toml::Table = source_text.parse().unwrap();
    let project = doc["project"].as_table().unwrap();
    let entries = |key: &str| -> Vec<toml::Table> {
        doc.get(key)
            .and_then(|v| v.as_array())
            .map(|a| a.iter().map(|v| v.as_table().unwrap().clone()).collect())
            .unwrap_or_default()
    };
    Manifest {
        project: Project { name: text(project, "name"), version: text(project, "version") },
        source: entries("source")
            .iter()
            .map(|t| Source {
                name: text(t, "name"),
                format: text(t, "format"),
                path: text(t, "path"),
                crs: t.get("crs").and_then(|v| v.as_str()).map(String::from),
            })
            .collect(),
        transform: entries("transform")
            .iter()
            .map(|t| Transform {
                name: text(t, "name"),
                input: text(t, "input"),
                operation: text(t, "operation"),
                params: t
                    .iter()
                    .filter(|(k, _)| !["name", "input", "operation"].contains(&k.as_str()))
                    .map(|(k, v)| (k.clone(), param_value(v)))
                    .collect(),
            })
            .collect(),
        sink: entries("sink")
            .iter()
            .map(|t| Sink {
                name: text(t, "name"),
                input: text(t, "input"),
                format: text(t, "format"),
                path: text(t, "path"),
            })
            .collect(),
    }
}

fn point(x: f64, y: f64) -> Geometry {
    Geometry::Point(Coord { x: x.to_bits(), y: y.to_bits() })
}

fn get<'a>(props: &'a [(String, Value)], key: &str) -> Option<&'a Value> {
    props.iter().find(|(k, _)| k == key).map(|(_, v)| v)
}

// ---------------------------------------------------------------------------
// Dependency graph
// ---------------------------------------------------------------------------

#[test]
fn test_dag_from_manifest() {
    let toml = r#"
[project]
name = "test"

[[source]]
name = "input"
format = "geojson"
path = "data.geojson"

[[transform]]
name = "buffered"
input = "input"
operation = "buffer"
distance = 5.0

[[sink]]
name = "output"
input = "buffered"
format = "geojson"
path = "out.geojson"
"#;
    let m = manifest(toml);
    let dag = Dag::from_manifest(&m).unwrap();
    assert_eq!(dag.node_count(), 3);
    assert_eq!(dag.edge_count(), 2);

    let order = dag.topological_order().unwrap();
    let names: Vec<&str> = order.iter().map(|n| n.name()).collect();
    assert_eq!(names, vec!["input", "buffered", "output"]);
}

#[test]
fn test_dag_unknown_input() {
    let toml = r#"
[project]
name = "test"

[[transform]]
name = "broken"
input = "nonexistent"
operation = "buffer"
"#;
    let m = manifest(toml);
    let result = Dag::from_manifest(&m);
    assert!(result.is_err());
}

#[test]
fn test_dag_duplicate_name() {
    let toml = r#"
[project]
name = "test"

[[source]]
name = "data"
format = "geojson"
path = "a.geojson"

[[source]]
name = "data"
format = "geojson"
path = "b.geojson"
"#;
    let m = manifest(toml);
    let result = Dag::from_manifest(&m);
    assert!(matches!(result, Err(DagError::DuplicateName(_))));
}

#[test]
fn dag_unknown_input_names_the_input() {
    let m = manifest(
        "[project]\nname = \"t\"\n[[transform]]\nname = \"b\"\ninput = \"ghost\"\noperation = \"x\"\n",
    );
    match Dag::from_manifest(&m) {
        Err(DagError::UnknownInput(n)) => assert_eq!(n, "ghost"),
        other => panic!("unexpected {:?}", other.map(|d| d.node_count())),
    }
}

#[test]
fn dag_sinks_cannot_feed_a_cycle() {
    let m = manifest(
        "[project]\nname = \"t\"\n[[transform]]\nname = \"a\"\ninput = \"b\"\noperation = \"x\"\n[[transform]]\nname = \"b\"\ninput = \"a\"\noperation = \"x\"\n",
    );
    assert!(matches!(Dag::from_manifest(&m), Err(DagError::CycleDetected)));
}

#[test]
fn dag_get_node_finds_by_name() {
    let m = manifest(
        "[project]\nname = \"t\"\n[[source]]\nname = \"s\"\nformat = \"csv\"\npath = \"p\"\n",
    );
    let dag = Dag::from_manifest(&m).unwrap();
    assert_eq!(dag.get_node("s").map(|n| n.name()), Some("s"));
    assert!(dag.get_node("missing").is_none());
}

// ---------------------------------------------------------------------------
// Pipeline execution
// ---------------------------------------------------------------------------

struct MockReader;
impl SourceReader for MockReader {
    fn read_source(
        &self,
        _format: &str,
        _path: &str,
        _crs: Option<&str>,
    ) -> Result<FeatureCollection, PipelineError> {
        let features = vec![Feature {
            geometry: point(1.0, 2.0),
            properties: vec![("id".into(), Value::Integer(1))],
        }];
        Ok(FeatureCollection::new(features, Some("EPSG:4326".into())))
    }
}

struct PassthroughTransform;
impl TransformOp for PassthroughTransform {
    fn apply(&self, input: &FeatureCollection, _params: &Params) -> Result<FeatureCollection, PipelineError> {
        Ok(FeatureCollection::new(
            input.features.iter().map(|f| f.duplicate()).collect(),
            input.crs.clone(),
        ))
    }
}

struct MockWriter;
impl SinkWriter for MockWriter {
    fn write_sink(&self, _data: &FeatureCollection, _format: &str, _path: &str) -> Result<(), PipelineError> {
        Ok(())
    }
}

const PASSTHROUGH_MANIFEST: &str = r#"
[project]
name = "test"

[[source]]
name = "input"
format = "geojson"
path = "data.geojson"

[[transform]]
name = "processed"
input = "input"
operation = "passthrough"

[[sink]]
name = "output"
input = "processed"
format = "geojson"
path = "out.geojson"
"#;

#[test]
fn test_pipeline_execute() {
    let m = manifest(PASSTHROUGH_MANIFEST);
    let pipeline = Pipeline::new(m).unwrap();

    let mut transforms: TransformRegistry = Vec::new();
    transforms.push(("passthrough".into(), Box::new(PassthroughTransform)));

    let report = pipeline.execute(&MockReader, &transforms, &MockWriter).unwrap();
    assert_eq!(report.steps.len(), 3);
    assert_eq!(report.steps[0].name, "input");
    assert_eq!(report.steps[0].feature_count, 1);
}

#[test]
fn test_pipeline_validate() {
    let toml = r#"
[project]
name = "validate-test"

[[source]]
name = "src"
format = "csv"
path = "data.csv"

[[sink]]
name = "out"
input = "src"
format = "geojson"
path = "out.geojson"
"#;
    let m = manifest(toml);
    let pipeline = Pipeline::new(m).unwrap();
    let order = pipeline.validate().unwrap();
    assert_eq!(order, vec!["src", "out"]);
}

#[test]
fn pipeline_unknown_operation_fails() {
    let pipeline = Pipeline::new(manifest(PASSTHROUGH_MANIFEST)).unwrap();
    let transforms: TransformRegistry = Vec::new();
    match pipeline.execute(&MockReader, &transforms, &MockWriter) {
        Err(PipelineError::Transform { name, message }) => {
            assert_eq!(name, "processed");
            assert_eq!(message, "unknown operation 'passthrough'");
        }
        _ => panic!("expected a transform error"),
    }
}

#[test]
fn pipeline_new_rejects_bad_graph() {
    let m = manifest(
        "[project]\nname = \"t\"\n[[sink]]\nname = \"o\"\ninput = \"none\"\nformat = \"f\"\npath = \"p\"\n",
    );
    assert!(matches!(Pipeline::new(m), Err(PipelineError::Dag(DagError::UnknownInput(_)))));
}

#[test]
fn scheduler_runs_loaded_sources_then_the_rest() {
    let m = manifest(PASSTHROUGH_MANIFEST);
    let dag = Dag::from_manifest(&m).unwrap();
    let sources = ParallelScheduler::sources(&dag);
    assert_eq!(sources.len(), 1);
    assert_eq!(sources[0].name, "input");
    let loaded = sources
        .iter()
        .map(|s| MockReader.read_source(&s.format, &s.path, s.crs.as_deref()).map(|fc| (s.name.clone(), fc)))
        .collect();
    let mut transforms: TransformRegistry = Vec::new();
    transforms.push(("passthrough".into(), Box::new(PassthroughTransform)));
    let report = ParallelScheduler::execute(&dag, loaded, &transforms, &MockWriter).unwrap();
    let names: Vec<&str> = report.steps.iter().map(|s| s.name.as_str()).collect();
    assert_eq!(names, vec!["input", "processed", "output"]);
    assert!(report.steps.iter().all(|s| s.feature_count == 1));
}

#[test]
fn scheduler_reports_load_error() {
    let m = manifest(PASSTHROUGH_MANIFEST);
    let dag = Dag::from_manifest(&m).unwrap();
    let loaded = vec![Err(PipelineError::Source { name: "input".into(), message: "boom".into() })];
    let transforms: TransformRegistry = Vec::new();
    assert!(matches!(
        ParallelScheduler::execute(&dag, loaded, &transforms, &MockWriter),
        Err(PipelineError::Source { .. })
    ));
}

#[test]
fn pipeline_rejects_a_transform_reading_a_sink() {
    let m = manifest(
        "[project]\nname = \"p\"\n[[source]]\nname = \"s\"\nformat = \"f\"\npath = \"p\"\n[[sink]]\nname = \"k\"\ninput = \"s\"\nformat = \"f\"\npath = \"o\"\n[[transform]]\nname = \"t\"\ninput = \"k\"\noperation = \"passthrough\"\n",
    );
    let pipeline = Pipeline::new(m).unwrap();
    let mut transforms: TransformRegistry = Vec::new();
    transforms.push(("passthrough".into(), Box::new(PassthroughTransform)));
    match pipeline.execute(&MockReader, &transforms, &MockWriter) {
        Err(PipelineError::Transform { name, message }) => {
            assert_eq!(name, "t");
            assert_eq!(message, "input 'k' not available");
        }
        _ => panic!("expected a transform error"),
    }
}

#[test]
fn empty_pipeline_runs_to_an_empty_report() {
    let m = manifest("[project]\nname = \"empty\"\n");
    let pipeline = Pipeline::new(m).unwrap();
    let transforms: TransformRegistry = Vec::new();
    let report = pipeline.execute(&MockReader, &transforms, &MockWriter).unwrap();
    assert!(report.steps.is_empty());
}

#[test]
fn scheduler_runs_a_graph_of_sources_only() {
    let m = manifest(
        "[project]\nname = \"s\"\n[[source]]\nname = \"a\"\nformat = \"f\"\npath = \"p\"\n",
    );
    let dag = Dag::from_manifest(&m).unwrap();
    let loaded = vec![MockReader.read_source("f", "p", None).map(|fc| ("a".to_string(), fc))];
    let transforms: TransformRegistry = Vec::new();
    let report = ParallelScheduler::execute(&dag, loaded, &transforms, &MockWriter).unwrap();
    assert_eq!(report.steps.len(), 1);
    assert_eq!(report.steps[0].name, "a");
}

#[test]
fn scheduler_returns_the_first_load_error() {
    let m = manifest(PASSTHROUGH_MANIFEST);
    let dag = Dag::from_manifest(&m).unwrap();
    let loaded = vec![
        Err(PipelineError::Source { name: "first".into(), message: "a".into() }),
        Err(PipelineError::Source { name: "second".into(), message: "b".into() }),
    ];
    let transforms: TransformRegistry = Vec::new();
    match ParallelScheduler::execute(&dag, loaded, &transforms, &MockWriter) {
        Err(PipelineError::Source { name, .. }) => assert_eq!(name, "first"),
        _ => panic!("expected the first load error"),
    }
}

// ---------------------------------------------------------------------------
// Run log (REST API state)
// ---------------------------------------------------------------------------

#[test]
fn run_log_records_and_reads_back() {
    let mut log = RunLog::new();
    let mut transforms: TransformRegistry = Vec::new();
    transforms.push(("passthrough".into(), Box::new(PassthroughTransform)));
    let rec = log
        .trigger_run(manifest(PASSTHROUGH_MANIFEST), &MockReader, &transforms, &MockWriter)
        .unwrap();
    assert_eq!(rec.id, 0);
    assert!(matches!(rec.status, RunStatus::Completed));
    assert_eq!(rec.manifest_name, "test");
    assert_eq!(rec.steps.len(), 3);
    let back = log.get(0).unwrap();
    assert_eq!(back.steps[2].name, "output");
    assert!(log.get(1).is_none());
    assert_eq!(log.list().len(), 1);
}

#[test]
fn run_log_failure_codes() {
    let mut log = RunLog::new();
    let transforms: TransformRegistry = Vec::new();
    let bad = manifest(
        "[project]\nname = \"t\"\n[[sink]]\nname = \"o\"\ninput = \"none\"\nformat = \"f\"\npath = \"p\"\n",
    );
    let rejected = log.trigger_run(bad, &MockReader, &transforms, &MockWriter).unwrap_err();
    assert_eq!(rejected.status_code(), 400);
    let failed = log
        .trigger_run(manifest(PASSTHROUGH_MANIFEST), &MockReader, &transforms, &MockWriter)
        .unwrap_err();
    assert_eq!(failed.status_code(), 500);
    assert_eq!(log.len(), 0);
}

// ---------------------------------------------------------------------------
// Visual graph
// ---------------------------------------------------------------------------

const VISUAL_MANIFEST: &str = r#"
[project]
name = "test-pipeline"
version = "1.0.0"

[[source]]
name = "roads"
format = "geojson"
path = "data/roads.geojson"
crs = "EPSG:4326"

[[transform]]
name = "reproject"
input = "roads"
operation = "reproject"
target_crs = "EPSG:3857"

[[sink]]
name = "output"
input = "reproject"
format = "geopackage"
path = "output/roads.gpkg"
"#;

#[test]
fn test_visual_from_manifest() {
    let m = manifest(VISUAL_MANIFEST);
    let visual = VisualPipeline::from_manifest(&m);

    assert_eq!(visual.nodes.len(), 3);
    assert_eq!(visual.edges.len(), 2);
    assert_eq!(visual.name, "test-pipeline");
}

#[test]
fn test_visual_to_manifest() {
    let m = manifest(VISUAL_MANIFEST);
    let visual = VisualPipeline::from_manifest(&m);
    let restored = visual.to_manifest().unwrap();

    assert_eq!(restored.source.len(), 1);
    assert_eq!(restored.transform.len(), 1);
    assert_eq!(restored.sink.len(), 1);
    assert_eq!(restored.source[0].name, "roads");
}

#[test]
fn visual_layout_and_edges() {
    let m = manifest(VISUAL_MANIFEST);
    let v = VisualPipeline::from_manifest(&m);
    assert_eq!(v.nodes[0].kind, NodeKind::Source);
    assert_eq!(v.nodes[1].position.x, "300.0");
    assert_eq!(v.nodes[2].position.x, "600.0");
    assert_eq!(v.nodes[0].position.y, "0.0");
    assert_eq!(v.edges[0].id, "edge-roads-reproject");
    assert_eq!(v.edges[1].from_node, "reproject");
    assert_eq!(v.edges[1].to_port, "input");
}

#[test]
fn visual_transform_params_show_toml_text() {
    let m = manifest(
        "[project]\nname = \"p\"\n[[source]]\nname = \"s\"\nformat = \"f\"\npath = \"p\"\n[[transform]]\nname = \"t\"\ninput = \"s\"\noperation = \"buffer\"\ndistance = 5.0\n",
    );
    let v = VisualPipeline::from_manifest(&m);
    let params = &v.nodes[1].params;
    assert_eq!(params.len(), 2);
    assert_eq!(params[0].0, "operation");
    assert!(matches!(&params[0].1, JsonParam::Str(s) if s == "buffer"));
    assert_eq!(params[1].0, "distance");
    assert!(matches!(&params[1].1, JsonParam::Str(s) if s == "5.0"));
}

#[test]
fn visual_shows_a_nan_parameter_as_toml_writes_it() {
    let m = manifest(
        "[project]\nname = \"p\"\n[[source]]\nname = \"s\"\nformat = \"f\"\npath = \"p\"\n[[transform]]\nname = \"t\"\ninput = \"s\"\noperation = \"buffer\"\nfactor = nan\n",
    );
    let v = VisualPipeline::from_manifest(&m);
    let params = &v.nodes[1].params;
    assert_eq!(params[1].0, "factor");
    assert!(matches!(&params[1].1, JsonParam::Str(s) if s == "nan"));
}

#[test]
fn visual_roundtrip_keeps_names_and_inputs() {
    let m = manifest(VISUAL_MANIFEST);
    let back = VisualPipeline::from_manifest(&m).to_manifest().unwrap();
    assert_eq!(back.project.version, "1.0.0");
    assert_eq!(back.source[0].crs.as_deref(), Some("EPSG:4326"));
    assert_eq!(back.transform[0].input, "roads");
    assert_eq!(back.transform[0].operation, "reproject");
    assert_eq!(back.sink[0].input, "reproject");
    assert_eq!(back.sink[0].format, "geopackage");
}

#[test]
fn visual_roundtrip_params_come_back_as_text() {
    let m = manifest(
        "[project]\nname = \"p\"\n[[source]]\nname = \"s\"\nformat = \"f\"\npath = \"p\"\n[[transform]]\nname = \"t\"\ninput = \"s\"\noperation = \"buffer\"\ndistance = 5.0\nsegments = 8\n",
    );
    let back = VisualPipeline::from_manifest(&m).to_manifest().unwrap();
    let params = &back.transform[0].params;
    assert_eq!(params.len(), 2);
    assert_eq!(params[0].0, "distance");
    assert!(matches!(&params[0].1, ParamValue::String(s) if s == "5.0"));
    assert_eq!(params[1].0, "segments");
    assert!(matches!(&params[1].1, ParamValue::String(s) if s == "8"));
}

// ---------------------------------------------------------------------------
// Change detection
// ---------------------------------------------------------------------------

fn make_feature(id: i64, name: &str) -> Feature {
    Feature {
        geometry: point(1.0, 2.0),
        properties: vec![
            ("id".to_string(), Value::Integer(id)),
            ("name".to_string(), Value::String(name.to_string())),
        ],
    }
}

fn float_feature(id: i64, x: &str) -> Feature {
    Feature {
        geometry: point(0.0, 0.0),
        properties: vec![
            ("id".to_string(), Value::Integer(id)),
            ("x".to_string(), Value::Float(x.to_string())),
        ],
    }
}

#[test]
fn test_feature_hash() {
    let f1 = make_feature(1, "a");
    let f2 = make_feature(1, "b");
    let geometry = "Point(Point(Coord { x: 1.0, y: 2.0 }))";
    assert_ne!(
        CdcDetector::feature_hash(geometry, &f1),
        CdcDetector::feature_hash(geometry, &f2)
    );
}

#[test]
fn feature_hash_is_sha256_of_geometry_then_sorted_properties() {
    let f = Feature {
        geometry: point(0.0, 0.0),
        properties: vec![
            ("b".to_string(), Value::Integer(2)),
            ("a".to_string(), Value::String("x".to_string())),
        ],
    };
    // SHA-256 of `G` + `a=String("x")` + `b=Integer(2)`.
    let expected = hash_bytes("Ga=String(\"x\")b=Integer(2)".as_bytes());
    assert_eq!(CdcDetector::feature_hash("G", &f), expected);
}

#[test]
fn cdc_compares_floats_as_numbers() {
    let cdc = CdcDetector::new("id");
    let old = FeatureCollection::new(vec![float_feature(1, "0.0"), float_feature(2, "NaN")], None);
    let new = FeatureCollection::new(vec![float_feature(1, "-0.0"), float_feature(2, "NaN")], None);
    let changes = cdc.detect_changes(&old, &new);
    assert_eq!(changes.updates, 1);
    assert_eq!(changes.records[0].key, "2");
    assert_eq!(changes.records[0].changed_fields, vec!["x".to_string()]);
}

#[test]
fn test_detect_insert() {
    let old = FeatureCollection::new(vec![make_feature(1, "a")], None);
    let new = FeatureCollection::new(vec![make_feature(1, "a"), make_feature(2, "b")], None);

    let cdc = CdcDetector::new("id");
    let changes = cdc.detect_changes(&old, &new);
    assert_eq!(changes.inserts, 1);
    assert_eq!(changes.updates, 0);
    assert_eq!(changes.deletes, 0);
}

#[test]
fn test_detect_update() {
    let old = FeatureCollection::new(vec![make_feature(1, "a")], None);
    let new = FeatureCollection::new(vec![make_feature(1, "a_modified")], None);

    let cdc = CdcDetector::new("id");
    let changes = cdc.detect_changes(&old, &new);
    assert_eq!(changes.inserts, 0);
    assert_eq!(changes.updates, 1);
    assert_eq!(changes.deletes, 0);
    assert_eq!(changes.records[0].changed_fields, vec!["name"]);
}

#[test]
fn test_detect_delete() {
    let old = FeatureCollection::new(vec![make_feature(1, "a"), make_feature(2, "b")], None);
    let new = FeatureCollection::new(vec![make_feature(1, "a")], None);

    let cdc = CdcDetector::new("id");
    let changes = cdc.detect_changes(&old, &new);
    assert_eq!(changes.inserts, 0);
    assert_eq!(changes.updates, 0);
    assert_eq!(changes.deletes, 1);
}

#[test]
fn test_no_changes() {
    let fc = FeatureCollection::new(vec![make_feature(1, "a")], None);
    let cdc = CdcDetector::new("id");
    let changes = cdc.detect_changes(&fc, &fc);
    assert!(changes.is_empty());
}

#[test]
fn cdc_records_order_and_keys() {
    let old = FeatureCollection::new(vec![make_feature(1, "a"), make_feature(3, "c")], None);
    let new = FeatureCollection::new(vec![make_feature(2, "b"), make_feature(1, "z")], None);
    let changes = CdcDetector::new("id").detect_changes(&old, &new);
    let kinds: Vec<(ChangeKind, &str)> =
        changes.records.iter().map(|r| (r.kind, r.key.as_str())).collect();
    assert_eq!(
        kinds,
        vec![(ChangeKind::Insert, "2"), (ChangeKind::Update, "1"), (ChangeKind::Delete, "3")]
    );
    assert_eq!(changes.total_changes(), 3);
}

#[test]
fn cdc_changed_fields_sorted() {
    let cdc = CdcDetector::new("id");
    let old = Feature {
        geometry: point(0.0, 0.0),
        properties: vec![
            ("zeta".into(), Value::Integer(1)),
            ("alpha".into(), Value::Bool(true)),
            ("mid".into(), Value::Null),
        ],
    };
    let new = Feature {
        geometry: point(0.0, 0.0),
        properties: vec![("alpha".into(), Value::Bool(false)), ("beta".into(), Value::Null)],
    };
    let changed = cdc.diff_properties(&old, &new);
    assert_eq!(changed, vec!["alpha", "beta", "mid", "zeta"]);
}

#[test]
fn cdc_key_of_non_string_values() {
    let cdc = CdcDetector::new("k");
    let fc = FeatureCollection::new(
        vec![
            Feature { geometry: point(0.0, 0.0), properties: vec![("k".into(), Value::Bool(true))] },
            Feature { geometry: point(0.0, 0.0), properties: vec![("k".into(), Value::Integer(-7))] },
            Feature { geometry: point(0.0, 0.0), properties: vec![("k".into(), Value::Float("0.5".into()))] },
            Feature { geometry: point(0.0, 0.0), properties: vec![("other".into(), Value::Null)] },
        ],
        None,
    );
    let keys: Vec<String> = cdc.index_by_key(&fc).into_iter().map(|(k, _)| k).collect();
    assert_eq!(keys, vec!["Bool(true)", "-7", "Float(0.5)"]);
}

// ---------------------------------------------------------------------------
// Schema detection
// ---------------------------------------------------------------------------

fn sample_fc() -> FeatureCollection {
    let features = vec![
        Feature {
            geometry: point(1.0, 2.0),
            properties: vec![
                ("name".to_string(), Value::String("foo".to_string())),
                ("count".to_string(), Value::Integer(42)),
                ("score".to_string(), Value::Float(format!("{:?}", 0.95f64))),
            ],
        },
        Feature {
            geometry: point(3.0, 4.0),
            properties: vec![
                ("name".to_string(), Value::String("bar".to_string())),
                ("count".to_string(), Value::Integer(7)),
                ("score".to_string(), Value::Null),
            ],
        },
    ];
    FeatureCollection::new(features, Some("EPSG:4326".to_string()))
}

#[test]
fn test_detect_schema() {
    let schema = DetectedSchema::detect(&sample_fc());
    assert_eq!(schema.feature_count, 2);
    assert_eq!(schema.geometry_type, Some("Point".to_string()));
    assert_eq!(schema.columns.len(), 3);
}

#[test]
fn test_column_types() {
    let schema = DetectedSchema::detect(&sample_fc());

    let count_col = schema.columns.iter().find(|(n, _)| n == "count").unwrap();
    assert_eq!(count_col.1.col_type, ColumnType::Integer);
    assert!(!count_col.1.nullable);

    let score_col = schema.columns.iter().find(|(n, _)| n == "score").unwrap();
    assert_eq!(score_col.1.col_type, ColumnType::Float);
    assert!(score_col.1.nullable);

    let name_col = schema.columns.iter().find(|(n, _)| n == "name").unwrap();
    assert_eq!(name_col.1.col_type, ColumnType::String);
}

#[test]
fn test_describe() {
    let schema = DetectedSchema::detect(&sample_fc());
    let desc = schema.describe();
    assert!(desc.contains("2 features"));
    assert!(desc.contains("Point"));
    assert!(desc.contains("count"));
}

#[test]
fn schema_columns_sorted_with_stats() {
    let schema = DetectedSchema::detect(&sample_fc());
    let names: Vec<&str> = schema.columns.iter().map(|(n, _)| n.as_str()).collect();
    assert_eq!(names, vec!["count", "name", "score"]);
    let name_col = &schema.columns[1].1;
    assert_eq!(name_col.distinct_count, 2);
    assert_eq!(name_col.max_length, Some(3));
    assert_eq!(schema.columns[2].1.null_count, 1);
    assert_eq!(
        schema.describe(),
        "Schema: 2 features, geometry=Point\nCRS: EPSG:4326\nColumns:\n  count: Integer (2 samples, 0 nulls)\n  name: String (2 samples, 0 nulls)\n  score: Float? (2 samples, 1 nulls)\n"
    );
}

#[test]
fn schema_of_empty_collection() {
    let schema = DetectedSchema::detect(&FeatureCollection::empty());
    assert_eq!(schema.geometry_type, None);
    assert!(schema.columns.is_empty());
    assert_eq!(schema.describe(), "Schema: 0 features, geometry=unknown\nColumns:\n");
}

// ---------------------------------------------------------------------------
// Lineage, templates, testing framework, incremental state
// ---------------------------------------------------------------------------

#[test]
fn test_lineage_tracking() {
    let mut tracker = LineageTracker::new();
    tracker.record_passthrough("transform_a", "source_1", 3);
    tracker.record(
        "transform_b",
        0,
        vec![
            SourceRef { node: "transform_a".into(), feature_idx: 0 },
            SourceRef { node: "transform_a".into(), feature_idx: 1 },
        ],
    );

    let sources = tracker.sources_for("transform_b", 0);
    assert_eq!(sources.len(), 2);

    let summary = tracker.summary();
    let count = |n: &str| summary.iter().find(|(k, _)| k == n).map(|(_, c)| *c);
    assert_eq!(count("transform_a"), Some(3));
    assert_eq!(count("transform_b"), Some(1));
}

#[test]
fn test_template_expansion() {
    let mut registry = TemplateRegistry::new();
    registry.register(Template {
        name: "buffer_and_simplify".into(),
        description: Some("Buffer then simplify".into()),
        parameters: vec![TemplateParam {
            name: "distance".into(),
            description: None,
            default: Some(ParamValue::Float("1.0".into())),
            required: false,
        }],
        transforms: vec![
            Transform {
                name: "buffered".into(),
                input: "".into(),
                operation: "buffer".into(),
                params: vec![("distance".into(), ParamValue::String("{{distance}}".into()))],
            },
            Transform {
                name: "simplified".into(),
                input: "buffered".into(),
                operation: "simplify".into(),
                params: vec![("epsilon".into(), ParamValue::Float("0.001".into()))],
            },
        ],
    });

    let args: Params = vec![("distance".into(), ParamValue::Float("5.0".into()))];
    let expanded = registry.expand("buffer_and_simplify", &args, "step1").unwrap();
    assert_eq!(expanded.len(), 2);
    assert_eq!(expanded[0].name, "step1_buffered");
    assert_eq!(expanded[1].name, "step1_simplified");
    assert_eq!(expanded[1].input, "step1_buffered");
    let distance = expanded[0].params.iter().find(|(k, _)| k == "distance").map(|(_, v)| v);
    assert!(matches!(distance, Some(ParamValue::Float(t)) if t == "5.0"));
}

#[test]
fn test_pipeline_tests() {
    let features = vec![Feature {
        geometry: point(1.0, 2.0),
        properties: vec![("name".into(), Value::String("test".into()))],
    }];
    let fc = FeatureCollection::new(features, Some("EPSG:4326".into()));
    let outputs = vec![("output".to_string(), fc)];

    let tests = vec![PipelineTest {
        name: "check_output".into(),
        node: "output".into(),
        assertions: vec![
            TestAssertion::FeatureCount(1),
            TestAssertion::HasProperty("name".into()),
            TestAssertion::GeometryType("Point".into()),
            TestAssertion::Crs("EPSG:4326".into()),
            TestAssertion::NoEmpty,
        ],
    }];

    let results = run_tests(&tests, &outputs);
    assert!(results[0].passed);
    assert!(results[0].details.iter().all(|d| d.passed));
}

#[test]
fn pipeline_tests_missing_node() {
    let tests = vec![PipelineTest {
        name: "t".into(),
        node: "nowhere".into(),
        assertions: vec![TestAssertion::NoEmpty],
    }];
    let results = run_tests(&tests, &Vec::new());
    assert!(!results[0].passed);
    assert_eq!(results[0].details[0].assertion, "node_exists");
    assert_eq!(results[0].details[0].message, "Node 'nowhere' not found in outputs");
}

#[test]
fn test_feature_collection() {
    let f = Feature {
        geometry: point(1.0, 2.0),
        properties: vec![("name".into(), Value::String("test".into()))],
    };
    let fc = FeatureCollection::new(vec![f], Some("EPSG:4326".into()));
    assert_eq!(fc.len(), 1);
    assert!(!fc.is_empty());
    assert_eq!(fc.crs, Some("EPSG:4326".into()));
}

#[test]
fn test_hash_file() {
    let h1 = hash_file_contents(Some(b"hello world"));
    assert!(!h1.is_empty());
    assert_eq!(h1.len(), 64);
}

#[test]
fn hash_bytes_known_value() {
    assert_eq!(
        hash_bytes(b"hello world"),
        "b94d27b9934d3e08a52e52d7da7dabfac484efe37a5380ee9088f7ace2efcde9"
    );
    assert_eq!(hash_file_contents(None), "");
}

#[test]
fn test_incremental_state() {
    let mut state = IncrementalState::new();
    let current = hash_bytes(b"data");

    assert!(state.has_changed("src", &current));
    state.update("src", &current);
    assert!(!state.has_changed("src", &current));
}

#[test]
fn incremental_changed_sources() {
    let mut state = IncrementalState::new();
    state.update("a", "h1");
    let changed = state.changed_sources(&[("a".into(), "h1".into()), ("b".into(), "h2".into())]);
    assert_eq!(changed, vec!["b"]);
}

// ---------------------------------------------------------------------------
// Streaming
// ---------------------------------------------------------------------------

struct FilterProc {
    field: String,
    value: Value,
}

impl StreamProcessor for FilterProc {
    fn process(&mut self, feature: Feature) -> Result<Option<Feature>, PipelineError> {
        if get(&feature.properties, &self.field).map(|v| v.same_as(&self.value)).unwrap_or(false) {
            Ok(Some(feature))
        } else {
            Ok(None)
        }
    }
}

struct CollectSink {
    collected: Vec<Feature>,
}

impl StreamSink for CollectSink {
    fn write_feature(&mut self, feature: &Feature) -> Result<(), PipelineError> {
        self.collected.push(feature.duplicate());
        Ok(())
    }
    fn finalize(&mut self) -> Result<(), PipelineError> {
        Ok(())
    }
}

#[test]
fn test_streaming_pipeline() {
    let features = vec![
        Feature { geometry: point(0.0, 0.0), properties: vec![("keep".into(), Value::Bool(true))] },
        Feature { geometry: point(1.0, 1.0), properties: vec![("keep".into(), Value::Bool(false))] },
    ];
    let mut processors: Vec<Box<dyn StreamProcessor>> =
        vec![Box::new(FilterProc { field: "keep".into(), value: Value::Bool(true) })];
    let mut sink = CollectSink { collected: Vec::new() };

    let mut run = StreamRun::new();
    for f in features {
        run.feed(f, &mut processors, &mut sink).unwrap();
    }
    for processor in processors.iter_mut() {
        let flushed = processor.flush().unwrap();
        run.write_flushed(flushed, &mut sink).unwrap();
    }
    let report = run.finish(&mut sink).unwrap();
    assert_eq!(report.input_count, 2);
    assert_eq!(report.output_count, 1);
    assert_eq!(sink.collected.len(), 1);
}

// ---------------------------------------------------------------------------
// Manifest comparison
// ---------------------------------------------------------------------------

#[test]
fn diff_reports_added_and_removed() {
    let new = manifest(
        "[project]\nname = \"p\"\n[[source]]\nname = \"a\"\nformat = \"f\"\npath = \"p\"\n[[source]]\nname = \"c\"\nformat = \"f\"\npath = \"p\"\n",
    );
    let old = manifest(
        "[project]\nname = \"p\"\n[[source]]\nname = \"a\"\nformat = \"f\"\npath = \"p\"\n[[source]]\nname = \"b\"\nformat = \"f\"\npath = \"p\"\n[[sink]]\nname = \"o\"\ninput = \"a\"\nformat = \"f\"\npath = \"p\"\n",
    );
    assert_eq!(manifest_diff(&new, &old), vec!["  + source: c", "  - source: b", "  - sink: o"]);
}

#[test]
fn diff_of_same_manifest() {
    let m = manifest(PASSTHROUGH_MANIFEST);
    assert_eq!(manifest_diff(&m, &m), vec!["  No structural changes detected."]);
}
