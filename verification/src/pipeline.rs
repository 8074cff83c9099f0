//! Pipeline execution: runs the dependency graph in topological order.
use vstd::prelude::*;
use crate::dag::{
    Dag, DagError, Node, is_node_order, is_topo_order, manifest_dag_error, manifest_edges,
    node_name, node_names, nodes_mirror_manifest,
};
use crate::feature::FeatureCollection;
use crate::manifest::{Manifest, Params, Sink, Transform, manifest_names, manifest_node_count, sink_names};

verus! {

#[verifier::external_type_specification]
#[verifier::external_body]
pub struct ExIoError(std::io::Error);

/// Errors during pipeline execution.
#[derive(Debug)]
pub enum PipelineError {
    Dag(DagError),
    Source { name: String, message: String },
    Transform { name: String, message: String },
    Sink { name: String, message: String },
    Io(std::io::Error),
}

/// Reads feature data from a source.
pub trait SourceReader {
    fn read_source(&self, format: &str, path: &str, crs: Option<&str>) -> Result<
        FeatureCollection,
        PipelineError,
    >;
}

/// Applies a spatial transform.
pub trait TransformOp {
    fn apply(&self, input: &FeatureCollection, params: &Params) -> Result<
        FeatureCollection,
        PipelineError,
    >;
}

/// Writes feature data to a sink.
pub trait SinkWriter {
    fn write_sink(&self, data: &FeatureCollection, format: &str, path: &str) -> Result<
        (),
        PipelineError,
    >;
}

/// Transform implementations by operation name; the last entry of a name is used,
/// as a later registration replaces an earlier one.
pub type TransformRegistry = Vec<(String, Box<dyn TransformOp>)>;

/// Operation names of a registry.
pub open spec fn registry_names(reg: Seq<(String, Box<dyn TransformOp>)>) -> Seq<Seq<char>> {
    reg.map_values(|e: (String, Box<dyn TransformOp>)| e.0@)
}

/// Position of the registry entry used for `name`: the last one with that name,
/// as a later registration replaces an earlier one.
pub fn registry_position(reg: &TransformRegistry, name: &str) -> (r: Option<usize>)
    ensures
        r matches Some(i) ==> i < reg@.len() && reg@[i as int].0@ == name@,
        r matches Some(i) ==> forall|j: int| i < j < reg@.len() ==> #[trigger] reg@[j].0@ != name@,
        r is None <==> !registry_names(reg@).contains(name@),
{
    let mut i: usize = reg.len();
    while i > 0
        invariant
            i <= reg@.len(),
            forall|j: int| i <= j < reg@.len() ==> reg@[j].0@ != name@,
        decreases i,
    {
        i = i - 1;
        if crate::text::str_eq(reg[i].0.as_str(), name) {
            proof {
                assert(registry_names(reg@)[i as int] == name@);
            }
            return Some(i);
        }
    }
    proof {
        if registry_names(reg@).contains(name@) {
            let j = choose|j: int| 0 <= j < reg@.len() && registry_names(reg@)[j] == name@;
            assert(reg@[j].0@ == name@);
        }
    }
    None
}

/// Result of a single pipeline step.
#[derive(Debug)]
pub struct StepResult {
    pub name: String,
    pub feature_count: usize,
}

/// Report from a pipeline execution: one step per node, in execution order.
#[derive(Debug)]
pub struct ExecutionReport {
    pub steps: Vec<StepResult>,
}

impl Default for ExecutionReport {
    fn default() -> (r: Self)
        ensures
            r.steps@.len() == 0,
    {
        ExecutionReport { steps: Vec::new() }
    }
}

impl ExecutionReport {
    /// Appends a step.
    pub fn record_step(&mut self, name: &str, feature_count: usize)
        ensures
            final(self).steps@.len() == old(self).steps@.len() + 1,
            forall|i: int|
                0 <= i < old(self).steps@.len() ==> #[trigger] final(self).steps@[i] == old(
                    self,
                ).steps@[i],
            final(self).steps@.last().name@ == name@,
            final(self).steps@.last().feature_count == feature_count,
    {
        self.steps.push(StepResult { name: name.to_owned(), feature_count });
    }
}

/// `names` lists the manifest's nodes in an order the dependency graph admits.
pub open spec fn is_execution_order(m: Manifest, names: Seq<Seq<char>>) -> bool {
    exists|order: Seq<usize>|
        #![trigger is_topo_order(manifest_node_count(m), manifest_edges(m), order)]
        is_topo_order(manifest_node_count(m), manifest_edges(m), order) && names.len()
            == order.len() && forall|i: int|
            0 <= i < names.len() ==> #[trigger] names[i] == manifest_names(m)[order[i] as int]
}

/// Names of the recorded steps.
pub open spec fn step_names(steps: Seq<StepResult>) -> Seq<Seq<char>> {
    steps.map_values(|s: StepResult| s.name@)
}

/// Each sink's step records as many features as the step of the node it reads.
pub open spec fn sinks_count_their_input(m: Manifest, steps: Seq<StepResult>) -> bool {
    forall|p: int, k: int|
        0 <= p < steps.len() && 0 <= k < m.sink@.len() && #[trigger] steps[p].name@
            == #[trigger] m.sink@[k].name@ ==> exists|q: int|
            0 <= q < p && steps[q].name@ == m.sink@[k].input@ && steps[q].feature_count
                == steps[p].feature_count
}

/// Position of the data produced by the node named `name`: its last entry, as
/// a later output under a name replaces an earlier one.
pub(crate) fn find_data(data: &Vec<(String, FeatureCollection)>, name: &str) -> (r: Option<usize>)
    ensures
        r matches Some(d) ==> d < data@.len() && data@[d as int].0@ == name@,
        r matches Some(d) ==> forall|j: int| d < j < data@.len() ==> #[trigger] data@[j].0@ != name@,
        r is None ==> forall|j: int| 0 <= j < data@.len() ==> #[trigger] data@[j].0@ != name@,
{
    let mut i: usize = data.len();
    while i > 0
        invariant
            i <= data@.len(),
            forall|j: int| i <= j < data@.len() ==> #[trigger] data@[j].0@ != name@,
        decreases i,
    {
        i = i - 1;
        if crate::text::str_eq(data[i].0.as_str(), name) {
            return Some(i);
        }
    }
    None
}

/// Names of the data produced so far, in order.
pub open spec fn data_names(data: Seq<(String, FeatureCollection)>) -> Seq<Seq<char>> {
    data.map_values(|e: (String, FeatureCollection)| e.0@)
}

/// `d` is the data entry used for the node named `name`: the last one with
/// that name.
pub open spec fn current_data(data: Seq<(String, FeatureCollection)>, name: Seq<char>, d: int) -> bool {
    &&& 0 <= d < data.len()
    &&& data[d].0@ == name
    &&& forall|j: int| d < j < data.len() ==> #[trigger] data[j].0@ != name
}

/// `k` is the registry entry used for operation `op`: the last one with that name.
pub open spec fn registered_operation(reg: Seq<(String, Box<dyn TransformOp>)>, op: Seq<char>, k: int) -> bool {
    &&& 0 <= k < reg.len()
    &&& reg[k].0@ == op
    &&& forall|j: int| k < j < reg.len() ==> #[trigger] reg[j].0@ != op
}

/// Message of a node whose input has produced no data.
pub open spec fn missing_input_message(input: Seq<char>) -> Seq<char> {
    "input '"@ + input + "' not available"@
}

/// Message of a transform whose operation is not registered.
pub open spec fn unknown_operation_message(op: Seq<char>) -> Seq<char> {
    "unknown operation '"@ + op + "'"@
}

/// What a transform's operation is handed: the position of its input's data and
/// of its operation in the registry (the last entry of each). Fails when the input
/// has produced no data, else when the operation is not registered.
pub fn transform_inputs(
    data: &Vec<(String, FeatureCollection)>,
    transform: &Transform,
    transforms: &TransformRegistry,
) -> (r: Result<(usize, usize), PipelineError>)
    ensures
        !data_names(data@).contains(transform.input@) ==> (r matches Err(
            PipelineError::Transform { name, message },
        ) && name@ == transform.name@ && message@ == missing_input_message(transform.input@)),
        data_names(data@).contains(transform.input@) && !registry_names(transforms@).contains(
            transform.operation@,
        ) ==> (r matches Err(PipelineError::Transform { name, message }) && name@
            == transform.name@ && message@ == unknown_operation_message(transform.operation@)),
        data_names(data@).contains(transform.input@) && registry_names(transforms@).contains(
            transform.operation@,
        ) ==> (r matches Ok((d, k)) && current_data(data@, transform.input@, d as int)
            && registered_operation(transforms@, transform.operation@, k as int)),
{
    let d = match find_data(data, transform.input.as_str()) {
        Some(d) => d,
        None => {
            proof {
                if data_names(data@).contains(transform.input@) {
                    let j = choose|j: int| 0 <= j < data@.len() && data_names(data@)[j] == transform.input@;
                    assert(data@[j].0@ == transform.input@);
                }
            }
            return Err(
                PipelineError::Transform {
                    name: transform.name.clone(),
                    message: crate::text::cat3("input '", transform.input.as_str(), "' not available"),
                },
            );
        },
    };
    proof {
        assert(data_names(data@)[d as int] == transform.input@);
    }
    match registry_position(transforms, transform.operation.as_str()) {
        Some(k) => Ok((d, k)),
        None => Err(
            PipelineError::Transform {
                name: transform.name.clone(),
                message: crate::text::cat3("unknown operation '", transform.operation.as_str(), "'"),
            },
        ),
    }
}

/// What a sink's writer is handed: the position of its input's data (its last
/// entry). Fails when the input has produced no data.
pub fn sink_input(data: &Vec<(String, FeatureCollection)>, sink: &Sink) -> (r: Result<
    usize,
    PipelineError,
>)
    ensures
        !data_names(data@).contains(sink.input@) ==> (r matches Err(
            PipelineError::Sink { name, message },
        ) && name@ == sink.name@ && message@ == missing_input_message(sink.input@)),
        data_names(data@).contains(sink.input@) ==> (r matches Ok(d) && current_data(
            data@,
            sink.input@,
            d as int,
        )),
{
    match find_data(data, sink.input.as_str()) {
        Some(d) => {
            proof {
                assert(data_names(data@)[d as int] == sink.input@);
            }
            Ok(d)
        },
        None => {
            proof {
                if data_names(data@).contains(sink.input@) {
                    let j = choose|j: int| 0 <= j < data@.len() && data_names(data@)[j] == sink.input@;
                    assert(data@[j].0@ == sink.input@);
                }
            }
            Err(
                PipelineError::Sink {
                    name: sink.name.clone(),
                    message: crate::text::cat3("input '", sink.input.as_str(), "' not available"),
                },
            )
        },
    }
}

/// Records what a source's reader or a transform's operation returned for the
/// node named `name`: a step counting its features, and the data itself for the
/// nodes that read it.
pub fn record_output(
    report: &mut ExecutionReport,
    data: &mut Vec<(String, FeatureCollection)>,
    name: &String,
    output: FeatureCollection,
)
    ensures
        final(report).steps@.len() == old(report).steps@.len() + 1,
        forall|i: int|
            0 <= i < old(report).steps@.len() ==> #[trigger] final(report).steps@[i] == old(
                report,
            ).steps@[i],
        final(report).steps@.last().name@ == name@,
        final(report).steps@.last().feature_count == output.features@.len(),
        final(data)@.len() == old(data)@.len() + 1,
        forall|i: int| 0 <= i < old(data)@.len() ==> #[trigger] final(data)@[i] == old(data)@[i],
        final(data)@.last().0@ == name@,
        final(data)@.last().1 == output,
{
    report.record_step(name.as_str(), output.len());
    data.push((name.clone(), output));
}

/// A node of a manifest's graph that is not a sink does not share a sink's name.
proof fn lemma_not_sink_name(m: Manifest, nodes: Seq<Node>, x: int)
    requires
        nodes_mirror_manifest(m, nodes),
        manifest_names(m).no_duplicates(),
        0 <= x < nodes.len(),
        !(nodes[x] is Sink),
        forall|y: int| 0 <= y < nodes.len() ==> #[trigger] node_name(nodes[y]) == manifest_names(m)[y],
    ensures
        !sink_names(m.sink@).contains(node_name(nodes[x])),
{
    let ns = m.source@.len() as int;
    let nt = m.transform@.len() as int;
    if sink_names(m.sink@).contains(node_name(nodes[x])) {
        let k = choose|k: int| 0 <= k < m.sink@.len() && sink_names(m.sink@)[k] == node_name(nodes[x]);
        crate::dag::lemma_manifest_name_at(m, ns + nt + k);
        assert(manifest_names(m)[ns + nt + k] == manifest_names(m)[x]);
        assert(nodes[ns + nt + k] == Node::Sink(m.sink@[k]));
    }
}

/// Pipeline executor: a manifest with its dependency graph.
pub struct Pipeline {
    dag: Dag,
    manifest: Manifest,
}

impl Pipeline {
    /// The manifest the pipeline runs.
    pub closed spec fn spec_manifest(&self) -> Manifest {
        self.manifest
    }

    /// The execution order of the pipeline's graph (`Dag::spec_order`).
    pub closed spec fn spec_order(&self) -> Seq<Node> {
        self.dag.spec_order()
    }

    #[verifier::type_invariant]
    closed spec fn inv(&self) -> bool {
        &&& manifest_node_count(self.manifest) < u32::MAX
        &&& manifest_dag_error(self.manifest) is None
        &&& nodes_mirror_manifest(self.manifest, self.dag.spec_nodes())
        &&& self.dag.spec_edges() == manifest_edges(self.manifest)
    }

    /// Creates a pipeline from a manifest; fails exactly when the dependency graph
    /// cannot be built (see `Dag::from_manifest`).
    pub fn new(manifest: Manifest) -> (r: Result<Self, PipelineError>)
        requires
            manifest_node_count(manifest) < u32::MAX,
        ensures
            (manifest_dag_error(manifest) is None) <==> (r is Ok),
            r matches Ok(p) ==> p.spec_manifest() == manifest,
            r matches Err(e) ==> e matches PipelineError::Dag(d) && match d {
                DagError::DuplicateName(n) => manifest_dag_error(manifest) == Some((0int, n@)),
                DagError::UnknownInput(n) => manifest_dag_error(manifest) == Some((1int, n@)),
                DagError::CycleDetected => manifest_dag_error(manifest) == Some(
                    (2int, Seq::<char>::empty()),
                ),
            },
    {
        match Dag::from_manifest(&manifest) {
            Ok(dag) => Ok(Pipeline { dag, manifest }),
            Err(e) => Err(PipelineError::Dag(e)),
        }
    }

    /// The execution order's node names, without running anything.
    pub fn validate(&self) -> (r: Result<Vec<String>, PipelineError>)
        ensures
            r matches Ok(v) ==> is_execution_order(
                self.spec_manifest(),
                v@.map_values(|s: String| s@),
            ),
            r matches Ok(v) ==> v@.map_values(|s: String| s@) == node_names(self.spec_order()),
            r is Ok,
    {
        proof {
            use_type_invariant(self);
        }
        let order = match self.dag.topological_order() {
            Ok(o) => o,
            Err(e) => {
                return Err(PipelineError::Dag(e));
            },
        };
        let mut out: Vec<String> = Vec::new();
        let mut i: usize = 0;
        while i < order.len()
            invariant
                i <= order@.len(),
                out@.len() == i,
                forall|q: int| 0 <= q < i ==> #[trigger] out@[q]@ == node_name(*order@[q]),
            decreases order@.len() - i,
        {
            out.push(order[i].name().to_owned());
            i = i + 1;
        }
        proof {
            self.lemma_order_names(order@.map_values(|n: &Node| *n), out@.map_values(|s: String| s@));
            let ov = order@.map_values(|n: &Node| *n);
            let outv = out@.map_values(|s: String| s@);
            assert forall|q: int| 0 <= q < outv.len() implies #[trigger] outv[q]
                == node_names(self.spec_order())[q] by {
                assert(ov[q] == *order@[q]);
            }
            assert(outv =~= node_names(self.spec_order()));
        }
        Ok(out)
    }

    /// Node names of an execution order of the graph form an execution order of
    /// the manifest.
    proof fn lemma_order_names(&self, v: Seq<Node>, names: Seq<Seq<char>>)
        requires
            self.inv(),
            is_node_order(self.dag.spec_nodes(), self.dag.spec_edges(), v),
            names.len() == v.len(),
            forall|q: int| 0 <= q < v.len() ==> #[trigger] names[q] == node_name(v[q]),
        ensures
            is_execution_order(self.manifest, names),
    {
        let m = self.manifest;
        let nodes = self.dag.spec_nodes();
        let order = choose|order: Seq<usize>|
            #![trigger is_topo_order(nodes.len() as int, self.dag.spec_edges(), order)]
            is_topo_order(nodes.len() as int, self.dag.spec_edges(), order) && v.len()
                == order.len() && forall|i: int|
                0 <= i < v.len() ==> #[trigger] v[i] == nodes[order[i] as int];
        assert forall|i: int| 0 <= i < names.len() implies #[trigger] names[i] == manifest_names(
            m,
        )[order[i] as int] by {
            assert(v[i] == nodes[order[i] as int]);
            crate::dag::lemma_manifest_name_at(m, order[i] as int);
        }
        assert(is_topo_order(manifest_node_count(m), manifest_edges(m), order));
    }

    /// Runs the pipeline: each node, in execution order, reads its source, applies
    /// its operation to its input's data, or writes its input's data to its sink.
    /// Fails when an operation is not registered, when an input is a sink (sinks
    /// produce no data), or with the first error a reader, operation or writer returns.
    /// A manifest without nodes calls none of them and runs to an empty report.
    pub fn execute(
        &self,
        reader: &dyn SourceReader,
        transforms: &TransformRegistry,
        writer: &dyn SinkWriter,
    ) -> (r: Result<ExecutionReport, PipelineError>)
        ensures
            r matches Ok(report) ==> is_execution_order(
                self.spec_manifest(),
                step_names(report.steps@),
            ),
            r matches Ok(report) ==> sinks_count_their_input(self.spec_manifest(), report.steps@),
            r matches Ok(report) ==> step_names(report.steps@) == node_names(self.spec_order()),
            r is Ok ==> forall|t: int|
                0 <= t < self.spec_manifest().transform@.len() ==> registry_names(
                    transforms@,
                ).contains(#[trigger] self.spec_manifest().transform@[t].operation@),
            manifest_node_count(self.spec_manifest()) == 0 ==> (r matches Ok(report)
                && report.steps@.len() == 0),
            r is Ok ==> forall|t: int|
                0 <= t < self.spec_manifest().transform@.len() ==> !sink_names(
                    self.spec_manifest().sink@,
                ).contains(#[trigger] self.spec_manifest().transform@[t].input@),
            r is Ok ==> forall|k: int|
                0 <= k < self.spec_manifest().sink@.len() ==> !sink_names(
                    self.spec_manifest().sink@,
                ).contains(#[trigger] self.spec_manifest().sink@[k].input@),
    {
        proof {
            use_type_invariant(self);

        }
        let ghost m = self.manifest;
        let ghost names = manifest_names(m);
        let ghost nodes = self.dag.spec_nodes();
        let order = match self.dag.topological_order() {
            Ok(o) => o,
            Err(e) => {
                return Err(PipelineError::Dag(e));
            },
        };
        let ghost v = order@.map_values(|n: &Node| *n);
        proof {
            if manifest_node_count(m) == 0 {
                let o = choose|o: Seq<usize>|
                    #![trigger is_topo_order(nodes.len() as int, self.dag.spec_edges(), o)]
                    is_topo_order(nodes.len() as int, self.dag.spec_edges(), o) && v.len()
                        == o.len() && forall|i: int|
                        0 <= i < v.len() ==> #[trigger] v[i] == nodes[o[i] as int];
                assert(v.len() == 0);
            }
            crate::dag::lemma_first_duplicate_range(names);
            crate::dag::lemma_no_duplicate(names);
            assert forall|x: int| 0 <= x < nodes.len() implies #[trigger] node_name(nodes[x])
                == names[x] by {
                crate::dag::lemma_manifest_name_at(m, x);
            }
        }
        let mut data: Vec<(String, FeatureCollection)> = Vec::new();
        let mut report = ExecutionReport { steps: Vec::new() };
        let mut i: usize = 0;
        while i < order.len()
            invariant
                i <= order@.len(),
                v == order@.map_values(|n: &Node| *n),
                is_node_order(nodes, self.dag.spec_edges(), v),
                nodes == self.dag.spec_nodes(),
                m == self.manifest,
                names == manifest_names(m),
                names.no_duplicates(),
                nodes.len() == names.len(),
                forall|x: int| 0 <= x < nodes.len() ==> #[trigger] node_name(nodes[x]) == names[x],
                nodes_mirror_manifest(m, nodes),
                report.steps@.len() == i,
                forall|q: int| 0 <= q < i ==> #[trigger] report.steps@[q].name@ == node_name(v[q]),
                forall|d: int|
                    #![trigger data@[d]]
                    0 <= d < data@.len() ==> exists|q: int|
                        #![trigger report.steps@[q]]
                        0 <= q < i && report.steps@[q].name@ == data@[d].0@
                            && report.steps@[q].feature_count == data@[d].1.features@.len(),
                forall|q: int|
                    0 <= q < i ==> (#[trigger] v[q] matches Node::Sink(s) ==> exists|p: int|
                        0 <= p < q && report.steps@[p].name@ == s.input@
                            && report.steps@[p].feature_count == report.steps@[q].feature_count),
                forall|q: int|
                    0 <= q < i ==> (#[trigger] v[q] matches Node::Transform(t)
                        ==> registry_names(transforms@).contains(t.operation@)),
                forall|d: int|
                    0 <= d < data@.len() ==> !sink_names(m.sink@).contains(#[trigger] data@[d].0@),
                forall|q: int|
                    0 <= q < i ==> (#[trigger] v[q] matches Node::Transform(t) ==> !sink_names(
                        m.sink@,
                    ).contains(t.input@)),
                forall|q: int|
                    0 <= q < i ==> (#[trigger] v[q] matches Node::Sink(s) ==> !sink_names(
                        m.sink@,
                    ).contains(s.input@)),
            decreases order@.len() - i,
        {
            let node = order[i];
            proof {
                let o = choose|o: Seq<usize>|
                    #![trigger is_topo_order(nodes.len() as int, self.dag.spec_edges(), o)]
                    is_topo_order(nodes.len() as int, self.dag.spec_edges(), o) && v.len()
                        == o.len() && forall|j: int|
                        0 <= j < v.len() ==> #[trigger] v[j] == nodes[o[j] as int];
                assert(v[i as int] == nodes[o[i as int] as int]);
                if !(v[i as int] is Sink) {
                    lemma_not_sink_name(m, nodes, o[i as int] as int);
                }
            }
            let ghost old_steps = report.steps@;
            let ghost old_data = data@;
            assert(v[i as int] == *node);
            match node {
                Node::Source(source) => {
                    let crs: Option<&str> = match &source.crs {
                        Some(c) => Some(c.as_str()),
                        None => None,
                    };
                    let fc = match reader.read_source(source.format.as_str(), source.path.as_str(), crs) {
                        Ok(fc) => fc,
                        Err(e) => {
                            return Err(e);
                        },
                    };
                    record_output(&mut report, &mut data, &source.name, fc);
                    proof {
                        let d = data@.len() - 1;
                        assert(report.steps@[i as int].name@ == data@[d].0@);
                        assert forall|d2: int| #![trigger data@[d2]] 0 <= d2 < data@.len() implies exists|q: int|
                            #![trigger report.steps@[q]]
                            0 <= q < i + 1 && report.steps@[q].name@ == data@[d2].0@
                                && report.steps@[q].feature_count == data@[d2].1.features@.len() by {
                            if d2 < old_data.len() {
                                assert(data@[d2] == old_data[d2]);
                                let q = choose|q: int|
                                    #![trigger old_steps[q]]
                                    0 <= q < i && old_steps[q].name@ == old_data[d2].0@
                                        && old_steps[q].feature_count == old_data[d2].1.features@.len();
                                assert(report.steps@[q] == old_steps[q]);
                            } else {
                                assert(report.steps@[i as int].name@ == data@[d2].0@);
                            }
                        }
                    }
                },
                Node::Transform(transform) => {
                    let (d, k) = match transform_inputs(&data, transform, transforms) {
                        Ok(found) => found,
                        Err(e) => {
                            return Err(e);
                        },
                    };
                    let result = match transforms[k].1.apply(&data[d].1, &transform.params) {
                        Ok(fc) => fc,
                        Err(e) => {
                            return Err(e);
                        },
                    };
                    record_output(&mut report, &mut data, &transform.name, result);
                    proof {
                        let dd = data@.len() - 1;
                        assert(report.steps@[i as int].name@ == data@[dd].0@);
                        assert(registry_names(transforms@)[k as int] == transforms@[k as int].0@);
                        assert forall|d2: int| #![trigger data@[d2]] 0 <= d2 < data@.len() implies exists|q: int|
                            #![trigger report.steps@[q]]
                            0 <= q < i + 1 && report.steps@[q].name@ == data@[d2].0@
                                && report.steps@[q].feature_count == data@[d2].1.features@.len() by {
                            if d2 < old_data.len() {
                                assert(data@[d2] == old_data[d2]);
                                let q = choose|q: int|
                                    #![trigger old_steps[q]]
                                    0 <= q < i && old_steps[q].name@ == old_data[d2].0@
                                        && old_steps[q].feature_count == old_data[d2].1.features@.len();
                                assert(report.steps@[q] == old_steps[q]);
                            } else {
                                assert(report.steps@[i as int].name@ == data@[d2].0@);
                            }
                        }
                    }
                },
                Node::Sink(sink) => {
                    let d = match sink_input(&data, sink) {
                        Ok(d) => d,
                        Err(e) => {
                            return Err(e);
                        },
                    };
                    match writer.write_sink(&data[d].1, sink.format.as_str(), sink.path.as_str()) {
                        Ok(()) => {},
                        Err(e) => {
                            return Err(e);
                        },
                    }
                    report.record_step(sink.name.as_str(), data[d].1.len());
                    proof {
                        let dd = data@[d as int];
                        let q = choose|q: int|
                            #![trigger old_steps[q]]
                            0 <= q < i && old_steps[q].name@ == dd.0@
                                && old_steps[q].feature_count == dd.1.features@.len();
                        assert(report.steps@[q] == old_steps[q]);
                        assert forall|d2: int| #![trigger data@[d2]] 0 <= d2 < data@.len() implies exists|q2: int|
                            #![trigger report.steps@[q2]]
                            0 <= q2 < i + 1 && report.steps@[q2].name@ == data@[d2].0@
                                && report.steps@[q2].feature_count == data@[d2].1.features@.len() by {
                            let q3 = choose|q3: int|
                                #![trigger old_steps[q3]]
                                0 <= q3 < i && old_steps[q3].name@ == old_data[d2].0@
                                    && old_steps[q3].feature_count == old_data[d2].1.features@.len();
                            assert(report.steps@[q3] == old_steps[q3]);
                        }
                    }
                },
            }
            proof {
                assert forall|q: int| 0 <= q < i + 1 implies (#[trigger] v[q] matches Node::Sink(s) ==> exists|p: int|
                    0 <= p < q && report.steps@[p].name@ == s.input@
                        && report.steps@[p].feature_count == report.steps@[q].feature_count) by {
                    if q < i {
                        assert(report.steps@[q] == old_steps[q]);
                        if v[q] is Sink {
                            let s = v[q]->Sink_0;
                            let p = choose|p: int| 0 <= p < q && old_steps[p].name@ == s.input@
                                && old_steps[p].feature_count == old_steps[q].feature_count;
                            assert(report.steps@[p] == old_steps[p]);
                        }
                    }
                }
                assert forall|q: int| 0 <= q < i + 1 implies (#[trigger] v[q] matches Node::Transform(t)
                        ==> registry_names(transforms@).contains(t.operation@)) by {
                }
            }
            i = i + 1;
        }
        proof {
            let steps = report.steps@;
            assert(step_names(steps).len() == v.len());
            assert forall|q: int| 0 <= q < v.len() implies #[trigger] step_names(steps)[q]
                == node_name(v[q]) by {}
            assert(step_names(steps) =~= node_names(self.spec_order()));
            self.lemma_order_names(v, step_names(steps));
            let ns = m.source@.len() as int;
            let nt = m.transform@.len() as int;
            let ord = choose|order: Seq<usize>|
                #![trigger is_topo_order(nodes.len() as int, self.dag.spec_edges(), order)]
                is_topo_order(nodes.len() as int, self.dag.spec_edges(), order) && v.len()
                    == order.len() && forall|i: int|
                    0 <= i < v.len() ==> #[trigger] v[i] == nodes[order[i] as int];
            assert forall|p: int, k: int|
                0 <= p < steps.len() && 0 <= k < m.sink@.len() && #[trigger] steps[p].name@
                    == #[trigger] m.sink@[k].name@ implies exists|q: int|
                0 <= q < p && steps[q].name@ == m.sink@[k].input@ && steps[q].feature_count
                    == steps[p].feature_count by {
                let x = ord[p] as int;
                assert(v[p] == nodes[x]);
                crate::dag::lemma_manifest_name_at(m, ns + nt + k);
                assert(names[x] == names[ns + nt + k]);
                assert(x == ns + nt + k);
                assert(v[p] == Node::Sink(m.sink@[k]));
            }
            assert forall|t: int| 0 <= t < m.transform@.len() implies registry_names(
                transforms@,
            ).contains(#[trigger] m.transform@[t].operation@) by {
                assert(ord.contains((ns + t) as usize));
                let q = choose|q: int| 0 <= q < ord.len() && ord[q] == (ns + t) as usize;
                assert(v[q] == nodes[ns + t]);
            }
            assert forall|t: int| 0 <= t < m.transform@.len() implies !sink_names(m.sink@).contains(
                #[trigger] m.transform@[t].input@,
            ) by {
                assert(ord.contains((ns + t) as usize));
                let q = choose|q: int| 0 <= q < ord.len() && ord[q] == (ns + t) as usize;
                assert(v[q] == nodes[ns + t]);
            }
            assert forall|k: int| 0 <= k < m.sink@.len() implies !sink_names(m.sink@).contains(
                #[trigger] m.sink@[k].input@,
            ) by {
                assert(ord.contains((ns + nt + k) as usize));
                let q = choose|q: int| 0 <= q < ord.len() && ord[q] == (ns + nt + k) as usize;
                assert(v[q] == nodes[ns + nt + k]);
            }
        }
        Ok(report)
    }

    /// The manifest.
    pub fn manifest(&self) -> (r: &Manifest)
        ensures
            *r == self.spec_manifest(),
    {
        &self.manifest
    }
}

} // verus!
