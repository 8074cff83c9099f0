//! Scheduling for concurrent source loading: the graph's sources are loaded
//! together, then transforms and sinks run in execution order.
use vstd::prelude::*;
use crate::dag::{Dag, Node, is_node_order, node_name};
use crate::feature::FeatureCollection;
use crate::manifest::Source;
use crate::pipeline::{
    ExecutionReport, PipelineError, SinkWriter, StepResult, TransformRegistry, record_output,
    registry_names, sink_input, step_names, transform_inputs,
};

verus! {

/// Executor that loads all sources first (concurrently, by the caller) and then
/// runs the remaining nodes in execution order.
pub struct ParallelScheduler;

/// The sources among `v`, in order.
pub open spec fn source_nodes(v: Seq<Node>) -> Seq<Source>
    decreases v.len(),
{
    if v.len() == 0 {
        Seq::empty()
    } else {
        let acc = source_nodes(v.drop_last());
        match v.last() {
            Node::Source(s) => acc.push(s),
            _ => acc,
        }
    }
}

/// Names of the nodes of `v` that are not sources, in order.
pub open spec fn non_source_names(v: Seq<Node>) -> Seq<Seq<char>>
    decreases v.len(),
{
    if v.len() == 0 {
        Seq::empty()
    } else {
        let acc = non_source_names(v.drop_last());
        if v.last() is Source {
            acc
        } else {
            acc.push(node_name(v.last()))
        }
    }
}

/// `steps` records `l` loaded sources, then the transforms and sinks of the
/// execution order `v` in order; each transform reads and each sink writes the
/// output of an earlier step named after its input, each sink's step counting as
/// many features as that step, and every operation is registered in `reg`.
pub open spec fn scheduled_run(
    v: Seq<Node>,
    l: int,
    steps: Seq<StepResult>,
    reg: Seq<(String, Box<dyn crate::pipeline::TransformOp>)>,
) -> bool {
    &&& steps.len() == l + non_source_names(v).len()
    &&& step_names(steps).skip(l) == non_source_names(v)
    &&& forall|x: int|
        0 <= x < v.len() ==> (#[trigger] v[x] matches Node::Sink(s) ==> exists|q: int|
            0 <= q < l + non_source_names(v.take(x)).len() && steps[q].name@ == s.input@
                && steps[q].feature_count == steps[l + non_source_names(
                v.take(x),
            ).len()].feature_count)
    &&& forall|x: int|
        0 <= x < v.len() ==> (#[trigger] v[x] matches Node::Transform(t) ==> registry_names(
            reg,
        ).contains(t.operation@))
    &&& forall|x: int|
        0 <= x < v.len() ==> (#[trigger] v[x] matches Node::Transform(t) ==> exists|q: int|
            0 <= q < l + non_source_names(v.take(x)).len() && steps[q].name@ == t.input@)
}

/// Each entry of `data` has a step with its name and feature count.
spec fn data_recorded(data: Seq<(String, FeatureCollection)>, steps: Seq<StepResult>) -> bool {
    forall|d: int|
        #![trigger data[d]]
        0 <= d < data.len() ==> exists|q: int|
            #![trigger steps[q]]
            0 <= q < steps.len() && steps[q].name@ == data[d].0@ && steps[q].feature_count
                == data[d].1.features@.len()
}

impl ParallelScheduler {
    /// The graph's sources in its execution order (`Dag::spec_order`): what is to
    /// be loaded before `execute`.
    pub fn sources(dag: &Dag) -> (r: Vec<Source>)
        ensures
            is_node_order(dag.spec_nodes(), dag.spec_edges(), dag.spec_order()),
            r@ == source_nodes(dag.spec_order()),
    {
        let order = match dag.topological_order() {
            Ok(o) => o,
            Err(_) => {
                return Vec::new();
            },
        };
        let ghost v = order@.map_values(|n: &Node| *n);
        let mut out: Vec<Source> = Vec::new();
        let mut i: usize = 0;
        while i < order.len()
            invariant
                i <= order@.len(),
                v == order@.map_values(|n: &Node| *n),
                out@ == source_nodes(v.take(i as int)),
            decreases order@.len() - i,
        {
            proof {
                assert(v.take(i + 1).drop_last() =~= v.take(i as int));
                assert(v.take(i + 1).last() == v[i as int]);
            }
            match order[i] {
                Node::Source(s) => {
                    out.push(s.duplicate());
                },
                _ => {},
            }
            i = i + 1;
        }
        proof {
            assert(v.take(order@.len() as int) =~= v);
        }
        out
    }

    /// Runs the pipeline once its sources have been loaded: records each loaded
    /// source in the given order (failing with the first load error), then runs
    /// the transforms and sinks in execution order. Fails when an operation is
    /// not registered, when an input has no data, or with the first error an
    /// operation or the writer returns. When every source loaded and the graph has
    /// only sources, no operation or writer is called and the run succeeds.
    pub fn execute(
        dag: &Dag,
        loaded: Vec<Result<(String, FeatureCollection), PipelineError>>,
        transforms: &TransformRegistry,
        writer: &dyn SinkWriter,
    ) -> (r: Result<ExecutionReport, PipelineError>)
        ensures
            r matches Ok(report) ==> {
                &&& forall|q: int| 0 <= q < loaded@.len() ==> (#[trigger] loaded@[q] matches Ok(p)
                    && report.steps@[q].name@ == p.0@ && report.steps@[q].feature_count
                    == p.1.features@.len())
                &&& is_node_order(dag.spec_nodes(), dag.spec_edges(), dag.spec_order())
                &&& scheduled_run(
                    dag.spec_order(),
                    loaded@.len() as int,
                    report.steps@,
                    transforms@,
                )
            },
            forall|q: int|
                0 <= q < loaded@.len() && #[trigger] loaded@[q] is Err && (forall|j: int|
                    0 <= j < q ==> loaded@[j] is Ok) ==> (r matches Err(e) && loaded@[q] matches Err(
                    e0,
                ) && e == e0),
            (forall|q: int| 0 <= q < loaded@.len() ==> #[trigger] loaded@[q] is Ok) && (forall|x: int|
                0 <= x < dag.spec_nodes().len() ==> (#[trigger] dag.spec_nodes()[x]) is Source) ==> (
            r matches Ok(report) && report.steps@.len() == loaded@.len()),
    {
        let ghost orig = loaded@;
        let ghost l = loaded@.len() as int;
        let mut pending = loaded;
        let mut rev: Vec<Result<(String, FeatureCollection), PipelineError>> = Vec::new();
        while pending.len() > 0
            invariant
                pending@.len() + rev@.len() == l,
                orig.len() == l,
                orig == loaded@,
                forall|j: int| 0 <= j < pending@.len() ==> #[trigger] pending@[j] == orig[j],
                forall|j: int| 0 <= j < rev@.len() ==> #[trigger] rev@[j] == orig[l - 1 - j],
            decreases pending@.len(),
        {
            let item = pending.pop().unwrap();
            rev.push(item);
        }
        let mut data: Vec<(String, FeatureCollection)> = Vec::new();
        let mut report = ExecutionReport { steps: Vec::new() };
        while rev.len() > 0
            invariant
                rev@.len() <= l,
                orig.len() == l,
                orig == loaded@,
                forall|j: int| 0 <= j < rev@.len() ==> #[trigger] rev@[j] == orig[l - 1 - j],
                report.steps@.len() == l - rev@.len(),
                forall|q: int|
                    0 <= q < l - rev@.len() ==> (#[trigger] orig[q] matches Ok(p)
                        && report.steps@[q].name@ == p.0@ && report.steps@[q].feature_count
                        == p.1.features@.len()),
                data_recorded(data@, report.steps@),
            decreases rev@.len(),
        {
            let ghost k = l - rev@.len();
            let ghost old_steps = report.steps@;
            let ghost old_data = data@;
            let item = rev.pop().unwrap();
            assert(item == orig[k]);
            match item {
                Ok((name, fc)) => {
                    record_output(&mut report, &mut data, &name, fc);
                    proof {
                        assert forall|d2: int| #![trigger data@[d2]] 0 <= d2 < data@.len() implies exists|q: int|
                            #![trigger report.steps@[q]]
                            0 <= q < report.steps@.len() && report.steps@[q].name@ == data@[d2].0@
                                && report.steps@[q].feature_count == data@[d2].1.features@.len() by {
                            if d2 < old_data.len() {
                                assert(data@[d2] == old_data[d2]);
                                let q = choose|q: int|
                                    #![trigger old_steps[q]]
                                    0 <= q < old_steps.len() && old_steps[q].name@ == old_data[d2].0@
                                        && old_steps[q].feature_count == old_data[d2].1.features@.len();
                                assert(report.steps@[q] == old_steps[q]);
                            } else {
                                assert(report.steps@[k] == report.steps@.last());
                            }
                        }
                        assert forall|q: int| 0 <= q < k + 1 implies (#[trigger] orig[q] matches Ok(p)
                            && report.steps@[q].name@ == p.0@ && report.steps@[q].feature_count
                            == p.1.features@.len()) by {
                            if q < k {
                                assert(report.steps@[q] == old_steps[q]);
                            }
                        }
                    }
                },
                Err(e) => {
                    proof {
                        assert(orig[k] is Err);
                        assert forall|q: int|
                            0 <= q < l && #[trigger] orig[q] is Err && (forall|j: int|
                                0 <= j < q ==> orig[j] is Ok) implies q == k by {
                            if q < k {
                                assert(orig[q] is Ok);
                            } else if q > k {
                                assert(orig[k] is Ok);
                            }
                        }
                    }
                    return Err(e);
                },
            }
        }
        let ghost ls = report.steps@;
        let order = match dag.topological_order() {
            Ok(o) => o,
            Err(e) => {
                return Err(PipelineError::Dag(e));
            },
        };
        let ghost v = order@.map_values(|n: &Node| *n);
        let ghost nodes = dag.spec_nodes();
        let ghost all_src: bool = forall|x: int|
            0 <= x < nodes.len() ==> (#[trigger] nodes[x]) is Source;
        proof {
            if all_src {
                let o = choose|o: Seq<usize>|
                    #![trigger crate::dag::is_topo_order(nodes.len() as int, dag.spec_edges(), o)]
                    crate::dag::is_topo_order(nodes.len() as int, dag.spec_edges(), o) && v.len()
                        == o.len() && forall|i: int|
                        0 <= i < v.len() ==> #[trigger] v[i] == nodes[o[i] as int];
                assert forall|x: int| 0 <= x < v.len() implies (#[trigger] v[x]) is Source by {
                    assert(v[x] == nodes[o[x] as int]);
                }
            }
            assert(v.take(0) =~= Seq::<Node>::empty());
            assert(step_names(report.steps@).skip(l) =~= Seq::<Seq<char>>::empty());
        }
        let mut i: usize = 0;
        while i < order.len()
            invariant
                i <= order@.len(),
                v == order@.map_values(|n: &Node| *n),
                is_node_order(dag.spec_nodes(), dag.spec_edges(), v),
                ls.len() == l,
                orig.len() == l,
                orig == loaded@,
                report.steps@.len() == l + non_source_names(v.take(i as int)).len(),
                nodes == dag.spec_nodes(),
                all_src == forall|x: int| 0 <= x < nodes.len() ==> (#[trigger] nodes[x]) is Source,
                all_src ==> forall|x: int| 0 <= x < v.len() ==> (#[trigger] v[x]) is Source,
                all_src ==> report.steps@.len() == l,
                forall|q: int| 0 <= q < l ==> #[trigger] report.steps@[q] == ls[q],
                forall|q: int|
                    0 <= q < l ==> (#[trigger] orig[q] matches Ok(p) && ls[q].name@ == p.0@
                        && ls[q].feature_count == p.1.features@.len()),
                step_names(report.steps@).skip(l) == non_source_names(v.take(i as int)),
                data_recorded(data@, report.steps@),
                forall|x: int|
                    0 <= x < i ==> (#[trigger] v[x] matches Node::Sink(s) ==> exists|q: int|
                        0 <= q < l + non_source_names(v.take(x)).len() && report.steps@[q].name@
                            == s.input@ && report.steps@[q].feature_count == report.steps@[l
                            + non_source_names(v.take(x)).len()].feature_count),
                forall|x: int|
                    0 <= x < i ==> (#[trigger] v[x] matches Node::Transform(t)
                        ==> registry_names(transforms@).contains(t.operation@)),
                forall|x: int|
                    0 <= x < i ==> (#[trigger] v[x] matches Node::Transform(t) ==> exists|q: int|
                        0 <= q < l + non_source_names(v.take(x)).len() && report.steps@[q].name@
                            == t.input@),
            decreases order@.len() - i,
        {
            let node = order[i];
            let ghost old_steps = report.steps@;
            let ghost old_data = data@;
            let ghost pos = l + non_source_names(v.take(i as int)).len();
            proof {
                assert(v[i as int] == *node);
                assert(v.take(i + 1).drop_last() =~= v.take(i as int));
                assert(v.take(i + 1).last() == v[i as int]);
            }
            match node {
                Node::Source(_) => {},
                Node::Transform(transform) => {
                    let (d, k) = match transform_inputs(&data, transform, transforms) {
                        Ok(found) => found,
                        Err(e) => {
                            return Err(e);
                        },
                    };
                    let result = match transforms[k].1.apply(&data[d].1, &transform.params) {
                        Ok(fc) => fc,
                        Err(e) => {
                            return Err(e);
                        },
                    };
                    record_output(&mut report, &mut data, &transform.name, result);
                    proof {
                        let dd = old_data[d as int];
                        let q = choose|q: int|
                            #![trigger old_steps[q]]
                            0 <= q < old_steps.len() && old_steps[q].name@ == dd.0@
                                && old_steps[q].feature_count == dd.1.features@.len();
                        assert(report.steps@[q] == old_steps[q]);
                        assert(exists|q2: int|
                            0 <= q2 < pos && report.steps@[q2].name@ == transform.input@);
                        assert(registry_names(transforms@)[k as int] == transforms@[k as int].0@);
                        assert forall|d2: int| #![trigger data@[d2]] 0 <= d2 < data@.len() implies exists|q: int|
                            #![trigger report.steps@[q]]
                            0 <= q < report.steps@.len() && report.steps@[q].name@ == data@[d2].0@
                                && report.steps@[q].feature_count == data@[d2].1.features@.len() by {
                            if d2 < old_data.len() {
                                assert(data@[d2] == old_data[d2]);
                                let q = choose|q: int|
                                    #![trigger old_steps[q]]
                                    0 <= q < old_steps.len() && old_steps[q].name@ == old_data[d2].0@
                                        && old_steps[q].feature_count == old_data[d2].1.features@.len();
                                assert(report.steps@[q] == old_steps[q]);
                            } else {
                                assert(report.steps@[pos] == report.steps@.last());
                            }
                        }
                    }
                },
                Node::Sink(sink) => {
                    let d = match sink_input(&data, sink) {
                        Ok(d) => d,
                        Err(e) => {
                            return Err(e);
                        },
                    };
                    match writer.write_sink(&data[d].1, sink.format.as_str(), sink.path.as_str()) {
                        Ok(()) => {},
                        Err(e) => {
                            return Err(e);
                        },
                    }
                    report.record_step(sink.name.as_str(), data[d].1.len());
                    proof {
                        let dd = data@[d as int];
                        let q = choose|q: int|
                            #![trigger old_steps[q]]
                            0 <= q < old_steps.len() && old_steps[q].name@ == dd.0@
                                && old_steps[q].feature_count == dd.1.features@.len();
                        assert(report.steps@[q] == old_steps[q]);
                        assert forall|d2: int| #![trigger data@[d2]] 0 <= d2 < data@.len() implies exists|q2: int|
                            #![trigger report.steps@[q2]]
                            0 <= q2 < report.steps@.len() && report.steps@[q2].name@ == data@[d2].0@
                                && report.steps@[q2].feature_count == data@[d2].1.features@.len() by {
                            let q3 = choose|q3: int|
                                #![trigger old_steps[q3]]
                                0 <= q3 < old_steps.len() && old_steps[q3].name@ == old_data[d2].0@
                                    && old_steps[q3].feature_count == old_data[d2].1.features@.len();
                            assert(report.steps@[q3] == old_steps[q3]);
                        }
                    }
                },
            }
            proof {
                if !(v[i as int] is Source) {
                    assert(report.steps@ == old_steps.push(report.steps@.last()));
                    assert(step_names(report.steps@).skip(l) =~= step_names(old_steps).skip(l).push(
                        node_name(v[i as int]),
                    ));
                } else {
                    assert(report.steps@ == old_steps);
                }
                assert forall|q: int| 0 <= q < l implies #[trigger] report.steps@[q] == ls[q] by {
                    assert(report.steps@[q] == old_steps[q]);
                }
                assert forall|x: int| 0 <= x < i + 1 implies (#[trigger] v[x] matches Node::Sink(s) ==> exists|q: int|
                    0 <= q < l + non_source_names(v.take(x)).len() && report.steps@[q].name@
                        == s.input@ && report.steps@[q].feature_count == report.steps@[l
                        + non_source_names(v.take(x)).len()].feature_count) by {
                    if x < i {
                        if v[x] is Sink {
                            let s = v[x]->Sink_0;
                            let px = l + non_source_names(v.take(x)).len();
                            crate::scheduler::lemma_non_source_prefix(v, x, i as int);
                            let q = choose|q: int| 0 <= q < px && old_steps[q].name@ == s.input@
                                && old_steps[q].feature_count == old_steps[px].feature_count;
                            assert(report.steps@[q] == old_steps[q]);
                            assert(report.steps@[px] == old_steps[px]);
                        }
                    }
                }
                assert forall|x: int| 0 <= x < i + 1 implies (#[trigger] v[x] matches Node::Transform(t)
                    ==> exists|q: int|
                    0 <= q < l + non_source_names(v.take(x)).len() && report.steps@[q].name@
                        == t.input@) by {
                    if v[x] is Transform {
                        let t = v[x]->Transform_0;
                        let px = l + non_source_names(v.take(x)).len();
                        if x < i {
                            crate::scheduler::lemma_non_source_prefix(v, x, i as int);
                            let q = choose|q: int| 0 <= q < px && old_steps[q].name@ == t.input@;
                            assert(report.steps@[q] == old_steps[q]);
                        } else {
                            assert(px == pos);
                        }
                    }
                }
            }
            i = i + 1;
        }
        proof {
            assert(v.take(order@.len() as int) =~= v);
            assert(scheduled_run(v, l, report.steps@, transforms@));
        }
        Ok(report)
    }
}

/// Fewer nodes have fewer non-source names.
proof fn lemma_non_source_prefix(v: Seq<Node>, x: int, i: int)
    requires
        0 <= x < i <= v.len(),
        !(v[x] is Source),
    ensures
        non_source_names(v.take(x)).len() < non_source_names(v.take(i)).len(),
    decreases i - x,
{
    assert(v.take(i).drop_last() =~= v.take(i - 1));
    assert(v.take(i).last() == v[i - 1]);
    if x < i - 1 {
        lemma_non_source_prefix(v, x, i - 1);
    } else {
        assert(v.take(x + 1).drop_last() =~= v.take(x));
    }
}

} // verus!
