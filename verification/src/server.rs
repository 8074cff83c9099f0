//! The run log behind the REST API: pipeline runs triggered by request, with
//! the steps each one recorded.
use vstd::prelude::*;
use crate::manifest::{Manifest, manifest_node_count};
use crate::pipeline::{
    ExecutionReport, Pipeline, PipelineError, SinkWriter, SourceReader, TransformRegistry,
};

verus! {

/// Step record for an API response.
#[derive(Debug)]
pub struct StepRecord {
    pub name: String,
    pub feature_count: usize,
}

/// Pipeline run status.
#[derive(Debug)]
pub enum RunStatus {
    Running,
    Completed,
    Failed(String),
}

/// Record of a pipeline run.
#[derive(Debug)]
pub struct RunRecord {
    pub id: usize,
    pub status: RunStatus,
    pub manifest_name: String,
    pub steps: Vec<StepRecord>,
}

/// Request to trigger a pipeline run: the manifest's TOML text.
#[derive(Debug)]
pub struct RunRequest {
    pub manifest: String,
}

/// Mathematical view of a run record: id, status, manifest name, and each
/// step's name and feature count.
pub struct RunView {
    pub id: usize,
    pub status: RunStatusView,
    pub manifest_name: Seq<char>,
    pub steps: Seq<(Seq<char>, usize)>,
}

/// Mathematical view of a run status.
pub enum RunStatusView {
    Running,
    Completed,
    Failed(Seq<char>),
}

/// The steps' names and feature counts.
pub open spec fn step_views(steps: Seq<StepRecord>) -> Seq<(Seq<char>, usize)> {
    steps.map_values(|s: StepRecord| (s.name@, s.feature_count))
}

impl View for RunRecord {
    type V = RunView;

    open spec fn view(&self) -> RunView {
        RunView {
            id: self.id,
            status: match self.status {
                RunStatus::Running => RunStatusView::Running,
                RunStatus::Completed => RunStatusView::Completed,
                RunStatus::Failed(m) => RunStatusView::Failed(m@),
            },
            manifest_name: self.manifest_name@,
            steps: step_views(self.steps@),
        }
    }
}

/// Why a triggered run failed: the manifest was rejected, or execution failed.
#[derive(Debug)]
pub enum RunFailure {
    Rejected(PipelineError),
    Failed(PipelineError),
}

impl RunFailure {
    /// HTTP status of the failure: 400 for a rejected manifest, 500 for a
    /// failed execution.
    pub fn status_code(&self) -> (r: u16)
        ensures
            r == (if self is Rejected { 400u16 } else { 500u16 }),
    {
        match self {
            RunFailure::Rejected(_) => 400,
            RunFailure::Failed(_) => 500,
        }
    }
}

/// Step records of an execution report.
pub fn step_records(report: &ExecutionReport) -> (r: Vec<StepRecord>)
    ensures
        step_views(r@) == report.steps@.map_values(|s: crate::pipeline::StepResult| (s.name@, s.feature_count)),
{
    let ghost want = report.steps@.map_values(|s: crate::pipeline::StepResult| (s.name@, s.feature_count));
    let mut out: Vec<StepRecord> = Vec::new();
    let mut i: usize = 0;
    while i < report.steps.len()
        invariant
            i <= report.steps@.len(),
            want == report.steps@.map_values(|s: crate::pipeline::StepResult| (s.name@, s.feature_count)),
            out@.len() == i,
            forall|j: int| 0 <= j < i ==> #[trigger] step_views(out@)[j] == want[j],
        decreases report.steps@.len() - i,
    {
        let ghost before = out@;
        out.push(StepRecord { name: report.steps[i].name.clone(), feature_count: report.steps[i].feature_count });
        proof {
            assert(step_views(out@)[i as int] == want[i as int]);
            assert forall|j: int| 0 <= j < i + 1 implies #[trigger] step_views(out@)[j] == want[j] by {
                if j < i {
                    assert(out@[j] == before[j]);
                    assert(step_views(before)[j] == want[j]);
                }
            }
        }
        i = i + 1;
    }
    proof {
        assert(step_views(out@) =~= want);
    }
    out
}

impl StepRecord {
    /// Copies the step record.
    pub fn duplicate(&self) -> (r: StepRecord)
        ensures
            r.name@ == self.name@,
            r.feature_count == self.feature_count,
    {
        StepRecord { name: self.name.clone(), feature_count: self.feature_count }
    }
}

impl RunRecord {
    /// Copies the run record.
    pub fn duplicate(&self) -> (r: RunRecord)
        ensures
            r@ == self@,
    {
        let status = match &self.status {
            RunStatus::Running => RunStatus::Running,
            RunStatus::Completed => RunStatus::Completed,
            RunStatus::Failed(m) => RunStatus::Failed(m.clone()),
        };
        let mut steps: Vec<StepRecord> = Vec::new();
        let mut i: usize = 0;
        while i < self.steps.len()
            invariant
                i <= self.steps@.len(),
                steps@.len() == i,
                forall|j: int| 0 <= j < i ==> #[trigger] step_views(steps@)[j] == step_views(self.steps@)[j],
            decreases self.steps@.len() - i,
        {
            let ghost before = steps@;
            steps.push(self.steps[i].duplicate());
            proof {
                assert(step_views(steps@)[i as int] == step_views(self.steps@)[i as int]);
                assert forall|j: int| 0 <= j < i + 1 implies #[trigger] step_views(steps@)[j] == step_views(self.steps@)[j] by {
                    if j < i {
                        assert(steps@[j] == before[j]);
                        assert(step_views(before)[j] == step_views(self.steps@)[j]);
                    }
                }
            }
            i = i + 1;
        }
        proof {
            assert(step_views(steps@) =~= step_views(self.steps@));
        }
        RunRecord { id: self.id, status, manifest_name: self.manifest_name.clone(), steps }
    }
}

/// The runs triggered so far; each run's id is its position.
pub struct RunLog {
    runs: Vec<RunRecord>,
}

impl RunLog {
    /// The recorded runs.
    pub closed spec fn spec_runs(&self) -> Seq<RunView> {
        self.runs@.map_values(|r: RunRecord| r@)
    }

    #[verifier::type_invariant]
    closed spec fn inv(&self) -> bool {
        forall|i: int| 0 <= i < self.runs@.len() ==> (#[trigger] self.runs@[i]).id == i
    }

    /// An empty log.
    pub fn new() -> (r: Self)
        ensures
            r.spec_runs().len() == 0,
    {
        RunLog { runs: Vec::new() }
    }

    /// Number of recorded runs.
    pub fn len(&self) -> (r: usize)
        ensures
            r == self.spec_runs().len(),
    {
        self.runs.len()
    }

    /// Records a completed run of the manifest named `manifest_name` with the
    /// steps of `report`; its id is the number of runs recorded before.
    pub fn record_completed(&mut self, manifest_name: &str, report: &ExecutionReport) -> (r: RunRecord)
        ensures
            r@.id == old(self).spec_runs().len(),
            r@.status == RunStatusView::Completed,
            r@.manifest_name == manifest_name@,
            r@.steps == report.steps@.map_values(|s: crate::pipeline::StepResult| (s.name@, s.feature_count)),
            final(self).spec_runs() == old(self).spec_runs().push(r@),
    {
        proof {
            use_type_invariant(&*self);
        }
        let id = self.runs.len();
        let record = RunRecord {
            id,
            status: RunStatus::Completed,
            manifest_name: String::from_str(manifest_name),
            steps: step_records(report),
        };
        let copy = record.duplicate();
        let ghost before = self.runs@;
        let mut runs: Vec<RunRecord> = Vec::new();
        std::mem::swap(&mut runs, &mut self.runs);
        runs.push(copy);
        self.runs = runs;
        proof {
            assert(self.runs@.map_values(|r: RunRecord| r@) =~= before.map_values(|r: RunRecord| r@).push(record@));
        }
        record
    }

    /// The run with the given id, if there is one.
    pub fn get(&self, id: usize) -> (r: Option<RunRecord>)
        ensures
            r is Some <==> id < self.spec_runs().len(),
            r matches Some(rec) ==> rec@ == self.spec_runs()[id as int],
    {
        if id < self.runs.len() {
            Some(self.runs[id].duplicate())
        } else {
            None
        }
    }

    /// All recorded runs, in order.
    pub fn list(&self) -> (r: Vec<RunRecord>)
        ensures
            r@.map_values(|x: RunRecord| x@) == self.spec_runs(),
    {
        let mut out: Vec<RunRecord> = Vec::new();
        let mut i: usize = 0;
        while i < self.runs.len()
            invariant
                i <= self.runs@.len(),
                out@.len() == i,
                forall|j: int| 0 <= j < i ==> #[trigger] out@[j]@ == self.runs@[j]@,
            decreases self.runs@.len() - i,
        {
            out.push(self.runs[i].duplicate());
            i = i + 1;
        }
        proof {
            assert(out@.map_values(|x: RunRecord| x@) =~= self.spec_runs());
        }
        out
    }

    /// Runs a pipeline for a request and records it: a manifest whose graph
    /// cannot be built is rejected, and only such a manifest; an execution error
    /// fails the run; otherwise the run is recorded as completed with the
    /// executed steps. A manifest without nodes runs and is recorded.
    pub fn trigger_run(
        &mut self,
        manifest: Manifest,
        reader: &dyn SourceReader,
        transforms: &TransformRegistry,
        writer: &dyn SinkWriter,
    ) -> (r: Result<RunRecord, RunFailure>)
        requires
            manifest_node_count(manifest) < u32::MAX,
        ensures
            r is Err ==> final(self).spec_runs() == old(self).spec_runs(),
            (crate::dag::manifest_dag_error(manifest) is Some) ==> (r matches Err(f) && f is Rejected),
            (crate::dag::manifest_dag_error(manifest) is None) ==> !(r matches Err(f) && f is Rejected),
            (crate::dag::manifest_dag_error(manifest) is None) && manifest_node_count(manifest) == 0
                ==> r is Ok,
            r matches Ok(rec) ==> rec@.id == old(self).spec_runs().len() && rec@.status
                == RunStatusView::Completed && rec@.manifest_name == manifest.project.name@
                && final(self).spec_runs() == old(self).spec_runs().push(rec@),
    {
        let name = manifest.project.name.clone();
        let pipeline = match Pipeline::new(manifest) {
            Ok(p) => p,
            Err(e) => {
                return Err(RunFailure::Rejected(e));
            },
        };
        let report = match pipeline.execute(reader, transforms, writer) {
            Ok(rep) => rep,
            Err(e) => {
                return Err(RunFailure::Failed(e));
            },
        };
        Ok(self.record_completed(name.as_str(), &report))
    }
}

/// A run that was recorded can be read back by its id, unchanged.
pub proof fn law_run_read_back(before: Seq<RunView>, after: Seq<RunView>, rec: RunView)
    requires
        rec.id == before.len(),
        after == before.push(rec),
    ensures
        rec.id < after.len(),
        after[rec.id as int] == rec,
        forall|i: int| 0 <= i < before.len() ==> #[trigger] after[i] == before[i],
{
}

} // verus!
