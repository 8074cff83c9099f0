//! Streaming mode: features pass one at a time from a source through a chain of
//! processors to a sink, for memory-bounded operation.
use vstd::prelude::*;
use crate::feature::Feature;
use crate::pipeline::PipelineError;

verus! {

/// A streaming feature processor that handles features one at a time.
pub trait StreamProcessor {
    /// Processes one feature: `None` drops it, `Some` emits it.
    fn process(&mut self, feature: Feature) -> Result<Option<Feature>, PipelineError>;

    /// Called when all features have been processed; returns any buffered output.
    /// By default nothing is buffered.
    fn flush(&mut self) -> (r: Result<Vec<Feature>, PipelineError>)
        default_ensures
            r matches Ok(v) && v@.len() == 0,
    {
        Ok(Vec::new())
    }
}

/// A streaming source that yields features one at a time.
pub trait StreamSource {
    /// The next feature, or `None` when exhausted.
    fn next_feature(&mut self) -> Result<Option<Feature>, PipelineError>;
}

/// A streaming sink that accepts features one at a time.
pub trait StreamSink {
    /// Writes one feature.
    fn write_feature(&mut self, feature: &Feature) -> Result<(), PipelineError>;

    /// Finalizes the output (flushes buffers, closes files).
    fn finalize(&mut self) -> Result<(), PipelineError>;
}

/// Report from streaming execution.
#[derive(Debug)]
pub struct StreamReport {
    pub input_count: usize,
    pub output_count: usize,
}

/// One more, wrapping at the end of the range (the compiled behaviour of `+= 1`).
pub open spec fn next_count(n: usize) -> usize {
    if n < usize::MAX {
        (n + 1) as usize
    } else {
        0
    }
}

fn bump(n: usize) -> (r: usize)
    ensures
        r == next_count(n),
{
    if n < usize::MAX {
        n + 1
    } else {
        0
    }
}

/// `n` advanced by `k` (`next_count` applied `k` times).
pub open spec fn advance(n: usize, k: nat) -> usize
    decreases k,
{
    if k == 0 {
        n
    } else {
        next_count(advance(n, (k - 1) as nat))
    }
}

/// What follows one processor's answer in the chain.
pub enum ChainStep {
    /// The feature goes on to the next processor, or to the sink after the last.
    Next(Feature),
    /// The feature was dropped; no later processor sees it.
    Dropped,
    /// The processor failed; the run stops with its error.
    Failed(PipelineError),
}

/// The step that follows a processor's answer: a feature it returns goes on,
/// none drops the feature, an error stops the run.
pub fn chain_step(answer: Result<Option<Feature>, PipelineError>) -> (r: ChainStep)
    ensures
        match answer {
            Ok(Some(f)) => r == ChainStep::Next(f),
            Ok(None) => r == ChainStep::Dropped,
            Err(e) => r == ChainStep::Failed(e),
        },
{
    match answer {
        Ok(Some(f)) => ChainStep::Next(f),
        Ok(None) => ChainStep::Dropped,
        Err(e) => ChainStep::Failed(e),
    }
}

/// A streaming execution in progress: how many features were read and written.
pub struct StreamRun {
    pub input_count: usize,
    pub output_count: usize,
}

impl StreamRun {
    /// A run that has read and written nothing.
    pub fn new() -> (r: Self)
        ensures
            r.input_count == 0,
            r.output_count == 0,
    {
        StreamRun { input_count: 0, output_count: 0 }
    }

    /// Passes one feature read from the source through the processors in order
    /// (a processor returning nothing drops it; later processors then see
    /// nothing) and writes what comes out. Returns whether a feature was
    /// written; fails with the first error of a processor or the sink.
    pub fn feed(
        &mut self,
        feature: Feature,
        processors: &mut Vec<Box<dyn StreamProcessor>>,
        sink: &mut dyn StreamSink,
    ) -> (r: Result<bool, PipelineError>)
        ensures
            final(self).input_count == next_count(old(self).input_count),
            final(processors)@.len() == old(processors)@.len(),
            r matches Ok(written) ==> final(self).output_count == if written {
                next_count(old(self).output_count)
            } else {
                old(self).output_count
            },
            old(processors)@.len() == 0 ==> (r matches Ok(written) ==> written),
    {
        self.input_count = bump(self.input_count);
        let mut current: Option<Feature> = Some(feature);
        let mut i: usize = 0;
        let n = processors.len();
        while i < n
            invariant
                n == processors@.len(),
                n == old(processors)@.len(),
                i <= n,
                self.input_count == next_count(old(self).input_count),
                self.output_count == old(self).output_count,
                n == 0 ==> current is Some,
            decreases n - i,
        {
            current = match current {
                Some(f) => match chain_step(processors[i].process(f)) {
                    ChainStep::Next(g) => Some(g),
                    ChainStep::Dropped => None,
                    ChainStep::Failed(e) => {
                        return Err(e);
                    },
                },
                None => {
                    break;
                },
            };
            i = i + 1;
        }
        match current {
            Some(f) => {
                match sink.write_feature(&f) {
                    Ok(()) => {},
                    Err(e) => {
                        return Err(e);
                    },
                }
                self.output_count = bump(self.output_count);
                Ok(true)
            },
            None => Ok(false),
        }
    }
}


impl StreamRun {
    /// Writes, in order, the features a processor's `flush` returned; fails
    /// with the first error of the sink.
    pub fn write_flushed(&mut self, flushed: Vec<Feature>, sink: &mut dyn StreamSink) -> (r: Result<
        (),
        PipelineError,
    >)
        ensures
            final(self).input_count == old(self).input_count,
            r is Ok ==> final(self).output_count == advance(
                old(self).output_count,
                flushed@.len(),
            ),
    {
        let ghost start = self.output_count;
        let mut j: usize = 0;
        while j < flushed.len()
            invariant
                j <= flushed@.len(),
                self.input_count == old(self).input_count,
                start == old(self).output_count,
                self.output_count == advance(start, j as nat),
            decreases flushed@.len() - j,
        {
            match sink.write_feature(&flushed[j]) {
                Ok(()) => {},
                Err(e) => {
                    return Err(e);
                },
            }
            self.output_count = bump(self.output_count);
            j = j + 1;
        }
        Ok(())
    }

    /// Finalizes the sink and reports the counts; fails with the sink's error.
    pub fn finish(self, sink: &mut dyn StreamSink) -> (r: Result<StreamReport, PipelineError>)
        ensures
            r matches Ok(rep) ==> rep.input_count == self.input_count && rep.output_count
                == self.output_count,
    {
        match sink.finalize() {
            Ok(()) => {},
            Err(e) => {
                return Err(e);
            },
        }
        Ok(StreamReport { input_count: self.input_count, output_count: self.output_count })
    }
}

} // verus!
