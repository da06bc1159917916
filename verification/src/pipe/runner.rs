//! Running a pipeline that is built on the spot.
use vstd::prelude::*;

use crate::data::grid::MapGrid;
use crate::pipe::error::PipelineError;
use crate::pipe::pipeline::{Output, Pipeline, Step};

verus! {

/// Runs pipelines of steps of type `S`.
pub struct PipelineRunner<S>(pub Pipeline<S>);

impl<S: Step> PipelineRunner<S> {
    /// Builds a new pipeline and runs it on `original`. The new pipeline has no steps, so this
    /// always gives [`PipelineError::NoSteps`].
    pub fn run(original: &MapGrid) -> (r: Result<Output, PipelineError>)
        ensures
            r matches Err(e) && e is NoSteps,
    {
        let pipeline: Pipeline<S> = Pipeline::new();
        if pipeline.is_empty() {
            Err(PipelineError::NoSteps)
        } else {
            Err(PipelineError::Unknown)
        }
    }
}

} // verus!
