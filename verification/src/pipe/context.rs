//! What a pipeline step knows of the run it is part of.
use vstd::prelude::*;

use crate::data::grid::MapGrid;

verus! {

/// The context for the Pipeline.
pub struct Context<'a> {
    /// The original [`MapGrid`] that was provided to the pipeline.
    pub original_data: &'a MapGrid,
    /// The current step that is being processed.
    pub current_step: usize,
    /// The total number of steps in the pipeline.
    pub total_steps: usize,
}

} // verus!
