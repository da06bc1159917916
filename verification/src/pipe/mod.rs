//! Pipelines: grids passed through a sequence of steps, each of which records its changes.
pub mod changes;
pub mod context;
pub mod error;
pub mod examples;
pub mod pipeline;
pub mod runner;

pub use crate::pipe::changes::{Changelist, GridChange};
pub use crate::pipe::context::Context as PipelineContext;
pub use crate::pipe::error::PipelineError;
pub use crate::pipe::pipeline::{
    Output as PipelineOutput, Pipeline, Step as PipelineStep, StepOutput as PipelineStepOutput,
};
