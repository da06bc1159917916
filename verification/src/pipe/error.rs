//! Errors returned by a pipeline.
use vstd::prelude::*;

use crate::util::text::{chars_of, string_from_chars};

verus! {

/// An error returned from the Pipeline.
#[derive(Debug)]
pub enum PipelineError {
    /// No steps were added to the pipeline before it was run.
    NoSteps,
    /// An error that a step reported, with its message.
    Other(String),
    /// An error of unknown origin.
    Unknown,
}

/// The message that describes an error.
pub open spec fn error_message(e: PipelineError) -> Seq<char> {
    match e {
        PipelineError::NoSteps => "No steps were added to the pipeline before execution."@,
        PipelineError::Other(s) => "Error occurred during pipeline execution: "@ + s@,
        PipelineError::Unknown => "Unknown error occurred during pipeline processing"@,
    }
}

impl PipelineError {
    /// The message that describes this error.
    pub fn message(&self) -> (r: String)
        ensures
            r@ == error_message(*self),
    {
        match self {
            PipelineError::NoSteps => {
                let m = chars_of("No steps were added to the pipeline before execution.");
                string_from_chars(&m)
            },
            PipelineError::Other(s) => {
                let mut m = chars_of("Error occurred during pipeline execution: ");
                let mut rest = chars_of(s.as_str());
                m.append(&mut rest);
                string_from_chars(&m)
            },
            PipelineError::Unknown => {
                let m = chars_of("Unknown error occurred during pipeline processing");
                string_from_chars(&m)
            },
        }
    }
}

} // verus!
