//! The pipeline: a sequence of steps that each turn a grid into the next.
use vstd::prelude::*;

use crate::data::grid::MapGrid;
use crate::pipe::changes::{Changelist, GridChange};
use crate::pipe::context::Context;
use crate::pipe::error::PipelineError;

verus! {

/// The changes that a step made, one by one.
pub struct StepResult {
    /// The changes, in the order they were made.
    pub changes: Vec<GridChange>,
}

/// What a step makes of the grid it is given: the new grid and the changes it made.
pub struct StepOutput {
    pub output: MapGrid,
    pub changes: Changelist,
}

/// What a pipeline makes of its grid: the grid that the last step returned, and the changes
/// of each step in order.
pub struct Output {
    pub result: MapGrid,
    pub changes: Vec<Changelist>,
}

/// A step of a pipeline.
pub trait Step {
    /// Whether `r` is a result that this step may return when it is run on `before`.
    spec fn produces(&self, before: MapGrid, r: Result<StepOutput, PipelineError>) -> bool;

    /// Runs the step on `current`.
    fn run(&mut self, ctx: &Context, current: &MapGrid) -> (r: Result<StepOutput, PipelineError>)
        requires
            current.wf(),
        ensures
            old(self).produces(*current, r),
            r matches Ok(o) ==> o.output.wf(),
    ;
}

/// Whether `grids[0]` went through the first `changes.len()` of `steps`, step `i` turning
/// `grids[i]` into `grids[i + 1]` with the changes `changes[i]`.
pub open spec fn ran_steps<S: Step>(steps: Seq<S>, grids: Seq<MapGrid>, changes: Seq<Changelist>) -> bool {
    &&& grids.len() == changes.len() + 1
    &&& changes.len() <= steps.len()
    &&& forall|i: int|
        #![trigger changes[i]]
        0 <= i < changes.len() ==> steps[i].produces(
            grids[i],
            Ok((StepOutput { output: grids[i + 1], changes: changes[i] })),
        )
}

/// A sequence of steps that a grid is passed through, each step working on what the last
/// one returned.
pub struct Pipeline<S> {
    steps: Vec<S>,
}

impl<S: Step> Pipeline<S> {
    /// The steps, in the order in which they run.
    pub closed spec fn spec_steps(&self) -> Seq<S> {
        self.steps@
    }

    /// A pipeline with no steps.
    pub fn new() -> (r: Self)
        ensures
            r.spec_steps() == Seq::<S>::empty(),
    {
        Pipeline { steps: Vec::new() }
    }

    /// Adds a step at the end of the pipeline.
    pub fn add_step(&mut self, step: S)
        ensures
            final(self).spec_steps() == old(self).spec_steps().push(step),
    {
        self.steps.push(step);
    }

    /// Whether the pipeline has no steps.
    pub fn is_empty(&self) -> (r: bool)
        ensures
            r == (self.spec_steps().len() == 0),
    {
        self.steps.len() == 0
    }

    /// The number of steps.
    pub fn len(&self) -> (r: usize)
        ensures
            r == self.spec_steps().len(),
    {
        self.steps.len()
    }

    /// Runs each step in turn, the first on `original` and each next one on what the last one
    /// returned, and stops at the first error.
    ///
    /// ### Errors
    /// [`PipelineError::NoSteps`] when there are no steps, or the error of the first step that
    /// fails.
    pub fn run(&mut self, original: &MapGrid) -> (r: Result<Output, PipelineError>)
        requires
            original.wf(),
        ensures
            final(self).spec_steps().len() == old(self).spec_steps().len(),
            old(self).spec_steps().len() == 0 ==> (r matches Err(e) && e is NoSteps),
            r matches Ok(out) ==> {
                &&& out.result.wf()
                &&& out.changes@.len() == old(self).spec_steps().len()
                &&& exists|grids: Seq<MapGrid>|
                    #![trigger ran_steps(old(self).spec_steps(), grids, out.changes@)]
                    ran_steps(old(self).spec_steps(), grids, out.changes@) && grids[0] == *original
                        && grids.last() == out.result
            },
            r matches Err(e) ==> (old(self).spec_steps().len() == 0 && e is NoSteps) || exists|
                grids: Seq<MapGrid>,
                changes: Seq<Changelist>,
            |
                #![trigger ran_steps(old(self).spec_steps(), grids, changes)]
                ran_steps(old(self).spec_steps(), grids, changes) && grids[0] == *original
                    && changes.len() < old(self).spec_steps().len() && old(
                    self,
                ).spec_steps()[changes.len() as int].produces(grids.last(), Err(e)),
    {
        let n = self.steps.len();
        if n == 0 {
            return Err(PipelineError::NoSteps);
        }
        let ghost steps0 = self.steps@;
        let mut all_changes: Vec<Changelist> = Vec::new();
        let mut current: Option<MapGrid> = None;
        let ghost mut grids: Seq<MapGrid> = seq![*original];
        let mut i: usize = 0;
        while i < n
            invariant
                n == self.steps@.len(),
                n == steps0.len(),
                steps0 == old(self).steps@,
                n > 0,
                i <= n,
                original.wf(),
                all_changes@.len() == i,
                ran_steps(steps0, grids, all_changes@),
                grids[0] == *original,
                i == 0 ==> current is None,
                i > 0 ==> (current matches Some(g) && g == grids.last() && g.wf()),
                forall|k: int| #![trigger self.steps@[k]] i <= k < n ==> self.steps@[k] == steps0[k],
            decreases n - i,
        {
            let ctx = Context { original_data: original, current_step: i, total_steps: n };
            let res = match &current {
                Some(g) => self.steps[i].run(&ctx, g),
                None => self.steps[i].run(&ctx, original),
            };
            match res {
                Ok(step_out) => {
                    let StepOutput { output, changes } = step_out;
                    proof {
                        grids = grids.push(output);
                    }
                    all_changes.push(changes);
                    current = Some(output);
                },
                Err(e) => {
                    return Err(e);
                },
            }
            i = i + 1;
        }
        match current {
            Some(g) => Ok(Output { result: g, changes: all_changes }),
            None => Err(PipelineError::Unknown),
        }
    }
}

} // verus!
