//! Simple pipeline steps: set the outer edge, reverse the grid, set a row or a column.
use vstd::prelude::*;
use vstd::std_specs::convert::FromSpecImpl;

use crate::data::cell::TriCell;
use crate::data::grid::MapGrid;
use crate::pipe::changes::{Changelist, GridChange};
use crate::pipe::context::Context;
use crate::pipe::error::PipelineError;
use crate::pipe::pipeline::{Step, StepOutput};
use crate::util::tri::{tri_not, TriState};

verus! {

/// A change, or none.
pub type MaybeChange = Option<GridChange>;

/// The change, if any, that a step makes at the cell `(x, y)` whose state is `st`.
pub type ChangeAt = spec_fn(int, int, TriState) -> Option<GridChange>;

/// The changes a rule makes along row `y` of `g`, over its first `n` cells, left to right.
pub open spec fn row_scan(g: MapGrid, y: int, n: nat, f: ChangeAt) -> Seq<GridChange>
    decreases n,
{
    if n == 0 {
        Seq::empty()
    } else {
        let rest = row_scan(g, y, (n - 1) as nat, f);
        match f(n - 1, y, g.state_at(n - 1, y)) {
            Some(c) => rest.push(c),
            None => rest,
        }
    }
}

/// The changes a rule makes over the first `m` rows of `g`, row by row.
pub open spec fn grid_scan(g: MapGrid, m: nat, f: ChangeAt) -> Seq<GridChange>
    decreases m,
{
    if m == 0 {
        Seq::empty()
    } else {
        grid_scan(g, (m - 1) as nat, f) + row_scan(g, m - 1, g.spec_width() as nat, f)
    }
}

/// The state of `(x, y)` once a rule has been applied: the new value of its change, if any.
pub open spec fn state_after(f: ChangeAt, x: int, y: int, st: TriState) -> TriState {
    match f(x, y, st) {
        Some(c) => c.new_value,
        None => st,
    }
}

/// Whether `r` is `before` with the rule `f` applied to each cell, row by row, recording
/// each change that it makes.
pub open spec fn applied(f: ChangeAt, before: MapGrid, r: Result<StepOutput, PipelineError>) -> bool {
    r matches Ok(o) && {
        &&& o.output.wf()
        &&& o.output.same_shape(&before)
        &&& forall|i: int, j: int|
            #![trigger o.output.state_at(i, j)]
            before.in_bounds(i, j) ==> o.output.state_at(i, j) == state_after(
                f,
                i,
                j,
                before.state_at(i, j),
            )
        &&& o.changes@ == grid_scan(before, before.spec_height() as nat, f)
    }
}

/// Applies the rule `f` (whose meaning is `sf`) to each cell of `current`, row by row.
fn apply_rule<F: Fn(usize, usize, TriState) -> Option<GridChange>>(
    current: &MapGrid,
    f: F,
    Ghost(sf): Ghost<ChangeAt>,
) -> (r: StepOutput)
    requires
        current.wf(),
        forall|x: usize, y: usize, s: TriState| f.requires((x, y, s)),
        forall|x: usize, y: usize, s: TriState, o: Option<GridChange>|
            f.ensures((x, y, s), o) ==> o == sf(x as int, y as int, s),
    ensures
        applied(sf, *current, Ok(r)),
{
    let mut output = current.clone();
    let mut changes = Changelist::new();
    let size = current.size();
    let w = size.width;
    let h = size.height;
    let mut y: usize = 0;
    while y < h
        invariant
            current.wf(),
            w == current.spec_width(),
            h == current.spec_height(),
            y <= h,
            output.wf(),
            output.same_shape(current),
            forall|x: usize, y: usize, s: TriState| f.requires((x, y, s)),
            forall|x: usize, y: usize, s: TriState, o: Option<GridChange>|
                f.ensures((x, y, s), o) ==> o == sf(x as int, y as int, s),
            changes@ == grid_scan(*current, y as nat, sf),
            forall|i: int, j: int|
                #![trigger output.state_at(i, j)]
                current.in_bounds(i, j) ==> output.state_at(i, j) == (if j < y {
                    state_after(sf, i, j, current.state_at(i, j))
                } else {
                    current.state_at(i, j)
                }),
        decreases h - y,
    {
        let ghost before_row = changes@;
        let mut x: usize = 0;
        while x < w
            invariant
                current.wf(),
                w == current.spec_width(),
                h == current.spec_height(),
                y < h,
                x <= w,
                output.wf(),
                output.same_shape(current),
                forall|x: usize, y: usize, s: TriState| f.requires((x, y, s)),
                forall|x: usize, y: usize, s: TriState, o: Option<GridChange>|
                    f.ensures((x, y, s), o) ==> o == sf(x as int, y as int, s),
                before_row == grid_scan(*current, y as nat, sf),
                changes@ == before_row + row_scan(*current, y as int, x as nat, sf),
                forall|i: int, j: int|
                    #![trigger output.state_at(i, j)]
                    current.in_bounds(i, j) ==> output.state_at(i, j) == (if j < y || (j == y && i
                        < x) {
                        state_after(sf, i, j, current.state_at(i, j))
                    } else {
                        current.state_at(i, j)
                    }),
            decreases w - x,
        {
            let st = match current.cell((x, y)) {
                Some(c) => c.0,
                None => TriState::Invalid,
            };
            let ghost prev = output;
            match f(x, y, st) {
                Some(c) => {
                    output.set_cell(x, y, TriCell(c.new_value));
                    changes.add_change(c);
                    proof {
                        assert(changes@ =~= before_row + row_scan(*current, y as int, x as nat + 1, sf));
                    }
                },
                None => {
                    proof {
                        assert(changes@ =~= before_row + row_scan(*current, y as int, x as nat + 1, sf));
                    }
                },
            }
            proof {
                assert forall|i: int, j: int|
                    #![trigger output.state_at(i, j)]
                    current.in_bounds(i, j) implies output.state_at(i, j) == (if j < y || (j == y
                        && i < x + 1) {
                        state_after(sf, i, j, current.state_at(i, j))
                    } else {
                        current.state_at(i, j)
                    }) by {
                    assert(prev.state_at(i, j) == prev.state_at(i, j));
                }
            }
            x = x + 1;
        }
        proof {
            assert(changes@ =~= grid_scan(*current, y as nat + 1, sf));
        }
        y = y + 1;
    }
    StepOutput { output, changes }
}

/// The change that setting the outer edge to `s` makes at `(x, y)` of a `w` by `h` grid. A
/// cell in the first or last column is recorded with `row` as its column; otherwise a cell in
/// the first or last row is recorded with `row` as its row.
pub open spec fn edge_change(w: int, h: int, s: TriState, x: int, y: int, st: TriState) -> Option<
    GridChange,
> {
    if (x == 0 || x == w - 1) && st != s {
        Some(GridChange { row: x as usize, col: y as usize, prev_value: st, new_value: s })
    } else if (y == 0 || y == h - 1) && st != s {
        Some(GridChange { row: y as usize, col: x as usize, prev_value: st, new_value: s })
    } else {
        None
    }
}

/// The change that reversing makes at `(x, y)`: every valid cell is toggled.
pub open spec fn reverse_change(x: int, y: int, st: TriState) -> Option<GridChange> {
    if st == TriState::Invalid {
        None
    } else {
        Some(GridChange { row: x as usize, col: y as usize, prev_value: st, new_value: tri_not(st) })
    }
}

/// The change that setting row `row` to `s` makes at `(x, y)`.
pub open spec fn row_change(row: int, s: TriState, x: int, y: int, st: TriState) -> Option<GridChange> {
    if y != row || st == s {
        None
    } else {
        Some(GridChange { row: x as usize, col: y as usize, prev_value: st, new_value: s })
    }
}

/// The change that setting column `column` to `s` makes at `(x, y)`.
pub open spec fn column_change(column: int, s: TriState, x: int, y: int, st: TriState) -> Option<
    GridChange,
> {
    if x != column || st == s {
        None
    } else {
        Some(GridChange { row: x as usize, col: y as usize, prev_value: st, new_value: s })
    }
}

/// [`edge_change`] at machine-sized coordinates.
pub open spec fn edge_change_at(w: usize, h: usize, s: TriState, x: usize, y: usize, st: TriState) -> MaybeChange {
    edge_change(w as int, h as int, s, x as int, y as int, st)
}

/// [`reverse_change`] at machine-sized coordinates.
pub open spec fn reverse_change_at(x: usize, y: usize, st: TriState) -> MaybeChange {
    reverse_change(x as int, y as int, st)
}

/// [`row_change`] at machine-sized coordinates.
pub open spec fn row_change_at(row: usize, s: TriState, x: usize, y: usize, st: TriState) -> MaybeChange {
    row_change(row as int, s, x as int, y as int, st)
}

/// [`column_change`] at machine-sized coordinates.
pub open spec fn column_change_at(column: usize, s: TriState, x: usize, y: usize, st: TriState) -> MaybeChange {
    column_change(column as int, s, x as int, y as int, st)
}

/// Sets every cell of the outer edge to a state.
pub struct SetOutEdgeStep {
    pub state: TriState,
}

impl SetOutEdgeStep {
    /// A step that sets the outer edge to `state`.
    pub fn new(state: TriState) -> (r: Self)
        ensures
            r.state == state,
    {
        SetOutEdgeStep { state }
    }
}

impl Step for SetOutEdgeStep {
    open spec fn produces(&self, before: MapGrid, r: Result<StepOutput, PipelineError>) -> bool {
        applied(
            |x: int, y: int, st: TriState|
                edge_change(
                    before.spec_width() as int,
                    before.spec_height() as int,
                    self.state,
                    x,
                    y,
                    st,
                ),
            before,
            r,
        )
    }

    fn run(&mut self, ctx: &Context, current: &MapGrid) -> Result<StepOutput, PipelineError> {
        let size = current.size();
        let w = size.width;
        let h = size.height;
        let s = self.state;
        let ghost sf = |x: int, y: int, st: TriState| edge_change(w as int, h as int, s, x, y, st);
        let rule = |x: usize, y: usize, st: TriState| -> (o: MaybeChange)
                ensures
                    o == edge_change_at(w, h, s, x, y, st),
                {
                    if (x == 0 || x == w - 1) && st != s {
                        Some(GridChange { row: x, col: y, prev_value: st, new_value: s })
                    } else if (y == 0 || y == h - 1) && st != s {
                        Some(GridChange { row: y, col: x, prev_value: st, new_value: s })
                    } else {
                        None
                    }
                };
        Ok(apply_rule(current, rule, Ghost(sf)))
    }
}

/// Toggles every valid cell.
pub struct ReverseEntireGridStep;

impl Step for ReverseEntireGridStep {
    open spec fn produces(&self, before: MapGrid, r: Result<StepOutput, PipelineError>) -> bool {
        applied(|x: int, y: int, st: TriState| reverse_change(x, y, st), before, r)
    }

    fn run(&mut self, ctx: &Context, current: &MapGrid) -> Result<StepOutput, PipelineError> {
        let ghost sf = |x: int, y: int, st: TriState| reverse_change(x, y, st);
        let rule = |x: usize, y: usize, st: TriState| -> (o: MaybeChange)
                ensures
                    o == reverse_change_at(x, y, st),
                {
                    if st == TriState::Invalid {
                        None
                    } else {
                        Some(GridChange { row: x, col: y, prev_value: st, new_value: st.toggle() })
                    }
                };
        Ok(apply_rule(current, rule, Ghost(sf)))
    }
}

/// Sets every cell of a row to a state.
pub struct SetEntireRowStep {
    pub row: usize,
    pub state: TriState,
}

impl SetEntireRowStep {
    /// A step that sets row `row` to `state`.
    pub fn new(row: usize, state: TriState) -> (r: Self)
        ensures
            r.row == row,
            r.state == state,
    {
        Self { row, state }
    }
}

impl Step for SetEntireRowStep {
    open spec fn produces(&self, before: MapGrid, r: Result<StepOutput, PipelineError>) -> bool {
        applied(
            |x: int, y: int, st: TriState| row_change(self.row as int, self.state, x, y, st),
            before,
            r,
        )
    }

    fn run(&mut self, ctx: &Context, current: &MapGrid) -> Result<StepOutput, PipelineError> {
        let row = self.row;
        let s = self.state;
        let ghost sf = |x: int, y: int, st: TriState| row_change(row as int, s, x, y, st);
        let rule = |x: usize, y: usize, st: TriState| -> (o: MaybeChange)
                ensures
                    o == row_change_at(row, s, x, y, st),
                {
                    if y != row || st == s {
                        None
                    } else {
                        Some(GridChange { row: x, col: y, prev_value: st, new_value: s })
                    }
                };
        Ok(apply_rule(current, rule, Ghost(sf)))
    }
}

/// Sets every cell of a column to a state.
pub struct SetEntireColumnStep {
    pub column: usize,
    pub state: TriState,
}

impl SetEntireColumnStep {
    /// A step that sets column `column` to `state`.
    pub fn new(column: usize, state: TriState) -> (r: Self)
        ensures
            r.column == column,
            r.state == state,
    {
        Self { column, state }
    }
}

impl Step for SetEntireColumnStep {
    open spec fn produces(&self, before: MapGrid, r: Result<StepOutput, PipelineError>) -> bool {
        applied(
            |x: int, y: int, st: TriState| column_change(self.column as int, self.state, x, y, st),
            before,
            r,
        )
    }

    fn run(&mut self, ctx: &Context, current: &MapGrid) -> Result<StepOutput, PipelineError> {
        let column = self.column;
        let s = self.state;
        let ghost sf = |x: int, y: int, st: TriState| column_change(column as int, s, x, y, st);
        let rule = |x: usize, y: usize, st: TriState| -> (o: MaybeChange)
                ensures
                    o == column_change_at(column, s, x, y, st),
                {
                    if x != column || st == s {
                        None
                    } else {
                        Some(GridChange { row: x, col: y, prev_value: st, new_value: s })
                    }
                };
        Ok(apply_rule(current, rule, Ghost(sf)))
    }
}

/// Any one of the example steps, so that one pipeline can hold several kinds of them.
pub enum ExampleStep {
    SetOutEdge(SetOutEdgeStep),
    ReverseEntireGrid(ReverseEntireGridStep),
    SetEntireRow(SetEntireRowStep),
    SetEntireColumn(SetEntireColumnStep),
}

impl Step for ExampleStep {
    open spec fn produces(&self, before: MapGrid, r: Result<StepOutput, PipelineError>) -> bool {
        match self {
            ExampleStep::SetOutEdge(s) => s.produces(before, r),
            ExampleStep::ReverseEntireGrid(s) => s.produces(before, r),
            ExampleStep::SetEntireRow(s) => s.produces(before, r),
            ExampleStep::SetEntireColumn(s) => s.produces(before, r),
        }
    }

    fn run(&mut self, ctx: &Context, current: &MapGrid) -> Result<StepOutput, PipelineError> {
        match self {
            ExampleStep::SetOutEdge(s) => s.run(ctx, current),
            ExampleStep::ReverseEntireGrid(s) => s.run(ctx, current),
            ExampleStep::SetEntireRow(s) => s.run(ctx, current),
            ExampleStep::SetEntireColumn(s) => s.run(ctx, current),
        }
    }
}

impl From<SetOutEdgeStep> for ExampleStep {
    fn from(s: SetOutEdgeStep) -> Self {
        ExampleStep::SetOutEdge(s)
    }
}

impl FromSpecImpl<SetOutEdgeStep> for ExampleStep {
    open spec fn obeys_from_spec() -> bool {
        true
    }

    open spec fn from_spec(s: SetOutEdgeStep) -> Self {
        ExampleStep::SetOutEdge(s)
    }
}

impl From<ReverseEntireGridStep> for ExampleStep {
    fn from(s: ReverseEntireGridStep) -> Self {
        ExampleStep::ReverseEntireGrid(s)
    }
}

impl FromSpecImpl<ReverseEntireGridStep> for ExampleStep {
    open spec fn obeys_from_spec() -> bool {
        true
    }

    open spec fn from_spec(s: ReverseEntireGridStep) -> Self {
        ExampleStep::ReverseEntireGrid(s)
    }
}

impl From<SetEntireRowStep> for ExampleStep {
    fn from(s: SetEntireRowStep) -> Self {
        ExampleStep::SetEntireRow(s)
    }
}

impl FromSpecImpl<SetEntireRowStep> for ExampleStep {
    open spec fn obeys_from_spec() -> bool {
        true
    }

    open spec fn from_spec(s: SetEntireRowStep) -> Self {
        ExampleStep::SetEntireRow(s)
    }
}

impl From<SetEntireColumnStep> for ExampleStep {
    fn from(s: SetEntireColumnStep) -> Self {
        ExampleStep::SetEntireColumn(s)
    }
}

impl FromSpecImpl<SetEntireColumnStep> for ExampleStep {
    open spec fn obeys_from_spec() -> bool {
        true
    }

    open spec fn from_spec(s: SetEntireColumnStep) -> Self {
        ExampleStep::SetEntireColumn(s)
    }
}

/// Two reversing steps in a row give back the grid they started from: every valid cell is
/// toggled twice and every invalid one is left alone.
pub proof fn lemma_reverse_twice_cancels(
    first: ReverseEntireGridStep,
    second: ReverseEntireGridStep,
    g0: MapGrid,
    g1: MapGrid,
    g2: MapGrid,
    c1: Changelist,
    c2: Changelist,
)
    requires
        first.produces(g0, Ok((StepOutput { output: g1, changes: c1 }))),
        second.produces(g1, Ok((StepOutput { output: g2, changes: c2 }))),
    ensures
        g2.same_shape(&g0),
        forall|i: int, j: int| #![trigger g2.state_at(i, j)] g2.in_bounds(i, j) ==> g2.state_at(i, j) == g0.state_at(i, j),
{
    assert forall|i: int, j: int| #![trigger g2.state_at(i, j)] g2.in_bounds(i, j) implies g2.state_at(i, j) == g0.state_at(i, j) by {
        assert(g1.state_at(i, j) == state_after(|x: int, y: int, st: TriState| reverse_change(x, y, st), i, j, g0.state_at(i, j)));
        assert(g2.state_at(i, j) == state_after(|x: int, y: int, st: TriState| reverse_change(x, y, st), i, j, g1.state_at(i, j)));
    }
}

/// Setting a row leaves every other row as it was and puts every cell of that row in the
/// state given.
pub proof fn lemma_set_row_effect(step: SetEntireRowStep, g0: MapGrid, g1: MapGrid, c: Changelist)
    requires
        step.produces(g0, Ok((StepOutput { output: g1, changes: c }))),
    ensures
        forall|i: int, j: int|
            #![trigger g1.state_at(i, j)]
            g1.in_bounds(i, j) ==> g1.state_at(i, j) == (if j == step.row {
                step.state
            } else {
                g0.state_at(i, j)
            }),
{
    assert forall|i: int, j: int| #![trigger g1.state_at(i, j)] g1.in_bounds(i, j) implies g1.state_at(i, j) == (if j == step.row {
        step.state
    } else {
        g0.state_at(i, j)
    }) by {
        assert(g1.state_at(i, j) == state_after(|x: int, y: int, st: TriState| row_change(step.row as int, step.state, x, y, st), i, j, g0.state_at(i, j)));
    }
}

} // verus!
