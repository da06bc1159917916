//! Cellular automata over grids.
use vstd::prelude::*;

use crate::data::grid::MapGrid;
use crate::util::tri::{tri_of_bool, TriState};

verus! {

/// A rule that decides the next state of a cell from its position, the number of its
/// (wrapped) neighbors that are on, and whether it is on now.
pub trait NeighborRule {
    /// The decision, as the contracts see it.
    spec fn rule(&self, pos: (usize, usize), neighbors: usize, on: bool) -> bool;

    /// Decides whether the cell is on after the step.
    fn decide(&self, pos: (usize, usize), neighbors: usize, on: bool) -> (r: bool)
        ensures
            r == self.rule(pos, neighbors, on),
    ;
}

/// A rule that decides the next state of a cell from its position, the number of its
/// (wrapped) neighbors that are on, the number of cells on around it within two steps, and
/// whether it is on now.
pub trait NeighborRule2 {
    /// The decision, as the contracts see it.
    spec fn rule2(&self, pos: (usize, usize), neighbors: usize, wide_neighbors: usize, on: bool) -> bool;

    /// Decides whether the cell is on after the step.
    fn decide2(&self, pos: (usize, usize), neighbors: usize, wide_neighbors: usize, on: bool) -> (r:
        bool)
        ensures
            r == self.rule2(pos, neighbors, wide_neighbors, on),
    ;
}

/// The arguments of the basic cellular automata algorithm: a cell that is on stays on with at
/// least `on_min` neighbors on; a cell that is off turns on with at least `off_min`.
#[derive(Debug, Clone, Copy, PartialEq, Eq, Structural, Hash)]
pub struct FirstAlgArgs {
    on_min: usize,
    off_min: usize,
}

impl FirstAlgArgs {
    /// The threshold for a cell that is on.
    pub closed spec fn spec_on_min(&self) -> usize {
        self.on_min
    }

    /// The threshold for a cell that is off.
    pub closed spec fn spec_off_min(&self) -> usize {
        self.off_min
    }
}

impl NeighborRule for FirstAlgArgs {
    open spec fn rule(&self, pos: (usize, usize), neighbors: usize, on: bool) -> bool {
        if on {
            neighbors >= self.spec_on_min()
        } else {
            neighbors >= self.spec_off_min()
        }
    }

    fn decide(&self, pos: (usize, usize), neighbors: usize, on: bool) -> (r: bool) {
        if on {
            neighbors >= self.on_min
        } else {
            neighbors >= self.off_min
        }
    }
}

/// The basic algorithm keeps an on cell on exactly when at least `on_min` of its neighbors are
/// on, and turns an off cell on exactly when at least `off_min` of them are.
pub proof fn lemma_first_rule(a: FirstAlgArgs, pos: (usize, usize), neighbors: usize)
    ensures
        a.rule(pos, neighbors, true) == (neighbors >= a.spec_on_min()),
        a.rule(pos, neighbors, false) == (neighbors >= a.spec_off_min()),
{
}

impl NeighborRule2 for FirstAlgArgs {
    /// The basic thresholds applied to the near neighbors only.
    open spec fn rule2(&self, pos: (usize, usize), neighbors: usize, wide_neighbors: usize, on: bool) -> bool {
        self.rule(pos, neighbors, on)
    }

    fn decide2(&self, pos: (usize, usize), neighbors: usize, wide_neighbors: usize, on: bool) -> (r: bool) {
        self.decide(pos, neighbors, on)
    }
}

/// The arguments of the flexible algorithm: a rule over the 3x3 neighborhood.
#[derive(Debug, Clone, Copy, PartialEq, Eq, Hash)]
pub struct FlexArgs<R> {
    /// The rule deciding each cell.
    pub predicate: R,
}

/// The arguments of the second flexible algorithm: a rule over the 3x3 and wider
/// neighborhoods.
#[derive(Debug, Clone, Copy, PartialEq, Eq, Hash)]
pub struct Flex2Args<R2> {
    /// The rule deciding each cell.
    pub predicate: R2,
}

/// The algorithm to run, with its arguments.
#[derive(Debug, Clone, Copy, PartialEq, Eq, Hash)]
pub enum Algorithm<R = FirstAlgArgs, R2 = FirstAlgArgs> {
    /// The basic algorithm. See [`FirstAlgArgs`].
    First(FirstAlgArgs),
    /// The flexible algorithm. See [`FlexArgs`].
    Flex(FlexArgs<R>),
    /// The second flexible algorithm. See [`Flex2Args`].
    Flex2(Flex2Args<R2>),
}

impl Algorithm {
    /// The basic algorithm with 4 neighbors to keep a cell on and 5 to turn one on.
    pub fn default_first() -> (r: Self)
        ensures
            r matches Algorithm::First(a) && a.spec_on_min() == 4 && a.spec_off_min() == 5,
    {
        Algorithm::First(FirstAlgArgs { on_min: 4, off_min: 5 })
    }

    /// The basic algorithm with the given thresholds.
    pub fn first(on_min: usize, off_min: usize) -> (r: Self)
        ensures
            r matches Algorithm::First(a) && a.spec_on_min() == on_min && a.spec_off_min() == off_min,
    {
        Algorithm::First(FirstAlgArgs { on_min, off_min })
    }
}

impl<R> Algorithm<R, FirstAlgArgs> {
    /// The flexible algorithm with the given rule.
    pub fn flex(predicate: R) -> (r: Self)
        ensures
            r == Algorithm::<R, FirstAlgArgs>::Flex(FlexArgs { predicate }),
    {
        Algorithm::Flex(FlexArgs { predicate })
    }
}

impl<R2> Algorithm<FirstAlgArgs, R2> {
    /// The second flexible algorithm with the given rule.
    pub fn flex2(predicate: R2) -> (r: Self)
        ensures
            r == Algorithm::<FirstAlgArgs, R2>::Flex2(Flex2Args { predicate }),
    {
        Algorithm::Flex2(Flex2Args { predicate })
    }
}

/// `name` with " (Copy)" appended `k` times.
pub open spec fn copied_name(name: Option<Seq<char>>, k: nat) -> Option<Seq<char>>
    decreases k,
{
    if k == 0 {
        name
    } else {
        match copied_name(name, (k - 1) as nat) {
            Some(n) => Some(n + " (Copy)"@),
            None => None,
        }
    }
}

/// An unnamed grid stays unnamed however many times it is copied.
proof fn lemma_copied_unnamed(k: nat)
    ensures
        copied_name(None, k) is None,
    decreases k,
{
    if k > 0 {
        lemma_copied_unnamed((k - 1) as nat);
    }
}

/// Two grids have the same dimensions and the same cell states.
pub open spec fn same_states(a: &MapGrid, b: &MapGrid) -> bool {
    &&& a.spec_width() == b.spec_width()
    &&& a.spec_height() == b.spec_height()
    &&& forall|i: int, j: int| #![trigger a.state_at(i, j)] a.in_bounds(i, j) ==> a.state_at(i, j) == b.state_at(i, j)
}

/// What cell `(i, j)` of `prev` becomes in one step of `rule`: an invalid cell stays invalid
/// (the rule is not asked), any other becomes what the rule decides from its position, its
/// number of wrapped neighbors that are on, and whether it is on.
pub open spec fn next_cell<R: NeighborRule>(prev: &MapGrid, rule: &R, i: int, j: int) -> TriState {
    if prev.state_at(i, j) == TriState::Invalid {
        TriState::Invalid
    } else {
        tri_of_bool(
            rule.rule(
                (i as usize, j as usize),
                prev.spec_neighbors_with_state((i as usize, j as usize), TriState::True, true).len() as usize,
                prev.state_at(i, j) == TriState::True,
            ),
        )
    }
}

/// Like [`next_cell`], with the wide rule, also given the cells on within two steps.
pub open spec fn next_cell2<R2: NeighborRule2>(prev: &MapGrid, rule: &R2, i: int, j: int) -> TriState {
    if prev.state_at(i, j) == TriState::Invalid {
        TriState::Invalid
    } else {
        tri_of_bool(
            rule.rule2(
                (i as usize, j as usize),
                prev.spec_neighbors_with_state((i as usize, j as usize), TriState::True, true).len() as usize,
                prev.spec_active_neighbors_n(i as usize, j as usize, 2) as usize,
                prev.state_at(i, j) == TriState::True,
            ),
        )
    }
}

/// `next` is one step of `rule` applied to `prev` (see [`next_cell`]).
pub open spec fn is_step<R: NeighborRule>(next: &MapGrid, prev: &MapGrid, rule: &R) -> bool {
    &&& next.spec_width() == prev.spec_width()
    &&& next.spec_height() == prev.spec_height()
    &&& forall|i: int, j: int|
        #![trigger next.state_at(i, j)]
        next.in_bounds(i, j) ==> next.state_at(i, j) == next_cell(prev, rule, i, j)
}

/// One step of the basic algorithm: a cell that was on is on after it exactly when at least
/// `on_min` of its wrapped neighbors were on, and off otherwise; a cell that was off is on
/// exactly when at least `off_min` of them were on, and off otherwise; an invalid cell stays
/// invalid.
pub proof fn lemma_first_step(next: &MapGrid, prev: &MapGrid, a: &FirstAlgArgs, i: int, j: int)
    requires
        is_step(next, prev, a),
        next.in_bounds(i, j),
    ensures
        ({
            let n = prev.spec_neighbors_with_state((i as usize, j as usize), TriState::True, true).len() as usize;
            &&& prev.state_at(i, j) == TriState::True ==> next.state_at(i, j) == (if n >= a.spec_on_min() {
                TriState::True
            } else {
                TriState::False
            })
            &&& prev.state_at(i, j) == TriState::False ==> next.state_at(i, j) == (if n >= a.spec_off_min() {
                TriState::True
            } else {
                TriState::False
            })
            &&& prev.state_at(i, j) == TriState::Invalid ==> next.state_at(i, j) == TriState::Invalid
        }),
{
    assert(next.state_at(i, j) == next_cell(prev, a, i, j));
}

/// `next` is one step of the wide `rule` applied to `prev` (see [`next_cell2`]).
pub open spec fn is_step2<R2: NeighborRule2>(next: &MapGrid, prev: &MapGrid, rule: &R2) -> bool {
    &&& next.spec_width() == prev.spec_width()
    &&& next.spec_height() == prev.spec_height()
    &&& forall|i: int, j: int|
        #![trigger next.state_at(i, j)]
        next.in_bounds(i, j) ==> next.state_at(i, j) == next_cell2(prev, rule, i, j)
}

/// `chain` starts with the states of `original` and each grid is one step of `rule` from the
/// one before; it has `passes + 1` grids.
pub open spec fn is_run<R: NeighborRule>(chain: Seq<MapGrid>, original: &MapGrid, passes: nat, rule: &R) -> bool {
    &&& chain.len() == passes + 1
    &&& same_states(&chain[0], original)
    &&& forall|k: int| #![trigger chain[k]] 0 <= k < chain.len() ==> chain[k].wf()
    &&& forall|k: int| #![trigger chain[k + 1]] 0 <= k < passes ==> is_step(&chain[k + 1], &chain[k], rule)
}

/// Like [`is_run`], with the wide rule.
pub open spec fn is_run2<R2: NeighborRule2>(chain: Seq<MapGrid>, original: &MapGrid, passes: nat, rule: &R2) -> bool {
    &&& chain.len() == passes + 1
    &&& same_states(&chain[0], original)
    &&& forall|k: int| #![trigger chain[k]] 0 <= k < chain.len() ==> chain[k].wf()
    &&& forall|k: int| #![trigger chain[k + 1]] 0 <= k < passes ==> is_step2(&chain[k + 1], &chain[k], rule)
}

/// `g` has the states of running `passes` steps of `rule` from `original`.
pub open spec fn ran_rule<R: NeighborRule>(g: &MapGrid, original: &MapGrid, passes: nat, rule: &R) -> bool {
    exists|chain: Seq<MapGrid>|
        #![trigger is_run(chain, original, passes, rule)]
        is_run(chain, original, passes, rule) && same_states(g, &chain.last())
}

/// `g` has the states of running `passes` steps of the wide `rule` from `original`.
pub open spec fn ran_rule2<R2: NeighborRule2>(g: &MapGrid, original: &MapGrid, passes: nat, rule: &R2) -> bool {
    exists|chain: Seq<MapGrid>|
        #![trigger is_run2(chain, original, passes, rule)]
        is_run2(chain, original, passes, rule) && same_states(g, &chain.last())
}

/// Static struct holding cellular automata algorithms.
pub struct CellularAutomata;

impl CellularAutomata {
    /// One step of `rule` over `grid`: a copy of `grid` with every cell decided by the rule
    /// from the states in `grid`.
    fn step<R: NeighborRule>(grid: &MapGrid, rule: &R) -> (r: MapGrid)
        requires
            grid.wf(),
        ensures
            r.wf(),
            r.spec_name() == copied_name(grid.spec_name(), 1),
            is_step(&r, grid, rule),
    {
        let mut temp = MapGrid::create_copy(grid);
        proof {
            reveal_with_fuel(copied_name, 2);
        }
        let mut x: usize = 0;
        while x < grid.cols()
            invariant
                grid.wf(),
                temp.wf(),
                temp.spec_width() == grid.spec_width(),
                temp.spec_height() == grid.spec_height(),
                temp.spec_name() == copied_name(grid.spec_name(), 1),
                x <= grid.spec_width(),
                forall|i: int, j: int|
                    #![trigger temp.state_at(i, j)]
                    temp.in_bounds(i, j) ==> temp.state_at(i, j) == (if i < x {
                        next_cell(grid, rule, i, j)
                    } else {
                        grid.state_at(i, j)
                    }),
            decreases grid.spec_width() - x,
        {
            let mut y: usize = 0;
            while y < grid.rows()
                invariant
                    grid.wf(),
                    temp.wf(),
                    temp.spec_width() == grid.spec_width(),
                    temp.spec_height() == grid.spec_height(),
                    temp.spec_name() == copied_name(grid.spec_name(), 1),
                    x < grid.spec_width(),
                    y <= grid.spec_height(),
                    forall|i: int, j: int|
                        #![trigger temp.state_at(i, j)]
                        temp.in_bounds(i, j) ==> temp.state_at(i, j) == (if i < x || (i == x && j < y) {
                            next_cell(grid, rule, i, j)
                        } else {
                            grid.state_at(i, j)
                        }),
                decreases grid.spec_height() - y,
            {
                let cell = grid.cell((x, y)).unwrap();
                let ghost t0 = temp;
                if !cell.is_invalid() {
                    let cell_state = cell.is_on();
                    let neighbors = grid.active_neighbor_count((x, y), true);
                    let new_state = rule.decide((x, y), neighbors, cell_state);
                    temp.set_cell_state(x, y, new_state);
                }
                proof {
                    assert forall|i: int, j: int|
                        #![trigger temp.state_at(i, j)]
                        temp.in_bounds(i, j) implies temp.state_at(i, j) == (if i < x || (i == x && j < y
                            + 1) {
                            next_cell(grid, rule, i, j)
                        } else {
                            grid.state_at(i, j)
                        }) by {
                        assert(t0.state_at(i, j) == t0.state_at(i, j));
                    }
                }
                y = y + 1;
            }
            x = x + 1;
        }
        temp
    }
    /// One step of the wide `rule` over `grid`.
    fn step2<R2: NeighborRule2>(grid: &MapGrid, rule: &R2) -> (r: MapGrid)
        requires
            grid.wf(),
        ensures
            r.wf(),
            r.spec_name() == copied_name(grid.spec_name(), 1),
            is_step2(&r, grid, rule),
    {
        let mut temp = MapGrid::create_copy(grid);
        proof {
            reveal_with_fuel(copied_name, 2);
        }
        let mut x: usize = 0;
        while x < grid.cols()
            invariant
                grid.wf(),
                temp.wf(),
                temp.spec_width() == grid.spec_width(),
                temp.spec_height() == grid.spec_height(),
                temp.spec_name() == copied_name(grid.spec_name(), 1),
                x <= grid.spec_width(),
                forall|i: int, j: int|
                    #![trigger temp.state_at(i, j)]
                    temp.in_bounds(i, j) ==> temp.state_at(i, j) == (if i < x {
                        next_cell2(grid, rule, i, j)
                    } else {
                        grid.state_at(i, j)
                    }),
            decreases grid.spec_width() - x,
        {
            let mut y: usize = 0;
            while y < grid.rows()
                invariant
                    grid.wf(),
                    temp.wf(),
                    temp.spec_width() == grid.spec_width(),
                    temp.spec_height() == grid.spec_height(),
                    temp.spec_name() == copied_name(grid.spec_name(), 1),
                    x < grid.spec_width(),
                    y <= grid.spec_height(),
                    forall|i: int, j: int|
                        #![trigger temp.state_at(i, j)]
                        temp.in_bounds(i, j) ==> temp.state_at(i, j) == (if i < x || (i == x && j < y) {
                            next_cell2(grid, rule, i, j)
                        } else {
                            grid.state_at(i, j)
                        }),
                decreases grid.spec_height() - y,
            {
                let cell = grid.cell((x, y)).unwrap();
                let ghost t0 = temp;
                if !cell.is_invalid() {
                    let cell_state = cell.is_on();
                    let neighbors = grid.active_neighbor_count((x, y), true);
                    proof {
                        assert(grid.in_bounds(x as int, y as int));
                    }
                    let wide = grid.active_neighbors_n(x, y, 2);
                    let new_state = rule.decide2((x, y), neighbors, wide, cell_state);
                    temp.set_cell_state(x, y, new_state);
                }
                proof {
                    assert forall|i: int, j: int|
                        #![trigger temp.state_at(i, j)]
                        temp.in_bounds(i, j) implies temp.state_at(i, j) == (if i < x || (i == x && j < y
                            + 1) {
                            next_cell2(grid, rule, i, j)
                        } else {
                            grid.state_at(i, j)
                        }) by {
                        assert(t0.state_at(i, j) == t0.state_at(i, j));
                    }
                }
                y = y + 1;
            }
            x = x + 1;
        }
        temp
    }

    /// Runs `passes` steps of `rule` on a copy of `original` (invalid cells are left as they
    /// are and never given to the rule); the history of every grid, starting with the copy, is
    /// kept when `track_changes` is true and `passes` is at least 1, and is empty otherwise.
    pub fn flexible<R: NeighborRule>(original: &MapGrid, passes: usize, track_changes: bool, rule: &R) -> (r: (
        MapGrid,
        Vec<MapGrid>,
    ))
        requires
            original.wf(),
        ensures
            r.0.wf(),
            r.0.spec_name() == copied_name(original.spec_name(), passes as nat + 1),
            exists|chain: Seq<MapGrid>|
                #![trigger is_run(chain, original, passes as nat, rule)]
                is_run(chain, original, passes as nat, rule) && same_states(&r.0, &chain.last()) && (
                track_changes && passes >= 1 ==> r.1@.len() == chain.len() && forall|k: int|
                    #![trigger r.1@[k]]
                    0 <= k < chain.len() ==> r.1@[k].wf() && same_states(&r.1@[k], &chain[k])),
            !(track_changes && passes >= 1) ==> r.1@.len() == 0,
    {
        proof {
            reveal_with_fuel(copied_name, 2);
        }
        if passes < 1 {
            let copy = MapGrid::create_copy(original);
            let ghost chain = seq![copy];
            assert(is_run(chain, original, passes as nat, rule));
            return (copy, Vec::new());
        }
        let mut grid = MapGrid::create_copy(original);
        let mut history: Vec<MapGrid> = Vec::new();
        let ghost mut chain: Seq<MapGrid> = seq![grid];
        if track_changes {
            history.push(MapGrid::create_copy(&grid));
        }
        let mut p: usize = 0;
        while p < passes
            invariant
                original.wf(),
                grid.wf(),
                p <= passes,
                grid.spec_name() == copied_name(original.spec_name(), p as nat + 1),
                chain.len() == p + 1,
                chain.last() == grid,
                same_states(&chain[0], original),
                forall|k: int| #![trigger chain[k]] 0 <= k < chain.len() ==> chain[k].wf(),
                forall|k: int| #![trigger chain[k + 1]] 0 <= k < p ==> is_step(&chain[k + 1], &chain[k], rule),
                track_changes ==> history@.len() == chain.len(),
                !track_changes ==> history@.len() == 0,
                track_changes ==> forall|k: int|
                    #![trigger history@[k]]
                    0 <= k < chain.len() ==> history@[k].wf() && same_states(&history@[k], &chain[k]),
            decreases passes - p,
        {
            let next = Self::step(&grid, rule);
            proof {
                reveal_with_fuel(copied_name, 2);
                let c0 = chain;
                chain = chain.push(next);
                assert forall|k: int| #![trigger chain[k + 1]] 0 <= k < p + 1 implies is_step(
                    &chain[k + 1],
                    &chain[k],
                    rule,
                ) by {
                    if k < p {
                        assert(chain[k + 1] == c0[k + 1]);
                        assert(chain[k] == c0[k]);
                    }
                }
                assert(chain[0] == c0[0]);
                assert(copied_name(original.spec_name(), p as nat + 2) == match copied_name(
                    original.spec_name(),
                    p as nat + 1,
                ) {
                    Some(n) => Some(n + " (Copy)"@),
                    None => None,
                });
            }
            grid = next;
            if track_changes {
                let c = MapGrid::create_copy(&grid);
                let ghost h0 = history@;
                history.push(c);
                proof {
                    assert forall|k: int| #![trigger history@[k]] 0 <= k < chain.len() implies history@[k].wf()
                        && same_states(&history@[k], &chain[k]) by {
                        if k < chain.len() - 1 {
                            assert(history@[k] == h0[k]);
                        }
                    }
                }
            }
            p = p + 1;
        }
        proof {
            assert(is_run(chain, original, passes as nat, rule));
            assert(same_states(&grid, &chain.last()));
        }
        (grid, history)
    }

    /// Runs `passes` steps of the wide `rule` on a copy of `original` (invalid cells are left as
    /// they are and never given to the rule); the history of every grid, starting with the
    /// copy, is kept when `track_changes` is true and `passes` is at least 1, and is empty
    /// otherwise.
    pub fn flexible2<R2: NeighborRule2>(original: &MapGrid, passes: usize, track_changes: bool, rule: &R2) -> (r: (
        MapGrid,
        Vec<MapGrid>,
    ))
        requires
            original.wf(),
        ensures
            r.0.wf(),
            r.0.spec_name() == copied_name(original.spec_name(), passes as nat + 1),
            exists|chain: Seq<MapGrid>|
                #![trigger is_run2(chain, original, passes as nat, rule)]
                is_run2(chain, original, passes as nat, rule) && same_states(&r.0, &chain.last()) && (
                track_changes && passes >= 1 ==> r.1@.len() == chain.len() && forall|k: int|
                    #![trigger r.1@[k]]
                    0 <= k < chain.len() ==> r.1@[k].wf() && same_states(&r.1@[k], &chain[k])),
            !(track_changes && passes >= 1) ==> r.1@.len() == 0,
    {
        proof {
            reveal_with_fuel(copied_name, 2);
        }
        if passes < 1 {
            let copy = MapGrid::create_copy(original);
            let ghost chain = seq![copy];
            assert(is_run2(chain, original, passes as nat, rule));
            return (copy, Vec::new());
        }
        let mut grid = MapGrid::create_copy(original);
        let mut history: Vec<MapGrid> = Vec::new();
        let ghost mut chain: Seq<MapGrid> = seq![grid];
        if track_changes {
            history.push(MapGrid::create_copy(&grid));
        }
        let mut p: usize = 0;
        while p < passes
            invariant
                original.wf(),
                grid.wf(),
                grid.spec_width() == original.spec_width(),
                grid.spec_height() == original.spec_height(),
                p <= passes,
                grid.spec_name() == copied_name(original.spec_name(), p as nat + 1),
                chain.len() == p + 1,
                chain.last() == grid,
                same_states(&chain[0], original),
                forall|k: int| #![trigger chain[k]] 0 <= k < chain.len() ==> chain[k].wf(),
                forall|k: int| #![trigger chain[k + 1]] 0 <= k < p ==> is_step2(&chain[k + 1], &chain[k], rule),
                track_changes ==> history@.len() == chain.len(),
                !track_changes ==> history@.len() == 0,
                track_changes ==> forall|k: int|
                    #![trigger history@[k]]
                    0 <= k < chain.len() ==> history@[k].wf() && same_states(&history@[k], &chain[k]),
            decreases passes - p,
        {
            let next = Self::step2(&grid, rule);
            proof {
                reveal_with_fuel(copied_name, 2);
                let c0 = chain;
                chain = chain.push(next);
                assert forall|k: int| #![trigger chain[k + 1]] 0 <= k < p + 1 implies is_step2(
                    &chain[k + 1],
                    &chain[k],
                    rule,
                ) by {
                    if k < p {
                        assert(chain[k + 1] == c0[k + 1]);
                        assert(chain[k] == c0[k]);
                    }
                }
                assert(chain[0] == c0[0]);
                assert(copied_name(original.spec_name(), p as nat + 2) == match copied_name(
                    original.spec_name(),
                    p as nat + 1,
                ) {
                    Some(n) => Some(n + " (Copy)"@),
                    None => None,
                });
            }
            grid = next;
            if track_changes {
                let c = MapGrid::create_copy(&grid);
                let ghost h0 = history@;
                history.push(c);
                proof {
                    assert forall|k: int| #![trigger history@[k]] 0 <= k < chain.len() implies history@[k].wf()
                        && same_states(&history@[k], &chain[k]) by {
                        if k < chain.len() - 1 {
                            assert(history@[k] == h0[k]);
                        }
                    }
                }
            }
            p = p + 1;
        }
        proof {
            assert(is_run2(chain, original, passes as nat, rule));
            assert(same_states(&grid, &chain.last()));
        }
        (grid, history)
    }

    /// Whether `r` is the result of running `alg` for `passes` passes on `original`.
    pub open spec fn ran<R: NeighborRule, R2: NeighborRule2>(
        r: &MapGrid,
        original: &MapGrid,
        passes: nat,
        alg: Algorithm<R, R2>,
    ) -> bool {
        match alg {
            Algorithm::First(a) => ran_rule(r, original, passes, &a),
            Algorithm::Flex(f) => ran_rule(r, original, passes, &f.predicate),
            Algorithm::Flex2(f) => ran_rule2(r, original, passes, &f.predicate),
        }
    }

    /// Creates a random grid of `size` with 45% of its cells on (rounded down) and the others
    /// off, then runs the indicated algorithm on it for the given number of passes. Returns
    /// the random grid, the final grid, and an empty history.
    pub fn create_and_run<R: NeighborRule, R2: NeighborRule2>(
        size: (usize, usize),
        passes: usize,
        alg_args: Algorithm<R, R2>,
    ) -> (r: (MapGrid, MapGrid, Vec<MapGrid>))
        requires
            3 <= size.0,
            3 <= size.1,
            size.0 * size.1 <= usize::MAX,
        ensures
            r.0.wf(),
            r.0.spec_width() == size.0,
            r.0.spec_height() == size.1,
            r.0.spec_name() is None,
            r.0.count_state(TriState::True) == size.0 * size.1 * 45 / 100,
            r.0.count_state(TriState::False) == size.0 * size.1 - size.0 * size.1 * 45 / 100,
            r.0.count_state(TriState::Invalid) == 0,
            r.1.wf(),
            r.1.spec_name() is None,
            Self::ran(&r.1, &r.0, passes as nat, alg_args),
            r.2@.len() == 0,
    {
        let cells = size.0 * size.1;
        let target = cells / 100 * 45 + cells % 100 * 45 / 100;
        assert(target == cells * 45 / 100) by (nonlinear_arith)
            requires
                target == cells / 100 * 45 + cells % 100 * 45 / 100,
        {
        }
        let original = MapGrid::random_fill_number(size, target);
        proof {
            lemma_copied_unnamed(passes as nat + 1);
        }
        let last = Self::execute_on(&original, passes, alg_args);
        (original, last, Vec::new())
    }

    /// Runs the indicated algorithm on a copy of `original` for the given number of passes.
    pub fn execute_on<R: NeighborRule, R2: NeighborRule2>(original: &MapGrid, passes: usize, alg_args: Algorithm<
        R,
        R2,
    >) -> (r: MapGrid)
        requires
            original.wf(),
        ensures
            r.wf(),
            r.spec_name() == copied_name(original.spec_name(), passes as nat + 1),
            Self::ran(&r, original, passes as nat, alg_args),
    {
        match alg_args {
            Algorithm::First(faa) => Self::flexible(original, passes, false, &faa).0,
            Algorithm::Flex(f) => Self::flexible(original, passes, false, &f.predicate).0,
            Algorithm::Flex2(f2) => Self::flexible2(original, passes, false, &f2.predicate).0,
        }
    }

    /// Runs the indicated algorithm like [`CellularAutomata::execute_on`], also returning the
    /// grid before the first pass and after every pass (empty when `passes` is 0).
    pub fn execute_with_history<R: NeighborRule, R2: NeighborRule2>(
        original: &MapGrid,
        passes: usize,
        alg_args: Algorithm<R, R2>,
    ) -> (r: (MapGrid, Vec<MapGrid>))
        requires
            original.wf(),
        ensures
            r.0.wf(),
            r.0.spec_name() == copied_name(original.spec_name(), passes as nat + 1),
            Self::ran(&r.0, original, passes as nat, alg_args),
            passes >= 1 ==> r.1@.len() == passes + 1,
            passes == 0 ==> r.1@.len() == 0,
            forall|k: int| #![trigger r.1@[k]] 0 <= k < r.1@.len() ==> r.1@[k].wf() && Self::ran(
                &r.1@[k],
                original,
                k as nat,
                alg_args,
            ),
    {
        match alg_args {
            Algorithm::First(faa) => {
                let r = Self::flexible(original, passes, true, &faa);
                proof {
                    Self::lemma_history_prefixes(original, passes as nat, &faa, r.1@);
                }
                r
            },
            Algorithm::Flex(f) => {
                let r = Self::flexible(original, passes, true, &f.predicate);
                proof {
                    Self::lemma_history_prefixes(original, passes as nat, &f.predicate, r.1@);
                }
                r
            },
            Algorithm::Flex2(f2) => {
                let r = Self::flexible2(original, passes, true, &f2.predicate);
                proof {
                    Self::lemma_history_prefixes2(original, passes as nat, &f2.predicate, r.1@);
                }
                r
            },
        }
    }

    /// Each entry of a tracked history is the result of running as many passes as its index.
    proof fn lemma_history_prefixes<R: NeighborRule>(original: &MapGrid, passes: nat, rule: &R, h: Seq<MapGrid>)
        requires
            passes >= 1 ==> exists|chain: Seq<MapGrid>|
                #![trigger is_run(chain, original, passes, rule)]
                is_run(chain, original, passes, rule) && h.len() == chain.len() && forall|k: int|
                    #![trigger h[k]]
                    0 <= k < chain.len() ==> h[k].wf() && same_states(&h[k], &chain[k]),
        ensures
            passes >= 1 ==> forall|k: int| #![trigger h[k]] 0 <= k < h.len() ==> ran_rule(&h[k], original, k as nat, rule),
    {
        if passes >= 1 {
            let chain = choose|chain: Seq<MapGrid>|
                #![trigger is_run(chain, original, passes, rule)]
                is_run(chain, original, passes, rule) && h.len() == chain.len() && forall|k: int|
                    #![trigger h[k]]
                    0 <= k < chain.len() ==> h[k].wf() && same_states(&h[k], &chain[k]);
            assert forall|k: int| #![trigger h[k]] 0 <= k < h.len() implies ran_rule(&h[k], original, k as nat, rule) by {
                let c = chain.take(k + 1);
                assert(c.last() == chain[k]);
                assert forall|m: int| #![trigger c[m + 1]] 0 <= m < k implies is_step(&c[m + 1], &c[m], rule) by {
                    assert(c[m + 1] == chain[m + 1]);
                    assert(c[m] == chain[m]);
                }
                assert(c[0] == chain[0]);
                assert(is_run(c, original, k as nat, rule));
                assert(same_states(&h[k], &c.last()));
            }
        }
    }

    /// Like [`CellularAutomata::lemma_history_prefixes`], for the wide rule.
    proof fn lemma_history_prefixes2<R2: NeighborRule2>(original: &MapGrid, passes: nat, rule: &R2, h: Seq<MapGrid>)
        requires
            passes >= 1 ==> exists|chain: Seq<MapGrid>|
                #![trigger is_run2(chain, original, passes, rule)]
                is_run2(chain, original, passes, rule) && h.len() == chain.len() && forall|k: int|
                    #![trigger h[k]]
                    0 <= k < chain.len() ==> h[k].wf() && same_states(&h[k], &chain[k]),
        ensures
            passes >= 1 ==> forall|k: int| #![trigger h[k]] 0 <= k < h.len() ==> ran_rule2(&h[k], original, k as nat, rule),
    {
        if passes >= 1 {
            let chain = choose|chain: Seq<MapGrid>|
                #![trigger is_run2(chain, original, passes, rule)]
                is_run2(chain, original, passes, rule) && h.len() == chain.len() && forall|k: int|
                    #![trigger h[k]]
                    0 <= k < chain.len() ==> h[k].wf() && same_states(&h[k], &chain[k]);
            assert forall|k: int| #![trigger h[k]] 0 <= k < h.len() implies ran_rule2(&h[k], original, k as nat, rule) by {
                let c = chain.take(k + 1);
                assert(c.last() == chain[k]);
                assert forall|m: int| #![trigger c[m + 1]] 0 <= m < k implies is_step2(&c[m + 1], &c[m], rule) by {
                    assert(c[m + 1] == chain[m + 1]);
                    assert(c[m] == chain[m]);
                }
                assert(c[0] == chain[0]);
                assert(is_run2(c, original, k as nat, rule));
            }
        }
    }
}

/// Grids with the same cells step to grids with the same cells.
proof fn lemma_step_unique<R: NeighborRule>(n1: &MapGrid, n2: &MapGrid, p1: &MapGrid, p2: &MapGrid, rule: &R)
    requires
        same_states(p1, p2),
        is_step(n1, p1, rule),
        is_step(n2, p2, rule),
    ensures
        same_states(n1, n2),
{
    assert forall|i: int, j: int| #![trigger n1.state_at(i, j)] n1.in_bounds(i, j) implies n1.state_at(i, j)
        == n2.state_at(i, j) by {
        MapGrid::lemma_neighbors_same(p1, p2, (i as usize, j as usize), TriState::True, true);
        assert(p1.state_at(i, j) == p2.state_at(i, j));
        assert(n2.in_bounds(i, j));
    }
}

/// Grids with the same cells step to grids with the same cells under the wide rule.
proof fn lemma_step2_unique<R2: NeighborRule2>(n1: &MapGrid, n2: &MapGrid, p1: &MapGrid, p2: &MapGrid, rule: &R2)
    requires
        same_states(p1, p2),
        is_step2(n1, p1, rule),
        is_step2(n2, p2, rule),
    ensures
        same_states(n1, n2),
{
    assert forall|i: int, j: int| #![trigger n1.state_at(i, j)] n1.in_bounds(i, j) implies n1.state_at(i, j)
        == n2.state_at(i, j) by {
        MapGrid::lemma_neighbors_same(p1, p2, (i as usize, j as usize), TriState::True, true);
        MapGrid::lemma_active_neighbors_n_same(p1, p2, i as usize, j as usize, 2);
        assert(p1.state_at(i, j) == p2.state_at(i, j));
        assert(n2.in_bounds(i, j));
    }
}

/// Two runs of a rule from the same grid agree at every step.
proof fn lemma_run_unique<R: NeighborRule>(c1: Seq<MapGrid>, c2: Seq<MapGrid>, original: &MapGrid, passes: nat, rule: &R, k: int)
    requires
        is_run(c1, original, passes, rule),
        is_run(c2, original, passes, rule),
        0 <= k <= passes,
    ensures
        same_states(&c1[k], &c2[k]),
    decreases k,
{
    if k == 0 {
        assert forall|i: int, j: int| #![trigger c1[0].state_at(i, j)] c1[0].in_bounds(i, j) implies c1[0].state_at(i, j)
            == c2[0].state_at(i, j) by {
            assert(original.state_at(i, j) == original.state_at(i, j));
        }
    } else {
        lemma_run_unique(c1, c2, original, passes, rule, k - 1);
        assert(is_step(&c1[(k - 1) + 1], &c1[k - 1], rule));
        assert(is_step(&c2[(k - 1) + 1], &c2[k - 1], rule));
        lemma_step_unique(&c1[k], &c2[k], &c1[k - 1], &c2[k - 1], rule);
    }
}

/// Two runs of a wide rule from the same grid agree at every step.
proof fn lemma_run2_unique<R2: NeighborRule2>(
    c1: Seq<MapGrid>,
    c2: Seq<MapGrid>,
    original: &MapGrid,
    passes: nat,
    rule: &R2,
    k: int,
)
    requires
        is_run2(c1, original, passes, rule),
        is_run2(c2, original, passes, rule),
        0 <= k <= passes,
    ensures
        same_states(&c1[k], &c2[k]),
    decreases k,
{
    if k == 0 {
        assert forall|i: int, j: int| #![trigger c1[0].state_at(i, j)] c1[0].in_bounds(i, j) implies c1[0].state_at(i, j)
            == c2[0].state_at(i, j) by {
            assert(original.state_at(i, j) == original.state_at(i, j));
        }
    } else {
        lemma_run2_unique(c1, c2, original, passes, rule, k - 1);
        assert(is_step2(&c1[(k - 1) + 1], &c1[k - 1], rule));
        assert(is_step2(&c2[(k - 1) + 1], &c2[k - 1], rule));
        lemma_step2_unique(&c1[k], &c2[k], &c1[k - 1], &c2[k - 1], rule);
    }
}

/// Two grids that both hold the result of running an algorithm for the same number of passes
/// on the same grid have the same cells: running is deterministic. So the last grid of the
/// history that [`CellularAutomata::execute_with_history`] gives has the cells of what
/// [`CellularAutomata::execute_on`] returns for the same arguments.
pub proof fn lemma_runs_agree<R: NeighborRule, R2: NeighborRule2>(
    a: &MapGrid,
    b: &MapGrid,
    original: &MapGrid,
    passes: nat,
    alg: Algorithm<R, R2>,
)
    requires
        CellularAutomata::ran(a, original, passes, alg),
        CellularAutomata::ran(b, original, passes, alg),
    ensures
        same_states(a, b),
{
    match alg {
        Algorithm::First(f) => {
            let c1 = choose|c: Seq<MapGrid>| #[trigger] is_run(c, original, passes, &f) && same_states(a, &c.last());
            let c2 = choose|c: Seq<MapGrid>| #[trigger] is_run(c, original, passes, &f) && same_states(b, &c.last());
            lemma_run_unique(c1, c2, original, passes, &f, passes as int);
        },
        Algorithm::Flex(f) => {
            let c1 = choose|c: Seq<MapGrid>| #[trigger] is_run(c, original, passes, &f.predicate) && same_states(a, &c.last());
            let c2 = choose|c: Seq<MapGrid>| #[trigger] is_run(c, original, passes, &f.predicate) && same_states(b, &c.last());
            lemma_run_unique(c1, c2, original, passes, &f.predicate, passes as int);
        },
        Algorithm::Flex2(f) => {
            let c1 = choose|c: Seq<MapGrid>| #[trigger] is_run2(c, original, passes, &f.predicate) && same_states(a, &c.last());
            let c2 = choose|c: Seq<MapGrid>| #[trigger] is_run2(c, original, passes, &f.predicate) && same_states(b, &c.last());
            lemma_run2_unique(c1, c2, original, passes, &f.predicate, passes as int);
        },
    }
    assert forall|i: int, j: int| #![trigger a.state_at(i, j)] a.in_bounds(i, j) implies a.state_at(i, j) == b.state_at(i, j) by {
        assert(a.state_at(i, j) == a.state_at(i, j));
    }
}

} // verus!
