//! Paths between two cells of a grid that step through `off` cells, found with the
//! `pathfinding` crate.
use vstd::prelude::*;

use crate::data::grid::MapGrid;
use crate::data::types::GridPos;
use crate::util::math::{absdiff, spec_abs};
use crate::util::tri::TriState;

verus! {

/// Whether `q` is a step from `p`: one of the neighbors of `p` that is an `off` cell.
pub open spec fn is_step(grid: MapGrid, p: (usize, usize), q: (usize, usize)) -> bool {
    grid.spec_neighbors_with_state(p, TriState::False, false).contains(q)
}

/// Whether `path` walks from `start` to `goal`, each next point a step from the one before.
pub open spec fn is_walk(grid: MapGrid, path: Seq<(usize, usize)>, start: (usize, usize), goal: (usize, usize)) -> bool {
    &&& path.len() >= 1
    &&& path[0] == start
    &&& path.last() == goal
    &&& forall|k: int| 0 <= k < path.len() - 1 ==> is_step(grid, #[trigger] path[k], path[k + 1])
}

/// Whether no point occurs twice in `path`.
pub open spec fn no_repeats(path: Seq<(usize, usize)>) -> bool {
    forall|a: int, b: int| 0 <= a < b < path.len() ==> path[a] != path[b]
}

/// Whether `path` is a walk from `start` to `goal` that visits no point twice.
pub open spec fn found_path(grid: MapGrid, path: Seq<(usize, usize)>, start: (usize, usize), goal: (usize, usize)) -> bool {
    is_walk(grid, path, start, goal) && no_repeats(path)
}

/// Whether there is a walk from `start` to `goal`.
pub open spec fn reachable(grid: MapGrid, start: (usize, usize), goal: (usize, usize)) -> bool {
    exists|path: Seq<(usize, usize)>| #[trigger] is_walk(grid, path, start, goal)
}

/// Whether no walk from `start` to `goal` is shorter than `path`.
pub open spec fn shortest(grid: MapGrid, path: Seq<(usize, usize)>, start: (usize, usize), goal: (usize, usize)) -> bool {
    forall|other: Seq<(usize, usize)>| #[trigger] is_walk(grid, other, start, goal) ==> path.len() <= other.len()
}

/// The Manhattan distance between two points.
pub open spec fn manhattan(a: (usize, usize), b: (usize, usize)) -> int {
    spec_abs(a.0 - b.0) + spec_abs(a.1 - b.1)
}

/// Whether the Manhattan distance to `goal` fits in a `usize` from `start`, and from every cell
/// of the grid even when added to the number of cells (a bound on the cost of any path that a
/// search builds), so that a search adding cost and estimate does not overflow.
pub open spec fn heuristic_fits(grid: MapGrid, start: (usize, usize), goal: (usize, usize)) -> bool {
    &&& manhattan(start, goal) <= usize::MAX
    &&& forall|x: usize, y: usize|
        grid.in_bounds(x as int, y as int) ==> #[trigger] manhattan((x, y), goal) + grid.spec_width()
            * grid.spec_height() <= usize::MAX
}

/// The result of a search from `start` to `goal`: a path that no walk beats when `best`, and
/// `None` only when no walk exists.
pub open spec fn search_result(
    grid: MapGrid,
    r: Option<Vec<(usize, usize)>>,
    start: (usize, usize),
    goal: (usize, usize),
    best: bool,
) -> bool {
    match r {
        Some(path) => found_path(grid, path@, start, goal) && (best ==> shortest(grid, path@, start, goal)),
        None => !reachable(grid, start, goal),
    }
}

/// The path of a search result that comes with its cost.
pub open spec fn path_of(r: Option<(Vec<(usize, usize)>, usize)>) -> Option<Vec<(usize, usize)>> {
    match r {
        Some((p, _c)) => Some(p),
        None => None,
    }
}

/// The neighbors of `p` that are `off` cells, each with a cost of 1 to step to.
pub fn weighted_neighbors(grid: &MapGrid, p: (usize, usize)) -> (r: Vec<((usize, usize), usize)>)
    requires
        grid.wf(),
        p.0 < usize::MAX,
        p.1 < usize::MAX,
    ensures
        r@.len() == grid.spec_neighbors_with_state(p, TriState::False, false).len(),
        forall|k: int|
            #![trigger r@[k]]
            0 <= k < r@.len() ==> r@[k] == (grid.spec_neighbors_with_state(p, TriState::False, false)[k], 1usize),
{
    let ns = grid.neighbors_with_state(p, false, false);
    let mut out: Vec<((usize, usize), usize)> = Vec::new();
    let mut k: usize = 0;
    while k < ns.len()
        invariant
            k <= ns@.len(),
            out@.len() == k,
            forall|m: int| #![trigger out@[m]] 0 <= m < k ==> out@[m] == (ns@[m], 1usize),
        decreases ns@.len() - k,
    {
        out.push((ns[k], 1));
        k = k + 1;
    }
    out
}

/// Calls `pathfinding::prelude::dijkstra` from `start`, with the steps of
/// [`weighted_neighbors`] and the goal `goal`. Its documentation promises a shortest path from
/// `start` to a node where the goal is reached, holding both ends and no node twice, with its
/// cost, and `None` when no path can be found.
#[verifier::external_body]
fn dijkstra_search(grid: &MapGrid, start: (usize, usize), goal: (usize, usize)) -> (r: Option<(Vec<(usize, usize)>, usize)>)
    requires
        grid.wf(),
        start.0 < usize::MAX,
        start.1 < usize::MAX,
    ensures
        search_result(*grid, path_of(r), start, goal, true),
{
    pathfinding::prelude::dijkstra(
        &start,
        |p: &(usize, usize)| weighted_neighbors(grid, *p),
        |p: &(usize, usize)| Pathfinding::default_success(*p, goal),
    )
}

/// Calls `pathfinding::prelude::astar` from `start`, with the steps of [`weighted_neighbors`],
/// the Manhattan distance to `goal` as its estimate and the goal `goal`. Its documentation
/// promises a shortest path, holding both ends and no node twice, with its cost, as long as
/// the estimate is never more than the real cost (a diagonal step costs 1 and moves a Manhattan
/// distance of 2, so this is not promised here), and `None` when no path can be found. It adds
/// the cost of a path to the estimate, which [`heuristic_fits`] keeps within a `usize`.
#[verifier::external_body]
fn astar_search(grid: &MapGrid, start: (usize, usize), goal: (usize, usize)) -> (r: Option<(Vec<(usize, usize)>, usize)>)
    requires
        grid.wf(),
        start.0 < usize::MAX,
        start.1 < usize::MAX,
        heuristic_fits(*grid, start, goal),
    ensures
        search_result(*grid, path_of(r), start, goal, false),
{
    pathfinding::prelude::astar(
        &start,
        |p: &(usize, usize)| weighted_neighbors(grid, *p),
        |p: &(usize, usize)| Pathfinding::default_heuristic(*p, goal),
        |p: &(usize, usize)| Pathfinding::default_success(*p, goal),
    )
}

/// Calls `pathfinding::prelude::bfs` from `start`, with the steps of `neighbors_with_state`
/// and the goal `goal`. Its documentation promises a shortest path, holding both ends and no
/// node twice, and `None` when no path can be found.
#[verifier::external_body]
fn bfs_search(grid: &MapGrid, start: (usize, usize), goal: (usize, usize)) -> (r: Option<Vec<(usize, usize)>>)
    requires
        grid.wf(),
        start.0 < usize::MAX,
        start.1 < usize::MAX,
    ensures
        search_result(*grid, r, start, goal, true),
{
    pathfinding::prelude::bfs(
        &start,
        |p: &(usize, usize)| grid.neighbors_with_state(*p, false, false),
        |p: &(usize, usize)| Pathfinding::default_success(*p, goal),
    )
}

/// Calls `pathfinding::prelude::dfs` from `start`, with the steps of `neighbors_with_state`
/// and the goal `goal`. Its documentation promises a path, holding both ends and no node
/// twice, and `None` when no path can be found.
#[verifier::external_body]
fn dfs_search(grid: &MapGrid, start: (usize, usize), goal: (usize, usize)) -> (r: Option<Vec<(usize, usize)>>)
    requires
        grid.wf(),
        start.0 < usize::MAX,
        start.1 < usize::MAX,
    ensures
        search_result(*grid, r, start, goal, false),
{
    pathfinding::prelude::dfs(
        start,
        |p: &(usize, usize)| grid.neighbors_with_state(*p, false, false),
        |p: &(usize, usize)| Pathfinding::default_success(*p, goal),
    )
}

/// Calls `pathfinding::prelude::fringe` from `start`, with the steps of
/// [`weighted_neighbors`], the Manhattan distance to `goal` as its estimate and the goal
/// `goal`. Its documentation promises a shortest path only for an estimate that is never more
/// than the real cost, which is not promised here, holding both ends and no node twice, with
/// its cost, and `None` when no path can be found. It adds the cost of a path to the estimate,
/// which [`heuristic_fits`] keeps within a `usize`.
#[verifier::external_body]
fn fringe_search(grid: &MapGrid, start: (usize, usize), goal: (usize, usize)) -> (r: Option<(Vec<(usize, usize)>, usize)>)
    requires
        grid.wf(),
        start.0 < usize::MAX,
        start.1 < usize::MAX,
        heuristic_fits(*grid, start, goal),
    ensures
        search_result(*grid, path_of(r), start, goal, false),
{
    pathfinding::prelude::fringe(
        &start,
        |p: &(usize, usize)| weighted_neighbors(grid, *p),
        |p: &(usize, usize)| Pathfinding::default_heuristic(*p, goal),
        |p: &(usize, usize)| Pathfinding::default_success(*p, goal),
    )
}

/// The points of a path as [`GridPos`] values.
fn to_positions(path: &Vec<(usize, usize)>) -> (r: Vec<GridPos>)
    ensures
        r@.len() == path@.len(),
        forall|k: int| #![trigger r@[k]] 0 <= k < r@.len() ==> (r@[k].x, r@[k].y) == path@[k],
{
    let mut out: Vec<GridPos> = Vec::new();
    let mut k: usize = 0;
    while k < path.len()
        invariant
            k <= path@.len(),
            out@.len() == k,
            forall|m: int| #![trigger out@[m]] 0 <= m < k ==> (out@[m].x, out@[m].y) == path@[m],
        decreases path@.len() - k,
    {
        let (x, y) = path[k];
        out.push(GridPos { x, y });
        k = k + 1;
    }
    out
}

/// The points of a [`GridPos`] path as pairs.
pub open spec fn pairs_of(path: Seq<GridPos>) -> Seq<(usize, usize)> {
    path.map_values(|p: GridPos| (p.x, p.y))
}

/// The result of a public search: the path of [`search_result`] as [`GridPos`] values.
pub open spec fn found(grid: MapGrid, r: Option<Vec<GridPos>>, start: (usize, usize), goal: (usize, usize), best: bool) -> bool {
    match r {
        Some(path) => found_path(grid, pairs_of(path@), start, goal) && (best ==> shortest(
            grid,
            pairs_of(path@),
            start,
            goal,
        )),
        None => !reachable(grid, start, goal),
    }
}

/// Converts the result of a search.
fn convert_result(grid: &MapGrid, r: Option<Vec<(usize, usize)>>, start: (usize, usize), goal: (usize, usize), best: bool) -> (out: Option<Vec<GridPos>>)
    requires
        search_result(*grid, r, start, goal, best),
    ensures
        found(*grid, out, start, goal, best),
{
    match r {
        Some(path) => {
            let ps = to_positions(&path);
            proof {
                assert(pairs_of(ps@) =~= path@);
            }
            Some(ps)
        },
        None => None,
    }
}

/// Pathfinding functions that work with [`MapGrid`]: each looks for a path from `start` to
/// `goal` that steps through `off` cells, one of the up to eight neighbors of a point at a
/// time, and returns it from `start` to `goal` with no point twice, or `None` when there is no
/// such path.
pub struct Pathfinding;

impl Pathfinding {
    /// The Manhattan distance between two points.
    pub fn default_heuristic(first: (usize, usize), second: (usize, usize)) -> (r: usize)
        requires
            manhattan(first, second) <= usize::MAX,
        ensures
            r == manhattan(first, second),
    {
        absdiff(first.0, second.0) + absdiff(first.1, second.1)
    }

    /// Whether the goal is reached.
    pub fn default_success(current: (usize, usize), goal: (usize, usize)) -> (r: bool)
        ensures
            r == (current == goal),
    {
        current.0 == goal.0 && current.1 == goal.1
    }

    /// A shortest path found with Dijkstra's algorithm.
    pub fn dijkstra(grid: &MapGrid, start: (usize, usize), goal: (usize, usize)) -> (r: Option<Vec<GridPos>>)
        requires
            grid.wf(),
            start.0 < usize::MAX,
            start.1 < usize::MAX,
        ensures
            found(*grid, r, start, goal, true),
    {
        let res = dijkstra_search(grid, start, goal);
        let path = match res {
            Some((p, _cost)) => Some(p),
            None => None,
        };
        convert_result(grid, path, start, goal, true)
    }

    /// A path found with the A* algorithm, guided by the Manhattan distance to `goal`.
    pub fn a_star(grid: &MapGrid, start: (usize, usize), goal: (usize, usize)) -> (r: Option<Vec<GridPos>>)
        requires
            grid.wf(),
            start.0 < usize::MAX,
            start.1 < usize::MAX,
            heuristic_fits(*grid, start, goal),
        ensures
            found(*grid, r, start, goal, false),
    {
        let res = astar_search(grid, start, goal);
        let path = match res {
            Some((p, _cost)) => Some(p),
            None => None,
        };
        convert_result(grid, path, start, goal, false)
    }

    /// A shortest path found with a breadth-first search.
    pub fn bfs(grid: &MapGrid, start: (usize, usize), goal: (usize, usize)) -> (r: Option<Vec<GridPos>>)
        requires
            grid.wf(),
            start.0 < usize::MAX,
            start.1 < usize::MAX,
        ensures
            found(*grid, r, start, goal, true),
    {
        let res = bfs_search(grid, start, goal);
        convert_result(grid, res, start, goal, true)
    }

    /// A path found with a depth-first search.
    pub fn dfs(grid: &MapGrid, start: (usize, usize), goal: (usize, usize)) -> (r: Option<Vec<GridPos>>)
        requires
            grid.wf(),
            start.0 < usize::MAX,
            start.1 < usize::MAX,
        ensures
            found(*grid, r, start, goal, false),
    {
        let res = dfs_search(grid, start, goal);
        convert_result(grid, res, start, goal, false)
    }

    /// A path found with the fringe search, guided by the Manhattan distance to `goal`.
    pub fn fringe(grid: &MapGrid, start: (usize, usize), goal: (usize, usize)) -> (r: Option<Vec<GridPos>>)
        requires
            grid.wf(),
            start.0 < usize::MAX,
            start.1 < usize::MAX,
            heuristic_fits(*grid, start, goal),
        ensures
            found(*grid, r, start, goal, false),
    {
        let res = fringe_search(grid, start, goal);
        let path = match res {
            Some((p, _cost)) => Some(p),
            None => None,
        };
        convert_result(grid, path, start, goal, false)
    }
}

} // verus!
