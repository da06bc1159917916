//! Converting between a [`MapGrid`] and the grid of the `pathfinding` crate.
use vstd::prelude::*;

use crate::data::grid::MapGrid;
use crate::util::tri::TriState;

use pathfinding::grid::Grid as PFGrid;

verus! {

/// The grid of the `pathfinding` crate: a set of vertices on a width by height board.
#[verifier::external_type_specification]
#[verifier::external_body]
pub struct ExPfGrid(pathfinding::grid::Grid);

/// The vertices of a `pathfinding` grid.
pub uninterp spec fn pf_vertices(g: PFGrid) -> Set<(usize, usize)>;

/// The width and height a `pathfinding` grid was made with, and whether its diagonal mode is
/// on.
pub uninterp spec fn pf_shape(g: PFGrid) -> (usize, usize, bool);

/// Calls `Grid::new`, which makes an empty grid of the given size with diagonal mode off.
#[verifier::external_body]
fn pf_new(width: usize, height: usize) -> (r: PFGrid)
    ensures
        pf_vertices(r) == Set::<(usize, usize)>::empty(),
        pf_shape(r) == (width, height, false),
{
    PFGrid::new(width, height)
}

/// Calls `Grid::enable_diagonal_mode`, which turns diagonal mode on and changes nothing else.
#[verifier::external_body]
fn pf_enable_diagonal(g: &mut PFGrid)
    ensures
        pf_vertices(*final(g)) == pf_vertices(*old(g)),
        pf_shape(*final(g)) == (pf_shape(*old(g)).0, pf_shape(*old(g)).1, true),
{
    g.enable_diagonal_mode();
}

/// Calls `Grid::add_vertex`, which adds a vertex that lies inside the grid, and tells whether
/// it was not there before; a vertex outside is not added. It may rebalance the grid's storage,
/// which multiplies the width by the height: that product must fit in a `usize`.
#[verifier::external_body]
fn pf_add_vertex(g: &mut PFGrid, v: (usize, usize)) -> (r: bool)
    requires
        pf_shape(*old(g)).0 * pf_shape(*old(g)).1 <= usize::MAX,
    ensures
        pf_shape(*final(g)) == pf_shape(*old(g)),
        (v.0 < pf_shape(*old(g)).0 && v.1 < pf_shape(*old(g)).1) ==> pf_vertices(*final(g))
            == pf_vertices(*old(g)).insert(v) && r == !pf_vertices(*old(g)).contains(v),
        !(v.0 < pf_shape(*old(g)).0 && v.1 < pf_shape(*old(g)).1) ==> pf_vertices(*final(g))
            == pf_vertices(*old(g)) && !r,
{
    g.add_vertex(v)
}

/// Calls `Grid::iter`, which yields the vertices of the grid, and collects them. On a dense
/// grid the iterator walks the rows up to the width, so the width must not be 0; the grids
/// this library reads are at least 3 by 3. A sparse grid yields every position it stored,
/// and the public `width` and `height` fields may have been shrunk since: so what is stated
/// is that the vertices are exactly the collected positions that lie inside the width and
/// height. Which order they come in is not stated here.
#[verifier::external_body]
fn pf_vertex_list(g: &PFGrid) -> (r: Vec<(usize, usize)>)
    requires
        pf_shape(*g).0 >= 3,
        pf_shape(*g).1 >= 3,
    ensures
        forall|v: (usize, usize)|
            #![trigger pf_vertices(*g).contains(v)]
            pf_vertices(*g).contains(v) <==> (r@.contains(v) && v.0 < pf_shape(*g).0 && v.1
                < pf_shape(*g).1),
{
    g.iter().collect()
}

/// Reads the `width` and `height` fields of the grid.
#[verifier::external_body]
fn pf_size(g: &PFGrid) -> (r: (usize, usize))
    ensures
        r.0 == pf_shape(*g).0,
        r.1 == pf_shape(*g).1,
{
    (g.width, g.height)
}

/// The positions of the `on` cells of a grid.
pub open spec fn on_cells(g: MapGrid) -> Set<(usize, usize)> {
    Set::new(|p: (usize, usize)| g.in_bounds(p.0 as int, p.1 as int) && g.state_at(p.0 as int, p.1 as int) == TriState::True)
}

impl MapGrid {
    /// Converts this grid into a `pathfinding` grid of the same size, in diagonal mode, whose
    /// vertices are the `on` cells.
    pub fn to_pf_grid(&self) -> (r: PFGrid)
        requires
            self.wf(),
        ensures
            pf_shape(r) == (self.spec_width(), self.spec_height(), true),
            pf_vertices(r) == on_cells(*self),
    {
        let size = self.size();
        let mut pf = pf_new(size.width, size.height);
        pf_enable_diagonal(&mut pf);
        let mut y: usize = 0;
        while y < size.height
            invariant
                self.wf(),
                size.width == self.spec_width(),
                size.height == self.spec_height(),
                y <= size.height,
                pf_shape(pf) == (size.width, size.height, true),
                pf_vertices(pf) == Set::new(|p: (usize, usize)| self.in_bounds(p.0 as int, p.1 as int) && p.1 < y && self.state_at(p.0 as int, p.1 as int) == TriState::True),
            decreases size.height - y,
        {
            let mut x: usize = 0;
            while x < size.width
                invariant
                    self.wf(),
                    size.width == self.spec_width(),
                    size.height == self.spec_height(),
                    y < size.height,
                    x <= size.width,
                    pf_shape(pf) == (size.width, size.height, true),
                    pf_vertices(pf) == Set::new(|p: (usize, usize)| self.in_bounds(p.0 as int, p.1 as int) && (p.1 < y || (p.1 == y && p.0 < x)) && self.state_at(p.0 as int, p.1 as int) == TriState::True),
                decreases size.width - x,
            {
                let on = match self.cell((x, y)) {
                    Some(c) => c.0 == TriState::True,
                    None => false,
                };
                let ghost before = pf_vertices(pf);
                if on {
                    pf_add_vertex(&mut pf, (x, y));
                }
                proof {
                    assert(pf_vertices(pf) =~= Set::new(|p: (usize, usize)| self.in_bounds(p.0 as int, p.1 as int) && (p.1 < y || (p.1 == y && p.0 < x + 1)) && self.state_at(p.0 as int, p.1 as int) == TriState::True));
                }
                x = x + 1;
            }
            proof {
                assert(pf_vertices(pf) =~= Set::new(|p: (usize, usize)| self.in_bounds(p.0 as int, p.1 as int) && p.1 < y + 1 && self.state_at(p.0 as int, p.1 as int) == TriState::True));
            }
            y = y + 1;
        }
        proof {
            assert(pf_vertices(pf) =~= on_cells(*self));
        }
        pf
    }

    /// A grid the size of the `pathfinding` grid, whose `on` cells are its vertices and whose
    /// other cells are `off`.
    pub fn from_pf_grid(pfg: &PFGrid) -> (r: Self)
        requires
            pf_shape(*pfg).0 >= 3,
            pf_shape(*pfg).1 >= 3,
            pf_shape(*pfg).0 * pf_shape(*pfg).1 <= usize::MAX,
        ensures
            r.wf(),
            r.spec_width() == pf_shape(*pfg).0,
            r.spec_height() == pf_shape(*pfg).1,
            r.spec_name() is None,
            forall|i: int, j: int|
                #![trigger r.state_at(i, j)]
                r.in_bounds(i, j) ==> r.state_at(i, j) == (if pf_vertices(*pfg).contains((i as usize, j as usize)) {
                    TriState::True
                } else {
                    TriState::False
                }),
    {
        let (w, h) = pf_size(pfg);
        let mut grid = MapGrid::empty((w, h));
        let vs = pf_vertex_list(pfg);
        let mut k: usize = 0;
        while k < vs.len()
            invariant
                k <= vs@.len(),
                grid.wf(),
                grid.spec_width() == w,
                grid.spec_height() == h,
                grid.spec_name() is None,
                forall|v: (usize, usize)|
                    #![trigger pf_vertices(*pfg).contains(v)]
                    pf_vertices(*pfg).contains(v) <==> (vs@.contains(v) && v.0 < w && v.1 < h),
                forall|i: int, j: int|
                    #![trigger grid.state_at(i, j)]
                    grid.in_bounds(i, j) ==> grid.state_at(i, j) == (if vs@.take(k as int).contains((i as usize, j as usize)) {
                        TriState::True
                    } else {
                        TriState::False
                    }),
            decreases vs@.len() - k,
        {
            let (x, y) = vs[k];
            let ghost before = grid;
            grid.set_cell_state(x, y, true);
            proof {
                let t = vs@.take(k as int);
                let t1 = vs@.take(k as int + 1);
                assert(t1 == t.push((x, y)));
                assert forall|i: int, j: int|
                    #![trigger grid.state_at(i, j)]
                    grid.in_bounds(i, j) implies grid.state_at(i, j) == (if t1.contains((i as usize, j as usize)) {
                        TriState::True
                    } else {
                        TriState::False
                    }) by {
                    let p = (i as usize, j as usize);
                    if t.contains(p) {
                        let m = choose|m: int| 0 <= m < t.len() && t[m] == p;
                        assert(t1[m] == p);
                    }
                    if p == (x, y) {
                        assert(t1[t.len() as int] == p);
                    }
                    if t1.contains(p) {
                        let m = choose|m: int| 0 <= m < t1.len() && t1[m] == p;
                        if m < t.len() {
                            assert(t[m] == p);
                        }
                    }
                    assert(before.state_at(i, j) == before.state_at(i, j));
                }
            }
            k = k + 1;
        }
        proof {
            assert(vs@.take(k as int) =~= vs@);
            assert forall|i: int, j: int|
                #![trigger grid.state_at(i, j)]
                grid.in_bounds(i, j) implies grid.state_at(i, j) == (if pf_vertices(*pfg).contains((i as usize, j as usize)) {
                    TriState::True
                } else {
                    TriState::False
                }) by {
                assert(pf_vertices(*pfg).contains((i as usize, j as usize)) <==> vs@.contains((i as usize, j as usize)));
            }
        }
        grid
    }

    /// Like [`MapGrid::from_pf_grid`], first checking the size: `None` when the grid is
    /// narrower or lower than 3 cells, or its cell count does not fit in a `usize`.
    pub fn from_pf_grid_checked(pfg: &PFGrid) -> (r: Option<Self>)
        ensures
            r is None <==> !(pf_shape(*pfg).0 >= 3 && pf_shape(*pfg).1 >= 3 && pf_shape(*pfg).0
                * pf_shape(*pfg).1 <= usize::MAX),
            r matches Some(g) ==> g.wf() && g.spec_width() == pf_shape(*pfg).0 && g.spec_height()
                == pf_shape(*pfg).1 && forall|i: int, j: int|
                #![trigger g.state_at(i, j)]
                g.in_bounds(i, j) ==> g.state_at(i, j) == (if pf_vertices(*pfg).contains((i as usize, j as usize)) {
                    TriState::True
                } else {
                    TriState::False
                }),
    {
        let (w, h) = pf_size(pfg);
        if w < 3 || h < 3 || w.checked_mul(h).is_none() {
            return None;
        }
        Some(Self::from_pf_grid(pfg))
    }
}

} // verus!
