//! Room-based map generation, and the classification of grids by size.
use vstd::prelude::*;
use vstd::std_specs::convert::FromSpecImpl;
use std::ops::Range;

use crate::data::grid::MapGrid;
use crate::data::types::{GridPos, GridSize, GridSquare};
use crate::gen::rooms::{buffered, on_border, room_edges, column_edges, Room, RoomSize};
use crate::util::random::{random_bool, random_u8, random_usize};
use crate::util::tri::TriState;

verus! {

/// Classification categories for maps, determined by the number of rows, columns, and total
/// number of cells. The categories are declared from `Unknown`, then from smallest to largest,
/// which is the order in which they compare.
#[derive(Debug, Clone, Copy, PartialEq, Eq, Structural, PartialOrd, Ord, Hash)]
pub enum GridClassification {
    /// Unknown or uninitialized result, or a parsing error.
    Unknown,
    /// A map that should only have one room: 3-8 x 3-4 (9-36 cells).
    TooSmall,
    /// About 10% of the screen, 10x5 (50 cells), with wiggle room \[9-20\]x\[5-6\].
    Tiny,
    /// About 25% of the screen, 41x9 (369 cells), with wiggle room \[21-57\]x\[7-13\].
    Small,
    /// About 50% of the screen, 82x18 (1476 cells), with wiggle room \[58-99\]x\[14-22\].
    Medium,
    /// About 75% of the screen, 123x28 (3444 cells), with wiggle room \[100-134\]x\[23-32\].
    Large,
    /// (Almost) all of the screen, 165x37 (6105 cells), with wiggle room \[135-165\]x\[33-37\].
    Huge,
    /// More than the entire screen, 166+x37+ (6106+ cells).
    Oversized,
}

/// The number of a classification: `Unknown` is 0, then 1 (`TooSmall`) up to 7 (`Oversized`).
pub open spec fn class_number(g: GridClassification) -> nat {
    match g {
        GridClassification::Unknown => 0,
        GridClassification::TooSmall => 1,
        GridClassification::Tiny => 2,
        GridClassification::Small => 3,
        GridClassification::Medium => 4,
        GridClassification::Large => 5,
        GridClassification::Huge => 6,
        GridClassification::Oversized => 7,
    }
}

/// The classification with the number `u`, or `Unknown` for a number that names none.
pub open spec fn class_of_number(u: int) -> GridClassification {
    if u == 1 {
        GridClassification::TooSmall
    } else if u == 2 {
        GridClassification::Tiny
    } else if u == 3 {
        GridClassification::Small
    } else if u == 4 {
        GridClassification::Medium
    } else if u == 5 {
        GridClassification::Large
    } else if u == 6 {
        GridClassification::Huge
    } else if u == 7 {
        GridClassification::Oversized
    } else {
        GridClassification::Unknown
    }
}

/// The class of a number of rows.
pub open spec fn rows_class(rows: int) -> GridClassification {
    if 3 <= rows <= 4 {
        GridClassification::TooSmall
    } else if 5 <= rows <= 6 {
        GridClassification::Tiny
    } else if 7 <= rows <= 13 {
        GridClassification::Small
    } else if 14 <= rows <= 22 {
        GridClassification::Medium
    } else if 23 <= rows <= 32 {
        GridClassification::Large
    } else if 33 <= rows <= 37 {
        GridClassification::Huge
    } else if 38 <= rows {
        GridClassification::Oversized
    } else {
        GridClassification::Unknown
    }
}

/// The class of a number of columns.
pub open spec fn cols_class(cols: int) -> GridClassification {
    if 3 <= cols <= 8 {
        GridClassification::TooSmall
    } else if 9 <= cols <= 20 {
        GridClassification::Tiny
    } else if 21 <= cols <= 57 {
        GridClassification::Small
    } else if 58 <= cols <= 99 {
        GridClassification::Medium
    } else if 100 <= cols <= 134 {
        GridClassification::Large
    } else if 135 <= cols <= 165 {
        GridClassification::Huge
    } else if 166 <= cols {
        GridClassification::Oversized
    } else {
        GridClassification::Unknown
    }
}

/// The class of a number of cells; fewer than 3 cells are `Unknown`.
pub open spec fn cells_class(cells: int) -> GridClassification {
    if 3 <= cells <= 44 {
        GridClassification::TooSmall
    } else if 45 <= cells <= 129 {
        GridClassification::Tiny
    } else if 130 <= cells <= 799 {
        GridClassification::Small
    } else if 800 <= cells <= 2399 {
        GridClassification::Medium
    } else if 2400 <= cells <= 4299 {
        GridClassification::Large
    } else if 4300 <= cells <= 6105 {
        GridClassification::Huge
    } else if 6106 <= cells {
        GridClassification::Oversized
    } else {
        GridClassification::Unknown
    }
}

/// The lowest number of rows of a class, and one past the highest, as the ends of its
/// row range (`(0, 0)` for `Unknown`).
pub open spec fn row_bounds(g: GridClassification) -> (usize, usize) {
    match g {
        GridClassification::TooSmall => (3, 5),
        GridClassification::Tiny => (5, 7),
        GridClassification::Small => (7, 14),
        GridClassification::Medium => (14, 23),
        GridClassification::Large => (23, 33),
        GridClassification::Huge => (33, 38),
        GridClassification::Oversized => (38, 200),
        GridClassification::Unknown => (0, 0),
    }
}

/// The column range of a class, like [`row_bounds`].
pub open spec fn col_bounds(g: GridClassification) -> (usize, usize) {
    match g {
        GridClassification::TooSmall => (3, 9),
        GridClassification::Tiny => (9, 21),
        GridClassification::Small => (21, 58),
        GridClassification::Medium => (58, 100),
        GridClassification::Large => (100, 135),
        GridClassification::Huge => (135, 166),
        GridClassification::Oversized => (166, 400),
        GridClassification::Unknown => (0, 0),
    }
}

/// The cell-count range of a class, like [`row_bounds`].
pub open spec fn cell_bounds(g: GridClassification) -> (usize, usize) {
    match g {
        GridClassification::TooSmall => (3, 45),
        GridClassification::Tiny => (45, 130),
        GridClassification::Small => (130, 800),
        GridClassification::Medium => (800, 2400),
        GridClassification::Large => (2400, 4300),
        GridClassification::Huge => (4300, 6106),
        GridClassification::Oversized => (6106, 150_000),
        GridClassification::Unknown => (0, 0),
    }
}

impl GridClassification {
    /// Classifies a number of rows.
    pub fn classify_rows(rows: usize) -> (r: Self)
        ensures
            r == rows_class(rows as int),
    {
        if 3 <= rows && rows <= 4 {
            Self::TooSmall
        } else if 5 <= rows && rows <= 6 {
            Self::Tiny
        } else if 7 <= rows && rows <= 13 {
            Self::Small
        } else if 14 <= rows && rows <= 22 {
            Self::Medium
        } else if 23 <= rows && rows <= 32 {
            Self::Large
        } else if 33 <= rows && rows <= 37 {
            Self::Huge
        } else if 38 <= rows {
            Self::Oversized
        } else {
            Self::Unknown
        }
    }

    /// The numbers of rows in this class, as a half-open range.
    pub fn row_range(self) -> (r: Range<usize>)
        ensures
            (r.start, r.end) == row_bounds(self),
    {
        Range { start: self.row_min(), end: self.row_max() }
    }

    /// One past the largest number of rows in this class.
    pub fn row_max(self) -> (r: usize)
        ensures
            r == row_bounds(self).1,
    {
        match self {
            Self::TooSmall => 5,
            Self::Tiny => 7,
            Self::Small => 14,
            Self::Medium => 23,
            Self::Large => 33,
            Self::Huge => 38,
            Self::Oversized => 200,
            Self::Unknown => 0,
        }
    }

    /// The smallest number of rows in this class.
    pub fn row_min(self) -> (r: usize)
        ensures
            r == row_bounds(self).0,
    {
        match self {
            Self::TooSmall => 3,
            Self::Tiny => 5,
            Self::Small => 7,
            Self::Medium => 14,
            Self::Large => 23,
            Self::Huge => 33,
            Self::Oversized => 38,
            Self::Unknown => 0,
        }
    }

    /// Classifies a number of columns.
    pub fn classify_cols(cols: usize) -> (r: Self)
        ensures
            r == cols_class(cols as int),
    {
        if 3 <= cols && cols <= 8 {
            Self::TooSmall
        } else if 9 <= cols && cols <= 20 {
            Self::Tiny
        } else if 21 <= cols && cols <= 57 {
            Self::Small
        } else if 58 <= cols && cols <= 99 {
            Self::Medium
        } else if 100 <= cols && cols <= 134 {
            Self::Large
        } else if 135 <= cols && cols <= 165 {
            Self::Huge
        } else if 166 <= cols {
            Self::Oversized
        } else {
            Self::Unknown
        }
    }

    /// The numbers of columns in this class, as a half-open range.
    pub fn col_range(self) -> (r: Range<usize>)
        ensures
            (r.start, r.end) == col_bounds(self),
    {
        Range { start: self.col_min(), end: self.col_max() }
    }

    /// One past the largest number of columns in this class.
    pub fn col_max(self) -> (r: usize)
        ensures
            r == col_bounds(self).1,
    {
        match self {
            Self::TooSmall => 9,
            Self::Tiny => 21,
            Self::Small => 58,
            Self::Medium => 100,
            Self::Large => 135,
            Self::Huge => 166,
            Self::Oversized => 400,
            Self::Unknown => 0,
        }
    }

    /// The smallest number of columns in this class.
    pub fn col_min(self) -> (r: usize)
        ensures
            r == col_bounds(self).0,
    {
        match self {
            Self::TooSmall => 3,
            Self::Tiny => 9,
            Self::Small => 21,
            Self::Medium => 58,
            Self::Large => 100,
            Self::Huge => 135,
            Self::Oversized => 166,
            Self::Unknown => 0,
        }
    }

    /// Classifies a number of cells.
    pub fn classify_cells(cells: usize) -> (r: Self)
        ensures
            r == cells_class(cells as int),
    {
        if 3 <= cells && cells <= 44 {
            Self::TooSmall
        } else if 45 <= cells && cells <= 129 {
            Self::Tiny
        } else if 130 <= cells && cells <= 799 {
            Self::Small
        } else if 800 <= cells && cells <= 2399 {
            Self::Medium
        } else if 2400 <= cells && cells <= 4299 {
            Self::Large
        } else if 4300 <= cells && cells <= 6105 {
            Self::Huge
        } else if 6106 <= cells {
            Self::Oversized
        } else {
            Self::Unknown
        }
    }

    /// The numbers of cells in this class, as a half-open range.
    pub fn cell_range(self) -> (r: Range<usize>)
        ensures
            (r.start, r.end) == cell_bounds(self),
    {
        Range { start: self.cell_min(), end: self.cell_max() }
    }

    /// The smallest number of cells in this class.
    pub fn cell_min(self) -> (r: usize)
        ensures
            r == cell_bounds(self).0,
    {
        match self {
            Self::TooSmall => 3,
            Self::Tiny => 45,
            Self::Small => 130,
            Self::Medium => 800,
            Self::Large => 2400,
            Self::Huge => 4300,
            Self::Oversized => 6106,
            Self::Unknown => 0,
        }
    }

    /// One past the largest number of cells in this class.
    pub fn cell_max(self) -> (r: usize)
        ensures
            r == cell_bounds(self).1,
    {
        match self {
            Self::TooSmall => 45,
            Self::Tiny => 130,
            Self::Small => 800,
            Self::Medium => 2400,
            Self::Large => 4300,
            Self::Huge => 6106,
            Self::Oversized => 150_000,
            Self::Unknown => 0,
        }
    }
}

impl From<GridClassification> for usize {
    fn from(g: GridClassification) -> (r: usize) {
        match g {
            GridClassification::TooSmall => 1,
            GridClassification::Tiny => 2,
            GridClassification::Small => 3,
            GridClassification::Medium => 4,
            GridClassification::Large => 5,
            GridClassification::Huge => 6,
            GridClassification::Oversized => 7,
            GridClassification::Unknown => 0,
        }
    }
}

impl FromSpecImpl<GridClassification> for usize {
    open spec fn obeys_from_spec() -> bool {
        true
    }

    open spec fn from_spec(g: GridClassification) -> usize {
        class_number(g) as usize
    }
}

impl From<usize> for GridClassification {
    fn from(u: usize) -> (r: Self) {
        if u == 1 {
            GridClassification::TooSmall
        } else if u == 2 {
            GridClassification::Tiny
        } else if u == 3 {
            GridClassification::Small
        } else if u == 4 {
            GridClassification::Medium
        } else if u == 5 {
            GridClassification::Large
        } else if u == 6 {
            GridClassification::Huge
        } else if u == 7 {
            GridClassification::Oversized
        } else {
            GridClassification::Unknown
        }
    }
}

impl FromSpecImpl<usize> for GridClassification {
    open spec fn obeys_from_spec() -> bool {
        true
    }

    open spec fn from_spec(u: usize) -> GridClassification {
        class_of_number(u as int)
    }
}

/// The sizes of a grid along each axis, with the class of each.
#[derive(Debug, Clone, Copy, PartialEq, Eq, Structural, PartialOrd, Ord, Hash)]
pub struct ClassificationResult {
    pub rows: usize,
    pub rows_class: GridClassification,
    pub cols: usize,
    pub cols_class: GridClassification,
}

impl ClassificationResult {
    /// An unclassified result whose `rows` is the width of `size` and whose `cols` is its
    /// height.
    pub fn new(size: GridSize) -> (r: Self)
        ensures
            r.rows == size.width,
            r.cols == size.height,
            r.rows_class == GridClassification::Unknown,
            r.cols_class == GridClassification::Unknown,
    {
        ClassificationResult {
            rows: size.width,
            rows_class: GridClassification::Unknown,
            cols: size.height,
            cols_class: GridClassification::Unknown,
        }
    }

    /// The classification of a grid of the given size.
    pub open spec fn spec_classify(grid_size: GridSize) -> Self {
        ClassificationResult {
            rows: grid_size.height,
            rows_class: rows_class(grid_size.height as int),
            cols: grid_size.width,
            cols_class: cols_class(grid_size.width as int),
        }
    }

    /// Classifies a grid of the given size: its height is its number of rows and its width
    /// its number of columns.
    pub fn classify(grid_size: GridSize) -> (r: Self)
        ensures
            r.rows == grid_size.height,
            r.cols == grid_size.width,
            r.rows_class == rows_class(grid_size.height as int),
            r.cols_class == cols_class(grid_size.width as int),
    {
        let cols = grid_size.width;
        let rows = grid_size.height;
        ClassificationResult {
            rows,
            rows_class: GridClassification::classify_rows(rows),
            cols,
            cols_class: GridClassification::classify_cols(cols),
        }
    }

    /// The number of cells.
    pub fn cells(&self) -> (r: usize)
        requires
            self.rows * self.cols <= usize::MAX,
        ensures
            r == self.rows * self.cols,
    {
        self.rows * self.cols
    }

    /// The class of the number of cells.
    pub fn cells_class(&self) -> (r: GridClassification)
        requires
            self.rows * self.cols <= usize::MAX,
        ensures
            r == cells_class(self.rows * self.cols),
    {
        GridClassification::classify_cells(self.cells())
    }
}


/// A classification turned into its number and back is the same classification.
pub proof fn lemma_class_number_round_trip(g: GridClassification)
    ensures
        class_of_number(class_number(g) as int) == g,
{
}

/// The ranges of a class and its classification agree: every number of rows, columns or cells
/// in the range of a known class is classified as that class.
pub proof fn lemma_ranges_classify(g: GridClassification, n: int)
    requires
        g != GridClassification::Unknown,
    ensures
        row_bounds(g).0 <= n < row_bounds(g).1 ==> rows_class(n) == g,
        col_bounds(g).0 <= n < col_bounds(g).1 ==> cols_class(n) == g,
        cell_bounds(g).0 <= n < cell_bounds(g).1 ==> cells_class(n) == g,
{
}

/// Whether two rectangles overlap does not depend on their order.
pub proof fn lemma_intersects_symmetric(a: GridSquare, b: GridSquare)
    ensures
        a.spec_intersects(b) == b.spec_intersects(a),
{
}

/// Whether `(a, b)` is a cell on the border of the rectangle `s`.
pub open spec fn border_cell(s: GridSquare, a: int, b: int) -> bool {
    s.min.x <= a < s.max.x && s.min.y <= b < s.max.y && on_border(s, a, b)
}

/// Whether `(a, b)` is a cell of the rectangle `s`.
pub open spec fn inside(s: GridSquare, a: int, b: int) -> bool {
    s.min.x <= a < s.max.x && s.min.y <= b < s.max.y
}

/// Whether `(a, b)` lies on the straight path along row `y` between columns `x1` and `x2`.
pub open spec fn on_row_path(x1: int, x2: int, y: int, a: int, b: int) -> bool {
    b == y && (if x1 <= x2 { x1 <= a <= x2 } else { x2 <= a <= x1 })
}

/// Whether `(a, b)` lies on the straight path along column `x` between rows `y1` and `y2`.
pub open spec fn on_column_path(y1: int, y2: int, x: int, a: int, b: int) -> bool {
    a == x && (if y1 <= y2 { y1 <= b <= y2 } else { y2 <= b <= y1 })
}

/// Whether `(a, b)` lies on the path from `c1` to `c2` that goes along the row of `c1` to the
/// column of `c2`, then along that column to `c2`.
pub open spec fn on_elbow_path(c1: GridPos, c2: GridPos, a: int, b: int) -> bool {
    on_row_path(c1.x as int, c2.x as int, c1.y as int, a, b) || on_column_path(
        c1.y as int,
        c2.y as int,
        c2.x as int,
        a,
        b,
    )
}

/// `new` is `old` with the cells for which `p` holds turned on, and every other cell as it was.
pub open spec fn turned_on(new: MapGrid, old: MapGrid, p: spec_fn(int, int) -> bool) -> bool {
    &&& new.wf()
    &&& new.same_shape(&old)
    &&& forall|i: int, j: int|
        #![trigger new.state_at(i, j)]
        old.in_bounds(i, j) ==> new.state_at(i, j) == (if p(i, j) {
            TriState::True
        } else {
            old.state_at(i, j)
        })
}

/// Whether `(i, j)` lies on a connection from room `a` to room `b`: on the straight path
/// between their centers (see [`on_elbow_path`]), or on a path that `curve` may return for
/// their centers.
pub open spec fn on_link<F: Fn(GridPos, GridPos) -> Vec<(usize, usize)>>(a: Room, b: Room, curve: &F, i: int, j: int) -> bool {
    let ca = center_of(a.spec_square());
    let cb = center_of(b.spec_square());
    on_elbow_path(ca, cb, i, j) || exists|path: Vec<(usize, usize)>|
        #![trigger curve.ensures((ca, cb), path)]
        curve.ensures((ca, cb), path) && path@.contains((i as usize, j as usize))
}

/// Whether `g` has a connection from room `a` to room `b` drawn: every cell of the straight
/// path between their centers is on, or every cell of a path that `curve` may return for
/// their centers.
pub open spec fn linked<F: Fn(GridPos, GridPos) -> Vec<(usize, usize)>>(g: MapGrid, a: Room, b: Room, curve: &F) -> bool {
    let ca = center_of(a.spec_square());
    let cb = center_of(b.spec_square());
    ||| forall|i: int, j: int|
        #![trigger g.state_at(i, j)]
        g.in_bounds(i, j) && on_elbow_path(ca, cb, i, j) ==> g.state_at(i, j) == TriState::True
    ||| exists|path: Vec<(usize, usize)>|
        #![trigger curve.ensures((ca, cb), path)]
        curve.ensures((ca, cb), path) && forall|i: int, j: int|
            #![trigger g.state_at(i, j)]
            g.in_bounds(i, j) && path@.contains((i as usize, j as usize)) ==> g.state_at(i, j)
                == TriState::True
}

/// Whether every room of `rooms` has a connection drawn in `g` to some room of `rooms` (see
/// [`has_link`]).
pub open spec fn all_linked<F: Fn(GridPos, GridPos) -> Vec<(usize, usize)>>(g: MapGrid, rooms: Seq<Room>, curve: &F) -> bool {
    forall|t: int| 0 <= t < rooms.len() ==> #[trigger] has_link(g, rooms, t, curve)
}

/// Whether room `t` of `rooms` has a connection drawn in `g` to some room of `rooms`.
pub open spec fn has_link<F: Fn(GridPos, GridPos) -> Vec<(usize, usize)>>(g: MapGrid, rooms: Seq<Room>, t: int, curve: &F) -> bool {
    exists|u: int| 0 <= u < rooms.len() && #[trigger] linked(g, rooms[t], rooms[u], curve)
}

/// The draws that decide which rooms [`RoomBasedGen::connect_all_rooms`] connects around one
/// pair of neighbours in the shuffled order: `roll` (0 to 4) connects the two when it is above
/// 1, and the first and the second of them are each connected to the rooms at the positions
/// they picked (one to three picks each).
#[derive(Clone, Debug)]
pub struct LinkDraw {
    pub roll: u8,
    pub first: Vec<usize>,
    pub second: Vec<usize>,
}

/// Whether the draws around one pair of neighbours come from their ranges, among `n` rooms.
pub open spec fn link_draw_ok(d: LinkDraw, n: int) -> bool {
    &&& d.roll < 5
    &&& 1 <= d.first@.len() <= 3
    &&& 1 <= d.second@.len() <= 3
    &&& forall|k: int| 0 <= k < d.first@.len() ==> #[trigger] d.first@[k] < n
    &&& forall|k: int| 0 <= k < d.second@.len() ==> #[trigger] d.second@[k] < n
}

/// The pairs `(from, p)` for each pick `p`, in order.
pub open spec fn picked_pairs(from: int, picks: Seq<usize>) -> Seq<(int, int)> {
    picks.map_values(|p: usize| (from, p as int))
}

/// The pairs of rooms connected around the neighbours `i` and `i + 1`, in order: the two of
/// them when the roll is above 1, then room `i` with each of its picks, then room `i + 1` with
/// each of its picks.
pub open spec fn window_pairs(i: int, d: LinkDraw) -> Seq<(int, int)> {
    (if d.roll > 1 {
        seq![(i, i + 1)]
    } else {
        Seq::<(int, int)>::empty()
    }) + picked_pairs(i, d.first@) + picked_pairs(i + 1, d.second@)
}

/// The pairs of rooms (positions in the shuffled order) that
/// [`RoomBasedGen::connect_all_rooms`] connects, in order, given its draws around each pair of
/// neighbours.
pub open spec fn link_pairs(draws: Seq<LinkDraw>) -> Seq<(int, int)>
    decreases draws.len(),
{
    if draws.len() == 0 {
        Seq::empty()
    } else {
        link_pairs(draws.drop_last()) + window_pairs(draws.len() - 1, draws.last())
    }
}

/// Whether `g` has a connection drawn between the rooms of each pair.
pub open spec fn pairs_linked<F: Fn(GridPos, GridPos) -> Vec<(usize, usize)>>(
    g: MapGrid,
    rooms: Seq<Room>,
    pairs: Seq<(int, int)>,
    curve: &F,
) -> bool {
    forall|q: int| 0 <= q < pairs.len() ==> #[trigger] linked(g, rooms[pairs[q].0], rooms[pairs[q].1], curve)
}

/// Whether every cell of `new` that differs from `old` lies on a connection between the rooms
/// of one of the pairs.
pub open spec fn drawn_by_pairs<F: Fn(GridPos, GridPos) -> Vec<(usize, usize)>>(
    new: MapGrid,
    old: MapGrid,
    rooms: Seq<Room>,
    pairs: Seq<(int, int)>,
    curve: &F,
) -> bool {
    forall|i: int, j: int|
        #![trigger new.state_at(i, j)]
        old.in_bounds(i, j) && new.state_at(i, j) != old.state_at(i, j) ==> exists|q: int|
            0 <= q < pairs.len() && #[trigger] on_link(rooms[pairs[q].0], rooms[pairs[q].1], curve, i, j)
}

/// The pairs around the neighbours `w` are among the pairs of all the draws.
proof fn lemma_window_in_pairs(draws: Seq<LinkDraw>, w: int, e: (int, int))
    requires
        0 <= w < draws.len(),
        window_pairs(w, draws[w]).contains(e),
    ensures
        link_pairs(draws).contains(e),
    decreases draws.len(),
{
    let prev = link_pairs(draws.drop_last());
    let win = window_pairs(draws.len() - 1, draws.last());
    assert(link_pairs(draws) == prev + win);
    if w == draws.len() - 1 {
        let k = choose|k: int| 0 <= k < win.len() && win[k] == e;
        assert((prev + win)[prev.len() + k] == e);
    } else {
        assert(draws.drop_last()[w] == draws[w]);
        lemma_window_in_pairs(draws.drop_last(), w, e);
        let k = choose|k: int| 0 <= k < prev.len() && prev[k] == e;
        assert((prev + win)[k] == e);
    }
}

/// Every pair of the draws, for `n` rooms with `n - 1` draws from their ranges, names two of
/// the rooms.
proof fn lemma_pairs_in_range(draws: Seq<LinkDraw>, n: int)
    requires
        draws.len() < n,
        forall|t: int| 0 <= t < draws.len() ==> link_draw_ok(#[trigger] draws[t], n),
    ensures
        forall|q: int|
            0 <= q < link_pairs(draws).len() ==> 0 <= (#[trigger] link_pairs(draws)[q]).0 < n && 0
                <= link_pairs(draws)[q].1 < n,
    decreases draws.len(),
{
    if draws.len() > 0 {
        let d = draws.drop_last();
        assert forall|t: int| 0 <= t < d.len() implies link_draw_ok(#[trigger] d[t], n) by {
            assert(d[t] == draws[t]);
        }
        lemma_pairs_in_range(d, n);
        let prev = link_pairs(d);
        let i = draws.len() - 1;
        let last = draws.last();
        assert(link_draw_ok(last, n));
        let win = window_pairs(i, last);
        assert forall|q: int| 0 <= q < win.len() implies 0 <= (#[trigger] win[q]).0 < n && 0 <= win[q].1 < n by {
            let head = if last.roll > 1 { seq![(i, i + 1)] } else { Seq::<(int, int)>::empty() };
            let a = picked_pairs(i, last.first@);
            let b = picked_pairs(i + 1, last.second@);
            assert(win == head + a + b);
            if q < head.len() {
            } else if q < head.len() + a.len() {
                assert(win[q] == a[q - head.len()]);
                assert(last.first@[q - head.len()] < n);
            } else {
                assert(win[q] == b[q - head.len() - a.len()]);
                assert(last.second@[q - head.len() - a.len()] < n);
            }
        }
        assert forall|q: int|
            0 <= q < link_pairs(draws).len() implies 0 <= (#[trigger] link_pairs(draws)[q]).0 < n && 0
                <= link_pairs(draws)[q].1 < n by {
            assert(link_pairs(draws) == prev + win);
            if q < prev.len() {
                assert(link_pairs(draws)[q] == prev[q]);
            } else {
                assert(link_pairs(draws)[q] == win[q - prev.len()]);
            }
        }
    }
}

/// With `n` rooms and `n - 1` draws from their ranges, every room is the first of some pair:
/// room `t` picks with the neighbours it starts (the last room with those it ends).
proof fn lemma_every_room_picks(draws: Seq<LinkDraw>, n: int, t: int)
    requires
        n >= 2,
        draws.len() == n - 1,
        forall|k: int| 0 <= k < draws.len() ==> link_draw_ok(#[trigger] draws[k], n),
        0 <= t < n,
    ensures
        exists|q: int| 0 <= q < link_pairs(draws).len() && (#[trigger] link_pairs(draws)[q]).0 == t,
{
    let w = if t < n - 1 { t } else { n - 2 };
    let d = draws[w];
    assert(link_draw_ok(d, n));
    let head = if d.roll > 1 { seq![(w, w + 1)] } else { Seq::<(int, int)>::empty() };
    let a = picked_pairs(w, d.first@);
    let b = picked_pairs(w + 1, d.second@);
    let win = window_pairs(w, d);
    assert(win == head + a + b);
    let e = if t == w { a[0] } else { b[0] };
    if t == w {
        assert(win[head.len() as int] == e);
    } else {
        assert(win[(head.len() + a.len()) as int] == e);
    }
    assert(e.0 == t);
    assert(win.contains(e));
    lemma_window_in_pairs(draws, w, e);
    let q = choose|q: int| 0 <= q < link_pairs(draws).len() && link_pairs(draws)[q] == e;
    assert(link_pairs(draws)[q].0 == t);
}

/// Whether every cell of `new` that differs from `old` lies on a connection between two rooms
/// of `rooms`.
pub open spec fn drawn_by_links<F: Fn(GridPos, GridPos) -> Vec<(usize, usize)>>(
    new: MapGrid,
    old: MapGrid,
    rooms: Seq<Room>,
    curve: &F,
) -> bool {
    forall|i: int, j: int|
        #![trigger new.state_at(i, j)]
        old.in_bounds(i, j) && new.state_at(i, j) != old.state_at(i, j) ==> exists|t: int, u: int|
            0 <= t < rooms.len() && 0 <= u < rooms.len() && #[trigger] on_link(rooms[t], rooms[u], curve, i, j)
}

/// `new` is `old` with some cells turned on: no cell changes but to `on`.
pub open spec fn only_turned_on(new: MapGrid, old: MapGrid) -> bool {
    &&& new.wf()
    &&& new.same_shape(&old)
    &&& forall|i: int, j: int|
        #![trigger new.state_at(i, j)]
        old.in_bounds(i, j) ==> new.state_at(i, j) == old.state_at(i, j) || new.state_at(i, j)
            == TriState::True
}

/// The cells of column `x` on the border are those in the first `k` rows that lie on it.
proof fn lemma_column_edges(s: GridSquare, x: int, k: nat, a: usize, b: usize)
    requires
        0 <= x <= usize::MAX,
        s.min.y + k <= usize::MAX,
    ensures
        column_edges(s, x, k).contains((a, b)) <==> (a == x && s.min.y <= b < s.min.y + k
            && on_border(s, x, b as int)),
    decreases k,
{
    if k > 0 {
        lemma_column_edges(s, x, (k - 1) as nat, a, b);
        let y = s.min.y + k - 1;
        let prev = column_edges(s, x, (k - 1) as nat);
        let cur = column_edges(s, x, k);
        if on_border(s, x, y) {
            assert(cur == prev.push((x as usize, y as usize)));
            if prev.contains((a, b)) {
                let t = choose|t: int| 0 <= t < prev.len() && prev[t] == (a, b);
                assert(cur[t] == (a, b));
            }
            if (a, b) == (x as usize, y as usize) {
                assert(cur[prev.len() as int] == (a, b));
            }
            if cur.contains((a, b)) {
                let t = choose|t: int| 0 <= t < cur.len() && cur[t] == (a, b);
                if t < prev.len() {
                    assert(prev[t] == (a, b));
                }
            }
        } else {
            assert(cur =~= prev);
        }
    }
}

/// The border cells of the first `k` columns of `s` are those that lie on its border.
proof fn lemma_room_edges(s: GridSquare, k: nat, a: usize, b: usize)
    requires
        s.is_ordered(),
        k <= s.max.x - s.min.x,
    ensures
        room_edges(s, k).contains((a, b)) <==> (s.min.x <= a < s.min.x + k && s.min.y <= b
            < s.max.y && on_border(s, a as int, b as int)),
    decreases k,
{
    if k > 0 {
        lemma_room_edges(s, (k - 1) as nat, a, b);
        let x = s.min.x + k - 1;
        let prev = room_edges(s, (k - 1) as nat);
        let col = column_edges(s, x, (s.max.y - s.min.y) as nat);
        lemma_column_edges(s, x, (s.max.y - s.min.y) as nat, a, b);
        assert(room_edges(s, k) == prev + col);
        if prev.contains((a, b)) {
            let t = choose|t: int| 0 <= t < prev.len() && prev[t] == (a, b);
            assert((prev + col)[t] == (a, b));
        }
        if col.contains((a, b)) {
            let t = choose|t: int| 0 <= t < col.len() && col[t] == (a, b);
            assert((prev + col)[prev.len() + t] == (a, b));
        }
        if (prev + col).contains((a, b)) {
            let t = choose|t: int| 0 <= t < (prev + col).len() && (prev + col)[t] == (a, b);
            if t < prev.len() {
                assert(prev[t] == (a, b));
            } else {
                assert(col[t - prev.len()] == (a, b));
            }
        }
    }
}

/// The rectangle of a room at `(x, y)` that is `w` wide and `h` high.
pub open spec fn room_rect(x: int, y: int, w: int, h: int) -> GridSquare {
    GridSquare {
        min: GridPos { x: x as usize, y: y as usize },
        max: GridPos { x: (x + w) as usize, y: (y + h) as usize },
    }
}

/// Whether a room at `(x, y)` that is `w` wide and `h` high fits a `width` by `height` map:
/// its far edges lie inside the map (strictly so when `strict`), and they are at least 3 from
/// the origin.
pub open spec fn room_fits(x: int, y: int, w: int, h: int, width: int, height: int, strict: bool) -> bool {
    &&& if strict {
        x + w < width && y + h < height
    } else {
        x + w <= width && y + h <= height
    }
    &&& x + w >= 3
    &&& y + h >= 3
}

/// Whether the rectangle `rect`, grown by `buffer` if there is one, overlaps `other`.
pub open spec fn collides(rect: GridSquare, other: GridSquare, buffer: Option<usize>) -> bool {
    match buffer {
        Some(b) => buffered(rect, b).spec_intersects(other),
        None => rect.spec_intersects(other),
    }
}

/// Whether `rect` collides with none of the rooms.
pub open spec fn free_of(rooms: Seq<Room>, rect: GridSquare, buffer: Option<usize>) -> bool {
    forall|t: int| 0 <= t < rooms.len() ==> !collides(rect, #[trigger] rooms[t].spec_square(), buffer)
}

/// Whether `(a, b)` is on the border of one of the rooms.
pub open spec fn outlined(rooms: Seq<Room>, a: int, b: int) -> bool {
    exists|t: int| 0 <= t < rooms.len() && #[trigger] border_cell(rooms[t].spec_square(), a, b)
}

/// The rooms of a basic map of `width` by `height`: at most 100 rooms, each from 3 to 20 wide
/// and from 3 to 13 high, lying inside the map short of its last row and column, and no two of
/// them overlapping.
pub open spec fn basic_layout(rooms: Seq<Room>, width: int, height: int) -> bool {
    &&& rooms.len() <= 100
    &&& forall|t: int|
        #![trigger rooms[t]]
        0 <= t < rooms.len() ==> {
            let s = rooms[t].spec_square();
            &&& s.min.x + 3 <= s.max.x <= s.min.x + 20
            &&& s.min.y + 3 <= s.max.y <= s.min.y + 13
            &&& s.max.x < width
            &&& s.max.y < height
        }
    &&& forall|a: int, b: int|
        0 <= a < b < rooms.len() ==> !(#[trigger] rooms[b].spec_square()).spec_intersects(
            #[trigger] rooms[a].spec_square(),
        )
}

/// Whether a candidate `(x, y, w, h)` of the basic generator was drawn from its ranges on a
/// `width` by `height` map: a corner inside the map, 3 to 20 wide and 3 to 13 high.
pub open spec fn basic_candidate(c: (usize, usize, usize, usize), width: int, height: int) -> bool {
    &&& c.0 < width
    &&& c.1 < height
    &&& 3 <= c.2 <= 20
    &&& 3 <= c.3 <= 13
}

/// The square of a candidate of the basic generator once it is moved left and up until it
/// stops short of the last column and row of a `width` by `height` map.
pub open spec fn shifted_candidate(c: (usize, usize, usize, usize), width: int, height: int) -> GridSquare {
    let x: int = if c.0 + c.2 >= width { width - c.2 - 1 } else { c.0 as int };
    let y: int = if c.1 + c.3 >= height { height - c.3 - 1 } else { c.1 as int };
    room_rect(x, y, c.2 as int, c.3 as int)
}

/// Whether `s` overlaps none of the squares.
pub open spec fn apart_from(squares: Seq<GridSquare>, s: GridSquare) -> bool {
    forall|t: int| 0 <= t < squares.len() ==> !s.spec_intersects(#[trigger] squares[t])
}

/// The squares of the rooms that the basic generator keeps from its candidates, in order:
/// each candidate, moved (see [`shifted_candidate`]), is kept when it overlaps none of the
/// squares kept before it.
pub open spec fn basic_kept(cands: Seq<(usize, usize, usize, usize)>, width: int, height: int) -> Seq<GridSquare>
    decreases cands.len(),
{
    if cands.len() == 0 {
        Seq::empty()
    } else {
        let prev = basic_kept(cands.drop_last(), width, height);
        let s = shifted_candidate(cands.last(), width, height);
        if apart_from(prev, s) {
            prev.push(s)
        } else {
            prev
        }
    }
}

/// The squares of the rooms, in order.
pub open spec fn room_squares(rooms: Seq<Room>) -> Seq<GridSquare> {
    rooms.map_values(|r: Room| r.spec_square())
}

/// The candidates of a basic map: 100 of them, each drawn from the ranges.
pub open spec fn basic_draws(cands: Seq<(usize, usize, usize, usize)>, width: int, height: int) -> bool {
    &&& cands.len() == 100
    &&& forall|t: int| 0 <= t < cands.len() ==> basic_candidate(#[trigger] cands[t], width, height)
}

/// The first candidate is always kept, and kept squares are never dropped: from a candidate
/// on, at least one square is kept.
pub proof fn lemma_basic_keeps_one(cands: Seq<(usize, usize, usize, usize)>, width: int, height: int)
    requires
        cands.len() >= 1,
    ensures
        basic_kept(cands, width, height).len() >= 1,
    decreases cands.len(),
{
    if cands.len() == 1 {
        assert(cands.drop_last().len() == 0);
        assert(basic_kept(cands.drop_last(), width, height).len() == 0);
    } else {
        lemma_basic_keeps_one(cands.drop_last(), width, height);
    }
}

/// The center of a rectangle, rounded down.
pub open spec fn center_of(s: GridSquare) -> GridPos {
    GridPos { x: ((s.min.x + s.max.x) / 2) as usize, y: ((s.min.y + s.max.y) / 2) as usize }
}

/// Whether the center of `s` can be computed without overflow.
pub open spec fn center_fits(s: GridSquare) -> bool {
    s.min.x + s.max.x <= usize::MAX && s.min.y + s.max.y <= usize::MAX
}

/// The first size and one past the last size of a room of class `size` along an axis of
/// length `dim`.
pub open spec fn size_span(size: RoomSize, dim: int) -> (int, int) {
    match size {
        RoomSize::Small => (5, spec_max(dim / 7, 6) + 1),
        RoomSize::Medium => (spec_max(dim / 9, 5), spec_max(dim / 5, 7) + 1),
        RoomSize::Big => (spec_max(dim / 7, 5), spec_max(dim / 3, 8) + 1),
        RoomSize::Huge => (spec_max(dim / 5, 8), spec_max(dim / 2, 15) + 1),
    }
}

/// The larger of two integers.
pub open spec fn spec_max(a: int, b: int) -> int {
    if a >= b {
        a
    } else {
        b
    }
}

/// The ranges of the corner of a room: `x` first, then `y`.
pub struct PosRange(pub Range<usize>, pub Range<usize>);

/// The ranges of the size of a room: the width first, then the height.
pub struct SizeRange(pub Range<usize>, pub Range<usize>);

impl From<PosRange> for (Range<usize>, Range<usize>) {
    fn from(val: PosRange) -> (Range<usize>, Range<usize>) {
        (val.0, val.1)
    }
}

impl From<SizeRange> for (Range<usize>, Range<usize>) {
    fn from(val: SizeRange) -> (Range<usize>, Range<usize>) {
        (val.0, val.1)
    }
}

impl FromSpecImpl<PosRange> for (Range<usize>, Range<usize>) {
    open spec fn obeys_from_spec() -> bool {
        true
    }

    open spec fn from_spec(val: PosRange) -> (Range<usize>, Range<usize>) {
        (val.0, val.1)
    }
}

impl FromSpecImpl<SizeRange> for (Range<usize>, Range<usize>) {
    open spec fn obeys_from_spec() -> bool {
        true
    }

    open spec fn from_spec(val: SizeRange) -> (Range<usize>, Range<usize>) {
        (val.0, val.1)
    }
}

/// Calls `fastrand::shuffle`, which puts the items of the slice in a random order: the same
/// items, each as often as before.
#[verifier::external_body]
fn shuffle_rooms(rooms: &mut Vec<Room>)
    ensures
        final(rooms)@.to_multiset() == old(rooms)@.to_multiset(),
{
    fastrand::shuffle(rooms);
}

/// The rooms of the generator.
pub struct RoomBasedGen;

impl RoomBasedGen {
    /// Turns on every cell of the row `y` between the columns `first` and `second`, both
    /// included.
    pub fn horizontal_path(grid: &mut MapGrid, first: usize, second: usize, y: usize)
        requires
            old(grid).wf(),
        ensures
            turned_on(
                *final(grid),
                *old(grid),
                |a: int, b: int| on_row_path(first as int, second as int, y as int, a, b),
            ),
    {
        let start = if first <= second { first } else { second };
        let end = if first <= second { second } else { first };
        let ghost g0 = *grid;
        let mut col = start;
        while col < end
            invariant
                grid.wf(),
                grid.same_shape(&g0),
                start <= col <= end,
                start == (if first <= second { first } else { second }),
                end == (if first <= second { second } else { first }),
                forall|i: int, j: int|
                    #![trigger grid.state_at(i, j)]
                    g0.in_bounds(i, j) ==> grid.state_at(i, j) == (if j == y && start <= i < col {
                        TriState::True
                    } else {
                        g0.state_at(i, j)
                    }),
            decreases end - col,
        {
            grid.set_cell_state(col, y, true);
            col = col + 1;
        }
        grid.set_cell_state(col, y, true);
    }

    /// Turns on every cell of the column `x` between the rows `first` and `second`, both
    /// included.
    pub fn vertical_path(grid: &mut MapGrid, first: usize, second: usize, x: usize)
        requires
            old(grid).wf(),
        ensures
            turned_on(
                *final(grid),
                *old(grid),
                |a: int, b: int| on_column_path(first as int, second as int, x as int, a, b),
            ),
    {
        let start = if first <= second { first } else { second };
        let end = if first <= second { second } else { first };
        let ghost g0 = *grid;
        let mut row = start;
        while row < end
            invariant
                grid.wf(),
                grid.same_shape(&g0),
                start <= row <= end,
                start == (if first <= second { first } else { second }),
                end == (if first <= second { second } else { first }),
                forall|i: int, j: int|
                    #![trigger grid.state_at(i, j)]
                    g0.in_bounds(i, j) ==> grid.state_at(i, j) == (if i == x && start <= j < row {
                        TriState::True
                    } else {
                        g0.state_at(i, j)
                    }),
            decreases end - row,
        {
            grid.set_cell_state(x, row, true);
            row = row + 1;
        }
        grid.set_cell_state(x, row, true);
    }

    /// Turns on every cell on the border of the room.
    pub fn outline_room_on_grid(room: &Room, grid: &mut MapGrid)
        requires
            old(grid).wf(),
        ensures
            turned_on(
                *final(grid),
                *old(grid),
                |a: int, b: int| border_cell(room.spec_square(), a, b),
            ),
    {
        let edges = room.get_edges();
        let ghost g0 = *grid;
        let ghost s = room.spec_square();
        let mut k: usize = 0;
        while k < edges.len()
            invariant
                grid.wf(),
                grid.same_shape(&g0),
                k <= edges@.len(),
                forall|i: int, j: int|
                    #![trigger grid.state_at(i, j)]
                    g0.in_bounds(i, j) ==> grid.state_at(i, j) == (if edges@.take(k as int).contains(
                        (i as usize, j as usize),
                    ) {
                        TriState::True
                    } else {
                        g0.state_at(i, j)
                    }),
            decreases edges@.len() - k,
        {
            let (x, y) = edges[k];
            let ghost before = *grid;
            grid.set_cell_state(x, y, true);
            proof {
                let t = edges@.take(k as int);
                let t1 = edges@.take(k as int + 1);
                assert(t1 == t.push((x, y)));
                assert forall|i: int, j: int|
                    #![trigger grid.state_at(i, j)]
                    g0.in_bounds(i, j) implies grid.state_at(i, j) == (if t1.contains(
                        (i as usize, j as usize),
                    ) {
                        TriState::True
                    } else {
                        g0.state_at(i, j)
                    }) by {
                    let p = (i as usize, j as usize);
                    if t.contains(p) {
                        let w = choose|w: int| 0 <= w < t.len() && t[w] == p;
                        assert(t1[w] == p);
                    }
                    if p == (x, y) {
                        assert(t1[t.len() as int] == p);
                    }
                    if t1.contains(p) {
                        let w = choose|w: int| 0 <= w < t1.len() && t1[w] == p;
                        if w < t.len() {
                            assert(t[w] == p);
                        }
                    }
                    assert(before.state_at(i, j) == before.state_at(i, j));
                }
            }
            k = k + 1;
        }
        proof {
            assert(edges@.take(k as int) =~= edges@);
            assert forall|i: int, j: int|
                #![trigger grid.state_at(i, j)]
                g0.in_bounds(i, j) implies grid.state_at(i, j) == (if border_cell(s, i, j) {
                    TriState::True
                } else {
                    g0.state_at(i, j)
                }) by {
                if s.is_ordered() {
                    lemma_room_edges(s, (s.max.x - s.min.x) as nat, i as usize, j as usize);
                } else {
                    assert(!edges@.contains((i as usize, j as usize)));
                }
            }
        }
    }

    /// Turns on every cell of the room.
    pub fn fill_room_on_grid(room: &Room, grid: &mut MapGrid)
        requires
            old(grid).wf(),
        ensures
            turned_on(*final(grid), *old(grid), |a: int, b: int| inside(room.spec_square(), a, b)),
    {
        let s = room.square();
        let ghost g0 = *grid;
        if s.min.x >= s.max.x || s.min.y >= s.max.y {
            return;
        }
        let mut y = s.min.y;
        while y < s.max.y
            invariant
                grid.wf(),
                grid.same_shape(&g0),
                s == room.spec_square(),
                s.min.x < s.max.x,
                s.min.y <= y <= s.max.y,
                forall|i: int, j: int|
                    #![trigger grid.state_at(i, j)]
                    g0.in_bounds(i, j) ==> grid.state_at(i, j) == (if s.min.x <= i < s.max.x
                        && s.min.y <= j < y {
                        TriState::True
                    } else {
                        g0.state_at(i, j)
                    }),
            decreases s.max.y - y,
        {
            let mut x = s.min.x;
            while x < s.max.x
                invariant
                    grid.wf(),
                    grid.same_shape(&g0),
                    s.min.y <= y < s.max.y,
                    s.min.x <= x,
                    x <= s.max.x,
                    forall|i: int, j: int|
                        #![trigger grid.state_at(i, j)]
                        g0.in_bounds(i, j) ==> grid.state_at(i, j) == (if (s.min.x <= i < s.max.x
                            && s.min.y <= j < y) || (j == y && s.min.x <= i < x) {
                            TriState::True
                        } else {
                            g0.state_at(i, j)
                        }),
                decreases s.max.x - x,
            {
                grid.set_cell_state(x, y, true);
                x = x + 1;
            }
            y = y + 1;
        }
    }

    /// Turns on every cell of the path.
    pub fn curved_path(grid: &mut MapGrid, path: &Vec<(usize, usize)>)
        requires
            old(grid).wf(),
        ensures
            turned_on(
                *final(grid),
                *old(grid),
                |a: int, b: int| path@.contains((a as usize, b as usize)),
            ),
    {
        let ghost g0 = *grid;
        let mut k: usize = 0;
        while k < path.len()
            invariant
                grid.wf(),
                grid.same_shape(&g0),
                k <= path@.len(),
                forall|i: int, j: int|
                    #![trigger grid.state_at(i, j)]
                    g0.in_bounds(i, j) ==> grid.state_at(i, j) == (if path@.take(k as int).contains(
                        (i as usize, j as usize),
                    ) {
                        TriState::True
                    } else {
                        g0.state_at(i, j)
                    }),
            decreases path@.len() - k,
        {
            let (x, y) = path[k];
            let ghost before = *grid;
            grid.set_cell_state(x, y, true);
            proof {
                let t = path@.take(k as int);
                let t1 = path@.take(k as int + 1);
                assert(t1 == t.push((x, y)));
                assert forall|i: int, j: int|
                    #![trigger grid.state_at(i, j)]
                    g0.in_bounds(i, j) implies grid.state_at(i, j) == (if t1.contains(
                        (i as usize, j as usize),
                    ) {
                        TriState::True
                    } else {
                        g0.state_at(i, j)
                    }) by {
                    let p = (i as usize, j as usize);
                    if t.contains(p) {
                        let w = choose|w: int| 0 <= w < t.len() && t[w] == p;
                        assert(t1[w] == p);
                    }
                    if p == (x, y) {
                        assert(t1[t.len() as int] == p);
                    }
                    if t1.contains(p) {
                        let w = choose|w: int| 0 <= w < t1.len() && t1[w] == p;
                        if w < t.len() {
                            assert(t[w] == p);
                        }
                    }
                    assert(before.state_at(i, j) == before.state_at(i, j));
                }
            }
            k = k + 1;
        }
        proof {
            assert(path@.take(k as int) =~= path@);
        }
    }

    /// Decides on one candidate room of a generator's loop: the room at `(x, y)` that is `w`
    /// wide and `h` high is added to `rooms` when it fits the map (see [`room_fits`]) and
    /// collides with none of them, grown by `buffer` if one is given.
    pub fn try_add_room(
        rooms: &mut Vec<Room>,
        x: usize,
        y: usize,
        w: usize,
        h: usize,
        map_width: usize,
        map_height: usize,
        strict: bool,
        buffer: Option<usize>,
    ) -> (added: bool)
        requires
            x + w + (match buffer {
                Some(b) => b as int,
                None => 0,
            }) <= usize::MAX,
            y + h + (match buffer {
                Some(b) => b as int,
                None => 0,
            }) <= usize::MAX,
        ensures
            added == (room_fits(x as int, y as int, w as int, h as int, map_width as int, map_height as int, strict)
                && free_of(old(rooms)@, room_rect(x as int, y as int, w as int, h as int), buffer)),
            added ==> final(rooms)@.len() == old(rooms)@.len() + 1 && final(rooms)@.drop_last()
                == old(rooms)@ && final(rooms)@.last().spec_square() == room_rect(
                x as int,
                y as int,
                w as int,
                h as int,
            ),
            !added ==> final(rooms)@ == old(rooms)@,
    {
        let out_of_bounds = if strict {
            x + w >= map_width || y + h >= map_height
        } else {
            x + w > map_width || y + h > map_height
        };
        if out_of_bounds {
            return false;
        }
        if x + w < 3 || y + h < 3 {
            return false;
        }
        let room = Room::new((x, y), w, h);
        let ghost rect = room_rect(x as int, y as int, w as int, h as int);
        assert(room_fits(x as int, y as int, w as int, h as int, map_width as int, map_height as int, strict));
        let mut k: usize = 0;
        while k < rooms.len()
            invariant
                k <= rooms@.len(),
                rooms@ == old(rooms)@,
                room_fits(x as int, y as int, w as int, h as int, map_width as int, map_height as int, strict),
                rect == room_rect(x as int, y as int, w as int, h as int),
                room.spec_square() == rect,
                rect.max.x + (match buffer {
                    Some(b) => b as int,
                    None => 0,
                }) <= usize::MAX,
                rect.max.y + (match buffer {
                    Some(b) => b as int,
                    None => 0,
                }) <= usize::MAX,
                free_of(rooms@.take(k as int), rect, buffer),
            decreases rooms@.len() - k,
        {
            let other = &rooms[k];
            let hit = match buffer {
                Some(b) => room.intersects_with_buffer(other, b),
                None => room.intersects(other),
            };
            if hit {
                proof {
                    assert(collides(rect, rooms@[k as int].spec_square(), buffer));
                    assert(!free_of(old(rooms)@, rect, buffer));
                }
                return false;
            }
            proof {
                assert forall|t: int| 0 <= t < rooms@.take(k as int + 1).len() implies !collides(
                    rect,
                    #[trigger] rooms@.take(k as int + 1)[t].spec_square(),
                    buffer,
                ) by {
                    if t < k {
                        assert(rooms@.take(k as int + 1)[t] == rooms@.take(k as int)[t]);
                    }
                }
            }
            k = k + 1;
        }
        proof {
            assert(rooms@.take(k as int) =~= rooms@);
        }
        rooms.push(room);
        proof {
            assert(rooms@.drop_last() =~= old(rooms)@);
        }
        true
    }

    /// The rooms that the basic generator keeps from the candidates `(x, y, w, h)` it drew, in
    /// order: each candidate is moved left and up until it stops short of the last column and
    /// row of the map, and kept when it overlaps none of the rooms kept before it.
    pub fn basic_rooms(cands: &Vec<(usize, usize, usize, usize)>, map_width: usize, map_height: usize) -> (r: Vec<Room>)
        requires
            map_width > 20,
            map_height > 13,
            map_width + 20 <= usize::MAX,
            map_height + 20 <= usize::MAX,
            forall|t: int| 0 <= t < cands@.len() ==> basic_candidate(#[trigger] cands@[t], map_width as int, map_height as int),
        ensures
            room_squares(r@) == basic_kept(cands@, map_width as int, map_height as int),
            r@.len() <= cands@.len(),
            cands@.len() <= 100 ==> basic_layout(r@, map_width as int, map_height as int),
    {
        let mut rooms: Vec<Room> = Vec::new();
        let mut i: usize = 0;
        while i < cands.len()
            invariant
                i <= cands@.len(),
                rooms@.len() <= i,
                map_width > 20,
                map_height > 13,
                map_width + 20 <= usize::MAX,
                map_height + 20 <= usize::MAX,
                forall|t: int| 0 <= t < cands@.len() ==> basic_candidate(#[trigger] cands@[t], map_width as int, map_height as int),
                room_squares(rooms@) == basic_kept(cands@.take(i as int), map_width as int, map_height as int),
                rooms@.len() <= 100 ==> basic_layout(rooms@, map_width as int, map_height as int),
                forall|t: int|
                    #![trigger rooms@[t]]
                    0 <= t < rooms@.len() ==> {
                        let s = rooms@[t].spec_square();
                        &&& s.min.x + 3 <= s.max.x <= s.min.x + 20
                        &&& s.min.y + 3 <= s.max.y <= s.min.y + 13
                        &&& s.max.x < map_width
                        &&& s.max.y < map_height
                    },
                forall|a: int, b: int|
                    0 <= a < b < rooms@.len() ==> !(#[trigger] rooms@[b].spec_square()).spec_intersects(
                        #[trigger] rooms@[a].spec_square(),
                    ),
            decreases cands@.len() - i,
        {
            let (x0, y0, w, h) = cands[i];
            proof {
                assert(basic_candidate(cands@[i as int], map_width as int, map_height as int));
            }
            let mut x = x0;
            let mut y = y0;
            while x + w >= map_width
                invariant
                    x < map_width,
                    3 <= w <= 20,
                    map_width > 20,
                    map_width + 20 <= usize::MAX,
                    x0 + w >= map_width ==> x + w + 1 >= map_width,
                    x0 + w < map_width ==> x == x0,
                decreases x,
            {
                x = x - 1;
            }
            while y + h >= map_height
                invariant
                    y < map_height,
                    3 <= h <= 13,
                    map_height > 13,
                    map_height + 20 <= usize::MAX,
                    y0 + h >= map_height ==> y + h + 1 >= map_height,
                    y0 + h < map_height ==> y == y0,
                decreases y,
            {
                y = y - 1;
            }
            let ghost before = rooms@;
            let ghost c = cands@[i as int];
            let ghost rect = room_rect(x as int, y as int, w as int, h as int);
            proof {
                assert(rect == shifted_candidate(c, map_width as int, map_height as int));
                let prev = basic_kept(cands@.take(i as int), map_width as int, map_height as int);
                assert(cands@.take(i as int + 1).drop_last() =~= cands@.take(i as int));
                assert(cands@.take(i as int + 1).last() == c);
                assert(room_squares(before) == prev);
                assert(free_of(before, rect, None) == apart_from(prev, rect)) by {
                    if free_of(before, rect, None) {
                        assert forall|t: int| 0 <= t < prev.len() implies !rect.spec_intersects(#[trigger] prev[t]) by {
                            assert(prev[t] == before[t].spec_square());
                            assert(!collides(rect, before[t].spec_square(), None));
                        }
                    }
                    if apart_from(prev, rect) {
                        assert forall|t: int| 0 <= t < before.len() implies !collides(rect, #[trigger] before[t].spec_square(), None) by {
                            assert(prev[t] == before[t].spec_square());
                        }
                    }
                }
            }
            let added = Self::try_add_room(&mut rooms, x, y, w, h, map_width, map_height, true, None);
            proof {
                let n = before.len() as int;
                if added {
                    assert(rooms@[n].spec_square() == rect);
                    assert forall|t: int| 0 <= t < n implies rooms@[t] == before[t] by {
                        assert(rooms@.drop_last()[t] == before[t]);
                    }
                    assert(room_squares(rooms@) =~= room_squares(before).push(rect));
                    assert forall|a: int, b: int|
                        0 <= a < b < rooms@.len() implies !(#[trigger] rooms@[b].spec_square()).spec_intersects(
                        #[trigger] rooms@[a].spec_square(),
                    ) by {
                        if b == n {
                            assert(!collides(rect, before[a].spec_square(), None));
                        } else {
                            assert(!before[b].spec_square().spec_intersects(before[a].spec_square()));
                        }
                    }
                    assert forall|t: int| #![trigger rooms@[t]] 0 <= t < rooms@.len() implies {
                        let s = rooms@[t].spec_square();
                        &&& s.min.x + 3 <= s.max.x <= s.min.x + 20
                        &&& s.min.y + 3 <= s.max.y <= s.min.y + 13
                        &&& s.max.x < map_width
                        &&& s.max.y < map_height
                    } by {
                        if t < n {
                            assert(rooms@[t] == before[t]);
                        }
                    }
                }
            }
            i = i + 1;
        }
        proof {
            assert(cands@.take(i as int) =~= cands@);
        }
        rooms
    }

    /// Generates a map of outlined rooms: 100 candidate rooms are drawn at random (a corner
    /// inside the map, 3 to 20 wide, 3 to 13 high), the kept ones chosen as
    /// [`RoomBasedGen::basic_rooms`] chooses them; then the border of each kept room is turned
    /// on in an empty map. The first candidate is always kept.
    pub fn basic(size: GridSize) -> (r: MapGrid)
        requires
            size.width > 20,
            size.height > 13,
            size.width * size.height <= usize::MAX,
        ensures
            r.wf(),
            r.spec_width() == size.width,
            r.spec_height() == size.height,
            r.spec_name() is None,
            exists|cands: Seq<(usize, usize, usize, usize)>, rooms: Seq<Room>|
                #![trigger basic_kept(cands, size.width as int, size.height as int), room_squares(rooms)]
                {
                    &&& basic_draws(cands, size.width as int, size.height as int)
                    &&& room_squares(rooms) == basic_kept(cands, size.width as int, size.height as int)
                    &&& rooms.len() >= 1
                    &&& basic_layout(rooms, size.width as int, size.height as int)
                    &&& forall|i: int, j: int|
                        #![trigger r.state_at(i, j)]
                        r.in_bounds(i, j) ==> r.state_at(i, j) == (if outlined(rooms, i, j) {
                            TriState::True
                        } else {
                            TriState::False
                        })
                },
    {
        let map_width = size.width;
        let map_height = size.height;
        proof {
            assert(map_width + 20 <= usize::MAX && map_height + 20 <= usize::MAX) by (nonlinear_arith)
                requires
                    map_width > 20,
                    map_height > 13,
                    map_width * map_height <= usize::MAX,
            ;
        }
        let mut cands: Vec<(usize, usize, usize, usize)> = Vec::new();
        let mut i: usize = 0;
        while i < 100
            invariant
                i <= 100,
                cands@.len() == i,
                map_width > 20,
                map_height > 13,
                forall|t: int| 0 <= t < cands@.len() ==> basic_candidate(#[trigger] cands@[t], map_width as int, map_height as int),
            decreases 100 - i,
        {
            let x = random_usize(0, map_width);
            let y = random_usize(0, map_height);
            let w = random_usize(3, 21);
            let h = random_usize(3, 14);
            cands.push((x, y, w, h));
            i = i + 1;
        }
        let rooms = Self::basic_rooms(&cands, map_width, map_height);
        proof {
            lemma_basic_keeps_one(cands@, map_width as int, map_height as int);
            assert(room_squares(rooms@).len() == rooms@.len());
        }
        let mut map = MapGrid::empty((map_width, map_height));
        let mut k: usize = 0;
        while k < rooms.len()
            invariant
                k <= rooms@.len(),
                map.wf(),
                map.spec_width() == size.width,
                map.spec_height() == size.height,
                map.spec_name() is None,
                basic_layout(rooms@, map_width as int, map_height as int),
                forall|i: int, j: int|
                    #![trigger map.state_at(i, j)]
                    map.in_bounds(i, j) ==> map.state_at(i, j) == (if outlined(rooms@.take(k as int), i, j) {
                        TriState::True
                    } else {
                        TriState::False
                    }),
            decreases rooms@.len() - k,
        {
            let ghost before = map;
            Self::outline_room_on_grid(&rooms[k], &mut map);
            proof {
                let t0 = rooms@.take(k as int);
                let t1 = rooms@.take(k as int + 1);
                assert forall|i: int, j: int|
                    #![trigger map.state_at(i, j)]
                    map.in_bounds(i, j) implies map.state_at(i, j) == (if outlined(t1, i, j) {
                        TriState::True
                    } else {
                        TriState::False
                    }) by {
                    assert(before.state_at(i, j) == before.state_at(i, j));
                    if outlined(t0, i, j) {
                        let w = choose|w: int| 0 <= w < t0.len() && #[trigger] border_cell(t0[w].spec_square(), i, j);
                        assert(t1[w] == t0[w]);
                        assert(border_cell(t1[w].spec_square(), i, j));
                    }
                    if border_cell(rooms@[k as int].spec_square(), i, j) {
                        assert(t1[k as int] == rooms@[k as int]);
                        assert(border_cell(t1[k as int].spec_square(), i, j));
                    }
                    if outlined(t1, i, j) {
                        let w = choose|w: int| 0 <= w < t1.len() && #[trigger] border_cell(t1[w].spec_square(), i, j);
                        if w < k {
                            assert(t0[w] == t1[w]);
                            assert(border_cell(t0[w].spec_square(), i, j));
                        }
                    }
                }
            }
            k = k + 1;
        }
        proof {
            assert(rooms@.take(k as int) =~= rooms@);
            assert(basic_draws(cands@, map_width as int, map_height as int));
        }
        map
    }

    /// Classifies a grid of the given size.
    pub fn classify_grid(size: GridSize) -> (r: ClassificationResult)
        ensures
            r == ClassificationResult::spec_classify(size),
    {
        ClassificationResult::classify(size)
    }

    /// The ranges from which a room of class `size` is drawn on a map classified as `class`:
    /// for each axis, the corner from 0 up to one past the axis length less the smallest size,
    /// and the size over [`size_span`].
    pub fn get_room_sizes(size: RoomSize, class: ClassificationResult) -> (r: (PosRange, SizeRange))
        requires
            class.cols >= size_span(size, class.cols as int).0,
            class.rows >= size_span(size, class.rows as int).0,
        ensures
            r.0.0.start == 0,
            r.0.0.end == class.cols - size_span(size, class.cols as int).0 + 1,
            r.0.1.start == 0,
            r.0.1.end == class.rows - size_span(size, class.rows as int).0 + 1,
            (r.1.0.start as int, r.1.0.end as int) == size_span(size, class.cols as int),
            (r.1.1.start as int, r.1.1.end as int) == size_span(size, class.rows as int),
    {
        let map_width = class.cols;
        let map_height = class.rows;
        let (x_start, x_end) = Self::size_span_exec(size, map_width);
        let (y_start, y_end) = Self::size_span_exec(size, map_height);
        (
            PosRange(
                Range { start: 0, end: map_width - x_start + 1 },
                Range { start: 0, end: map_height - y_start + 1 },
            ),
            SizeRange(Range { start: x_start, end: x_end }, Range { start: y_start, end: y_end }),
        )
    }

    /// [`size_span`] along an axis of length `dim`.
    pub(crate) fn size_span_exec(size: RoomSize, dim: usize) -> (r: (usize, usize))
        ensures
            (r.0 as int, r.1 as int) == size_span(size, dim as int),
    {
        let (a, b) = match size {
            RoomSize::Small => (5, Self::max_of(dim / 7, 6)),
            RoomSize::Medium => (Self::max_of(dim / 9, 5), Self::max_of(dim / 5, 7)),
            RoomSize::Big => (Self::max_of(dim / 7, 5), Self::max_of(dim / 3, 8)),
            RoomSize::Huge => (Self::max_of(dim / 5, 8), Self::max_of(dim / 2, 15)),
        };
        (a, b + 1)
    }

    /// The larger of two numbers.
    fn max_of(a: usize, b: usize) -> (r: usize)
        ensures
            r == spec_max(a as int, b as int),
    {
        if a >= b {
            a
        } else {
            b
        }
    }

    /// Connects two rooms by a straight path from the center of `first` along its row to the
    /// column of the center of `second`, then along that column to it. The two legs are drawn
    /// in either order: the row first when `horizontal_first`.
    pub fn connect_rooms_straight(grid: &mut MapGrid, first: &Room, second: &Room, horizontal_first: bool)
        requires
            old(grid).wf(),
            center_fits(first.spec_square()),
            center_fits(second.spec_square()),
        ensures
            turned_on(
                *final(grid),
                *old(grid),
                |a: int, b: int|
                    on_elbow_path(
                        center_of(first.spec_square()),
                        center_of(second.spec_square()),
                        a,
                        b,
                    ),
            ),
    {
        let c1 = first.square().center();
        let c2 = second.square().center();
        let ghost g0 = *grid;
        if horizontal_first {
            Self::horizontal_path(grid, c1.x, c2.x, c1.y);
            let ghost g1 = *grid;
            Self::vertical_path(grid, c1.y, c2.y, c2.x);
            proof {
                assert forall|i: int, j: int| #![trigger grid.state_at(i, j)] g0.in_bounds(i, j)
                    implies grid.state_at(i, j) == (if on_elbow_path(c1, c2, i, j) {
                    TriState::True
                } else {
                    g0.state_at(i, j)
                }) by {
                    assert(g1.state_at(i, j) == g1.state_at(i, j));
                }
            }
        } else {
            Self::vertical_path(grid, c1.y, c2.y, c2.x);
            let ghost g1 = *grid;
            Self::horizontal_path(grid, c1.x, c2.x, c1.y);
            proof {
                assert forall|i: int, j: int| #![trigger grid.state_at(i, j)] g0.in_bounds(i, j)
                    implies grid.state_at(i, j) == (if on_elbow_path(c1, c2, i, j) {
                    TriState::True
                } else {
                    g0.state_at(i, j)
                }) by {
                    assert(g1.state_at(i, j) == g1.state_at(i, j));
                }
            }
        }
    }

    /// Connects two rooms: one time in three along the points that `curve` gives between their
    /// centers, otherwise by a straight path (see [`RoomBasedGen::connect_rooms_straight`]) whose
    /// two legs are drawn in a random order.
    pub fn connect_rooms<F: Fn(GridPos, GridPos) -> Vec<(usize, usize)>>(
        grid: &mut MapGrid,
        first: &Room,
        second: &Room,
        curve: &F,
    )
        requires
            old(grid).wf(),
            center_fits(first.spec_square()),
            center_fits(second.spec_square()),
            forall|a: GridPos, b: GridPos| curve.requires((a, b)),
        ensures
            only_turned_on(*final(grid), *old(grid)),
            turned_on(
                *final(grid),
                *old(grid),
                |a: int, b: int|
                    on_elbow_path(
                        center_of(first.spec_square()),
                        center_of(second.spec_square()),
                        a,
                        b,
                    ),
            ) || exists|path: Vec<(usize, usize)>|
                #![trigger curve.ensures((center_of(first.spec_square()), center_of(second.spec_square())), path)]
                curve.ensures((center_of(first.spec_square()), center_of(second.spec_square())), path)
                    && turned_on(
                    *final(grid),
                    *old(grid),
                    |a: int, b: int| path@.contains((a as usize, b as usize)),
                ),
            linked(*final(grid), *first, *second, curve),
            forall|i: int, j: int|
                #![trigger final(grid).state_at(i, j)]
                old(grid).in_bounds(i, j) && final(grid).state_at(i, j) != old(grid).state_at(i, j)
                    ==> on_link(*first, *second, curve, i, j),
    {
        let c1 = first.square().center();
        let c2 = second.square().center();
        if random_u8(0, 3) == 2 {
            let path = curve(c1, c2);
            Self::curved_path(grid, &path);
        } else {
            let horizontal_first = random_bool();
            Self::connect_rooms_straight(grid, first, second, horizontal_first);
        }
    }

    /// Draws, for `n` rooms, what decides the connections around each pair of neighbours (see
    /// [`LinkDraw`]): the roll, then one to three picks for the first and for the second.
    fn draw_links(n: usize) -> (r: Vec<LinkDraw>)
        requires
            n >= 2,
        ensures
            r@.len() == n - 1,
            forall|k: int| 0 <= k < r@.len() ==> link_draw_ok(#[trigger] r@[k], n as int),
    {
        let mut draws: Vec<LinkDraw> = Vec::new();
        let mut i: usize = 0;
        while i < n - 1
            invariant
                n >= 2,
                i <= n - 1,
                draws@.len() == i,
                forall|k: int| 0 <= k < draws@.len() ==> link_draw_ok(#[trigger] draws@[k], n as int),
            decreases n - 1 - i,
        {
            let roll = random_u8(0, 5);
            let first = Self::draw_picks(n);
            let second = Self::draw_picks(n);
            draws.push(LinkDraw { roll, first, second });
            i = i + 1;
        }
        draws
    }

    /// Draws one to three positions among `n` rooms: the count less one first, then each
    /// position.
    fn draw_picks(n: usize) -> (r: Vec<usize>)
        requires
            n >= 1,
        ensures
            1 <= r@.len() <= 3,
            forall|k: int| 0 <= k < r@.len() ==> #[trigger] r@[k] < n,
    {
        let extra = random_u8(0, 3);
        let mut picks: Vec<usize> = Vec::new();
        let mut e: u8 = 0;
        while e <= extra
            invariant
                extra < 3,
                e <= extra + 1,
                picks@.len() == e,
                n >= 1,
                forall|k: int| 0 <= k < picks@.len() ==> #[trigger] picks@[k] < n,
            decreases extra + 1 - e,
        {
            picks.push(random_usize(0, n));
            e = e + 1;
        }
        picks
    }

    /// The pairs of rooms, as positions in the shuffled order, that
    /// [`RoomBasedGen::connect_all_rooms`] connects given its draws, in the order it connects
    /// them (see [`link_pairs`]).
    pub fn planned_links(draws: &Vec<LinkDraw>) -> (r: Vec<(usize, usize)>)
        requires
            draws@.len() < usize::MAX,
        ensures
            r@.map_values(|q: (usize, usize)| (q.0 as int, q.1 as int)) == link_pairs(draws@),
    {
        let mut out: Vec<(usize, usize)> = Vec::new();
        let mut i: usize = 0;
        while i < draws.len()
            invariant
                i <= draws@.len(),
                draws@.len() < usize::MAX,
                out@.map_values(|q: (usize, usize)| (q.0 as int, q.1 as int)) == link_pairs(draws@.take(i as int)),
            decreases draws@.len() - i,
        {
            let d = &draws[i];
            let ghost before = out@;
            if d.roll > 1 {
                out.push((i, i + 1));
            }
            let mut k: usize = 0;
            while k < d.first.len()
                invariant
                    k <= d.first@.len(),
                    i < draws@.len(),
                    *d == draws@[i as int],
                    out@.map_values(|q: (usize, usize)| (q.0 as int, q.1 as int)) == before.map_values(|q: (usize, usize)| (q.0 as int, q.1 as int))
                        + (if d.roll > 1 { seq![(i as int, i + 1)] } else { Seq::<(int, int)>::empty() })
                        + picked_pairs(i as int, d.first@.take(k as int)),
                decreases d.first@.len() - k,
            {
                let ghost o = out@;
                out.push((i, d.first[k]));
                proof {
                    let f = |q: (usize, usize)| (q.0 as int, q.1 as int);
                    let head = if d.roll > 1 { seq![(i as int, i + 1)] } else { Seq::<(int, int)>::empty() };
                    assert(d.first@.take(k as int + 1) =~= d.first@.take(k as int).push(d.first@[k as int]));
                    assert(out@.map_values(f) =~= o.map_values(f).push((i as int, d.first@[k as int] as int)));
                    assert(picked_pairs(i as int, d.first@.take(k as int + 1)) =~= picked_pairs(i as int, d.first@.take(k as int)).push(
                        (i as int, d.first@[k as int] as int)));
                    assert(before.map_values(f) + head + picked_pairs(i as int, d.first@.take(k as int + 1)) =~= (before.map_values(f) + head
                        + picked_pairs(i as int, d.first@.take(k as int))).push((i as int, d.first@[k as int] as int)));
                }
                k = k + 1;
            }
            let ghost mid = out@;
            let mut k: usize = 0;
            while k < d.second.len()
                invariant
                    k <= d.second@.len(),
                    i < draws@.len(),
                    draws@.len() < usize::MAX,
                    *d == draws@[i as int],
                    out@.map_values(|q: (usize, usize)| (q.0 as int, q.1 as int)) == mid.map_values(|q: (usize, usize)| (q.0 as int, q.1 as int))
                        + picked_pairs(i + 1, d.second@.take(k as int)),
                decreases d.second@.len() - k,
            {
                let ghost o = out@;
                out.push((i + 1, d.second[k]));
                proof {
                    let f = |q: (usize, usize)| (q.0 as int, q.1 as int);
                    assert(d.second@.take(k as int + 1) =~= d.second@.take(k as int).push(d.second@[k as int]));
                    assert(out@.map_values(f) =~= o.map_values(f).push((i + 1, d.second@[k as int] as int)));
                    assert(picked_pairs(i + 1, d.second@.take(k as int + 1)) =~= picked_pairs(i + 1, d.second@.take(k as int)).push(
                        (i + 1, d.second@[k as int] as int)));
                    assert(mid.map_values(f) + picked_pairs(i + 1, d.second@.take(k as int + 1)) =~= (mid.map_values(f)
                        + picked_pairs(i + 1, d.second@.take(k as int))).push((i + 1, d.second@[k as int] as int)));
                }
                k = k + 1;
            }
            proof {
                assert(d.first@.take(d.first@.len() as int) =~= d.first@);
                assert(d.second@.take(d.second@.len() as int) =~= d.second@);
                let t1 = draws@.take(i as int + 1);
                assert(t1.drop_last() =~= draws@.take(i as int));
                assert(t1.last() == draws@[i as int]);
                assert(link_pairs(t1) == link_pairs(draws@.take(i as int)) + window_pairs(i as int, draws@[i as int]));
            }
            i = i + 1;
        }
        proof {
            assert(draws@.take(i as int) =~= draws@);
        }
        out
    }

    /// Connects the rooms: they are shuffled; then, for each two neighbours in the new order,
    /// a roll of three in five connects the two, and each of the two is connected to one to
    /// three rooms picked at random (see [`RoomBasedGen::connect_rooms`]). The draws are made
    /// first and the connections follow, in the order of [`RoomBasedGen::planned_links`]. With
    /// two rooms or more, every room ends up with a connection drawn to some room, and every
    /// cell turned on lies on a connection between two rooms of a planned pair.
    pub fn connect_all_rooms<F: Fn(GridPos, GridPos) -> Vec<(usize, usize)>>(
        grid: &mut MapGrid,
        rooms: &mut Vec<Room>,
        curve: &F,
    )
        requires
            old(grid).wf(),
            forall|t: int| 0 <= t < old(rooms)@.len() ==> center_fits(#[trigger] old(rooms)@[t].spec_square()),
            forall|a: GridPos, b: GridPos| curve.requires((a, b)),
        ensures
            only_turned_on(*final(grid), *old(grid)),
            final(rooms)@.to_multiset() == old(rooms)@.to_multiset(),
            old(rooms)@.len() >= 2 ==> all_linked(*final(grid), final(rooms)@, curve),
            drawn_by_links(*final(grid), *old(grid), final(rooms)@, curve),
            old(rooms)@.len() < 2 ==> *final(grid) == *old(grid),
            old(rooms)@.len() >= 2 ==> exists|draws: Seq<LinkDraw>|
                #![trigger link_pairs(draws)]
                {
                    &&& draws.len() == old(rooms)@.len() - 1
                    &&& forall|k: int| 0 <= k < draws.len() ==> link_draw_ok(#[trigger] draws[k], old(rooms)@.len() as int)
                    &&& pairs_linked(*final(grid), final(rooms)@, link_pairs(draws), curve)
                    &&& drawn_by_pairs(*final(grid), *old(grid), final(rooms)@, link_pairs(draws), curve)
                },
    {
        shuffle_rooms(rooms);
        let room_count = rooms.len();
        let ghost g0 = *grid;
        let ghost rs = rooms@;
        proof {
            assert forall|t: int| 0 <= t < rooms@.len() implies center_fits(#[trigger] rooms@[t].spec_square()) by {
                vstd::seq_lib::to_multiset_contains(rooms@, rooms@[t]);
                vstd::seq_lib::to_multiset_contains(old(rooms)@, rooms@[t]);
                assert(rooms@.contains(rooms@[t]));
                let u = choose|u: int| 0 <= u < old(rooms)@.len() && old(rooms)@[u] == rooms@[t];
                assert(center_fits(old(rooms)@[u].spec_square()));
            }
            assert(rooms@.len() == old(rooms)@.len()) by {
                vstd::seq_lib::lemma_multiset_commutative(rooms@, old(rooms)@);
                rooms@.to_multiset_ensures();
                old(rooms)@.to_multiset_ensures();
            }
        }
        if room_count < 2 {
            proof {
                assert forall|i: int, j: int| #![trigger grid.state_at(i, j)]
                    g0.in_bounds(i, j) && grid.state_at(i, j) != g0.state_at(i, j) implies exists|t: int, u: int|
                    0 <= t < rs.len() && 0 <= u < rs.len() && #[trigger] on_link(rs[t], rs[u], curve, i, j) by {}
                assert(only_turned_on(*grid, g0));
            }
            return;
        }
        let draws = Self::draw_links(room_count);
        let pairs = Self::planned_links(&draws);
        let ghost plan = link_pairs(draws@);
        proof {
            lemma_pairs_in_range(draws@, room_count as int);
            assert forall|q: int| 0 <= q < pairs@.len() implies (#[trigger] pairs@[q]).0 < room_count
                && pairs@[q].1 < room_count by {
                assert(plan[q] == (pairs@[q].0 as int, pairs@[q].1 as int));
            }
        }
        let mut k: usize = 0;
        while k < pairs.len()
            invariant
                room_count == rooms@.len(),
                rooms@ == rs,
                room_count >= 2,
                k <= pairs@.len(),
                pairs@.map_values(|q: (usize, usize)| (q.0 as int, q.1 as int)) == plan,
                forall|q: int| 0 <= q < pairs@.len() ==> (#[trigger] pairs@[q]).0 < room_count && pairs@[q].1 < room_count,
                only_turned_on(*grid, g0),
                g0.wf(),
                forall|t: int| 0 <= t < rooms@.len() ==> center_fits(#[trigger] rooms@[t].spec_square()),
                forall|a: GridPos, b: GridPos| curve.requires((a, b)),
                pairs_linked(*grid, rs, plan.take(k as int), curve),
                drawn_by_pairs(*grid, g0, rs, plan.take(k as int), curve),
            decreases pairs@.len() - k,
        {
            let (a, b) = pairs[k];
            proof {
                assert(center_fits(rooms@[a as int].spec_square()));
                assert(center_fits(rooms@[b as int].spec_square()));
                assert(plan[k as int] == (a as int, b as int));
            }
            let r1 = rooms[a];
            let r2 = rooms[b];
            let ghost before = *grid;
            Self::connect_rooms(grid, &r1, &r2, curve);
            proof {
                Self::lemma_only_turned_on_trans(*grid, before, g0);
                let t0 = plan.take(k as int);
                let t1 = plan.take(k as int + 1);
                assert forall|q: int| 0 <= q < t1.len() implies #[trigger] linked(*grid, rs[t1[q].0], rs[t1[q].1], curve) by {
                    if q < k {
                        assert(t1[q] == t0[q]);
                        assert(linked(before, rs[t0[q].0], rs[t0[q].1], curve));
                        Self::lemma_linked_kept(*grid, before, rs[t0[q].0], rs[t0[q].1], curve);
                    } else {
                        assert(t1[q] == (a as int, b as int));
                    }
                }
                assert forall|i: int, j: int|
                    #![trigger grid.state_at(i, j)]
                    g0.in_bounds(i, j) && grid.state_at(i, j) != g0.state_at(i, j) implies exists|q: int|
                    0 <= q < t1.len() && #[trigger] on_link(rs[t1[q].0], rs[t1[q].1], curve, i, j) by {
                    if grid.state_at(i, j) != before.state_at(i, j) {
                        assert(before.in_bounds(i, j));
                        assert(on_link(r1, r2, curve, i, j));
                        assert(t1[k as int] == (a as int, b as int));
                    } else {
                        assert(before.state_at(i, j) != g0.state_at(i, j));
                        let q = choose|q: int| 0 <= q < t0.len() && #[trigger] on_link(rs[t0[q].0], rs[t0[q].1], curve, i, j);
                        assert(t1[q] == t0[q]);
                    }
                }
            }
            k = k + 1;
        }
        proof {
            assert(plan.len() == pairs@.len());
            assert(plan.take(k as int) =~= plan);
            let n = room_count as int;
            assert forall|t: int| 0 <= t < rs.len() implies #[trigger] has_link(*grid, rs, t, curve) by {
                lemma_every_room_picks(draws@, n, t);
                let q = choose|q: int| 0 <= q < plan.len() && (#[trigger] plan[q]).0 == t;
                assert(linked(*grid, rs[plan[q].0], rs[plan[q].1], curve));
                assert(0 <= plan[q].1 < n) by {
                    assert(plan[q] == (pairs@[q].0 as int, pairs@[q].1 as int));
                }
            }
            assert forall|i: int, j: int| #![trigger grid.state_at(i, j)]
                g0.in_bounds(i, j) && grid.state_at(i, j) != g0.state_at(i, j) implies exists|t: int, u: int|
                0 <= t < rs.len() && 0 <= u < rs.len() && #[trigger] on_link(rs[t], rs[u], curve, i, j) by {
                let q = choose|q: int| 0 <= q < plan.len() && #[trigger] on_link(rs[plan[q].0], rs[plan[q].1], curve, i, j);
                assert(plan[q] == (pairs@[q].0 as int, pairs@[q].1 as int));
            }
        }
    }

    /// A connection drawn stays drawn when more cells are turned on.
    proof fn lemma_linked_kept<F: Fn(GridPos, GridPos) -> Vec<(usize, usize)>>(
        g2: MapGrid,
        g1: MapGrid,
        a: Room,
        b: Room,
        curve: &F,
    )
        requires
            only_turned_on(g2, g1),
            g1.wf(),
            linked(g1, a, b, curve),
        ensures
            linked(g2, a, b, curve),
    {
        let ca = center_of(a.spec_square());
        let cb = center_of(b.spec_square());
        if forall|i: int, j: int|
            #![trigger g1.state_at(i, j)]
            g1.in_bounds(i, j) && on_elbow_path(ca, cb, i, j) ==> g1.state_at(i, j) == TriState::True {
            assert forall|i: int, j: int| #![trigger g2.state_at(i, j)]
                g2.in_bounds(i, j) && on_elbow_path(ca, cb, i, j) implies g2.state_at(i, j) == TriState::True by {
                assert(g1.state_at(i, j) == TriState::True);
            }
        } else {
            let path = choose|path: Vec<(usize, usize)>|
                #![trigger curve.ensures((ca, cb), path)]
                curve.ensures((ca, cb), path) && forall|i: int, j: int|
                    #![trigger g1.state_at(i, j)]
                    g1.in_bounds(i, j) && path@.contains((i as usize, j as usize)) ==> g1.state_at(i, j)
                        == TriState::True;
            assert forall|i: int, j: int| #![trigger g2.state_at(i, j)]
                g2.in_bounds(i, j) && path@.contains((i as usize, j as usize)) implies g2.state_at(i, j)
                == TriState::True by {
                assert(g1.state_at(i, j) == TriState::True);
            }
        }
    }

    /// Turning cells on twice turns cells on.
    proof fn lemma_only_turned_on_trans(c: MapGrid, b: MapGrid, a: MapGrid)
        requires
            only_turned_on(c, b),
            only_turned_on(b, a),
            a.wf(),
        ensures
            only_turned_on(c, a),
    {
        assert forall|i: int, j: int| #![trigger c.state_at(i, j)] a.in_bounds(i, j) implies c.state_at(i, j)
            == a.state_at(i, j) || c.state_at(i, j) == TriState::True by {
            assert(b.state_at(i, j) == b.state_at(i, j));
        }
    }
}

} // verus!