//! Positions, sizes and rectangles on a grid.
use vstd::prelude::*;

verus! {

/// An index into a [`crate::data::MapGrid`].
pub type GridIndex = usize;

/// A position `(x, y)` in a [`crate::data::MapGrid`].
#[derive(Clone, Copy, Debug, PartialEq, Eq, Structural, Hash)]
pub struct GridPos {
    /// The column.
    pub x: usize,
    /// The row.
    pub y: usize,
}

/// The size of a [`crate::data::MapGrid`].
#[derive(Clone, Copy, Debug, PartialEq, Eq, Structural, Hash)]
pub struct GridSize {
    /// The number of columns.
    pub width: usize,
    /// The number of rows.
    pub height: usize,
}

/// A half-open rectangle `[min.x, max.x) x [min.y, max.y)` of a [`crate::data::MapGrid`].
#[derive(Clone, Copy, Debug, PartialEq, Eq, Structural, Hash)]
pub struct GridSquare {
    /// The upper left corner (inclusive).
    pub min: GridPos,
    /// The lower right corner (exclusive).
    pub max: GridPos,
}

impl GridPos {
    /// Creates a new position.
    pub fn new(x: usize, y: usize) -> (r: Self)
        ensures
            r.x == x,
            r.y == y,
    {
        GridPos { x, y }
    }

    /// The position as an `(x, y)` tuple.
    pub fn to_tuple(self) -> (r: (usize, usize))
        ensures
            r == (self.x, self.y),
    {
        (self.x, self.y)
    }
}

impl From<(usize, usize)> for GridPos {
    fn from(t: (usize, usize)) -> (r: Self) {
        GridPos { x: t.0, y: t.1 }
    }
}

impl vstd::std_specs::convert::FromSpecImpl<(usize, usize)> for GridPos {
    open spec fn obeys_from_spec() -> bool {
        true
    }

    open spec fn from_spec(t: (usize, usize)) -> Self {
        GridPos { x: t.0, y: t.1 }
    }
}

impl From<GridPos> for (usize, usize) {
    fn from(p: GridPos) -> (r: (usize, usize)) {
        (p.x, p.y)
    }
}

impl vstd::std_specs::convert::FromSpecImpl<GridPos> for (usize, usize) {
    open spec fn obeys_from_spec() -> bool {
        true
    }

    open spec fn from_spec(p: GridPos) -> Self {
        (p.x, p.y)
    }
}

impl GridSize {
    /// Creates a new size.
    pub fn new(width: usize, height: usize) -> (r: Self)
        ensures
            r.width == width,
            r.height == height,
    {
        GridSize { width, height }
    }

    /// The size as a `(width, height)` tuple.
    pub fn to_tuple(self) -> (r: (usize, usize))
        ensures
            r == (self.width, self.height),
    {
        (self.width, self.height)
    }
}

impl From<(usize, usize)> for GridSize {
    fn from(t: (usize, usize)) -> (r: Self) {
        GridSize { width: t.0, height: t.1 }
    }
}

impl vstd::std_specs::convert::FromSpecImpl<(usize, usize)> for GridSize {
    open spec fn obeys_from_spec() -> bool {
        true
    }

    open spec fn from_spec(t: (usize, usize)) -> Self {
        GridSize { width: t.0, height: t.1 }
    }
}

impl From<GridSize> for (usize, usize) {
    fn from(s: GridSize) -> (r: (usize, usize)) {
        (s.width, s.height)
    }
}

impl vstd::std_specs::convert::FromSpecImpl<GridSize> for (usize, usize) {
    open spec fn obeys_from_spec() -> bool {
        true
    }

    open spec fn from_spec(s: GridSize) -> Self {
        (s.width, s.height)
    }
}

impl GridSquare {
    /// The rectangle with corner `origin` and the given size.
    pub fn from_origin_and_size(origin: GridPos, size: GridSize) -> (r: Self)
        requires
            origin.x + size.width <= usize::MAX,
            origin.y + size.height <= usize::MAX,
        ensures
            r.min == origin,
            r.max.x == origin.x + size.width,
            r.max.y == origin.y + size.height,
    {
        GridSquare {
            min: origin,
            max: GridPos { x: origin.x + size.width, y: origin.y + size.height },
        }
    }

    /// Whether the corners are ordered (`min <= max` on both axes).
    pub open spec fn is_ordered(self) -> bool {
        self.min.x <= self.max.x && self.min.y <= self.max.y
    }

    /// The number of columns covered.
    pub fn width(&self) -> (r: usize)
        requires
            self.min.x <= self.max.x,
        ensures
            r == self.max.x - self.min.x,
    {
        self.max.x - self.min.x
    }

    /// The number of rows covered.
    pub fn height(&self) -> (r: usize)
        requires
            self.min.y <= self.max.y,
        ensures
            r == self.max.y - self.min.y,
    {
        self.max.y - self.min.y
    }

    /// The size of the rectangle.
    pub fn size(&self) -> (r: GridSize)
        requires
            self.is_ordered(),
        ensures
            r.width == self.max.x - self.min.x,
            r.height == self.max.y - self.min.y,
    {
        GridSize { width: self.max.x - self.min.x, height: self.max.y - self.min.y }
    }

    /// The center point, `(min + max) / 2` on each axis (rounded down).
    pub fn center(&self) -> (r: GridPos)
        requires
            self.min.x + self.max.x <= usize::MAX,
            self.min.y + self.max.y <= usize::MAX,
        ensures
            r.x == (self.min.x + self.max.x) / 2,
            r.y == (self.min.y + self.max.y) / 2,
    {
        GridPos { x: (self.min.x + self.max.x) / 2, y: (self.min.y + self.max.y) / 2 }
    }

    /// The columns covered, as a half-open range.
    pub fn x_range(&self) -> (r: std::ops::Range<usize>)
        ensures
            r.start == self.min.x,
            r.end == self.max.x,
    {
        std::ops::Range { start: self.min.x, end: self.max.x }
    }

    /// The rows covered, as a half-open range.
    pub fn y_range(&self) -> (r: std::ops::Range<usize>)
        ensures
            r.start == self.min.y,
            r.end == self.max.y,
    {
        std::ops::Range { start: self.min.y, end: self.max.y }
    }

    /// Whether two rectangles overlap (touching edges do not count).
    pub open spec fn spec_intersects(self, other: Self) -> bool {
        self.min.x < other.max.x && self.max.x > other.min.x && self.min.y < other.max.y
            && self.max.y > other.min.y
    }

    /// Whether two rectangles overlap (touching edges do not count).
    pub fn intersects(&self, other: &Self) -> (r: bool)
        ensures
            r == self.spec_intersects(*other),
    {
        self.min.x < other.max.x && self.max.x > other.min.x && self.min.y < other.max.y
            && self.max.y > other.min.y
    }

    /// Whether the point lies inside the half-open rectangle.
    pub open spec fn spec_contains(self, p: GridPos) -> bool {
        self.min.x <= p.x < self.max.x && self.min.y <= p.y < self.max.y
    }
}

/// Create a new [`GridPos`] from an `(x, y)` tuple.
pub fn pos(xy: (usize, usize)) -> (r: GridPos)
    ensures
        r.x == xy.0,
        r.y == xy.1,
{
    GridPos { x: xy.0, y: xy.1 }
}

/// A [`GridSquare`] with corner `top_left` and the given numbers of columns and rows.
pub fn square(top_left: &(usize, usize), x_size: usize, y_size: usize) -> (r: GridSquare)
    requires
        top_left.0 + x_size <= usize::MAX,
        top_left.1 + y_size <= usize::MAX,
    ensures
        r.min.x == top_left.0,
        r.min.y == top_left.1,
        r.max.x == top_left.0 + x_size,
        r.max.y == top_left.1 + y_size,
{
    GridSquare::from_origin_and_size(pos(*top_left), GridSize::new(x_size, y_size))
}

/// Create a [`GridSize`] from a width and height.
pub fn size(width: usize, height: usize) -> (r: GridSize)
    ensures
        r.width == width,
        r.height == height,
{
    GridSize { width, height }
}

} // verus!
