//! Rectangular rooms placed on a grid.
use vstd::prelude::*;

use crate::data::grid::MapGrid;
use crate::data::types::{square, GridPos, GridSquare};
use crate::util::random::random_usize;

verus! {

/// The size classes of rooms, from smallest to largest.
#[derive(Debug, Clone, Copy, PartialEq, Eq, Structural, PartialOrd, Ord, Hash)]
pub enum RoomSize {
    Small,
    Medium,
    Big,
    Huge,
}

impl RoomSize {
    /// All room sizes, from smallest to largest.
    pub fn all_sizes() -> (r: Vec<RoomSize>)
        ensures
            r@ == seq![RoomSize::Small, RoomSize::Medium, RoomSize::Big, RoomSize::Huge],
    {
        vec![RoomSize::Small, RoomSize::Medium, RoomSize::Big, RoomSize::Huge]
    }
}

/// A room: the rectangle of the grid that it covers.
#[derive(Debug, Clone, Copy, PartialEq, Eq, Structural, Hash)]
pub struct Room(GridSquare);

/// Whether `(x, y)` lies on the border of the rectangle `s`: in its first or last column or row.
pub open spec fn on_border(s: GridSquare, x: int, y: int) -> bool {
    x == s.min.x || x == s.max.x - 1 || y == s.min.y || y == s.max.y - 1
}

/// The border cells in column `x` among the first `k` rows of `s`, top to bottom.
pub open spec fn column_edges(s: GridSquare, x: int, k: nat) -> Seq<(usize, usize)>
    decreases k,
{
    if k == 0 {
        Seq::empty()
    } else {
        let y = s.min.y + k - 1;
        column_edges(s, x, (k - 1) as nat) + (if on_border(s, x, y) {
            seq![(x as usize, y as usize)]
        } else {
            Seq::empty()
        })
    }
}

/// The border cells of `s` in its first `k` columns, column by column, each from the top.
pub open spec fn room_edges(s: GridSquare, k: nat) -> Seq<(usize, usize)>
    decreases k,
{
    if k == 0 {
        Seq::empty()
    } else {
        room_edges(s, (k - 1) as nat) + column_edges(
            s,
            s.min.x + k - 1,
            (s.max.y - s.min.y) as nat,
        )
    }
}

/// `s` grown by `buffer` on each side, where the low sides stop at 0 (a side is moved only when
/// it lies further than `buffer` from 0).
pub open spec fn buffered(s: GridSquare, buffer: usize) -> GridSquare {
    GridSquare {
        min: GridPos {
            x: if s.min.x > buffer { (s.min.x - buffer) as usize } else { s.min.x },
            y: if s.min.y > buffer { (s.min.y - buffer) as usize } else { s.min.y },
        },
        max: GridPos { x: (s.max.x + buffer) as usize, y: (s.max.y + buffer) as usize },
    }
}

/// Growing a square by a buffer moves each of its far sides out by the buffer, and each of
/// its near sides in toward 0 by the buffer when that side lies further than the buffer from
/// 0 (it stays where it is otherwise).
pub proof fn lemma_buffered_sides(s: GridSquare, b: usize)
    requires
        s.max.x + b <= usize::MAX,
        s.max.y + b <= usize::MAX,
    ensures
        buffered(s, b).max.x == s.max.x + b,
        buffered(s, b).max.y == s.max.y + b,
        s.min.x > b ==> buffered(s, b).min.x == s.min.x - b,
        s.min.y > b ==> buffered(s, b).min.y == s.min.y - b,
        s.min.x <= b ==> buffered(s, b).min.x == s.min.x,
        s.min.y <= b ==> buffered(s, b).min.y == s.min.y,
{
}

/// A square grown by a buffer, whose near sides lie further than the buffer from 0, overlaps
/// another exactly when the other comes within the buffer of the square on both axes: in
/// columns and in rows alike, it starts before the buffer past the square's far side and ends
/// after the buffer before its near side.
pub proof fn lemma_buffered_overlap(s: GridSquare, o: GridSquare, b: usize)
    requires
        s.min.x > b,
        s.min.y > b,
        s.max.x + b <= usize::MAX,
        s.max.y + b <= usize::MAX,
    ensures
        buffered(s, b).spec_intersects(o) <==> (o.min.x < s.max.x + b && o.max.x + b > s.min.x
            && o.min.y < s.max.y + b && o.max.y + b > s.min.y),
{
    lemma_buffered_sides(s, b);
}

/// The rectangle of size `w` by `h` whose corner is `(x - x / 2, y - y / 2)`.
pub open spec fn centered_square(x: int, y: int, w: int, h: int) -> GridSquare {
    GridSquare {
        min: GridPos { x: (x - x / 2) as usize, y: (y - y / 2) as usize },
        max: GridPos { x: (x - x / 2 + w) as usize, y: (y - y / 2 + h) as usize },
    }
}

impl Room {
    /// The rectangle covered by the room.
    pub closed spec fn spec_square(&self) -> GridSquare {
        self.0
    }

    /// A room whose upper left corner is `upper_left` and which is `width` columns wide and
    /// `height` rows high.
    pub fn new(upper_left: (usize, usize), width: usize, height: usize) -> (r: Self)
        requires
            upper_left.0 + width <= usize::MAX,
            upper_left.1 + height <= usize::MAX,
        ensures
            r.spec_square().min == (GridPos { x: upper_left.0, y: upper_left.1 }),
            r.spec_square().max == (GridPos {
                x: (upper_left.0 + width) as usize,
                y: (upper_left.1 + height) as usize,
            }),
    {
        Room(square(&upper_left, width, height))
    }

    /// A room placed at random: a point `(x, y)` and a size are drawn from the given half-open
    /// ranges, and the room's corner is `(x - x / 2, y - y / 2)`.
    pub fn random(
        start_x_range: (usize, usize),
        start_y_range: (usize, usize),
        width_range: (usize, usize),
        height_range: (usize, usize),
    ) -> (r: Self)
        requires
            start_x_range.0 < start_x_range.1,
            start_y_range.0 < start_y_range.1,
            width_range.0 < width_range.1,
            height_range.0 < height_range.1,
            start_x_range.1 + width_range.1 <= usize::MAX,
            start_y_range.1 + height_range.1 <= usize::MAX,
        ensures
            exists|x: int, y: int, w: int, h: int|
                {
                    &&& start_x_range.0 <= x < start_x_range.1
                    &&& start_y_range.0 <= y < start_y_range.1
                    &&& width_range.0 <= w < width_range.1
                    &&& height_range.0 <= h < height_range.1
                    &&& r.spec_square() == #[trigger] centered_square(x, y, w, h)
                },
    {
        let x = random_usize(start_x_range.0, start_x_range.1);
        let y = random_usize(start_y_range.0, start_y_range.1);
        let width = random_usize(width_range.0, width_range.1);
        let height = random_usize(height_range.0, height_range.1);
        let left = x - x / 2;
        let upper = y - y / 2;
        let r = Room::new((left, upper), width, height);
        proof {
            assert(r.spec_square() == centered_square(x as int, y as int, width as int, height as int));
        }
        r
    }

    /// Whether the two rooms overlap.
    pub fn check_intersects(first: &Self, other: &Self) -> (r: bool)
        ensures
            r == first.spec_square().spec_intersects(other.spec_square()),
    {
        first.0.intersects(&other.0)
    }

    /// Whether both corners of the room lie inside the grid.
    pub fn fits_in_grid(room: &Self, grid: &MapGrid) -> (r: bool)
        ensures
            r == (room.spec_square().min.x < grid.spec_width() && room.spec_square().min.y
                < grid.spec_height() && room.spec_square().max.x < grid.spec_width()
                && room.spec_square().max.y < grid.spec_height()),
    {
        let size = grid.size();
        room.0.min.x < size.width && room.0.min.y < size.height && room.0.max.x < size.width
            && room.0.max.y < size.height
    }

    /// Whether the two rooms overlap.
    pub fn intersects(&self, other: &Self) -> (r: bool)
        ensures
            r == self.spec_square().spec_intersects(other.spec_square()),
    {
        Self::check_intersects(self, other)
    }

    /// Whether this room, grown by `buffer` on each side, overlaps `other`.
    pub fn intersects_with_buffer(&self, other: &Self, buffer: usize) -> (r: bool)
        requires
            self.spec_square().max.x + buffer <= usize::MAX,
            self.spec_square().max.y + buffer <= usize::MAX,
        ensures
            r == buffered(self.spec_square(), buffer).spec_intersects(other.spec_square()),
            self.spec_square().min.x > buffer && self.spec_square().min.y > buffer ==> (r <==> (
            other.spec_square().min.x < self.spec_square().max.x + buffer && other.spec_square().max.x
                + buffer > self.spec_square().min.x && other.spec_square().min.y
                < self.spec_square().max.y + buffer && other.spec_square().max.y + buffer
                > self.spec_square().min.y)),
    {
        proof {
            if self.spec_square().min.x > buffer && self.spec_square().min.y > buffer {
                lemma_buffered_overlap(self.spec_square(), other.spec_square(), buffer);
            }
        }
        let mut room = *self;
        room.0.min.x = room.0.min.x - if room.0.min.x > buffer {
            buffer
        } else {
            0
        };
        room.0.min.y = room.0.min.y - if room.0.min.y > buffer {
            buffer
        } else {
            0
        };
        room.0.max.x = room.0.max.x + buffer;
        room.0.max.y = room.0.max.y + buffer;
        Self::check_intersects(&room, other)
    }

    /// The rectangle covered by the room.
    pub fn square(&self) -> (r: GridSquare)
        ensures
            r == self.spec_square(),
    {
        self.0
    }

    /// The cells on the border of the room, column by column from the left, each column from
    /// the top.
    pub fn get_edges(&self) -> (r: Vec<(usize, usize)>)
        ensures
            r@ == (if self.spec_square().is_ordered() {
                room_edges(
                    self.spec_square(),
                    (self.spec_square().max.x - self.spec_square().min.x) as nat,
                )
            } else {
                Seq::empty()
            }),
    {
        let s = self.0;
        let mut edges: Vec<(usize, usize)> = Vec::new();
        if s.min.x > s.max.x || s.min.y > s.max.y {
            return edges;
        }
        let mut x = s.min.x;
        while x < s.max.x
            invariant
                s == self.spec_square(),
                s.is_ordered(),
                s.min.x <= x <= s.max.x,
                edges@ == room_edges(s, (x - s.min.x) as nat),
            decreases s.max.x - x,
        {
            let ghost before = edges@;
            let mut y = s.min.y;
            while y < s.max.y
                invariant
                    s.is_ordered(),
                    s.min.x <= x < s.max.x,
                    s.min.y <= y <= s.max.y,
                    edges@ == before + column_edges(s, x as int, (y - s.min.y) as nat),
                decreases s.max.y - y,
            {
                if x == s.min.x || x == s.max.x - 1 || y == s.min.y || y == s.max.y - 1 {
                    edges.push((x, y));
                }
                proof {
                    let k = (y - s.min.y + 1) as nat;
                    assert(s.min.y + k - 1 == y);
                    assert(edges@ =~= before + column_edges(s, x as int, k));
                }
                y = y + 1;
            }
            proof {
                let k = (x - s.min.x + 1) as nat;
                assert(s.min.x + k - 1 == x);
                assert(edges@ =~= room_edges(s, k));
            }
            x = x + 1;
        }
        edges
    }
}

} // verus!
