//! Counting the cells that rooms cover: rooms that do not overlap cover the sum of their
//! areas, and a map whose rooms are filled has at least that many cells on.
use vstd::prelude::*;

use crate::data::grid::MapGrid;
use crate::data::types::GridSquare;
use crate::gen::room_gen::inside;
use crate::gen::rooms::Room;
use crate::util::tri::TriState;

verus! {

/// The number of cells `(i, y)` with `x0 <= i < x0 + len` that satisfy `p`.
pub open spec fn row_pred_count(p: spec_fn(int, int) -> bool, x0: int, y: int, len: nat) -> nat
    decreases len,
{
    if len == 0 {
        0
    } else {
        row_pred_count(p, x0, y, (len - 1) as nat) + (if p(x0 + len - 1, y) {
            1nat
        } else {
            0nat
        })
    }
}

/// The number of cells of the rectangle `[x0, x0 + w) x [y0, y0 + h)` that satisfy `p`.
pub open spec fn pred_count(p: spec_fn(int, int) -> bool, x0: int, y0: int, w: nat, h: nat) -> nat
    decreases h,
{
    if h == 0 {
        0
    } else {
        pred_count(p, x0, y0, w, (h - 1) as nat) + row_pred_count(p, x0, y0 + h - 1, w)
    }
}

/// Whether `(i, j)` lies in one of the first `m` rooms.
pub open spec fn in_rooms(rooms: Seq<Room>, m: int, i: int, j: int) -> bool
    decreases m,
{
    if m <= 0 {
        false
    } else {
        in_rooms(rooms, m - 1, i, j) || inside(rooms[m - 1].spec_square(), i, j)
    }
}

/// The number of integers in `[0, len)` that lie in `[a, b)`, for `0 <= a <= b`.
pub open spec fn overlap(len: int, a: int, b: int) -> int {
    if len <= a {
        0
    } else if len <= b {
        len - a
    } else {
        b - a
    }
}

/// Counting a row never gives more for `p` than for `q` when `p` implies `q` on the row.
proof fn lemma_row_pred_mono(p: spec_fn(int, int) -> bool, q: spec_fn(int, int) -> bool, x0: int, y: int, len: nat)
    requires
        forall|i: int| x0 <= i < x0 + len ==> #[trigger] p(i, y) ==> q(i, y),
    ensures
        row_pred_count(p, x0, y, len) <= row_pred_count(q, x0, y, len),
    decreases len,
{
    if len > 0 {
        lemma_row_pred_mono(p, q, x0, y, (len - 1) as nat);
    }
}

/// Counting a rectangle never gives more for `p` than for `q` when `p` implies `q` on it.
pub proof fn lemma_pred_mono(p: spec_fn(int, int) -> bool, q: spec_fn(int, int) -> bool, x0: int, y0: int, w: nat, h: nat)
    requires
        forall|i: int, j: int| x0 <= i < x0 + w && y0 <= j < y0 + h ==> #[trigger] p(i, j) ==> q(i, j),
    ensures
        pred_count(p, x0, y0, w, h) <= pred_count(q, x0, y0, w, h),
    decreases h,
{
    if h > 0 {
        lemma_pred_mono(p, q, x0, y0, w, (h - 1) as nat);
        let y = y0 + h - 1;
        assert forall|i: int| x0 <= i < x0 + w implies #[trigger] p(i, y) ==> q(i, y) by {
            assert(y0 <= y < y0 + h);
        }
        lemma_row_pred_mono(p, q, x0, y, w);
    }
}

/// A row counts for `r` what it counts for `p` and `q` together, when `r` is `p` or `q` and
/// `p` and `q` never hold together.
proof fn lemma_row_pred_disjoint(
    p: spec_fn(int, int) -> bool,
    q: spec_fn(int, int) -> bool,
    r: spec_fn(int, int) -> bool,
    x0: int,
    y: int,
    len: nat,
)
    requires
        forall|i: int|
            x0 <= i < x0 + len ==> #[trigger] r(i, y) == (p(i, y) || q(i, y)) && !(p(i, y) && q(i, y)),
    ensures
        row_pred_count(r, x0, y, len) == row_pred_count(p, x0, y, len) + row_pred_count(q, x0, y, len),
    decreases len,
{
    if len > 0 {
        lemma_row_pred_disjoint(p, q, r, x0, y, (len - 1) as nat);
    }
}

/// A rectangle counts for `r` what it counts for `p` and `q` together, when `r` is `p` or `q`
/// and `p` and `q` never hold together.
pub proof fn lemma_pred_disjoint(
    p: spec_fn(int, int) -> bool,
    q: spec_fn(int, int) -> bool,
    r: spec_fn(int, int) -> bool,
    x0: int,
    y0: int,
    w: nat,
    h: nat,
)
    requires
        forall|i: int, j: int|
            x0 <= i < x0 + w && y0 <= j < y0 + h ==> #[trigger] r(i, j) == (p(i, j) || q(i, j)) && !(p(i,
                j) && q(i, j)),
    ensures
        pred_count(r, x0, y0, w, h) == pred_count(p, x0, y0, w, h) + pred_count(q, x0, y0, w, h),
    decreases h,
{
    if h > 0 {
        lemma_pred_disjoint(p, q, r, x0, y0, w, (h - 1) as nat);
        let y = y0 + h - 1;
        assert forall|i: int| x0 <= i < x0 + w implies #[trigger] r(i, y) == (p(i, y) || q(i, y)) && !(p(i, y)
            && q(i, y)) by {
            assert(y0 <= y < y0 + h);
        }
        lemma_row_pred_disjoint(p, q, r, x0, y, w);
    }
}

/// A row from column 0 counts, of a rectangle, the columns it shares with it.
proof fn lemma_row_rect(s: GridSquare, y: int, len: nat)
    requires
        s.min.x <= s.max.x,
    ensures
        row_pred_count(|i: int, j: int| inside(s, i, j), 0, y, len) == (if s.min.y <= y < s.max.y {
            overlap(len as int, s.min.x as int, s.max.x as int)
        } else {
            0
        }),
    decreases len,
{
    if len > 0 {
        lemma_row_rect(s, y, (len - 1) as nat);
    }
}

/// A `width` by `h` block from the origin counts, of a rectangle that fits `width`, its width
/// times the rows it shares with the block.
proof fn lemma_region_rect(s: GridSquare, width: nat, h: nat)
    requires
        s.min.x <= s.max.x <= width,
        s.min.y <= s.max.y,
    ensures
        pred_count(|i: int, j: int| inside(s, i, j), 0, 0, width, h) == overlap(
            h as int,
            s.min.y as int,
            s.max.y as int,
        ) * (s.max.x - s.min.x),
    decreases h,
{
    if h > 0 {
        lemma_region_rect(s, width, (h - 1) as nat);
        lemma_row_rect(s, h - 1, width);
        let wd = s.max.x - s.min.x;
        let a = overlap(h - 1, s.min.y as int, s.max.y as int);
        let b = overlap(h as int, s.min.y as int, s.max.y as int);
        assert(b == a + (if s.min.y <= h - 1 < s.max.y { 1int } else { 0int }));
        assert(b * wd == a * wd + (if s.min.y <= h - 1 < s.max.y { wd } else { 0int })) by (nonlinear_arith)
            requires
                b == a + (if s.min.y <= h - 1 < s.max.y { 1int } else { 0int }),
        ;
    }
}

/// Some room among the first `m` holds every cell that lies in one of them.
proof fn lemma_in_rooms_witness(rooms: Seq<Room>, m: int, i: int, j: int) -> (t: int)
    requires
        in_rooms(rooms, m, i, j),
    ensures
        0 <= t < m,
        inside(rooms[t].spec_square(), i, j),
    decreases m,
{
    if in_rooms(rooms, m - 1, i, j) {
        lemma_in_rooms_witness(rooms, m - 1, i, j)
    } else {
        m - 1
    }
}

/// On a `width` by `height` block, the first `m` rooms cover at least 25 cells each, when each
/// is at least 5 by 5, lies inside the block, and overlaps none of the rooms before it.
pub proof fn lemma_rooms_cover(rooms: Seq<Room>, m: int, width: nat, height: nat)
    requires
        0 <= m <= rooms.len(),
        forall|t: int|
            #![trigger rooms[t]]
            0 <= t < m ==> {
                let s = rooms[t].spec_square();
                &&& s.min.x + 5 <= s.max.x <= width
                &&& s.min.y + 5 <= s.max.y <= height
            },
        forall|a: int, b: int|
            0 <= a < b < m ==> !(#[trigger] rooms[b].spec_square()).spec_intersects(
                #[trigger] rooms[a].spec_square(),
            ),
    ensures
        pred_count(|i: int, j: int| in_rooms(rooms, m, i, j), 0, 0, width, height) >= 25 * m,
    decreases m,
{
    if m > 0 {
        lemma_rooms_cover(rooms, m - 1, width, height);
        let s = rooms[m - 1].spec_square();
        let p = |i: int, j: int| in_rooms(rooms, m - 1, i, j);
        let q = |i: int, j: int| inside(s, i, j);
        let r = |i: int, j: int| in_rooms(rooms, m, i, j);
        assert forall|i: int, j: int|
            0 <= i < 0 + width && 0 <= j < 0 + height implies #[trigger] r(i, j) == (p(i, j) || q(i, j))
                && !(p(i, j) && q(i, j)) by {
            if p(i, j) && q(i, j) {
                let t = lemma_in_rooms_witness(rooms, m - 1, i, j);
                let st = rooms[t].spec_square();
                assert(rooms[m - 1].spec_square().spec_intersects(st));
            }
        }
        lemma_pred_disjoint(p, q, r, 0, 0, width, height);
        lemma_region_rect(s, width, height);
        let wd = s.max.x - s.min.x;
        let ht = s.max.y - s.min.y;
        assert(overlap(height as int, s.min.y as int, s.max.y as int) == ht);
        assert(ht * wd >= 25) by (nonlinear_arith)
            requires
                ht >= 5,
                wd >= 5,
        ;
    }
}

/// Counting the cells of a row that are on, as a predicate, gives the grid's own row count.
proof fn lemma_on_count_rows(g: MapGrid, y: int, len: nat)
    ensures
        row_pred_count(|i: int, j: int| g.state_at(i, j) == TriState::True, 0, y, len)
            == g.row_region_count(0, y, len, TriState::True),
    decreases len,
{
    if len > 0 {
        lemma_on_count_rows(g, y, (len - 1) as nat);
    }
}

/// Counting the cells of a block from the origin that are on, as a predicate, gives the grid's
/// own region count.
proof fn lemma_on_count_region(g: MapGrid, w: nat, h: nat)
    ensures
        pred_count(|i: int, j: int| g.state_at(i, j) == TriState::True, 0, 0, w, h)
            == g.region_count(0, 0, w, h, TriState::True),
    decreases h,
{
    if h > 0 {
        lemma_on_count_region(g, w, (h - 1) as nat);
        lemma_on_count_rows(g, h - 1, w);
    }
}

/// A grid in which every cell of the first `m` rooms is on has at least 25 cells on per room,
/// when each room is at least 5 by 5, lies inside the grid, and overlaps none of the rooms
/// before it.
pub proof fn lemma_filled_rooms_on_count(g: MapGrid, rooms: Seq<Room>, m: int)
    requires
        g.wf(),
        0 <= m <= rooms.len(),
        forall|t: int|
            #![trigger rooms[t]]
            0 <= t < m ==> {
                let s = rooms[t].spec_square();
                &&& s.min.x + 5 <= s.max.x <= g.spec_width()
                &&& s.min.y + 5 <= s.max.y <= g.spec_height()
            },
        forall|a: int, b: int|
            0 <= a < b < m ==> !(#[trigger] rooms[b].spec_square()).spec_intersects(
                #[trigger] rooms[a].spec_square(),
            ),
        forall|i: int, j: int, t: int|
            #![trigger g.state_at(i, j), rooms[t]]
            g.in_bounds(i, j) && 0 <= t < m && inside(rooms[t].spec_square(), i, j) ==> g.state_at(i, j)
                == TriState::True,
    ensures
        g.count_state(TriState::True) >= 25 * m,
{
    let w = g.spec_width() as nat;
    let h = g.spec_height() as nat;
    lemma_rooms_cover(rooms, m, w, h);
    let p = |i: int, j: int| in_rooms(rooms, m, i, j);
    let q = |i: int, j: int| g.state_at(i, j) == TriState::True;
    assert forall|i: int, j: int| 0 <= i < 0 + w && 0 <= j < 0 + h && #[trigger] p(i, j) implies q(i, j) by {
        {
            let t = lemma_in_rooms_witness(rooms, m, i, j);
            assert(g.in_bounds(i, j));
            assert(g.state_at(i, j) == TriState::True);
        }
    }
    lemma_pred_mono(p, q, 0, 0, w, h);
    lemma_on_count_region(g, w, h);
    g.lemma_count_is_region(TriState::True);
}

} // verus!
