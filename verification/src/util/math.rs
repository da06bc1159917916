//! Small arithmetic helpers: lines on a grid, square roots and absolute differences.
use vstd::prelude::*;
use vstd::arithmetic::div_mod::lemma_fundamental_div_mod_converse;

use crate::data::types::GridPos;

verus! {

/// Whether the two points are in the same row (their `y` values are equal).
pub fn on_same_row(first: GridPos, second: GridPos) -> (r: bool)
    ensures
        r == (first.y == second.y),
{
    first.y == second.y
}

/// Whether the two points are in the same column (their `x` values are equal).
pub fn on_same_column(first: GridPos, second: GridPos) -> (r: bool)
    ensures
        r == (first.x == second.x),
{
    first.x == second.x
}

/// The absolute value of an integer.
pub open spec fn spec_abs(i: int) -> int {
    if i < 0 {
        -i
    } else {
        i
    }
}

/// How far the minor coordinate has moved at step `k` of a line that advances `dx` along its
/// major axis and `dy` along its minor one: Bresenham's error term starts at `dx / 2` and
/// the minor coordinate moves each time the accumulated `dy`s would make it negative.
pub open spec fn minor_steps(k: int, dx: int, dy: int) -> int {
    if dx == 0 {
        0
    } else {
        (k * dy - dx / 2 + dx - 1) / dx
    }
}

/// The points of the line from `(p1, q1)` to `(p2, q2)` along the major axis, for `p1 <= p2`
/// and `|q2 - q1| <= p2 - p1`, one for each major coordinate; a steep line has its two
/// coordinates swapped in each point.
pub open spec fn line_points(p1: int, q1: int, p2: int, q2: int, steep: bool) -> Seq<(usize, usize)> {
    let dx = p2 - p1;
    let dy = spec_abs(q2 - q1);
    Seq::new(
        (dx + 1) as nat,
        |k: int|
            {
                let u = p1 + k;
                let v = if q1 < q2 {
                    q1 + minor_steps(k, dx, dy)
                } else {
                    q1 - minor_steps(k, dx, dy)
                };
                if steep {
                    (v as usize, u as usize)
                } else {
                    (u as usize, v as usize)
                }
            },
    )
}

/// The points of Bresenham's line from `(x1, y1)` to `(x2, y2)`, from the first point to the
/// second. The line is walked along its longer axis (the `y` axis when it is steep, that is
/// when it goes further in `y` than in `x`), from the lower end, and reversed when that end
/// is the second point.
pub open spec fn bresenham(x1: int, y1: int, x2: int, y2: int) -> Seq<(usize, usize)> {
    let steep = spec_abs(y2 - y1) > spec_abs(x2 - x1);
    let (a1, b1, a2, b2) = if steep {
        (y1, x1, y2, x2)
    } else {
        (x1, y1, x2, y2)
    };
    if a1 > a2 {
        line_points(a2, b2, a1, b1, steep).reverse()
    } else {
        line_points(a1, b1, a2, b2, steep)
    }
}

/// Bresenham's error term after `k` steps determines how far the minor coordinate moved.
proof fn lemma_minor_steps(k: int, dx: int, dy: int, err: int, c: int)
    requires
        dx > 0,
        err == dx / 2 - k * dy + c * dx,
        0 <= err < dx,
    ensures
        c == minor_steps(k, dx, dy),
{
    let n = k * dy - dx / 2 + dx - 1;
    assert(n == c * dx + (dx - 1 - err));
    lemma_fundamental_div_mod_converse(n, dx, c, dx - 1 - err);
}

/// The minor coordinate moves at most `dy` times along a line of `dx` steps.
proof fn lemma_minor_steps_bounds(k: int, dx: int, dy: int)
    requires
        0 <= k <= dx,
        0 <= dy <= dx,
    ensures
        0 <= minor_steps(k, dx, dy) <= dy,
{
    if dx > 0 {
        let n = k * dy - dx / 2 + dx - 1;
        assert(0 <= k * dy <= dx * dy) by (nonlinear_arith)
            requires
                0 <= k <= dx,
                0 <= dy,
        ;
        assert(0 <= n);
        assert(n < (dy + 1) * dx) by (nonlinear_arith)
            requires
                n == k * dy - dx / 2 + dx - 1,
                k * dy <= dx * dy,
                dx > 0,
                dx / 2 >= 0,
        ;
        let c = n / dx;
        assert(0 <= c <= dy) by (nonlinear_arith)
            requires
                0 <= n < (dy + 1) * dx,
                dx > 0,
                c == n / dx,
        ;
    }
}

/// Walks the line from `(p1, q1)` to `(p2, q2)` along the major axis.
fn walk_line(p1: i64, q1: i64, p2: i64, q2: i64, steep: bool) -> (r: Vec<(usize, usize)>)
    requires
        0 <= p1 <= p2 <= i32::MAX,
        0 <= q1 <= i32::MAX,
        0 <= q2 <= i32::MAX,
        spec_abs(q2 - q1) <= p2 - p1,
    ensures
        r@ == line_points(p1 as int, q1 as int, p2 as int, q2 as int, steep),
{
    let dx = p2 - p1;
    let dy = if q2 >= q1 {
        q2 - q1
    } else {
        q1 - q2
    };
    let ystep: i64 = if q1 < q2 {
        1
    } else {
        -1
    };
    let ghost target = line_points(p1 as int, q1 as int, p2 as int, q2 as int, steep);
    let mut points: Vec<(usize, usize)> = Vec::new();
    let mut err: i64 = dx / 2;
    let mut y: i64 = q1;
    let mut k: i64 = 0;
    let ghost mut c: int = 0;
    proof {
        if dx > 0 {
            lemma_minor_steps(0, dx as int, dy as int, err as int, 0);
        }
    }
    while k <= dx
        invariant
            0 <= p1 <= p2 <= i32::MAX,
            0 <= q1 <= i32::MAX,
            0 <= q2 <= i32::MAX,
            dx == p2 - p1,
            dy == spec_abs(q2 - q1),
            dy <= dx,
            ystep == (if q1 < q2 { 1int } else { -1int }),
            target == line_points(p1 as int, q1 as int, p2 as int, q2 as int, steep),
            0 <= k <= dx + 1,
            points@.len() == k,
            forall|j: int| 0 <= j < k ==> #[trigger] points@[j] == target[j],
            k <= dx ==> c == minor_steps(k as int, dx as int, dy as int),
            0 <= c <= dy + 1,
            y == (if q1 < q2 { q1 + c } else { q1 - c }),
            err == dx / 2 - k * dy + c * dx,
            dx > 0 ==> 0 <= err < dx,
            dx == 0 ==> err == 0 && c == 0,
        decreases dx + 1 - k,
    {
        proof {
            lemma_minor_steps_bounds(k as int, dx as int, dy as int);
        }
        let u = p1 + k;
        if steep {
            points.push((y as usize, u as usize));
        } else {
            points.push((u as usize, y as usize));
        }
        proof {
            assert(points@[k as int] == target[k as int]);
        }
        let ghost k0 = k;
        let ghost c0 = c;
        let ghost e0 = err;
        err = err - dy;
        if err < 0 {
            y = y + ystep;
            err = err + dx;
            proof {
                c = c + 1;
            }
        }
        k = k + 1;
        proof {
            assert(err == dx / 2 - k * dy + c * dx) by (nonlinear_arith)
                requires
                    e0 == dx / 2 - k0 * dy + c0 * dx,
                    (c == c0 && err == e0 - dy) || (c == c0 + 1 && err == e0 - dy + dx),
                    k == k0 + 1,
            ;
            if k <= dx {
                lemma_minor_steps(k as int, dx as int, dy as int, err as int, c);
            }
        }
    }
    proof {
        assert(points@ =~= target);
    }
    points
}

/// Bresenham's line algorithm: the points of the grid that approximate the segment from
/// `first_point` to `second_point`, starting at `first_point` and ending at `second_point`.
pub fn bresenham_line(first_point: (usize, usize), second_point: (usize, usize)) -> (r: Vec<
    (usize, usize),
>)
    requires
        first_point.0 <= i32::MAX,
        first_point.1 <= i32::MAX,
        second_point.0 <= i32::MAX,
        second_point.1 <= i32::MAX,
    ensures
        r@ == bresenham(
            first_point.0 as int,
            first_point.1 as int,
            second_point.0 as int,
            second_point.1 as int,
        ),
{
    let x1 = first_point.0 as i64;
    let y1 = first_point.1 as i64;
    let x2 = second_point.0 as i64;
    let y2 = second_point.1 as i64;
    let ady = if y2 >= y1 {
        y2 - y1
    } else {
        y1 - y2
    };
    let adx = if x2 >= x1 {
        x2 - x1
    } else {
        x1 - x2
    };
    let steep = ady > adx;
    let (a1, b1, a2, b2) = if steep {
        (y1, x1, y2, x2)
    } else {
        (x1, y1, x2, y2)
    };
    if a1 > a2 {
        let forward = walk_line(a2, b2, a1, b1, steep);
        let mut points: Vec<(usize, usize)> = Vec::new();
        let mut i: usize = forward.len();
        while i > 0
            invariant
                i <= forward@.len(),
                points@ == forward@.subrange(i as int, forward@.len() as int).reverse(),
            decreases i,
        {
            i = i - 1;
            points.push(forward[i]);
            proof {
                assert(points@ =~= forward@.subrange(i as int, forward@.len() as int).reverse());
            }
        }
        proof {
            assert(forward@.subrange(0, forward@.len() as int) =~= forward@);
        }
        points
    } else {
        walk_line(a1, b1, a2, b2, steep)
    }
}

/// The integer square root of `n`: the largest `r` with `r * r <= n`.
pub open spec fn is_floor_sqrt(r: int, n: int) -> bool {
    r * r <= n < (r + 1) * (r + 1)
}

/// Calls `integer_sqrt` of the `integer-sqrt` crate, which computes the integer square
/// root: the largest `r` whose square is at most `n`. For unsigned types it does not panic.
#[verifier::external_body]
fn integer_sqrt_usize(n: usize) -> (r: usize)
    ensures
        is_floor_sqrt(r as int, n as int),
{
    integer_sqrt::IntegerSquareRoot::integer_sqrt(&n)
}

/// The square root of `n` if `n` is a perfect square, `None` otherwise.
pub fn uint_sqrt(n: usize) -> (r: Option<usize>)
    ensures
        r matches Some(k) ==> k * k == n,
        r is None ==> forall|k: int| 0 <= k ==> #[trigger] (k * k) != n,
{
    let root = integer_sqrt_usize(n);
    proof {
        assert(root * root <= n);
    }
    if n == root * root {
        Some(root)
    } else {
        proof {
            assert forall|k: int| 0 <= k implies #[trigger] (k * k) != n by {
                if k <= root {
                    if k < root {
                        assert(k * k < root * root) by (nonlinear_arith)
                            requires
                                0 <= k < root,
                        ;
                    }
                } else {
                    assert(k * k >= (root + 1) * (root + 1)) by (nonlinear_arith)
                        requires
                            k >= root + 1,
                            root >= 0,
                    ;
                }
            }
        }
        None
    }
}

/// An unsigned integer type whose values can be subtracted.
pub trait AbsDiff: Sized + Copy {
    /// The value as a mathematical integer.
    spec fn value(self) -> int;

    /// The absolute difference of `x` and `y`.
    fn absdiff_of(x: Self, y: Self) -> (r: Self)
        ensures
            r.value() == spec_abs(x.value() - y.value()),
    ;
}

impl AbsDiff for u8 {
    open spec fn value(self) -> int {
        self as int
    }

    fn absdiff_of(x: Self, y: Self) -> (r: Self) {
        if x < y { y - x } else { x - y }
    }
}

impl AbsDiff for u16 {
    open spec fn value(self) -> int {
        self as int
    }

    fn absdiff_of(x: Self, y: Self) -> (r: Self) {
        if x < y { y - x } else { x - y }
    }
}

impl AbsDiff for u32 {
    open spec fn value(self) -> int {
        self as int
    }

    fn absdiff_of(x: Self, y: Self) -> (r: Self) {
        if x < y { y - x } else { x - y }
    }
}

impl AbsDiff for u64 {
    open spec fn value(self) -> int {
        self as int
    }

    fn absdiff_of(x: Self, y: Self) -> (r: Self) {
        if x < y { y - x } else { x - y }
    }
}

impl AbsDiff for u128 {
    open spec fn value(self) -> int {
        self as int
    }

    fn absdiff_of(x: Self, y: Self) -> (r: Self) {
        if x < y { y - x } else { x - y }
    }
}

impl AbsDiff for usize {
    open spec fn value(self) -> int {
        self as int
    }

    fn absdiff_of(x: Self, y: Self) -> (r: Self) {
        if x < y { y - x } else { x - y }
    }
}

/// The absolute difference between two values: the larger minus the smaller.
pub fn absdiff<T: AbsDiff>(x: T, y: T) -> (r: T)
    ensures
        r.value() == spec_abs(x.value() - y.value()),
{
    T::absdiff_of(x, y)
}

/// At the first step the minor coordinate has not moved, and at the last it has moved all the
/// way.
proof fn lemma_minor_steps_ends(dx: int, dy: int)
    requires
        0 <= dy <= dx,
    ensures
        minor_steps(0, dx, dy) == 0,
        minor_steps(dx, dx, dy) == dy,
{
    if dx > 0 {
        lemma_fundamental_div_mod_converse(0 * dy - dx / 2 + dx - 1, dx, 0, dx - 1 - dx / 2);
        assert(dx * dy - dx / 2 + dx - 1 == dy * dx + (dx - 1 - dx / 2)) by (nonlinear_arith);
        lemma_fundamental_div_mod_converse(dx * dy - dx / 2 + dx - 1, dx, dy, dx - 1 - dx / 2);
    }
}

/// A line along its major axis starts at its first point and ends at its last.
proof fn lemma_line_points_ends(p1: int, q1: int, p2: int, q2: int, steep: bool)
    requires
        0 <= p1 <= p2 <= usize::MAX,
        0 <= q1 <= usize::MAX,
        0 <= q2 <= usize::MAX,
        spec_abs(q2 - q1) <= p2 - p1,
    ensures
        line_points(p1, q1, p2, q2, steep).len() == p2 - p1 + 1,
        line_points(p1, q1, p2, q2, steep)[0] == (if steep {
            (q1 as usize, p1 as usize)
        } else {
            (p1 as usize, q1 as usize)
        }),
        line_points(p1, q1, p2, q2, steep).last() == (if steep {
            (q2 as usize, p2 as usize)
        } else {
            (p2 as usize, q2 as usize)
        }),
{
    lemma_minor_steps_ends(p2 - p1, spec_abs(q2 - q1));
}

/// Bresenham's line starts at the first point and ends at the second, with one point for each
/// step along the longer axis.
pub proof fn lemma_bresenham_ends(x1: usize, y1: usize, x2: usize, y2: usize)
    requires
        x1 <= i32::MAX,
        y1 <= i32::MAX,
        x2 <= i32::MAX,
        y2 <= i32::MAX,
    ensures
        bresenham(x1 as int, y1 as int, x2 as int, y2 as int).len() == 1 + (if spec_abs(y2 - y1) > spec_abs(x2 - x1) {
            spec_abs(y2 - y1)
        } else {
            spec_abs(x2 - x1)
        }),
        bresenham(x1 as int, y1 as int, x2 as int, y2 as int)[0] == (x1, y1),
        bresenham(x1 as int, y1 as int, x2 as int, y2 as int).last() == (x2, y2),
{
    let steep = spec_abs(y2 - y1) > spec_abs(x2 - x1);
    if steep {
        if y1 > y2 {
            lemma_line_points_ends(y2 as int, x2 as int, y1 as int, x1 as int, steep);
        } else {
            lemma_line_points_ends(y1 as int, x1 as int, y2 as int, x2 as int, steep);
        }
    } else {
        if x1 > x2 {
            lemma_line_points_ends(x2 as int, y2 as int, x1 as int, y1 as int, steep);
        } else {
            lemma_line_points_ends(x1 as int, y1 as int, x2 as int, y2 as int, steep);
        }
    }
}

/// The absolute difference does not depend on the order of its arguments.
pub proof fn lemma_absdiff_symmetric(x: int, y: int)
    ensures
        spec_abs(x - y) == spec_abs(y - x),
{
}

/// The square root of a perfect square is found: `n * n` has `n` as its square root, and no
/// other number squares to it.
pub proof fn lemma_sqrt_of_square(n: int, k: int)
    requires
        0 <= n,
        0 <= k,
        k * k == n * n,
    ensures
        k == n,
{
    if k < n {
        assert(k * k < n * n) by (nonlinear_arith)
            requires
                0 <= k < n,
        ;
    } else if k > n {
        assert(k * k > n * n) by (nonlinear_arith)
            requires
                0 <= n < k,
        ;
    }
}

} // verus!
