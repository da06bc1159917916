//! A 2D grid of [`TriCell`]s.
use vstd::prelude::*;

use crate::data::cell::TriCell;
use crate::data::types::{square, GridPos, GridSize, GridSquare};
use crate::util::random::{random_bool, random_usize};
use crate::util::text::{chars_of, string_from_chars};
use crate::util::tri::{tri_not, tri_of_bool, TriState};

verus! {

/// Number of cells of `row` whose state is `s`.
pub open spec fn row_count(row: Seq<TriCell>, s: TriState) -> nat
    decreases row.len(),
{
    if row.len() == 0 {
        0
    } else {
        row_count(row.drop_last(), s) + (if row.last().0 == s { 1nat } else { 0nat })
    }
}

/// Number of cells of all `rows` whose state is `s`.
pub open spec fn rows_count(rows: Seq<Vec<TriCell>>, s: TriState) -> nat
    decreases rows.len(),
{
    if rows.len() == 0 {
        0
    } else {
        rows_count(rows.drop_last(), s) + row_count(rows.last()@, s)
    }
}

/// A count of one state never exceeds the length of the row.
pub proof fn lemma_row_count_le(row: Seq<TriCell>, s: TriState)
    ensures
        row_count(row, s) <= row.len(),
    decreases row.len(),
{
    if row.len() > 0 {
        lemma_row_count_le(row.drop_last(), s);
    }
}

/// The three state counts of a row add up to its length.
pub proof fn lemma_row_count_sum(row: Seq<TriCell>)
    ensures
        row_count(row, TriState::True) + row_count(row, TriState::False) + row_count(
            row,
            TriState::Invalid,
        ) == row.len(),
    decreases row.len(),
{
    if row.len() > 0 {
        lemma_row_count_sum(row.drop_last());
    }
}

/// Extending a row prefix by one cell adds that cell to the count.
pub proof fn lemma_row_count_take(row: Seq<TriCell>, i: int, s: TriState)
    requires
        0 <= i < row.len(),
    ensures
        row_count(row.take(i + 1), s) == row_count(row.take(i), s) + (if row[i].0 == s {
            1nat
        } else {
            0nat
        }),
{
    assert(row.take(i + 1).drop_last() =~= row.take(i));
}

/// The count over a prefix of a row is at most the count over the whole row.
pub proof fn lemma_row_count_prefix_le(row: Seq<TriCell>, i: int, s: TriState)
    requires
        0 <= i <= row.len(),
    ensures
        row_count(row.take(i), s) <= row_count(row, s),
    decreases row.len() - i,
{
    if i < row.len() {
        lemma_row_count_prefix_le(row, i + 1, s);
        lemma_row_count_take(row, i, s);
    } else {
        assert(row.take(i) =~= row);
    }
}

/// Extending a prefix of rows by one row adds that row's count.
pub proof fn lemma_rows_count_take(rows: Seq<Vec<TriCell>>, j: int, s: TriState)
    requires
        0 <= j < rows.len(),
    ensures
        rows_count(rows.take(j + 1), s) == rows_count(rows.take(j), s) + row_count(rows[j]@, s),
{
    assert(rows.take(j + 1).drop_last() =~= rows.take(j));
}

/// A count over rows of equal length `w` is at most `rows * w`.
pub proof fn lemma_rows_count_le(rows: Seq<Vec<TriCell>>, w: nat, s: TriState)
    requires
        forall|j: int| 0 <= j < rows.len() ==> #[trigger] rows[j]@.len() == w,
    ensures
        rows_count(rows, s) <= rows.len() * w,
    decreases rows.len(),
{
    if rows.len() > 0 {
        lemma_rows_count_le(rows.drop_last(), w, s);
        lemma_row_count_le(rows.last()@, s);
        assert((rows.len() - 1) * w + w == rows.len() * w) by (nonlinear_arith);
    }
}

/// The three state counts over rows of equal length `w` add up to `rows * w`.
pub proof fn lemma_rows_count_sum(rows: Seq<Vec<TriCell>>, w: nat)
    requires
        forall|j: int| 0 <= j < rows.len() ==> #[trigger] rows[j]@.len() == w,
    ensures
        rows_count(rows, TriState::True) + rows_count(rows, TriState::False) + rows_count(
            rows,
            TriState::Invalid,
        ) == rows.len() * w,
    decreases rows.len(),
{
    if rows.len() > 0 {
        lemma_rows_count_sum(rows.drop_last(), w);
        lemma_row_count_sum(rows.last()@);
        assert((rows.len() - 1) * w + w == rows.len() * w) by (nonlinear_arith);
    }
}

/// All cells of `rows`, row after row.
pub open spec fn flatten(rows: Seq<Vec<TriCell>>) -> Seq<TriCell>
    decreases rows.len(),
{
    if rows.len() == 0 {
        Seq::empty()
    } else {
        flatten(rows.drop_last()) + rows.last()@
    }
}

/// The cells of row `y`, each with its `(x, y)` position.
pub open spec fn positioned_row(row: Seq<TriCell>, y: int) -> Seq<((usize, usize), TriCell)> {
    Seq::new(row.len(), |i: int| ((i as usize, y as usize), row[i]))
}

/// All cells of `rows` with their positions, row after row.
pub open spec fn flatten_pos(rows: Seq<Vec<TriCell>>) -> Seq<((usize, usize), TriCell)>
    decreases rows.len(),
{
    if rows.len() == 0 {
        Seq::empty()
    } else {
        flatten_pos(rows.drop_last()) + positioned_row(rows.last()@, rows.len() - 1)
    }
}

/// The character marking invalid cells when `on` and `off` mark the valid ones: the first of
/// `'X'`, `'@'`, `'!'` that is neither of them.
pub open spec fn invalid_marker(on: char, off: char) -> char {
    if 'X' != on && 'X' != off {
        'X'
    } else if '@' != on && '@' != off {
        '@'
    } else {
        '!'
    }
}

/// The character of a cell: `on`, `off` or the invalid marker.
pub open spec fn cell_char(c: TriCell, on: char, off: char) -> char {
    match c.0 {
        TriState::True => on,
        TriState::False => off,
        TriState::Invalid => invalid_marker(on, off),
    }
}

/// The characters of a row of cells.
pub open spec fn row_chars(row: Seq<TriCell>, on: char, off: char) -> Seq<char> {
    Seq::new(row.len(), |i: int| cell_char(row[i], on, off))
}

/// The lines joined with `sep` between consecutive lines.
pub open spec fn join_lines(lines: Seq<Seq<char>>, sep: Seq<char>) -> Seq<char>
    decreases lines.len(),
{
    if lines.len() == 0 {
        Seq::empty()
    } else if lines.len() == 1 {
        lines[0]
    } else {
        join_lines(lines.drop_last(), sep) + sep + lines.last()
    }
}

/// Joins the lines with `sep` between consecutive lines.
pub fn join_chars(lines: &Vec<Vec<char>>, sep: &Vec<char>) -> (r: Vec<char>)
    ensures
        r@ == join_lines(lines@.map_values(|l: Vec<char>| l@), sep@),
{
    let ghost views = lines@.map_values(|l: Vec<char>| l@);
    let mut out: Vec<char> = Vec::new();
    let mut k: usize = 0;
    proof {
        assert(views.take(0) =~= Seq::<Seq<char>>::empty());
    }
    while k < lines.len()
        invariant
            k <= lines@.len(),
            views == lines@.map_values(|l: Vec<char>| l@),
            out@ == join_lines(views.take(k as int), sep@),
        decreases lines@.len() - k,
    {
        if k > 0 {
            let mut i: usize = 0;
            let ghost before = out@;
            while i < sep.len()
                invariant
                    i <= sep@.len(),
                    out@ == before + sep@.take(i as int),
                decreases sep@.len() - i,
            {
                out.push(sep[i]);
                proof {
                    assert(out@ =~= before + sep@.take(i as int + 1));
                }
                i = i + 1;
            }
            proof {
                assert(sep@.take(sep@.len() as int) =~= sep@);
            }
        }
        let line = &lines[k];
        let ghost before = out@;
        let mut i: usize = 0;
        while i < line.len()
            invariant
                i <= line@.len(),
                out@ == before + line@.take(i as int),
            decreases line@.len() - i,
        {
            out.push(line[i]);
            proof {
                assert(out@ =~= before + line@.take(i as int + 1));
            }
            i = i + 1;
        }
        proof {
            assert(line@.take(line@.len() as int) =~= line@);
            assert(views.take(k as int + 1).drop_last() =~= views.take(k as int));
            if k == 0 {
                assert(out@ =~= views.take(1)[0]);
            }
        }
        k = k + 1;
    }
    proof {
        assert(views.take(lines@.len() as int) =~= views);
    }
    out
}

/// The invalid marker for the given on and off characters.
fn pick_invalid_marker(on: char, off: char) -> (r: char)
    ensures
        r == invalid_marker(on, off),
{
    if 'X' != on && 'X' != off {
        'X'
    } else if '@' != on && '@' != off {
        '@'
    } else {
        '!'
    }
}

/// The pairs `(x, y)` for `y` in `ys`, leaving out `skip`, in the order of `ys`.
pub open spec fn column_pairs(x: usize, ys: Seq<usize>, skip: (usize, usize)) -> Seq<(usize, usize)>
    decreases ys.len(),
{
    if ys.len() == 0 {
        Seq::empty()
    } else {
        column_pairs(x, ys.drop_last(), skip) + (if (x, ys.last()) == skip {
            Seq::empty()
        } else {
            seq![(x, ys.last())]
        })
    }
}

/// For each `x` of `xs` in order, the pairs `(x, y)` for `y` of `ys`, leaving out `skip`.
pub open spec fn pairs_by_column(xs: Seq<usize>, ys: Seq<usize>, skip: (usize, usize)) -> Seq<
    (usize, usize),
>
    decreases xs.len(),
{
    if xs.len() == 0 {
        Seq::empty()
    } else {
        pairs_by_column(xs.drop_last(), ys, skip) + column_pairs(xs.last(), ys, skip)
    }
}

/// The pairs `(x, y)` for `x` in `xs`, leaving out those equal to `skip`, in the order of `xs`.
pub open spec fn row_pairs(xs: Seq<usize>, y: usize, skip: (usize, usize)) -> Seq<(usize, usize)>
    decreases xs.len(),
{
    if xs.len() == 0 {
        Seq::empty()
    } else {
        row_pairs(xs.drop_last(), y, skip) + (if (xs.last(), y) == skip {
            Seq::empty()
        } else {
            seq![(xs.last(), y)]
        })
    }
}

/// For each `y` of `ys` in order, the pairs `(x, y)` for `x` of `xs`, leaving out `skip`.
pub open spec fn pairs_by_row(xs: Seq<usize>, ys: Seq<usize>, skip: (usize, usize)) -> Seq<
    (usize, usize),
>
    decreases ys.len(),
{
    if ys.len() == 0 {
        Seq::empty()
    } else {
        pairs_by_row(xs, ys.drop_last(), skip) + row_pairs(xs, ys.last(), skip)
    }
}

/// The coordinates around `p` on an axis of length `n`, cut off at the edges.
pub open spec fn clipped_axis(p: usize, n: usize) -> Seq<usize> {
    if p == 0 {
        seq![0usize, 1usize]
    } else if p == n - 1 {
        seq![(n - 2) as usize, (n - 1) as usize]
    } else {
        seq![(p - 1) as usize, p, (p + 1) as usize]
    }
}

/// An element lies in a concatenation exactly when it lies in one of the two parts.
proof fn lemma_concat_contains<A>(a: Seq<A>, b: Seq<A>, q: A)
    ensures
        (a + b).contains(q) <==> (a.contains(q) || b.contains(q)),
{
    if a.contains(q) {
        let k = choose|k: int| 0 <= k < a.len() && a[k] == q;
        assert((a + b)[k] == q);
    }
    if b.contains(q) {
        let k = choose|k: int| 0 <= k < b.len() && b[k] == q;
        assert((a + b)[a.len() + k] == q);
    }
    if (a + b).contains(q) {
        let k = choose|k: int| 0 <= k < (a + b).len() && (a + b)[k] == q;
        if k < a.len() {
            assert(a[k] == q);
        } else {
            assert(b[k - a.len()] == q);
        }
    }
}

/// The pairs of one column are the pairs `(x, y)` for the `y` of `ys`, but `skip`.
proof fn lemma_column_pairs_contains(x: usize, ys: Seq<usize>, skip: (usize, usize), q: (usize, usize))
    ensures
        column_pairs(x, ys, skip).contains(q) <==> (q.0 == x && ys.contains(q.1) && q != skip),
    decreases ys.len(),
{
    if ys.len() > 0 {
        let init = ys.drop_last();
        lemma_column_pairs_contains(x, init, skip, q);
        let tail = if (x, ys.last()) == skip { Seq::empty() } else { seq![(x, ys.last())] };
        lemma_concat_contains(column_pairs(x, init, skip), tail, q);
        lemma_concat_contains(init, seq![ys.last()], q.1);
        assert(init + seq![ys.last()] =~= ys);
        if tail.len() == 1 {
            assert(tail.contains(q) <==> q == (x, ys.last())) by {
                if q == (x, ys.last()) {
                    assert(tail[0] == q);
                }
            }
        }
        assert(seq![ys.last()].contains(q.1) <==> q.1 == ys.last()) by {
            if q.1 == ys.last() {
                assert(seq![ys.last()][0] == q.1);
            }
        }
    }
}

/// The pairs by column are the pairs `(x, y)` with `x` of `xs` and `y` of `ys`, but `skip`.
proof fn lemma_pairs_by_column_contains(xs: Seq<usize>, ys: Seq<usize>, skip: (usize, usize), q: (usize, usize))
    ensures
        pairs_by_column(xs, ys, skip).contains(q) <==> (xs.contains(q.0) && ys.contains(q.1) && q != skip),
    decreases xs.len(),
{
    if xs.len() > 0 {
        let init = xs.drop_last();
        lemma_pairs_by_column_contains(init, ys, skip, q);
        lemma_column_pairs_contains(xs.last(), ys, skip, q);
        lemma_concat_contains(pairs_by_column(init, ys, skip), column_pairs(xs.last(), ys, skip), q);
        lemma_concat_contains(init, seq![xs.last()], q.0);
        assert(init + seq![xs.last()] =~= xs);
        assert(seq![xs.last()].contains(q.0) <==> q.0 == xs.last()) by {
            if q.0 == xs.last() {
                assert(seq![xs.last()][0] == q.0);
            }
        }
    }
}

/// On an axis of length `n` (at least 3), the coordinates around `p` (inside the axis) are
/// those of the axis at most one away from `p`.
proof fn lemma_clipped_axis_contains(p: usize, n: usize, v: usize)
    requires
        n >= 3,
        p < n,
    ensures
        clipped_axis(p, n).contains(v) <==> (v < n && p - 1 <= v <= p + 1),
{
    let c = clipped_axis(p, n);
    if v < n && p - 1 <= v <= p + 1 {
        if p == 0 {
            assert(c[v as int] == v);
        } else if p == n - 1 {
            assert(c[v - (n - 2)] == v);
        } else {
            assert(c[v - (p - 1)] == v);
        }
    }
}

/// The coordinates around `p` on an axis of length `n`, wrapping around the edges.
pub open spec fn wrapped_axis(p: usize, n: usize) -> Seq<usize> {
    if p == 0 {
        seq![(n - 1) as usize, 0usize, 1usize]
    } else {
        seq![
            ((p as int - 1) % (n as int)) as usize,
            ((p as int) % (n as int)) as usize,
            ((p as int + 1) % (n as int)) as usize,
        ]
    }
}

/// The coordinates around `p` on an axis of length `n`, cut off at the edges.
fn clipped(p: usize, n: usize) -> (r: Vec<usize>)
    requires
        n >= 3,
        p < usize::MAX,
    ensures
        r@ == clipped_axis(p, n),
{
    let mut v: Vec<usize> = Vec::new();
    if p == 0 {
        v.push(0);
        v.push(1);
    } else if p == n - 1 {
        v.push(n - 2);
        v.push(n - 1);
    } else {
        v.push(p - 1);
        v.push(p);
        v.push(p + 1);
    }
    proof {
        assert(v@ =~= clipped_axis(p, n));
    }
    v
}

/// The coordinates around `p` on an axis of length `n`, wrapping around the edges.
fn wrapped(p: usize, n: usize) -> (r: Vec<usize>)
    requires
        n >= 3,
        p < usize::MAX,
    ensures
        r@ == wrapped_axis(p, n),
{
    let mut v: Vec<usize> = Vec::new();
    if p == 0 {
        v.push(n - 1);
        v.push(0);
        v.push(1);
    } else {
        v.push((p - 1) % n);
        v.push(p % n);
        v.push((p + 1) % n);
    }
    proof {
        assert(v@ =~= wrapped_axis(p, n));
    }
    v
}

/// `i` wrapped into `0..n` (the Euclidean remainder).
fn wrap_index(i: isize, n: usize) -> (r: usize)
    requires
        0 < n <= isize::MAX,
    ensures
        r == i as int % n as int,
        r < n,
{
    if i < 0 {
        let ni = n as isize;
        let mut v: isize = i;
        while v < 0
            invariant
                ni == n,
                0 < n <= isize::MAX,
                i <= v < n,
                v as int % n as int == i as int % n as int,
            decreases n as int - v as int,
        {
            proof {
                vstd::arithmetic::div_mod::lemma_mod_add_multiples_vanish(v as int, n as int);
            }
            v = v + ni;
        }
        proof {
            vstd::arithmetic::div_mod::lemma_small_mod(v as nat, n as nat);
        }
        v as usize
    } else {
        let u = i as usize;
        if u >= n {
            u % n
        } else {
            proof {
                vstd::arithmetic::div_mod::lemma_small_mod(u as nat, n as nat);
            }
            u
        }
    }
}

/// The larger of two integers.
pub open spec fn spec_max(a: int, b: int) -> int {
    if a >= b {
        a
    } else {
        b
    }
}

/// A map or grid of cells, `width` columns by `height` rows, stored row by row.
pub struct MapGrid {
    name: Option<String>,
    width: usize,
    height: usize,
    cells: Vec<Vec<TriCell>>,
}

impl MapGrid {
    /// The number of columns.
    pub closed spec fn spec_width(&self) -> usize {
        self.width
    }

    /// The number of rows.
    pub closed spec fn spec_height(&self) -> usize {
        self.height
    }

    /// The name of the grid, as characters.
    pub closed spec fn spec_name(&self) -> Option<Seq<char>> {
        match self.name {
            Some(n) => Some(n@),
            None => None,
        }
    }

    /// The name field itself.
    pub closed spec fn spec_name_field(&self) -> Option<String> {
        self.name
    }

    /// The rows of cells.
    pub closed spec fn spec_cells(&self) -> Seq<Vec<TriCell>> {
        self.cells@
    }

    /// The state of the cell in column `x` and row `y`.
    pub closed spec fn state_at(&self, x: int, y: int) -> TriState {
        self.cells@[y]@[x].0
    }

    /// The number of cells whose state is `s`.
    pub closed spec fn count_state(&self, s: TriState) -> nat {
        rows_count(self.cells@, s)
    }

    /// The cells are stored as `height` rows of `width` cells each.
    pub closed spec fn layout_ok(&self) -> bool {
        &&& self.cells@.len() == self.height
        &&& forall|j: int| 0 <= j < self.height ==> #[trigger] self.cells@[j]@.len() == self.width
    }

    /// Well-formedness: the layout matches the dimensions, which are at least 3x3 and whose
    /// product fits in a `usize`.
    pub open spec fn wf(&self) -> bool {
        &&& self.layout_ok()
        &&& self.spec_width() >= 3
        &&& self.spec_height() >= 3
        &&& self.spec_width() * self.spec_height() <= usize::MAX
    }

    /// Whether `(x, y)` is a cell of the grid.
    pub open spec fn in_bounds(&self, x: int, y: int) -> bool {
        0 <= x < self.spec_width() && 0 <= y < self.spec_height()
    }

    /// `self` and `other` have the same dimensions and name.
    pub open spec fn same_shape(&self, other: &Self) -> bool {
        &&& self.spec_width() == other.spec_width()
        &&& self.spec_height() == other.spec_height()
        &&& self.spec_name() == other.spec_name()
    }

    /// `self` is `old` with the cell at `(x, y)` given state `s` (when `(x, y)` is in bounds).
    pub open spec fn is_update(&self, old: &Self, x: int, y: int, s: TriState) -> bool {
        &&& self.same_shape(old)
        &&& forall|i: int, j: int|
            #![trigger self.state_at(i, j)]
            self.in_bounds(i, j) ==> self.state_at(i, j) == (if i == x && j == y {
                s
            } else {
                old.state_at(i, j)
            })
    }

    /// Every cell of the grid has state `s`.
    pub open spec fn all_state(&self, s: TriState) -> bool {
        forall|i: int, j: int| self.in_bounds(i, j) ==> #[trigger] self.state_at(i, j) == s
    }

    /// The three state counts add up to the number of cells.
    pub proof fn lemma_counts_sum(&self)
        requires
            self.wf(),
        ensures
            self.count_state(TriState::True) + self.count_state(TriState::False)
                + self.count_state(TriState::Invalid) == self.spec_width() * self.spec_height(),
    {
        lemma_rows_count_sum(self.cells@, self.width as nat);
        assert(self.height * self.width == self.width * self.height) by (nonlinear_arith);
    }

    /// Counts the cells whose state is `s`.
    fn count_cells(&self, s: TriState) -> (r: usize)
        requires
            self.wf(),
        ensures
            r == self.count_state(s),
    {
        let mut total: usize = 0;
        let mut y: usize = 0;
        proof {
            lemma_rows_count_le(self.cells@, self.width as nat, s);
            assert(self.cells@.take(0) =~= Seq::<Vec<TriCell>>::empty());
        }
        while y < self.height
            invariant
                self.wf(),
                y <= self.height,
                total == rows_count(self.cells@.take(y as int), s),
                rows_count(self.cells@, s) <= self.height * self.width,
            decreases self.height - y,
        {
            let row = &self.cells[y];
            let mut x: usize = 0;
            let ghost before = total;
            proof {
                assert(row@.take(0) =~= Seq::<TriCell>::empty());
                lemma_rows_count_take(self.cells@, y as int, s);
                lemma_rows_count_le(self.cells@.take(y as int + 1), self.width as nat, s);
                assert((y + 1) * self.width <= self.height * self.width) by (nonlinear_arith)
                    requires y + 1 <= self.height;
                assert(self.height * self.width == self.width * self.height) by (nonlinear_arith);
            }
            while x < self.width
                invariant
                    self.wf(),
                    y < self.height,
                    row == &self.cells@[y as int],
                    x <= self.width,
                    total == before + row_count(row@.take(x as int), s),
                    before + row_count(row@, s) <= usize::MAX,
                decreases self.width - x,
            {
                proof {
                    lemma_row_count_take(row@, x as int, s);
                    lemma_row_count_le(row@.skip(0), s);
                }
                assert(row_count(row@.take(x as int + 1), s) <= row_count(row@, s)) by {
                    lemma_row_count_prefix_le(row@, x as int + 1, s);
                }
                if row[x].0 == s {
                    total = total + 1;
                }
                x = x + 1;
            }
            proof {
                assert(row@.take(self.width as int) =~= row@);
            }
            y = y + 1;
        }
        proof {
            assert(self.cells@.take(self.height as int) =~= self.cells@);
        }
        total
    }

    /// Gets the number of cells in the grid whose state is on.
    pub fn on_cells_count(&self) -> (r: usize)
        requires
            self.wf(),
        ensures
            r == self.count_state(TriState::True),
    {
        self.count_cells(TriState::True)
    }

    /// Gets the number of cells in the grid whose state is off.
    pub fn off_cells_count(&self) -> (r: usize)
        requires
            self.wf(),
        ensures
            r == self.count_state(TriState::False),
    {
        self.count_cells(TriState::False)
    }

    /// Gets the number of cells in the grid whose state is valid (on or off).
    pub fn valid_cells_count(&self) -> (r: usize)
        requires
            self.wf(),
        ensures
            r == self.count_state(TriState::True) + self.count_state(TriState::False),
    {
        proof {
            self.lemma_counts_sum();
        }
        let on = self.count_cells(TriState::True);
        let off = self.count_cells(TriState::False);
        on + off
    }

    /// Returns the number of cells in the grid whose state is invalid.
    pub fn invalid_cells_count(&self) -> (r: usize)
        requires
            self.wf(),
        ensures
            r == self.count_state(TriState::Invalid),
    {
        self.count_cells(TriState::Invalid)
    }

    /// Gets the number of cells in the grid: width times height.
    pub fn cell_count(&self) -> (r: usize)
        requires
            self.wf(),
        ensures
            r == self.spec_width() * self.spec_height(),
    {
        self.width * self.height
    }

    /// Returns the height, or number of rows, of the grid.
    pub fn rows(&self) -> (r: usize)
        ensures
            r == self.spec_height(),
    {
        self.height
    }

    /// Returns the width, or number of columns, of the grid.
    pub fn cols(&self) -> (r: usize)
        ensures
            r == self.spec_width(),
    {
        self.width
    }

    /// Gets the size of the grid.
    pub fn size(&self) -> (r: GridSize)
        ensures
            r.width == self.spec_width(),
            r.height == self.spec_height(),
    {
        GridSize { width: self.width, height: self.height }
    }

    /// Gets a reference to the cell at the given `(x, y)`, or `None` when it is out of bounds.
    pub fn cell(&self, xy: (usize, usize)) -> (r: Option<&TriCell>)
        requires
            self.wf(),
        ensures
            self.in_bounds(xy.0 as int, xy.1 as int) ==> (r matches Some(c) && c.0
                == self.state_at(xy.0 as int, xy.1 as int)),
            !self.in_bounds(xy.0 as int, xy.1 as int) ==> r is None,
    {
        let (x, y) = xy;
        if x >= self.width || y >= self.height {
            return None;
        }
        Some(&self.cells[y][x])
    }

    /// Sets the cell at the given `x` and `y` to the given value; out of bounds does nothing.
    pub fn set_cell(&mut self, x: usize, y: usize, cell: TriCell)
        requires
            old(self).wf(),
        ensures
            final(self).wf(),
            final(self).is_update(&*old(self), x as int, y as int, cell.0),
    {
        if x >= self.width || y >= self.height {
            return;
        }
        self.cells[y].set(x, cell);
        proof {
            assert forall|i: int, j: int| #![trigger self.state_at(i, j)]
                self.in_bounds(i, j) implies self.state_at(i, j) == (if i == x && j == y {
                    cell.0
                } else {
                    old(self).state_at(i, j)
                }) by {}
        }
    }

    /// Gets a reference to the name of the grid.
    pub fn name_ref(&self) -> (r: &Option<String>)
        ensures
            r == self.spec_name_field(),
            match r {
                Some(n) => self.spec_name() == Some(n@),
                None => self.spec_name() is None,
            },
    {
        &self.name
    }

    /// Gets a mutable reference to the name of the grid; the cells and dimensions stay as they are.
    pub fn name_ref_mut(&mut self) -> (r: &mut Option<String>)
        ensures
            *r == old(self).spec_name_field(),
            final(self).spec_name_field() == *final(r),
            final(self).spec_width() == old(self).spec_width(),
            final(self).spec_height() == old(self).spec_height(),
            final(self).spec_cells() == old(self).spec_cells(),
    {
        &mut self.name
    }

    /// Gets a copy of the name of the grid if it has one, or `None` if it doesn't.
    pub fn name_copy(&self) -> (r: Option<String>)
        ensures
            (match r {
                Some(n) => Some(n@),
                None => None,
            }) == self.spec_name(),
    {
        match &self.name {
            Some(n) => Some(n.clone()),
            None => None,
        }
    }

    /// Sets the name of the grid.
    pub fn set_name(&mut self, name: &str)
        ensures
            final(self).spec_name() == Some(name@),
            final(self).spec_width() == old(self).spec_width(),
            final(self).spec_height() == old(self).spec_height(),
            final(self).spec_cells() == old(self).spec_cells(),
            old(self).wf() ==> final(self).wf(),
            forall|i: int, j: int|
                #![trigger final(self).state_at(i, j)]
                final(self).state_at(i, j) == old(self).state_at(i, j),
    {
        self.name = Some(name.to_owned());
    }

    /// Sets the name of the grid to `None`.
    pub fn clear_name(&mut self)
        ensures
            final(self).spec_name() is None,
            final(self).spec_width() == old(self).spec_width(),
            final(self).spec_height() == old(self).spec_height(),
            final(self).spec_cells() == old(self).spec_cells(),
            old(self).wf() ==> final(self).wf(),
            forall|i: int, j: int|
                #![trigger final(self).state_at(i, j)]
                final(self).state_at(i, j) == old(self).state_at(i, j),
    {
        self.name = None;
    }

    /// Returns true if the grid has been given a name.
    pub fn has_name(&self) -> (r: bool)
        ensures
            r == self.spec_name() is Some,
    {
        self.name.is_some()
    }

    /// Creates a new named grid of `Invalid` cells.
    pub fn new_named(name: &str, size: (usize, usize)) -> (r: Self)
        requires
            3 <= size.0,
            3 <= size.1,
            size.0 * size.1 <= usize::MAX,
        ensures
            r.wf(),
            r.spec_width() == size.0,
            r.spec_height() == size.1,
            r.spec_name() == Some(name@),
            r.all_state(TriState::Invalid),
    {
        let mut grid = Self::new(size);
        let ghost before = grid;
        grid.set_name(name);
        assert forall|i: int, j: int| grid.in_bounds(i, j) implies grid.state_at(i, j)
            == TriState::Invalid by {
            assert(before.state_at(i, j) == TriState::Invalid);
        }
        grid
    }

    /// Creates a new named grid of `off` cells.
    pub fn empty_named(name: &str, size: (usize, usize)) -> (r: Self)
        requires
            3 <= size.0,
            3 <= size.1,
            size.0 * size.1 <= usize::MAX,
        ensures
            r.wf(),
            r.spec_width() == size.0,
            r.spec_height() == size.1,
            r.spec_name() == Some(name@),
            r.all_state(TriState::False),
    {
        let mut grid = Self::empty(size);
        let ghost before = grid;
        grid.set_name(name);
        assert forall|i: int, j: int| grid.in_bounds(i, j) implies grid.state_at(i, j)
            == TriState::False by {
            assert(before.state_at(i, j) == TriState::False);
        }
        grid
    }

    /// Creates a new named grid of random `on` / `off` cells.
    pub fn random_named(name: &str, size: (usize, usize)) -> (r: Self)
        requires
            3 <= size.0,
            3 <= size.1,
            size.0 * size.1 <= usize::MAX,
        ensures
            r.wf(),
            r.spec_width() == size.0,
            r.spec_height() == size.1,
            r.spec_name() == Some(name@),
            r.count_state(TriState::Invalid) == 0,
    {
        let mut grid = Self::random(size);
        grid.set_name(name);
        grid
    }

    /// Sets the state of the cell at `(x, y)` to `on` or `off`; out of bounds does nothing.
    pub fn set_cell_state(&mut self, x: usize, y: usize, state: bool)
        requires
            old(self).wf(),
        ensures
            final(self).wf(),
            final(self).is_update(&*old(self), x as int, y as int, tri_of_bool(state)),
    {
        self.set_cell(x, y, TriCell::new(TriState::from(state)));
    }

    /// Sets the cell at `(x, y)` to `invalid`; out of bounds does nothing.
    pub fn set_cell_invalid(&mut self, x: usize, y: usize)
        requires
            old(self).wf(),
        ensures
            final(self).wf(),
            final(self).is_update(&*old(self), x as int, y as int, TriState::Invalid),
    {
        self.set_cell(x, y, TriCell::invalid());
    }

    /// Toggles the cell at `(x, y)`: `on` and `off` swap, `invalid` stays; out of bounds does nothing.
    pub fn toggle_cell(&mut self, x: usize, y: usize)
        requires
            old(self).wf(),
        ensures
            final(self).wf(),
            final(self).is_update(
                &*old(self),
                x as int,
                y as int,
                tri_not(old(self).state_at(x as int, y as int)),
            ),
    {
        if x < self.width && y < self.height {
            let c = self.cells[y][x];
            self.set_cell(x, y, TriCell::new(c.0.toggle()));
        }
    }

    /// Gets a mutable reference to the cell at `(x, y)`, or `None` when it is out of bounds.
    pub fn cell_mut(&mut self, x: usize, y: usize) -> (r: Option<&mut TriCell>)
        requires
            old(self).wf(),
        ensures
            !old(self).in_bounds(x as int, y as int) ==> r is None && *final(self) == *old(self),
            old(self).in_bounds(x as int, y as int) ==> (r matches Some(c) && c.0
                == old(self).state_at(x as int, y as int)),
            old(self).in_bounds(x as int, y as int) ==> (r matches Some(c) && final(self).wf()
                && final(self).is_update(&*old(self), x as int, y as int, final(c).0)),
    {
        if x >= self.width || y >= self.height {
            return None;
        }
        Some(&mut self.cells[y][x])
    }

    /// The cell in column `x` and row `y`.
    pub closed spec fn cell_at(&self, x: int, y: int) -> TriCell {
        self.cells@[y]@[x]
    }

    /// Replaces every cell by what `f` makes of its position and old value, row by row.
    fn update_all<F: Fn((usize, usize), TriCell) -> TriCell>(&mut self, f: F)
        requires
            old(self).wf(),
            forall|p: (usize, usize), c: TriCell| f.requires((p, c)),
        ensures
            final(self).wf(),
            final(self).same_shape(&*old(self)),
            forall|i: int, j: int|
                #![trigger final(self).cell_at(i, j)]
                old(self).in_bounds(i, j) ==> f.ensures(
                    ((i as usize, j as usize), old(self).cell_at(i, j)),
                    final(self).cell_at(i, j),
                ),
    {
        let ghost orig = *self;
        let mut y: usize = 0;
        while y < self.height
            invariant
                self.wf(),
                self.same_shape(&orig),
                orig.wf(),
                y <= self.height,
                forall|p: (usize, usize), c: TriCell| f.requires((p, c)),
                forall|i: int, j: int|
                    #![trigger self.cell_at(i, j)]
                    0 <= j < y && 0 <= i < self.width ==> f.ensures(
                        ((i as usize, j as usize), orig.cell_at(i, j)),
                        self.cell_at(i, j),
                    ),
                forall|i: int, j: int|
                    #![trigger self.cell_at(i, j)]
                    y <= j < self.height && 0 <= i < self.width ==> self.cell_at(i, j)
                        == orig.cell_at(i, j),
            decreases self.height - y,
        {
            let mut x: usize = 0;
            while x < self.width
                invariant
                    self.wf(),
                    self.same_shape(&orig),
                    orig.wf(),
                    y < self.height,
                    x <= self.width,
                    forall|p: (usize, usize), c: TriCell| f.requires((p, c)),
                    forall|i: int, j: int|
                        #![trigger self.cell_at(i, j)]
                        (0 <= j < y && 0 <= i < self.width) || (j == y && 0 <= i < x) ==> f.ensures(
                            ((i as usize, j as usize), orig.cell_at(i, j)),
                            self.cell_at(i, j),
                        ),
                    forall|i: int, j: int|
                        #![trigger self.cell_at(i, j)]
                        (y < j < self.height && 0 <= i < self.width) || (j == y && x <= i
                            < self.width) ==> self.cell_at(i, j) == orig.cell_at(i, j),
                decreases self.width - x,
            {
                let c = self.cells[y][x];
                let n = f((x, y), c);
                let ghost prev = *self;
                self.cells[y].set(x, n);
                proof {
                    assert forall|i: int, j: int|
                        #![trigger self.cell_at(i, j)]
                        0 <= j < self.height && 0 <= i < self.width implies self.cell_at(i, j) == (
                        if i == x && j == y {
                            n
                        } else {
                            prev.cell_at(i, j)
                        }) by {}
                }
                x = x + 1;
            }
            y = y + 1;
        }
    }

    /// Sets every cell of the grid to `on` or `off`.
    pub fn set_all_cells(&mut self, state: bool)
        requires
            old(self).wf(),
        ensures
            final(self).wf(),
            final(self).same_shape(&*old(self)),
            final(self).all_state(tri_of_bool(state)),
    {
        let s = TriState::from(state);
        self.update_all(|p: (usize, usize), c: TriCell| -> (r: TriCell)
            ensures
                r.0 == s,
            { TriCell(s) });
        assert forall|i: int, j: int| self.in_bounds(i, j) implies self.state_at(i, j) == s by {
            assert(self.cell_at(i, j).0 == s);
        }
    }

    /// Sets every cell of the grid to `invalid`.
    pub fn set_all_invalid(&mut self)
        requires
            old(self).wf(),
        ensures
            final(self).wf(),
            final(self).same_shape(&*old(self)),
            final(self).all_state(TriState::Invalid),
    {
        self.update_all(|p: (usize, usize), c: TriCell| -> (r: TriCell)
            ensures
                r.0 == TriState::Invalid,
            { TriCell(TriState::Invalid) });
        assert forall|i: int, j: int| self.in_bounds(i, j) implies self.state_at(i, j)
            == TriState::Invalid by {
            assert(self.cell_at(i, j).0 == TriState::Invalid);
        }
    }

    /// Whether `(x, y)` lies in the first or last row or column of the grid.
    pub open spec fn on_edge(&self, x: int, y: int) -> bool {
        x == 0 || x == self.spec_width() - 1 || y == 0 || y == self.spec_height() - 1
    }

    /// Sets all cells in the first and last rows and columns to `on` or `off`.
    pub fn set_outer_cells(&mut self, state: bool)
        requires
            old(self).wf(),
        ensures
            final(self).wf(),
            final(self).same_shape(&*old(self)),
            forall|i: int, j: int|
                #![trigger final(self).state_at(i, j)]
                final(self).in_bounds(i, j) ==> final(self).state_at(i, j) == (if old(
                    self,
                ).on_edge(i, j) {
                    tri_of_bool(state)
                } else {
                    old(self).state_at(i, j)
                }),
    {
        let s = TriState::from(state);
        let w = self.width;
        let h = self.height;
        self.update_all(|p: (usize, usize), c: TriCell| -> (r: TriCell)
            ensures
                r == (if p.0 == 0 || p.0 == w - 1 || p.1 == 0 || p.1 == h - 1 {
                    TriCell(s)
                } else {
                    c
                }),
            {
                if p.0 == 0 || p.0 == w - 1 || p.1 == 0 || p.1 == h - 1 {
                    TriCell(s)
                } else {
                    c
                }
            });
        assert forall|i: int, j: int| #![trigger self.state_at(i, j)]
            self.in_bounds(i, j) implies self.state_at(i, j) == (if self.on_edge(i, j) {
                s
            } else {
                old(self).state_at(i, j)
            }) by {
            assert(self.cell_at(i, j) == (if i == 0 || i == w - 1 || j == 0 || j == h - 1 {
                TriCell(s)
            } else {
                old(self).cell_at(i, j)
            }));
        }
    }

    /// Replaces every cell, row by row, by what `f` makes of it.
    pub fn iter_mut<F: Fn(TriCell) -> TriCell>(&mut self, f: F)
        requires
            old(self).wf(),
            forall|c: TriCell| f.requires((c,)),
        ensures
            final(self).wf(),
            final(self).same_shape(&*old(self)),
            forall|i: int, j: int|
                #![trigger final(self).state_at(i, j)]
                old(self).in_bounds(i, j) ==> f.ensures(
                    (TriCell(old(self).state_at(i, j)),),
                    TriCell(final(self).state_at(i, j)),
                ),
    {
        self.update_all(|p: (usize, usize), c: TriCell| -> (r: TriCell)
            requires
                f.requires((c,)),
            ensures
                f.ensures((c,), r),
            { f(c) });
        assert forall|i: int, j: int| #![trigger self.state_at(i, j)] old(self).in_bounds(i, j) implies f.ensures(
            (TriCell(old(self).state_at(i, j)),),
            TriCell(self.state_at(i, j)),
        ) by {
            assert(self.cell_at(i, j) == TriCell(self.state_at(i, j)));
            assert(old(self).cell_at(i, j) == TriCell(old(self).state_at(i, j)));
        }
    }

    /// Replaces every cell, row by row, by what `f` makes of its position `(x, y)` and of it.
    pub fn iter_pos_mut<F: Fn((usize, usize), TriCell) -> TriCell>(&mut self, f: F)
        requires
            old(self).wf(),
            forall|p: (usize, usize), c: TriCell| f.requires((p, c)),
        ensures
            final(self).wf(),
            final(self).same_shape(&*old(self)),
            forall|i: int, j: int|
                #![trigger final(self).state_at(i, j)]
                old(self).in_bounds(i, j) ==> f.ensures(
                    ((i as usize, j as usize), TriCell(old(self).state_at(i, j))),
                    TriCell(final(self).state_at(i, j)),
                ),
    {
        self.update_all(f);
        assert forall|i: int, j: int| #![trigger self.state_at(i, j)] old(self).in_bounds(i, j) implies f.ensures(
            ((i as usize, j as usize), TriCell(old(self).state_at(i, j))),
            TriCell(self.state_at(i, j)),
        ) by {
            assert(self.cell_at(i, j) == TriCell(self.state_at(i, j)));
            assert(old(self).cell_at(i, j) == TriCell(old(self).state_at(i, j)));
        }
    }

    /// Toggles every cell of the grid: `on` and `off` swap, `invalid` stays.
    pub fn reverse_in_place(&mut self)
        requires
            old(self).wf(),
        ensures
            final(self).wf(),
            final(self).same_shape(&*old(self)),
            forall|i: int, j: int|
                #![trigger final(self).state_at(i, j)]
                final(self).in_bounds(i, j) ==> final(self).state_at(i, j) == tri_not(
                    old(self).state_at(i, j),
                ),
    {
        self.update_all(|p: (usize, usize), c: TriCell| -> (r: TriCell)
            ensures
                r.0 == tri_not(c.0),
            { TriCell(c.0.toggle()) });
        assert forall|i: int, j: int| #![trigger self.state_at(i, j)]
            self.in_bounds(i, j) implies self.state_at(i, j) == tri_not(old(self).state_at(i, j)) by {
            assert(self.cell_at(i, j).0 == tri_not(old(self).cell_at(i, j).0));
        }
    }

    /// Gets a reference to the cell at `(x, y)`, wrapping coordinates that fall outside the
    /// grid around to the other side (Euclidean remainder by the width and height).
    pub fn cell_wrapped(&self, x: isize, y: isize) -> (r: Option<&TriCell>)
        requires
            self.wf(),
        ensures
            r matches Some(c) && *c == self.cell_at(
                x as int % self.spec_width() as int,
                y as int % self.spec_height() as int,
            ),
            r matches Some(c) && self.in_bounds(
                x as int % self.spec_width() as int,
                y as int % self.spec_height() as int,
            ) && c.0 == self.state_at(
                x as int % self.spec_width() as int,
                y as int % self.spec_height() as int,
            ),
    {
        proof {
            self.lemma_dims_fit_isize();
        }
        let xx = wrap_index(x, self.width);
        let yy = wrap_index(y, self.height);
        Some(&self.cells[yy][xx])
    }

    /// Both dimensions are below `isize::MAX`.
    proof fn lemma_dims_fit_isize(&self)
        requires
            self.wf(),
        ensures
            self.spec_width() <= isize::MAX,
            self.spec_height() <= isize::MAX,
    {
        let w = self.width as int;
        let h = self.height as int;
        assert(3 * w <= w * h) by (nonlinear_arith)
            requires h >= 3, w >= 0;
        assert(3 * h <= w * h) by (nonlinear_arith)
            requires w >= 3, h >= 0;
    }

    /// A copy of the grid, cell for cell, with the same name.
    pub fn clone(&self) -> (r: Self)
        ensures
            r.spec_width() == self.spec_width(),
            r.spec_height() == self.spec_height(),
            r.spec_name() == self.spec_name(),
            r.spec_cells().len() == self.spec_cells().len(),
            forall|j: int|
                #![trigger r.spec_cells()[j]]
                0 <= j < self.spec_cells().len() ==> r.spec_cells()[j]@ == self.spec_cells()[j]@,
            self.wf() ==> r.wf(),
            forall|i: int, j: int|
                #![trigger r.state_at(i, j)]
                self.in_bounds(i, j) && self.wf() ==> r.state_at(i, j) == self.state_at(i, j),
    {
        let name = match &self.name {
            Some(n) => Some(n.clone()),
            None => None,
        };
        let mut cells: Vec<Vec<TriCell>> = Vec::new();
        let mut y: usize = 0;
        while y < self.cells.len()
            invariant
                y <= self.cells@.len(),
                cells@.len() == y,
                forall|j: int| #![trigger cells@[j]] 0 <= j < y ==> cells@[j]@ == self.cells@[j]@,
            decreases self.cells@.len() - y,
        {
            let src = &self.cells[y];
            let mut row: Vec<TriCell> = Vec::new();
            let mut x: usize = 0;
            while x < src.len()
                invariant
                    x <= src@.len(),
                    row@ == src@.take(x as int),
                decreases src@.len() - x,
            {
                row.push(src[x]);
                proof {
                    assert(row@ =~= src@.take(x as int + 1));
                }
                x = x + 1;
            }
            proof {
                assert(row@ =~= src@);
            }
            cells.push(row);
            y = y + 1;
        }
        let r = MapGrid { name, width: self.width, height: self.height, cells };
        proof {
            if self.wf() {
                assert forall|j: int| 0 <= j < r.height implies #[trigger] r.cells@[j]@.len() == r.width by {
                    assert(r.cells@[j]@ == self.cells@[j]@);
                }
                assert forall|i: int, j: int| #![trigger r.state_at(i, j)]
                    self.in_bounds(i, j) implies r.state_at(i, j) == self.state_at(i, j) by {
                    assert(r.cells@[j]@ == self.cells@[j]@);
                }
            }
        }
        r
    }

    /// Creates a copy of the given grid. If the given grid has a name, the copy is named
    /// "<Name> (Copy)".
    pub fn create_copy(other: &Self) -> (r: Self)
        requires
            other.wf(),
        ensures
            r.wf(),
            r.spec_width() == other.spec_width(),
            r.spec_height() == other.spec_height(),
            r.spec_name() == (match other.spec_name() {
                Some(n) => Some(n + " (Copy)"@),
                None => None,
            }),
            forall|i: int, j: int|
                #![trigger r.state_at(i, j)]
                r.in_bounds(i, j) ==> r.state_at(i, j) == other.state_at(i, j),
    {
        let mut grid = other.clone();
        grid.name = match &other.name {
            Some(n) => {
                let mut copy_name = n.clone();
                copy_name.append(" (Copy)");
                Some(copy_name)
            },
            None => None,
        };
        proof {
            reveal_strlit(" (Copy)");
        }
        grid
    }

    /// Creates a copy of `other` (named as by [`MapGrid::create_copy`]) with every cell toggled.
    pub fn reverse(other: &Self) -> (r: Self)
        requires
            other.wf(),
        ensures
            r.wf(),
            r.spec_width() == other.spec_width(),
            r.spec_height() == other.spec_height(),
            r.spec_name() == (match other.spec_name() {
                Some(n) => Some(n + " (Copy)"@),
                None => None,
            }),
            forall|i: int, j: int|
                #![trigger r.state_at(i, j)]
                r.in_bounds(i, j) ==> r.state_at(i, j) == tri_not(other.state_at(i, j)),
    {
        let mut grid = Self::create_copy(other);
        let ghost copy = grid;
        grid.reverse_in_place();
        assert forall|i: int, j: int| #![trigger grid.state_at(i, j)]
            grid.in_bounds(i, j) implies grid.state_at(i, j) == tri_not(other.state_at(i, j)) by {
            assert(copy.state_at(i, j) == other.state_at(i, j));
        }
        grid
    }

    /// All cells of the grid, row by row.
    pub fn iter(&self) -> (r: Vec<TriCell>)
        requires
            self.wf(),
        ensures
            r@ == flatten(self.spec_cells()),
    {
        let mut out: Vec<TriCell> = Vec::new();
        let mut y: usize = 0;
        proof {
            assert(self.cells@.take(0) =~= Seq::<Vec<TriCell>>::empty());
        }
        while y < self.height
            invariant
                self.wf(),
                y <= self.height,
                out@ == flatten(self.cells@.take(y as int)),
            decreases self.height - y,
        {
            let row = &self.cells[y];
            let ghost before = out@;
            let mut x: usize = 0;
            while x < self.width
                invariant
                    self.wf(),
                    y < self.height,
                    row == &self.cells@[y as int],
                    x <= self.width,
                    out@ == before + row@.take(x as int),
                decreases self.width - x,
            {
                out.push(row[x]);
                proof {
                    assert(out@ =~= before + row@.take(x as int + 1));
                }
                x = x + 1;
            }
            proof {
                assert(self.cells@.take(y as int + 1).drop_last() =~= self.cells@.take(y as int));
                assert(row@.take(self.width as int) =~= row@);
            }
            y = y + 1;
        }
        proof {
            assert(self.cells@.take(self.height as int) =~= self.cells@);
        }
        out
    }

    /// All cells of the grid with their `(x, y)` positions, row by row.
    pub fn iter_pos(&self) -> (r: Vec<((usize, usize), TriCell)>)
        requires
            self.wf(),
        ensures
            r@ == flatten_pos(self.spec_cells()),
    {
        let mut out: Vec<((usize, usize), TriCell)> = Vec::new();
        let mut y: usize = 0;
        proof {
            assert(self.cells@.take(0) =~= Seq::<Vec<TriCell>>::empty());
        }
        while y < self.height
            invariant
                self.wf(),
                y <= self.height,
                out@ == flatten_pos(self.cells@.take(y as int)),
            decreases self.height - y,
        {
            let row = &self.cells[y];
            let ghost before = out@;
            let mut x: usize = 0;
            while x < self.width
                invariant
                    self.wf(),
                    y < self.height,
                    row == &self.cells@[y as int],
                    x <= self.width,
                    out@ == before + positioned_row(row@, y as int).take(x as int),
                decreases self.width - x,
            {
                out.push(((x, y), row[x]));
                proof {
                    assert(out@ =~= before + positioned_row(row@, y as int).take(x as int + 1));
                }
                x = x + 1;
            }
            proof {
                assert(self.cells@.take(y as int + 1).drop_last() =~= self.cells@.take(y as int));
                assert(positioned_row(row@, y as int).take(self.width as int) =~= positioned_row(
                    row@,
                    y as int,
                ));
            }
            y = y + 1;
        }
        proof {
            assert(self.cells@.take(self.height as int) =~= self.cells@);
        }
        out
    }

    /// Every cell with its position, row by row.
    pub fn dump_all_cells(&self) -> (r: Vec<(GridPos, TriCell)>)
        requires
            self.wf(),
        ensures
            r@.len() == flatten_pos(self.spec_cells()).len(),
            forall|k: int|
                #![trigger r@[k]]
                0 <= k < r@.len() ==> r@[k].0.x == flatten_pos(self.spec_cells())[k].0.0 && r@[k].0.y
                    == flatten_pos(self.spec_cells())[k].0.1 && r@[k].1 == flatten_pos(
                    self.spec_cells(),
                )[k].1,
    {
        let all = self.iter_pos();
        let mut out: Vec<(GridPos, TriCell)> = Vec::new();
        let mut k: usize = 0;
        while k < all.len()
            invariant
                k <= all@.len(),
                all@ == flatten_pos(self.spec_cells()),
                out@.len() == k,
                forall|m: int|
                    #![trigger out@[m]]
                    0 <= m < k ==> out@[m].0.x == all@[m].0.0 && out@[m].0.y == all@[m].0.1
                        && out@[m].1 == all@[m].1,
            decreases all@.len() - k,
        {
            let ((x, y), c) = all[k];
            out.push((GridPos { x, y }, c));
            k = k + 1;
        }
        out
    }

    /// The positions of `ps` that are cells of the grid in state `s`, in order.
    pub open spec fn with_state(&self, ps: Seq<(usize, usize)>, s: TriState) -> Seq<(usize, usize)>
        decreases ps.len(),
    {
        if ps.len() == 0 {
            Seq::empty()
        } else {
            self.with_state(ps.drop_last(), s) + (if self.in_bounds(ps.last().0 as int, ps.last().1 as int)
                && self.state_at(ps.last().0 as int, ps.last().1 as int) == s {
                seq![ps.last()]
            } else {
                Seq::empty()
            })
        }
    }

    /// The neighbor positions of `pos`, truncated at the edges of the grid.
    pub open spec fn spec_neighbor_positions(&self, pos: (usize, usize)) -> Seq<(usize, usize)> {
        pairs_by_column(
            clipped_axis(pos.0, self.spec_width()),
            clipped_axis(pos.1, self.spec_height()),
            pos,
        )
    }

    /// The neighbor positions of a cell of the grid are exactly the cells of the grid other
    /// than it that are at most one column and at most one row away: its 8-neighbourhood, cut
    /// at the edges.
    pub proof fn lemma_neighbor_positions_exact(&self, pos: (usize, usize), q: (usize, usize))
        requires
            self.wf(),
            self.in_bounds(pos.0 as int, pos.1 as int),
        ensures
            self.spec_neighbor_positions(pos).contains(q) <==> (self.in_bounds(q.0 as int, q.1 as int)
                && q != pos && -1 <= q.0 - pos.0 <= 1 && -1 <= q.1 - pos.1 <= 1),
    {
        lemma_pairs_by_column_contains(
            clipped_axis(pos.0, self.spec_width()),
            clipped_axis(pos.1, self.spec_height()),
            pos,
            q,
        );
        lemma_clipped_axis_contains(pos.0, self.spec_width(), q.0);
        lemma_clipped_axis_contains(pos.1, self.spec_height(), q.1);
    }

    /// The neighbor positions of `pos`, wrapping around the edges of the grid.
    pub open spec fn spec_neighbor_positions_wrapping(&self, pos: (usize, usize)) -> Seq<
        (usize, usize),
    > {
        pairs_by_row(
            wrapped_axis(pos.0, self.spec_width()),
            wrapped_axis(pos.1, self.spec_height()),
            pos,
        )
    }

    /// The neighbors of `pos` (wrapping or not) that are cells in state `s`.
    pub open spec fn spec_neighbors_with_state(&self, pos: (usize, usize), s: TriState, wrap: bool) -> Seq<
        (usize, usize),
    > {
        self.with_state(
            if wrap {
                self.spec_neighbor_positions_wrapping(pos)
            } else {
                self.spec_neighbor_positions(pos)
            },
            s,
        )
    }

    /// Gets the coordinates of the neighbors of the given cell, truncating at the edges: for
    /// each neighboring column from left to right, the neighboring rows from top to bottom,
    /// leaving out `target_pos` itself.
    pub fn neighbor_positions(&self, target_pos: (usize, usize)) -> (r: Vec<(usize, usize)>)
        requires
            self.wf(),
            target_pos.0 < usize::MAX,
            target_pos.1 < usize::MAX,
        ensures
            r@ == self.spec_neighbor_positions(target_pos),
    {
        let pos = target_pos;
        let xs = clipped(pos.0, self.width);
        let ys = clipped(pos.1, self.height);
        let mut positions: Vec<(usize, usize)> = Vec::new();
        let mut i: usize = 0;
        proof {
            assert(xs@.take(0) =~= Seq::<usize>::empty());
        }
        while i < xs.len()
            invariant
                i <= xs@.len(),
                positions@ == pairs_by_column(xs@.take(i as int), ys@, pos),
            decreases xs@.len() - i,
        {
            let x = xs[i];
            let ghost before = positions@;
            let mut j: usize = 0;
            proof {
                assert(ys@.take(0) =~= Seq::<usize>::empty());
            }
            while j < ys.len()
                invariant
                    i < xs@.len(),
                    x == xs@[i as int],
                    j <= ys@.len(),
                    positions@ == before + column_pairs(x, ys@.take(j as int), pos),
                decreases ys@.len() - j,
            {
                let y = ys[j];
                proof {
                    assert(ys@.take(j as int + 1).drop_last() =~= ys@.take(j as int));
                }
                if !(x == pos.0 && y == pos.1) {
                    positions.push((x, y));
                }
                proof {
                    assert(positions@ =~= before + column_pairs(x, ys@.take(j as int + 1), pos));
                }
                j = j + 1;
            }
            proof {
                assert(ys@.take(ys@.len() as int) =~= ys@);
                assert(xs@.take(i as int + 1).drop_last() =~= xs@.take(i as int));
            }
            i = i + 1;
        }
        proof {
            assert(xs@.take(xs@.len() as int) =~= xs@);
        }
        positions
    }

    /// Gets the coordinates of the neighbors of the given cell, wrapping around the edges:
    /// for each neighboring row from top to bottom, the neighboring columns from left to right,
    /// leaving out `target_pos` itself.
    pub fn neighbor_positions_wrapping(&self, target_pos: (usize, usize)) -> (r: Vec<(usize, usize)>)
        requires
            self.wf(),
            target_pos.0 < usize::MAX,
            target_pos.1 < usize::MAX,
        ensures
            r@ == self.spec_neighbor_positions_wrapping(target_pos),
    {
        let pos = target_pos;
        let xs = wrapped(pos.0, self.width);
        let ys = wrapped(pos.1, self.height);
        let mut positions: Vec<(usize, usize)> = Vec::new();
        let mut j: usize = 0;
        proof {
            assert(ys@.take(0) =~= Seq::<usize>::empty());
        }
        while j < ys.len()
            invariant
                j <= ys@.len(),
                positions@ == pairs_by_row(xs@, ys@.take(j as int), pos),
            decreases ys@.len() - j,
        {
            let y = ys[j];
            let ghost before = positions@;
            let mut i: usize = 0;
            proof {
                assert(xs@.take(0) =~= Seq::<usize>::empty());
            }
            while i < xs.len()
                invariant
                    j < ys@.len(),
                    y == ys@[j as int],
                    i <= xs@.len(),
                    positions@ == before + row_pairs(xs@.take(i as int), y, pos),
                decreases xs@.len() - i,
            {
                let x = xs[i];
                proof {
                    assert(xs@.take(i as int + 1).drop_last() =~= xs@.take(i as int));
                }
                if !(x == pos.0 && y == pos.1) {
                    positions.push((x, y));
                }
                proof {
                    assert(positions@ =~= before + row_pairs(xs@.take(i as int + 1), y, pos));
                }
                i = i + 1;
            }
            proof {
                assert(xs@.take(xs@.len() as int) =~= xs@);
                assert(ys@.take(j as int + 1).drop_last() =~= ys@.take(j as int));
            }
            j = j + 1;
        }
        proof {
            assert(ys@.take(ys@.len() as int) =~= ys@);
        }
        positions
    }

    /// Keeps the positions of `ps` that are cells of the grid in state `s`.
    fn filter_state(&self, ps: &Vec<(usize, usize)>, s: TriState) -> (r: Vec<(usize, usize)>)
        requires
            self.wf(),
        ensures
            r@ == self.with_state(ps@, s),
    {
        let mut out: Vec<(usize, usize)> = Vec::new();
        let mut k: usize = 0;
        proof {
            assert(ps@.take(0) =~= Seq::<(usize, usize)>::empty());
        }
        while k < ps.len()
            invariant
                self.wf(),
                k <= ps@.len(),
                out@ == self.with_state(ps@.take(k as int), s),
            decreases ps@.len() - k,
        {
            let (x, y) = ps[k];
            proof {
                assert(ps@.take(k as int + 1).drop_last() =~= ps@.take(k as int));
            }
            if x < self.width && y < self.height && self.cells[y][x].0 == s {
                out.push((x, y));
            }
            proof {
                assert(out@ =~= self.with_state(ps@.take(k as int + 1), s));
            }
            k = k + 1;
        }
        proof {
            assert(ps@.take(ps@.len() as int) =~= ps@);
        }
        out
    }

    /// Gets the neighbors of the given position whose state is `on` (`state` true) or `off`
    /// (`state` false), wrapping around the edges when `wrap_edges` is true.
    pub fn neighbors_with_state(&self, target_pos: (usize, usize), state: bool, wrap_edges: bool) -> (r:
        Vec<(usize, usize)>)
        requires
            self.wf(),
            target_pos.0 < usize::MAX,
            target_pos.1 < usize::MAX,
        ensures
            r@ == self.spec_neighbors_with_state(target_pos, tri_of_bool(state), wrap_edges),
    {
        let range = if wrap_edges {
            self.neighbor_positions_wrapping(target_pos)
        } else {
            self.neighbor_positions(target_pos)
        };
        self.filter_state(&range, TriState::from(state))
    }

    /// Gets the number of neighboring cells whose state is `on`, wrapping around the edges
    /// when `wrapped` is true. The cell at `pos` itself is not counted.
    pub fn active_neighbor_count(&self, pos: (usize, usize), wrapped: bool) -> (r: usize)
        requires
            self.wf(),
            pos.0 < usize::MAX,
            pos.1 < usize::MAX,
        ensures
            r == self.spec_neighbors_with_state(pos, TriState::True, wrapped).len(),
    {
        let n = self.neighbors_with_state(pos, true, wrapped);
        n.len()
    }

    /// The rows of the grid as characters: `on`, `off`, or the invalid marker.
    pub open spec fn rendered(&self, on: char, off: char) -> Seq<Seq<char>> {
        Seq::new(self.spec_height() as nat, |j: int| row_chars(self.spec_cells()[j]@, on, off))
    }

    /// The rows of the grid as character vectors.
    fn row_char_vecs(&self, on: char, off: char) -> (r: Vec<Vec<char>>)
        requires
            self.wf(),
        ensures
            r@.map_values(|l: Vec<char>| l@) == self.rendered(on, off),
    {
        let invalid = pick_invalid_marker(on, off);
        let mut out: Vec<Vec<char>> = Vec::new();
        let mut y: usize = 0;
        while y < self.height
            invariant
                self.wf(),
                y <= self.height,
                invalid == invalid_marker(on, off),
                out@.len() == y,
                forall|j: int| #![trigger out@[j]] 0 <= j < y ==> out@[j]@ == row_chars(self.cells@[j]@, on, off),
            decreases self.height - y,
        {
            let row = &self.cells[y];
            let mut line: Vec<char> = Vec::new();
            let mut x: usize = 0;
            while x < row.len()
                invariant
                    invalid == invalid_marker(on, off),
                    x <= row@.len(),
                    line@ == row_chars(row@, on, off).take(x as int),
                decreases row@.len() - x,
            {
                let c = row[x];
                let ch = if c.is_on() {
                    on
                } else if c.is_off() {
                    off
                } else {
                    invalid
                };
                line.push(ch);
                proof {
                    assert(line@ =~= row_chars(row@, on, off).take(x as int + 1));
                }
                x = x + 1;
            }
            proof {
                assert(line@ =~= row_chars(row@, on, off));
            }
            out.push(line);
            y = y + 1;
        }
        proof {
            assert(out@.map_values(|l: Vec<char>| l@) =~= self.rendered(on, off));
        }
        out
    }

    /// Converts the grid to one string per row, with `on` for cells that are on, `off` for
    /// cells that are off, and the first of `'X'`, `'@'`, `'!'` that is neither for invalid ones.
    pub fn to_strings_with(&self, on: char, off: char) -> (r: Vec<String>)
        requires
            self.wf(),
        ensures
            r@.len() == self.spec_height(),
            forall|j: int| #![trigger r@[j]] 0 <= j < r@.len() ==> r@[j]@ == self.rendered(on, off)[j],
    {
        let rows = self.row_char_vecs(on, off);
        proof {
            assert(rows@.map_values(|l: Vec<char>| l@).len() == rows@.len());
        }
        let mut out: Vec<String> = Vec::new();
        let mut k: usize = 0;
        while k < rows.len()
            invariant
                k <= rows@.len(),
                rows@.len() == self.spec_height(),
                rows@.map_values(|l: Vec<char>| l@) == self.rendered(on, off),
                out@.len() == k,
                forall|j: int| #![trigger out@[j]] 0 <= j < k ==> out@[j]@ == self.rendered(on, off)[j],
            decreases rows@.len() - k,
        {
            let s = string_from_chars(&rows[k]);
            proof {
                assert(rows@.map_values(|l: Vec<char>| l@)[k as int] == rows@[k as int]@);
            }
            out.push(s);
            k = k + 1;
        }
        out
    }

    /// Converts the grid to a single string, rows separated by `div`, cells drawn as by
    /// [`MapGrid::to_strings_with`].
    pub fn to_string_with(&self, on: char, off: char, div: char) -> (r: String)
        requires
            self.wf(),
        ensures
            r@ == join_lines(self.rendered(on, off), seq![div]),
    {
        let rows = self.row_char_vecs(on, off);
        let mut sep: Vec<char> = Vec::new();
        sep.push(div);
        proof {
            assert(sep@ =~= seq![div]);
        }
        let joined = join_chars(&rows, &sep);
        string_from_chars(&joined)
    }

    /// The rows of the grid as strings, `'#'` for on and `'.'` for off.
    pub fn to_strings(&self) -> (r: Vec<String>)
        requires
            self.wf(),
        ensures
            r@.len() == self.spec_height(),
            forall|j: int| #![trigger r@[j]] 0 <= j < r@.len() ==> r@[j]@ == self.rendered('#', '.')[j],
    {
        self.to_strings_with('#', '.')
    }

    /// The grid as a single string, `'#'` for on, `'.'` for off, rows separated by newlines.
    pub fn as_string(&self) -> (r: String)
        requires
            self.wf(),
        ensures
            r@ == join_lines(self.rendered('#', '.'), seq!['\n']),
    {
        self.to_string_with('#', '.', '\n')
    }

    /// Creates a grid holding the `section` of `original`, reading cells with wrapping (see
    /// [`MapGrid::cell_wrapped`]). If `original` has a name, the result is named
    /// "SubGrid of <Name>".
    pub fn sub_grid(original: &Self, section: &GridSquare) -> (r: Self)
        requires
            original.wf(),
            section.is_ordered(),
            section.max.x <= isize::MAX,
            section.max.y <= isize::MAX,
            section.max.x - section.min.x >= 3,
            section.max.y - section.min.y >= 3,
            (section.max.x - section.min.x) * (section.max.y - section.min.y) <= usize::MAX,
        ensures
            r.wf(),
            r.spec_width() == section.max.x - section.min.x,
            r.spec_height() == section.max.y - section.min.y,
            r.spec_name() == (match original.spec_name() {
                Some(n) => Some("SubGrid of "@ + n),
                None => None,
            }),
            forall|i: int, j: int|
                #![trigger r.state_at(i, j)]
                r.in_bounds(i, j) ==> r.state_at(i, j) == original.state_at(
                    (section.min.x + i) % original.spec_width() as int,
                    (section.min.y + j) % original.spec_height() as int,
                ),
    {
        let sub_size = section.size();
        let mut grid = Self::new((sub_size.width, sub_size.height));
        match &original.name {
            Some(n) => {
                let mut full = chars_of("SubGrid of ");
                let mut rest = chars_of(n.as_str());
                full.append(&mut rest);
                grid.name = Some(string_from_chars(&full));
            },
            None => {},
        }
        let sw = sub_size.width;
        let sh = sub_size.height;
        let mut thisy: usize = 0;
        while thisy < sh
            invariant
                original.wf(),
                grid.wf(),
                grid.spec_width() == sw,
                grid.spec_height() == sh,
                sw == section.max.x - section.min.x,
                sh == section.max.y - section.min.y,
                section.max.x <= isize::MAX,
                section.max.y <= isize::MAX,
                grid.spec_name() == (match original.spec_name() {
                    Some(n) => Some("SubGrid of "@ + n),
                    None => None,
                }),
                thisy <= sh,
                forall|i: int, j: int|
                    #![trigger grid.state_at(i, j)]
                    grid.in_bounds(i, j) && j < thisy ==> grid.state_at(i, j) == original.state_at(
                        (section.min.x + i) % original.spec_width() as int,
                        (section.min.y + j) % original.spec_height() as int,
                    ),
            decreases sh - thisy,
        {
            let mut thisx: usize = 0;
            while thisx < sw
                invariant
                    original.wf(),
                    grid.wf(),
                    grid.spec_width() == sw,
                    grid.spec_height() == sh,
                    sw == section.max.x - section.min.x,
                    sh == section.max.y - section.min.y,
                    section.max.x <= isize::MAX,
                    section.max.y <= isize::MAX,
                    grid.spec_name() == (match original.spec_name() {
                        Some(n) => Some("SubGrid of "@ + n),
                        None => None,
                    }),
                    thisy < sh,
                    thisx <= sw,
                    forall|i: int, j: int|
                        #![trigger grid.state_at(i, j)]
                        grid.in_bounds(i, j) && (j < thisy || (j == thisy && i < thisx)) ==> grid.state_at(i, j)
                            == original.state_at(
                            (section.min.x + i) % original.spec_width() as int,
                            (section.min.y + j) % original.spec_height() as int,
                        ),
                decreases sw - thisx,
            {
                let otherx = (section.min.x + thisx) as isize;
                let othery = (section.min.y + thisy) as isize;
                let c = original.cell_wrapped(otherx, othery);
                match c {
                    Some(cell) => {
                        let ghost g0 = grid;
                        grid.set_cell(thisx, thisy, *cell);
                        proof {
                            assert forall|i: int, j: int|
                                #![trigger grid.state_at(i, j)]
                                grid.in_bounds(i, j) && (j < thisy || (j == thisy && i < thisx + 1))
                                    implies grid.state_at(i, j) == original.state_at(
                                    (section.min.x + i) % original.spec_width() as int,
                                    (section.min.y + j) % original.spec_height() as int,
                                ) by {
                                assert(g0.state_at(i, j) == g0.state_at(i, j));
                            }
                        }
                    },
                    None => {},
                }
                thisx = thisx + 1;
            }
            thisy = thisy + 1;
        }
        grid
    }

    /// Creates a new grid from the given `section` of this grid, which must be at least 3x3 and
    /// lie within the grid.
    pub fn create_subgrid(&self, section: &GridSquare) -> (r: Self)
        requires
            self.wf(),
            section.is_ordered(),
            section.max.x - section.min.x >= 3,
            section.max.y - section.min.y >= 3,
            section.max.x <= self.spec_width(),
            section.max.y <= self.spec_height(),
        ensures
            r.wf(),
            r.spec_width() == section.max.x - section.min.x,
            r.spec_height() == section.max.y - section.min.y,
            r.spec_name() == (match self.spec_name() {
                Some(n) => Some("SubGrid of "@ + n),
                None => None,
            }),
            forall|i: int, j: int|
                #![trigger r.state_at(i, j)]
                r.in_bounds(i, j) ==> r.state_at(i, j) == self.state_at(
                    section.min.x + i,
                    section.min.y + j,
                ),
    {
        proof {
            self.lemma_dims_fit_isize();
            let a = section.max.x - section.min.x;
            let b = section.max.y - section.min.y;
            assert(a * b <= self.width * self.height) by (nonlinear_arith)
                requires a <= self.width, b <= self.height, a >= 0, b >= 0;
        }
        let r = Self::sub_grid(self, section);
        proof {
            assert forall|i: int, j: int|
                #![trigger r.state_at(i, j)]
                r.in_bounds(i, j) implies r.state_at(i, j) == self.state_at(
                    section.min.x + i,
                    section.min.y + j,
                ) by {
                vstd::arithmetic::div_mod::lemma_small_mod(
                    (section.min.x + i) as nat,
                    self.width as nat,
                );
                vstd::arithmetic::div_mod::lemma_small_mod(
                    (section.min.y + j) as nat,
                    self.height as nat,
                );
            }
        }
        r
    }

    /// The number of cells `(i, y)` with `x0 <= i < x0 + len` whose state is `s`.
    pub open spec fn row_region_count(&self, x0: int, y: int, len: nat, s: TriState) -> nat
        decreases len,
    {
        if len == 0 {
            0
        } else {
            self.row_region_count(x0, y, (len - 1) as nat, s) + (if self.state_at(x0 + len - 1, y) == s {
                1nat
            } else {
                0nat
            })
        }
    }

    /// The number of cells of the rectangle `[x0, x0 + w) x [y0, y0 + h)` whose state is `s`.
    pub open spec fn region_count(&self, x0: int, y0: int, w: nat, h: nat, s: TriState) -> nat
        decreases h,
    {
        if h == 0 {
            0
        } else {
            self.region_count(x0, y0, w, (h - 1) as nat, s) + self.row_region_count(
                x0,
                y0 + h - 1,
                w,
                s,
            )
        }
    }

    /// A grid whose cells copy a rectangle of `src` counts what that rectangle counts.
    proof fn lemma_copy_count(&self, src: &Self, x0: int, y0: int, s: TriState)
        requires
            self.wf(),
            forall|i: int, j: int|
                #![trigger self.state_at(i, j)]
                self.in_bounds(i, j) ==> self.state_at(i, j) == src.state_at(x0 + i, y0 + j),
        ensures
            self.count_state(s) == src.region_count(
                x0,
                y0,
                self.spec_width() as nat,
                self.spec_height() as nat,
                s,
            ),
    {
        let w = self.width as nat;
        assert forall|k: int| 0 <= k <= self.height implies #[trigger] rows_count(self.cells@.take(k), s)
            == src.region_count(x0, y0, w, k as nat, s) by {
            self.lemma_copy_count_rows(src, x0, y0, s, k);
        }
        assert(self.cells@.take(self.height as int) =~= self.cells@);
    }

    /// Induction over rows for [`MapGrid::lemma_copy_count`].
    proof fn lemma_copy_count_rows(&self, src: &Self, x0: int, y0: int, s: TriState, k: int)
        requires
            self.wf(),
            0 <= k <= self.spec_height(),
            forall|i: int, j: int|
                #![trigger self.state_at(i, j)]
                self.in_bounds(i, j) ==> self.state_at(i, j) == src.state_at(x0 + i, y0 + j),
        ensures
            rows_count(self.cells@.take(k), s) == src.region_count(
                x0,
                y0,
                self.spec_width() as nat,
                k as nat,
                s,
            ),
        decreases k,
    {
        if k == 0 {
            assert(self.cells@.take(0) =~= Seq::<Vec<TriCell>>::empty());
        } else {
            self.lemma_copy_count_rows(src, x0, y0, s, k - 1);
            lemma_rows_count_take(self.cells@, k - 1, s);
            let row = self.cells@[k - 1]@;
            assert forall|m: int| 0 <= m <= self.width implies #[trigger] row_count(row.take(m), s)
                == src.row_region_count(x0, y0 + k - 1, m as nat, s) by {
                self.lemma_copy_count_cols(src, x0, y0, s, k - 1, m);
            }
            assert(row.take(self.width as int) =~= row);
        }
    }

    /// Induction over columns for [`MapGrid::lemma_copy_count`].
    proof fn lemma_copy_count_cols(&self, src: &Self, x0: int, y0: int, s: TriState, j: int, m: int)
        requires
            self.wf(),
            0 <= j < self.spec_height(),
            0 <= m <= self.spec_width(),
            forall|i: int, jj: int|
                #![trigger self.state_at(i, jj)]
                self.in_bounds(i, jj) ==> self.state_at(i, jj) == src.state_at(x0 + i, y0 + jj),
        ensures
            row_count(self.cells@[j]@.take(m), s) == src.row_region_count(x0, y0 + j, m as nat, s),
        decreases m,
    {
        let row = self.cells@[j]@;
        if m == 0 {
            assert(row.take(0) =~= Seq::<TriCell>::empty());
        } else {
            self.lemma_copy_count_cols(src, x0, y0, s, j, m - 1);
            lemma_row_count_take(row, m - 1, s);
            assert(self.state_at(m - 1, j) == src.state_at(x0 + m - 1, y0 + j));
        }
    }

    /// A rectangle holding a cell in state `s` counts at least one such cell.
    proof fn lemma_region_count_pos(&self, x0: int, y0: int, w: nat, h: nat, s: TriState, x: int, y: int)
        requires
            x0 <= x < x0 + w,
            y0 <= y < y0 + h,
            self.state_at(x, y) == s,
        ensures
            self.region_count(x0, y0, w, h, s) >= 1,
        decreases h,
    {
        if y < y0 + h - 1 {
            self.lemma_region_count_pos(x0, y0, w, (h - 1) as nat, s, x, y);
        } else {
            self.lemma_row_region_count_pos(x0, y, w, s, x);
        }
    }

    /// A row segment holding a cell in state `s` counts at least one such cell.
    proof fn lemma_row_region_count_pos(&self, x0: int, y: int, len: nat, s: TriState, x: int)
        requires
            x0 <= x < x0 + len,
            self.state_at(x, y) == s,
        ensures
            self.row_region_count(x0, y, len, s) >= 1,
        decreases len,
    {
        if x < x0 + len - 1 {
            self.lemma_row_region_count_pos(x0, y, (len - 1) as nat, s, x);
        }
    }

    /// The corner and size of the square that [`MapGrid::active_neighbors_n`] counts over on a
    /// `width` by `height` grid: the cells from `(x - n, y - n)` to `(x + n, y + n)`, both
    /// included, cut to the grid.
    pub open spec fn n_square(x: usize, y: usize, n: usize, width: usize, height: usize) -> (int, int, int, int) {
        let x0: int = if x >= n { x - n } else { 0 };
        let y0: int = if y >= n { y - n } else { 0 };
        let x1: int = if x + n < width { x + n } else { width - 1 };
        let y1: int = if y + n < height { y + n } else { height - 1 };
        (x0, y0, x1 - x0 + 1, y1 - y0 + 1)
    }

    /// The result of [`MapGrid::active_neighbors_n`].
    pub open spec fn spec_active_neighbors_n(&self, x: usize, y: usize, n: usize) -> int {
        if n == 0 {
            0
        } else if n == 1 {
            self.spec_neighbors_with_state((x, y), TriState::True, true).len() as int
        } else if 2 * n + 1 > self.spec_width() || 2 * n + 1 > self.spec_height() {
            0
        } else {
            let (x0, y0, w, h) = Self::n_square(x, y, n, self.spec_width(), self.spec_height());
            self.region_count(x0, y0, w as nat, h as nat, TriState::True) - (if self.state_at(x as int, y as int)
                == TriState::True {
                1int
            } else {
                0int
            })
        }
    }

    /// The inputs on which [`MapGrid::active_neighbors_n`] runs: the coordinates and the
    /// square's side fit in a `usize`, and `(x, y)` is a cell whenever a square is counted.
    pub open spec fn active_neighbors_n_ok(&self, x: usize, y: usize, n: usize) -> bool {
        &&& x < usize::MAX
        &&& y < usize::MAX
        &&& 2 * n + 1 <= usize::MAX
        &&& (n >= 2 && 2 * n + 1 <= self.spec_width() && 2 * n + 1 <= self.spec_height()) ==> self.in_bounds(
            x as int,
            y as int,
        )
    }

    /// The number of cells that are on in the square from `(x - n, y - n)` to `(x + n, y + n)`
    /// (cut to the grid), not counting `(x, y)` itself. `n == 1` counts the wrapped neighbors
    /// instead, `n == 0` gives 0, and so does a square wider or taller than the grid.
    pub fn active_neighbors_n(&self, x: usize, y: usize, n: usize) -> (r: usize)
        requires
            self.wf(),
            self.active_neighbors_n_ok(x, y, n),
        ensures
            r == self.spec_active_neighbors_n(x, y, n),
    {
        if n == 0 {
            0
        } else if n == 1 {
            self.active_neighbor_count((x, y), true)
        } else if (n * 2) + 1 > self.width || (n * 2) + 1 > self.height {
            0
        } else {
            proof {
                let w = self.width as int;
                let h = self.height as int;
                assert(w * 5 <= w * h) by (nonlinear_arith)
                    requires h >= 5, w >= 0;
                assert(h * 5 <= w * h) by (nonlinear_arith)
                    requires w >= 5, h >= 0;
            }
            let x0 = x.saturating_sub(n);
            let y0 = y.saturating_sub(n);
            let x1 = if x + n < self.width { x + n } else { self.width - 1 };
            let y1 = if y + n < self.height { y + n } else { self.height - 1 };
            let sq = square(&(x0, y0), x1 - x0 + 1, y1 - y0 + 1);
            let sub = self.create_subgrid(&sq);
            let count = sub.on_cells_count();
            proof {
                sub.lemma_copy_count(self, x0 as int, y0 as int, TriState::True);
            }
            let c = self.cell((x, y));
            match c {
                Some(cell) => {
                    if cell.is_on() {
                        proof {
                            self.lemma_region_count_pos(
                                x0 as int,
                                y0 as int,
                                (x1 - x0 + 1) as nat,
                                (y1 - y0 + 1) as nat,
                                TriState::True,
                                x as int,
                                y as int,
                            );
                        }
                        count - 1
                    } else {
                        count
                    }
                },
                None => count,
            }
        }
    }

    /// Whether `(i, j)` lies in the copy of `other` placed with its corner at `(ox, oy)`.
    pub open spec fn covers(other: &Self, ox: int, oy: int, i: int, j: int) -> bool {
        ox <= i < ox + other.spec_width() && oy <= j < oy + other.spec_height()
    }

    /// Copies every cell of `other` into this grid at offset `(ox, oy)`; cells that would fall
    /// outside this grid are dropped.
    fn paste(&mut self, other: &Self, ox: usize, oy: usize)
        requires
            old(self).wf(),
            other.wf(),
            ox + other.spec_width() <= usize::MAX,
            oy + other.spec_height() <= usize::MAX,
        ensures
            final(self).wf(),
            final(self).same_shape(&*old(self)),
            forall|i: int, j: int|
                #![trigger final(self).state_at(i, j)]
                final(self).in_bounds(i, j) ==> final(self).state_at(i, j) == (if Self::covers(
                    other,
                    ox as int,
                    oy as int,
                    i,
                    j,
                ) {
                    other.state_at(i - ox, j - oy)
                } else {
                    old(self).state_at(i, j)
                }),
    {
        let ghost orig = *self;
        let mut y: usize = 0;
        while y < other.height
            invariant
                self.wf(),
                other.wf(),
                self.same_shape(&orig),
                ox + other.spec_width() <= usize::MAX,
                oy + other.spec_height() <= usize::MAX,
                y <= other.spec_height(),
                forall|i: int, j: int|
                    #![trigger self.state_at(i, j)]
                    self.in_bounds(i, j) ==> self.state_at(i, j) == (if Self::covers(
                        other,
                        ox as int,
                        oy as int,
                        i,
                        j,
                    ) && j < oy + y {
                        other.state_at(i - ox, j - oy)
                    } else {
                        orig.state_at(i, j)
                    }),
            decreases other.spec_height() - y,
        {
            let mut x: usize = 0;
            while x < other.width
                invariant
                    self.wf(),
                    other.wf(),
                    self.same_shape(&orig),
                    ox + other.spec_width() <= usize::MAX,
                    oy + other.spec_height() <= usize::MAX,
                    y < other.spec_height(),
                    x <= other.spec_width(),
                    forall|i: int, j: int|
                        #![trigger self.state_at(i, j)]
                        self.in_bounds(i, j) ==> self.state_at(i, j) == (if Self::covers(
                            other,
                            ox as int,
                            oy as int,
                            i,
                            j,
                        ) && (j < oy + y || (j == oy + y && i < ox + x)) {
                            other.state_at(i - ox, j - oy)
                        } else {
                            orig.state_at(i, j)
                        }),
                decreases other.spec_width() - x,
            {
                let c = other.cells[y][x];
                let ghost g0 = *self;
                self.set_cell(x + ox, y + oy, c);
                proof {
                    assert forall|i: int, j: int|
                        #![trigger self.state_at(i, j)]
                        self.in_bounds(i, j) implies self.state_at(i, j) == (if Self::covers(
                            other,
                            ox as int,
                            oy as int,
                            i,
                            j,
                        ) && (j < oy + y || (j == oy + y && i < ox + x + 1)) {
                            other.state_at(i - ox, j - oy)
                        } else {
                            orig.state_at(i, j)
                        }) by {
                        assert(g0.state_at(i, j) == g0.state_at(i, j));
                    }
                }
                x = x + 1;
            }
            y = y + 1;
        }
    }

    /// Creates a new grid holding `first` at `(0, 0)` and `other` at `offset`, with `other`
    /// winning where they overlap. The result is just large enough for both; cells covered by
    /// neither are invalid. `first` is not modified.
    pub fn integrate(first: &Self, other: &Self, offset: GridPos) -> (r: Self)
        requires
            first.wf(),
            other.wf(),
            offset.x + other.spec_width() <= usize::MAX,
            offset.y + other.spec_height() <= usize::MAX,
            spec_max(first.spec_width() as int, offset.x + other.spec_width()) * spec_max(
                first.spec_height() as int,
                offset.y + other.spec_height(),
            ) <= usize::MAX,
        ensures
            r.wf(),
            r.spec_width() == spec_max(first.spec_width() as int, offset.x + other.spec_width()),
            r.spec_height() == spec_max(first.spec_height() as int, offset.y + other.spec_height()),
            r.spec_name() is None,
            forall|i: int, j: int|
                #![trigger r.state_at(i, j)]
                r.in_bounds(i, j) ==> r.state_at(i, j) == (if Self::covers(
                    other,
                    offset.x as int,
                    offset.y as int,
                    i,
                    j,
                ) {
                    other.state_at(i - offset.x, j - offset.y)
                } else if first.in_bounds(i, j) {
                    first.state_at(i, j)
                } else {
                    TriState::Invalid
                }),
    {
        let new_width = if first.width >= offset.x + other.width {
            first.width
        } else {
            offset.x + other.width
        };
        let new_height = if first.height >= offset.y + other.height {
            first.height
        } else {
            offset.y + other.height
        };
        let mut result = MapGrid::new((new_width, new_height));
        let ghost blank = result;
        result.paste(first, 0, 0);
        let ghost with_first = result;
        result.paste(other, offset.x, offset.y);
        proof {
            assert forall|i: int, j: int|
                #![trigger result.state_at(i, j)]
                result.in_bounds(i, j) implies result.state_at(i, j) == (if Self::covers(
                    other,
                    offset.x as int,
                    offset.y as int,
                    i,
                    j,
                ) {
                    other.state_at(i - offset.x, j - offset.y)
                } else if first.in_bounds(i, j) {
                    first.state_at(i, j)
                } else {
                    TriState::Invalid
                }) by {
                assert(with_first.state_at(i, j) == with_first.state_at(i, j));
                assert(blank.state_at(i, j) == TriState::Invalid);
            }
        }
        result
    }

    /// Combines `first` and `other` into a new grid, `other` winning where they overlap.
    pub fn union(first: &Self, other: &Self) -> (r: Self)
        requires
            first.wf(),
            other.wf(),
            spec_max(first.spec_width() as int, other.spec_width() as int) * spec_max(
                first.spec_height() as int,
                other.spec_height() as int,
            ) <= usize::MAX,
        ensures
            r.wf(),
            r.spec_width() == spec_max(first.spec_width() as int, other.spec_width() as int),
            r.spec_height() == spec_max(first.spec_height() as int, other.spec_height() as int),
            r.spec_name() is None,
            forall|i: int, j: int|
                #![trigger r.state_at(i, j)]
                r.in_bounds(i, j) ==> r.state_at(i, j) == (if other.in_bounds(i, j) {
                    other.state_at(i, j)
                } else if first.in_bounds(i, j) {
                    first.state_at(i, j)
                } else {
                    TriState::Invalid
                }),
    {
        let r = Self::integrate(first, other, GridPos { x: 0, y: 0 });
        assert forall|i: int, j: int|
            #![trigger r.state_at(i, j)]
            r.in_bounds(i, j) implies r.state_at(i, j) == (if other.in_bounds(i, j) {
                other.state_at(i, j)
            } else if first.in_bounds(i, j) {
                first.state_at(i, j)
            } else {
                TriState::Invalid
            }) by {
            assert(r.state_at(i, j) == r.state_at(i, j));
        }
        r
    }

    /// Resizes every row to `new_row_size` cells (the width; at least 3), cutting off cells or
    /// adding copies of `cell_value` at the end. Nothing happens when the width is already that.
    pub fn resize_rows_with(&mut self, new_row_size: usize, cell_value: TriCell)
        requires
            old(self).wf(),
            spec_max(new_row_size as int, 3) * old(self).spec_height() <= usize::MAX,
        ensures
            final(self).wf(),
            final(self).spec_width() == spec_max(new_row_size as int, 3),
            final(self).spec_height() == old(self).spec_height(),
            final(self).spec_name() == old(self).spec_name(),
            forall|i: int, j: int|
                #![trigger final(self).state_at(i, j)]
                final(self).in_bounds(i, j) ==> final(self).state_at(i, j) == (if i < old(
                    self,
                ).spec_width() {
                    old(self).state_at(i, j)
                } else {
                    cell_value.0
                }),
    {
        let safe_size = if new_row_size < 3 {
            3
        } else {
            new_row_size
        };
        if safe_size == self.width {
            return;
        }
        let mut new_cells: Vec<Vec<TriCell>> = Vec::new();
        let mut y: usize = 0;
        while y < self.height
            invariant
                self.wf(),
                *self == *old(self),
                y <= self.height,
                new_cells@.len() == y,
                forall|j: int| #![trigger new_cells@[j]] 0 <= j < y ==> new_cells@[j]@.len() == safe_size,
                forall|i: int, j: int|
                    #![trigger new_cells@[j]@[i]]
                    0 <= j < y && 0 <= i < safe_size ==> new_cells@[j]@[i] == (if i < self.width {
                        self.cell_at(i, j)
                    } else {
                        cell_value
                    }),
            decreases self.height - y,
        {
            let mut row: Vec<TriCell> = Vec::new();
            let mut x: usize = 0;
            while x < safe_size
                invariant
                    self.wf(),
                    y < self.height,
                    x <= safe_size,
                    row@.len() == x,
                    forall|i: int|
                        #![trigger row@[i]]
                        0 <= i < x ==> row@[i] == (if i < self.width {
                            self.cell_at(i, y as int)
                        } else {
                            cell_value
                        }),
                decreases safe_size - x,
            {
                if x < self.width {
                    row.push(self.cells[y][x]);
                } else {
                    row.push(cell_value);
                }
                x = x + 1;
            }
            new_cells.push(row);
            y = y + 1;
        }
        self.cells = new_cells;
        self.width = safe_size;
        proof {
            assert(safe_size * self.height == spec_max(new_row_size as int, 3) * old(self).spec_height());
        }
    }

    /// Resizes every row to `new_row_size` cells (at least 3), adding `invalid` cells.
    pub fn resize_rows(&mut self, new_row_size: usize)
        requires
            old(self).wf(),
            spec_max(new_row_size as int, 3) * old(self).spec_height() <= usize::MAX,
        ensures
            final(self).wf(),
            final(self).spec_width() == spec_max(new_row_size as int, 3),
            final(self).spec_height() == old(self).spec_height(),
            final(self).spec_name() == old(self).spec_name(),
            forall|i: int, j: int|
                #![trigger final(self).state_at(i, j)]
                final(self).in_bounds(i, j) ==> final(self).state_at(i, j) == (if i < old(
                    self,
                ).spec_width() {
                    old(self).state_at(i, j)
                } else {
                    TriState::Invalid
                }),
    {
        self.resize_rows_with(new_row_size, TriCell::invalid());
    }

    /// Resizes the grid to `new_column_size` rows (the height; at least 3), cutting off rows or
    /// adding rows of copies of `cell_value` at the bottom. Nothing happens when the height is
    /// already that.
    pub fn resize_cols_with(&mut self, new_column_size: usize, cell_value: TriCell)
        requires
            old(self).wf(),
            old(self).spec_width() * spec_max(new_column_size as int, 3) <= usize::MAX,
        ensures
            final(self).wf(),
            final(self).spec_width() == old(self).spec_width(),
            final(self).spec_height() == spec_max(new_column_size as int, 3),
            final(self).spec_name() == old(self).spec_name(),
            forall|i: int, j: int|
                #![trigger final(self).state_at(i, j)]
                final(self).in_bounds(i, j) ==> final(self).state_at(i, j) == (if j < old(
                    self,
                ).spec_height() {
                    old(self).state_at(i, j)
                } else {
                    cell_value.0
                }),
    {
        let safe_size = if new_column_size < 3 {
            3
        } else {
            new_column_size
        };
        if safe_size == self.height {
            return;
        }
        let mut new_cells: Vec<Vec<TriCell>> = Vec::new();
        let mut y: usize = 0;
        while y < safe_size
            invariant
                self.wf(),
                *self == *old(self),
                y <= safe_size,
                new_cells@.len() == y,
                forall|j: int| #![trigger new_cells@[j]] 0 <= j < y ==> new_cells@[j]@.len() == self.width,
                forall|i: int, j: int|
                    #![trigger new_cells@[j]@[i]]
                    0 <= j < y && 0 <= i < self.width ==> new_cells@[j]@[i] == (if j < self.height {
                        self.cell_at(i, j)
                    } else {
                        cell_value
                    }),
            decreases safe_size - y,
        {
            let mut row: Vec<TriCell> = Vec::new();
            let mut x: usize = 0;
            while x < self.width
                invariant
                    self.wf(),
                    y < safe_size,
                    x <= self.width,
                    row@.len() == x,
                    forall|i: int|
                        #![trigger row@[i]]
                        0 <= i < x ==> row@[i] == (if y < self.height {
                            self.cell_at(i, y as int)
                        } else {
                            cell_value
                        }),
                decreases self.width - x,
            {
                if y < self.height {
                    row.push(self.cells[y][x]);
                } else {
                    row.push(cell_value);
                }
                x = x + 1;
            }
            new_cells.push(row);
            y = y + 1;
        }
        self.cells = new_cells;
        self.height = safe_size;
    }

    /// Resizes the grid to `new_column_size` rows (at least 3), adding `invalid` cells.
    pub fn resize_cols(&mut self, new_column_size: usize)
        requires
            old(self).wf(),
            old(self).spec_width() * spec_max(new_column_size as int, 3) <= usize::MAX,
        ensures
            final(self).wf(),
            final(self).spec_width() == old(self).spec_width(),
            final(self).spec_height() == spec_max(new_column_size as int, 3),
            final(self).spec_name() == old(self).spec_name(),
            forall|i: int, j: int|
                #![trigger final(self).state_at(i, j)]
                final(self).in_bounds(i, j) ==> final(self).state_at(i, j) == (if j < old(
                    self,
                ).spec_height() {
                    old(self).state_at(i, j)
                } else {
                    TriState::Invalid
                }),
    {
        self.resize_cols_with(new_column_size, TriCell::invalid());
    }

    /// Resizes to `size.0` columns and `size.1` rows (each at least 3), adding `invalid` cells.
    pub fn resize(&mut self, size: (usize, usize))
        requires
            old(self).wf(),
            spec_max(size.0 as int, 3) * spec_max(size.1 as int, 3) <= usize::MAX,
            spec_max(size.0 as int, 3) * old(self).spec_height() <= usize::MAX,
        ensures
            final(self).wf(),
            final(self).spec_width() == (if size.0 == old(self).spec_width() {
                old(self).spec_width() as int
            } else {
                spec_max(size.0 as int, 3)
            }),
            final(self).spec_height() == (if size.1 == old(self).spec_height() {
                old(self).spec_height() as int
            } else {
                spec_max(size.1 as int, 3)
            }),
            final(self).spec_name() == old(self).spec_name(),
            forall|i: int, j: int|
                #![trigger final(self).state_at(i, j)]
                final(self).in_bounds(i, j) ==> final(self).state_at(i, j) == (if old(self).in_bounds(
                    i,
                    j,
                ) {
                    old(self).state_at(i, j)
                } else {
                    TriState::Invalid
                }),
    {
        let (width, height) = size;
        if self.width != width {
            self.resize_rows(width);
        }
        let ghost mid = *self;
        if self.height != height {
            self.resize_cols(height);
        }
        proof {
            assert forall|i: int, j: int|
                #![trigger self.state_at(i, j)]
                self.in_bounds(i, j) implies self.state_at(i, j) == (if old(self).in_bounds(i, j) {
                    old(self).state_at(i, j)
                } else {
                    TriState::Invalid
                }) by {
                assert(mid.state_at(i, j) == mid.state_at(i, j));
            }
        }
    }

    /// Resizes to `size.0` columns and `size.1` rows (each at least 3), like
    /// [`MapGrid::resize`], with added cells copying `cell_value`.
    pub fn resize_with(&mut self, size: (usize, usize), cell_value: TriCell)
        requires
            old(self).wf(),
            spec_max(size.0 as int, 3) * spec_max(size.1 as int, 3) <= usize::MAX,
            spec_max(size.0 as int, 3) * old(self).spec_height() <= usize::MAX,
        ensures
            final(self).wf(),
            final(self).spec_width() == (if size.0 == old(self).spec_width() {
                old(self).spec_width() as int
            } else {
                spec_max(size.0 as int, 3)
            }),
            final(self).spec_height() == (if size.1 == old(self).spec_height() {
                old(self).spec_height() as int
            } else {
                spec_max(size.1 as int, 3)
            }),
            final(self).spec_name() == old(self).spec_name(),
            forall|i: int, j: int|
                #![trigger final(self).state_at(i, j)]
                final(self).in_bounds(i, j) ==> final(self).state_at(i, j) == (if old(self).in_bounds(
                    i,
                    j,
                ) {
                    old(self).state_at(i, j)
                } else {
                    cell_value.0
                }),
    {
        let (width, height) = size;
        if self.width != width {
            self.resize_rows_with(width, cell_value);
        }
        let ghost mid = *self;
        if self.height != height {
            self.resize_cols_with(height, cell_value);
        }
        proof {
            assert forall|i: int, j: int|
                #![trigger self.state_at(i, j)]
                self.in_bounds(i, j) implies self.state_at(i, j) == (if old(self).in_bounds(i, j) {
                    old(self).state_at(i, j)
                } else {
                    cell_value.0
                }) by {
                assert(mid.state_at(i, j) == mid.state_at(i, j));
            }
        }
    }

    /// Copies `other` into this grid at `offset`, `other` winning where they overlap; the grid
    /// first grows (with `invalid` cells) when `other` does not fit.
    pub fn integrate_in_place(&mut self, other: &Self, offset: GridPos)
        requires
            old(self).wf(),
            other.wf(),
            offset.x + other.spec_width() <= usize::MAX,
            offset.y + other.spec_height() <= usize::MAX,
            spec_max(old(self).spec_width() as int, offset.x + other.spec_width()) * spec_max(
                old(self).spec_height() as int,
                offset.y + other.spec_height(),
            ) <= usize::MAX,
        ensures
            final(self).wf(),
            final(self).spec_name() == old(self).spec_name(),
            (offset.x + other.spec_width() > old(self).spec_width() || offset.y + other.spec_height()
                > old(self).spec_height()) ==> final(self).spec_width() == spec_max(
                old(self).spec_width() as int,
                offset.x + other.spec_width(),
            ) && final(self).spec_height() == spec_max(
                old(self).spec_height() as int,
                offset.y + other.spec_height(),
            ),
            !(offset.x + other.spec_width() > old(self).spec_width() || offset.y + other.spec_height()
                > old(self).spec_height()) ==> final(self).spec_width() == old(self).spec_width()
                && final(self).spec_height() == old(self).spec_height(),
            forall|i: int, j: int|
                #![trigger final(self).state_at(i, j)]
                final(self).in_bounds(i, j) ==> final(self).state_at(i, j) == (if Self::covers(
                    other,
                    offset.x as int,
                    offset.y as int,
                    i,
                    j,
                ) {
                    other.state_at(i - offset.x, j - offset.y)
                } else if old(self).in_bounds(i, j) {
                    old(self).state_at(i, j)
                } else {
                    TriState::Invalid
                }),
    {
        let need_w = other.width + offset.x;
        let need_h = other.height + offset.y;
        if need_w > self.width || need_h > self.height {
            let w = if need_w >= self.width {
                need_w
            } else {
                self.width
            };
            let h = if need_h >= self.height {
                need_h
            } else {
                self.height
            };
            proof {
                let sh = self.height as int;
                assert(w * sh <= w * h) by (nonlinear_arith)
                    requires sh <= h, w >= 0;
            }
            self.resize((w, h));
        }
        let ghost mid = *self;
        self.paste(other, offset.x, offset.y);
        proof {
            assert forall|i: int, j: int|
                #![trigger self.state_at(i, j)]
                self.in_bounds(i, j) implies self.state_at(i, j) == (if Self::covers(
                    other,
                    offset.x as int,
                    offset.y as int,
                    i,
                    j,
                ) {
                    other.state_at(i - offset.x, j - offset.y)
                } else if old(self).in_bounds(i, j) {
                    old(self).state_at(i, j)
                } else {
                    TriState::Invalid
                }) by {
                assert(mid.state_at(i, j) == mid.state_at(i, j));
            }
        }
    }

    /// Copies `other` into this grid at `(0, 0)`, growing the grid if needed.
    pub fn union_in_place(&mut self, other: &Self)
        requires
            old(self).wf(),
            other.wf(),
            spec_max(old(self).spec_width() as int, other.spec_width() as int) * spec_max(
                old(self).spec_height() as int,
                other.spec_height() as int,
            ) <= usize::MAX,
        ensures
            final(self).wf(),
            final(self).spec_name() == old(self).spec_name(),
            forall|i: int, j: int|
                #![trigger final(self).state_at(i, j)]
                final(self).in_bounds(i, j) ==> final(self).state_at(i, j) == (if other.in_bounds(i, j) {
                    other.state_at(i, j)
                } else if old(self).in_bounds(i, j) {
                    old(self).state_at(i, j)
                } else {
                    TriState::Invalid
                }),
    {
        self.integrate_in_place(other, GridPos { x: 0, y: 0 });
        proof {
            assert forall|i: int, j: int|
                #![trigger self.state_at(i, j)]
                self.in_bounds(i, j) implies self.state_at(i, j) == (if other.in_bounds(i, j) {
                    other.state_at(i, j)
                } else if old(self).in_bounds(i, j) {
                    old(self).state_at(i, j)
                } else {
                    TriState::Invalid
                }) by {
                assert(self.state_at(i, j) == self.state_at(i, j));
            }
        }
    }

    /// The state of `(i, j)` after pasting each grid of `parts` at its offset, in order, onto
    /// an all-off grid: the last part covering `(i, j)` wins.
    pub open spec fn combined_state(parts: Seq<(&Self, GridPos)>, i: int, j: int) -> TriState
        decreases parts.len(),
    {
        if parts.len() == 0 {
            TriState::False
        } else {
            let (g, p) = parts.last();
            if Self::covers(g, p.x as int, p.y as int, i, j) {
                g.state_at(i - p.x, j - p.y)
            } else {
                Self::combined_state(parts.drop_last(), i, j)
            }
        }
    }

    /// A cell that no part covers is off after combining.
    pub proof fn lemma_combined_uncovered(parts: Seq<(&Self, GridPos)>, i: int, j: int)
        requires
            forall|k: int|
                0 <= k < parts.len() ==> !Self::covers(#[trigger] parts[k].0, parts[k].1.x as int, parts[k].1.y as int, i, j),
        ensures
            Self::combined_state(parts, i, j) == TriState::False,
        decreases parts.len(),
    {
        if parts.len() > 0 {
            let init = parts.drop_last();
            assert forall|k: int|
                0 <= k < init.len() implies !Self::covers(#[trigger] init[k].0, init[k].1.x as int, init[k].1.y as int, i, j) by {
                assert(init[k] == parts[k]);
            }
            Self::lemma_combined_uncovered(init, i, j);
            assert(!Self::covers(parts[parts.len() - 1].0, parts.last().1.x as int, parts.last().1.y as int, i, j));
        }
    }

    /// A cell takes, after combining, the state it has in the last part that covers it.
    pub proof fn lemma_combined_last_cover(parts: Seq<(&Self, GridPos)>, k: int, i: int, j: int)
        requires
            0 <= k < parts.len(),
            Self::covers(parts[k].0, parts[k].1.x as int, parts[k].1.y as int, i, j),
            forall|m: int|
                k < m < parts.len() ==> !Self::covers(#[trigger] parts[m].0, parts[m].1.x as int, parts[m].1.y as int, i, j),
        ensures
            Self::combined_state(parts, i, j) == parts[k].0.state_at(i - parts[k].1.x, j - parts[k].1.y),
        decreases parts.len(),
    {
        if k < parts.len() - 1 {
            let init = parts.drop_last();
            assert(init[k] == parts[k]);
            assert forall|m: int|
                k < m < init.len() implies !Self::covers(#[trigger] init[m].0, init[m].1.x as int, init[m].1.y as int, i, j) by {
                assert(init[m] == parts[m]);
            }
            Self::lemma_combined_last_cover(init, k, i, j);
            assert(!Self::covers(parts[parts.len() - 1].0, parts.last().1.x as int, parts.last().1.y as int, i, j));
        }
    }

    /// The width or height needed to hold every part: the largest `offset + size` (0 for none).
    pub open spec fn combined_extent(parts: Seq<(&Self, GridPos)>, horizontal: bool) -> int
        decreases parts.len(),
    {
        if parts.len() == 0 {
            0
        } else {
            let (g, p) = parts.last();
            let e = if horizontal {
                g.spec_width() + p.x
            } else {
                g.spec_height() + p.y
            };
            spec_max(Self::combined_extent(parts.drop_last(), horizontal), e)
        }
    }

    /// Combines several grids, each placed at its offset, into one grid just large enough for
    /// all of them; later grids win where they overlap, and cells covered by none are off.
    pub fn combine_multiple(grids: &[(&Self, GridPos)]) -> (r: Self)
        requires
            forall|k: int| #![trigger grids@[k]] 0 <= k < grids@.len() ==> grids@[k].0.wf()
                && grids@[k].0.spec_width() + grids@[k].1.x <= usize::MAX
                && grids@[k].0.spec_height() + grids@[k].1.y <= usize::MAX,
            Self::combined_extent(grids@, true) >= 3,
            Self::combined_extent(grids@, false) >= 3,
            Self::combined_extent(grids@, true) * Self::combined_extent(grids@, false) <= usize::MAX,
        ensures
            r.wf(),
            r.spec_width() == Self::combined_extent(grids@, true),
            r.spec_height() == Self::combined_extent(grids@, false),
            r.spec_name() is None,
            forall|i: int, j: int|
                #![trigger r.state_at(i, j)]
                r.in_bounds(i, j) ==> r.state_at(i, j) == Self::combined_state(grids@, i, j),
            forall|i: int, j: int|
                #![trigger r.state_at(i, j)]
                r.in_bounds(i, j) && (forall|k: int|
                    0 <= k < grids@.len() ==> !Self::covers(#[trigger] grids@[k].0, grids@[k].1.x as int, grids@[k].1.y as int, i, j))
                    ==> r.state_at(i, j) == TriState::False,
    {
        let mut max_width: usize = 0;
        let mut max_height: usize = 0;
        let mut k: usize = 0;
        proof {
            assert(grids@.take(0) =~= Seq::<(&Self, GridPos)>::empty());
        }
        while k < grids.len()
            invariant
                k <= grids@.len(),
                forall|m: int| #![trigger grids@[m]] 0 <= m < grids@.len() ==> grids@[m].0.wf()
                    && grids@[m].0.spec_width() + grids@[m].1.x <= usize::MAX
                    && grids@[m].0.spec_height() + grids@[m].1.y <= usize::MAX,
                max_width == Self::combined_extent(grids@.take(k as int), true),
                max_height == Self::combined_extent(grids@.take(k as int), false),
            decreases grids@.len() - k,
        {
            let (g, p) = grids[k];
            proof {
                assert(grids@.take(k as int + 1).drop_last() =~= grids@.take(k as int));
            }
            let x = g.width + p.x;
            if x > max_width {
                max_width = x;
            }
            let y = g.height + p.y;
            if y > max_height {
                max_height = y;
            }
            k = k + 1;
        }
        proof {
            assert(grids@.take(grids@.len() as int) =~= grids@);
        }
        let mut grid = Self::empty((max_width, max_height));
        let mut k: usize = 0;
        proof {
            assert(grids@.take(0) =~= Seq::<(&Self, GridPos)>::empty());
        }
        while k < grids.len()
            invariant
                k <= grids@.len(),
                forall|m: int| #![trigger grids@[m]] 0 <= m < grids@.len() ==> grids@[m].0.wf()
                    && grids@[m].0.spec_width() + grids@[m].1.x <= usize::MAX
                    && grids@[m].0.spec_height() + grids@[m].1.y <= usize::MAX,
                grid.wf(),
                grid.spec_width() == max_width,
                grid.spec_height() == max_height,
                grid.spec_name() is None,
                forall|i: int, j: int|
                    #![trigger grid.state_at(i, j)]
                    grid.in_bounds(i, j) ==> grid.state_at(i, j) == Self::combined_state(
                        grids@.take(k as int),
                        i,
                        j,
                    ),
            decreases grids@.len() - k,
        {
            let (g, p) = grids[k];
            let ghost g0 = grid;
            grid.paste(g, p.x, p.y);
            proof {
                assert(grids@.take(k as int + 1).drop_last() =~= grids@.take(k as int));
                assert(grids@.take(k as int + 1).last() == grids@[k as int]);
                assert forall|i: int, j: int|
                    #![trigger grid.state_at(i, j)]
                    grid.in_bounds(i, j) implies grid.state_at(i, j) == Self::combined_state(
                        grids@.take(k as int + 1),
                        i,
                        j,
                    ) by {
                    assert(g0.state_at(i, j) == g0.state_at(i, j));
                }
            }
            k = k + 1;
        }
        proof {
            assert(grids@.take(grids@.len() as int) =~= grids@);
            assert forall|i: int, j: int|
                #![trigger grid.state_at(i, j)]
                grid.in_bounds(i, j) && (forall|k: int|
                    0 <= k < grids@.len() ==> !Self::covers(#[trigger] grids@[k].0, grids@[k].1.x as int, grids@[k].1.y as int, i, j))
                    implies grid.state_at(i, j) == TriState::False by {
                Self::lemma_combined_uncovered(grids@, i, j);
            }
        }
        grid
    }

    /// A grid's state count equals its region count over the whole grid.
    pub proof fn lemma_count_is_region(&self, s: TriState)
        requires
            self.wf(),
        ensures
            self.count_state(s) == self.region_count(
                0,
                0,
                self.spec_width() as nat,
                self.spec_height() as nat,
                s,
            ),
    {
        assert forall|i: int, j: int|
            #![trigger self.state_at(i, j)]
            self.in_bounds(i, j) implies self.state_at(i, j) == self.state_at(0 + i, 0 + j) by {}
        self.lemma_copy_count(self, 0, 0, s);
    }

    /// Row segments whose states agree count alike.
    proof fn lemma_row_region_same(a: &Self, b: &Self, x0: int, y: int, len: nat, s: TriState)
        requires
            forall|i: int| x0 <= i < x0 + len ==> #[trigger] a.state_at(i, y) == b.state_at(i, y),
        ensures
            a.row_region_count(x0, y, len, s) == b.row_region_count(x0, y, len, s),
        decreases len,
    {
        if len > 0 {
            Self::lemma_row_region_same(a, b, x0, y, (len - 1) as nat, s);
            assert(a.state_at(x0 + len - 1, y) == b.state_at(x0 + len - 1, y));
        }
    }

    /// Two grids of the same size whose cells agree give the same neighbors in any state.
    pub proof fn lemma_neighbors_same(a: &Self, b: &Self, pos: (usize, usize), s: TriState, wrap: bool)
        requires
            a.spec_width() == b.spec_width(),
            a.spec_height() == b.spec_height(),
            forall|i: int, j: int| #![trigger a.state_at(i, j)] a.in_bounds(i, j) ==> a.state_at(i, j) == b.state_at(i, j),
        ensures
            a.spec_neighbors_with_state(pos, s, wrap) == b.spec_neighbors_with_state(pos, s, wrap),
    {
        let ps = if wrap {
            a.spec_neighbor_positions_wrapping(pos)
        } else {
            a.spec_neighbor_positions(pos)
        };
        Self::lemma_with_state_same(a, b, ps, s);
    }

    /// Two grids of the same size whose cells agree keep the same positions in any state.
    proof fn lemma_with_state_same(a: &Self, b: &Self, ps: Seq<(usize, usize)>, s: TriState)
        requires
            a.spec_width() == b.spec_width(),
            a.spec_height() == b.spec_height(),
            forall|i: int, j: int| #![trigger a.state_at(i, j)] a.in_bounds(i, j) ==> a.state_at(i, j) == b.state_at(i, j),
        ensures
            a.with_state(ps, s) == b.with_state(ps, s),
        decreases ps.len(),
    {
        if ps.len() > 0 {
            Self::lemma_with_state_same(a, b, ps.drop_last(), s);
            let q = ps.last();
            if a.in_bounds(q.0 as int, q.1 as int) {
                assert(a.state_at(q.0 as int, q.1 as int) == b.state_at(q.0 as int, q.1 as int));
            }
        }
    }

    /// Two grids of the same size whose cells agree count the same cells around any cell.
    pub proof fn lemma_active_neighbors_n_same(a: &Self, b: &Self, x: usize, y: usize, n: usize)
        requires
            a.spec_width() == b.spec_width(),
            a.spec_height() == b.spec_height(),
            forall|i: int, j: int| #![trigger a.state_at(i, j)] a.in_bounds(i, j) ==> a.state_at(i, j) == b.state_at(i, j),
            a.in_bounds(x as int, y as int),
        ensures
            a.spec_active_neighbors_n(x, y, n) == b.spec_active_neighbors_n(x, y, n),
    {
        Self::lemma_neighbors_same(a, b, (x, y), TriState::True, true);
        if n >= 2 && 2 * n + 1 <= a.spec_width() && 2 * n + 1 <= a.spec_height() {
            let (x0, y0, w, h) = Self::n_square(x, y, n, a.spec_width(), a.spec_height());
            assert forall|i: int, j: int|
                x0 <= i < x0 + w && y0 <= j < y0 + h implies #[trigger] a.state_at(i, j) == b.state_at(i, j) by {
                assert(a.in_bounds(i, j));
            }
            Self::lemma_region_same(a, b, x0, y0, w as nat, h as nat, TriState::True);
        }
    }

    /// A row segment whose states are those of another, negated, counts each state as the other
    /// counts its negation.
    proof fn lemma_row_region_not(a: &Self, b: &Self, x0: int, y: int, len: nat, s: TriState)
        requires
            forall|i: int| x0 <= i < x0 + len ==> #[trigger] b.state_at(i, y) == tri_not(a.state_at(i, y)),
        ensures
            b.row_region_count(x0, y, len, s) == a.row_region_count(x0, y, len, tri_not(s)),
        decreases len,
    {
        if len > 0 {
            Self::lemma_row_region_not(a, b, x0, y, (len - 1) as nat, s);
            assert(b.state_at(x0 + len - 1, y) == tri_not(a.state_at(x0 + len - 1, y)));
        }
    }

    /// A rectangle whose states are those of another, negated, counts each state as the other
    /// counts its negation.
    proof fn lemma_region_not(a: &Self, b: &Self, x0: int, y0: int, w: nat, h: nat, s: TriState)
        requires
            forall|i: int, j: int|
                x0 <= i < x0 + w && y0 <= j < y0 + h ==> #[trigger] b.state_at(i, j) == tri_not(a.state_at(i, j)),
        ensures
            b.region_count(x0, y0, w, h, s) == a.region_count(x0, y0, w, h, tri_not(s)),
        decreases h,
    {
        if h > 0 {
            Self::lemma_region_not(a, b, x0, y0, w, (h - 1) as nat, s);
            Self::lemma_row_region_not(a, b, x0, y0 + h - 1, w, s);
        }
    }

    /// Reversing a grid swaps its counts of `on` and `off` cells and keeps its count of invalid
    /// ones: if `b` holds the negation of each cell of `a`, `b` has as many `on` cells as `a`
    /// has `off` ones, as many `off` cells as `a` has `on` ones, and as many invalid cells.
    pub proof fn lemma_reverse_swaps_counts(a: &Self, b: &Self)
        requires
            a.wf(),
            b.wf(),
            b.spec_width() == a.spec_width(),
            b.spec_height() == a.spec_height(),
            forall|i: int, j: int| #![trigger b.state_at(i, j)] b.in_bounds(i, j) ==> b.state_at(i, j) == tri_not(a.state_at(i, j)),
        ensures
            b.count_state(TriState::True) == a.count_state(TriState::False),
            b.count_state(TriState::False) == a.count_state(TriState::True),
            b.count_state(TriState::Invalid) == a.count_state(TriState::Invalid),
    {
        let w = a.spec_width() as nat;
        let h = a.spec_height() as nat;
        assert forall|i: int, j: int|
            0 <= i < 0 + w && 0 <= j < 0 + h implies #[trigger] b.state_at(i, j) == tri_not(a.state_at(i, j)) by {
            assert(b.in_bounds(i, j));
        }
        a.lemma_count_is_region(TriState::True);
        a.lemma_count_is_region(TriState::False);
        a.lemma_count_is_region(TriState::Invalid);
        b.lemma_count_is_region(TriState::True);
        b.lemma_count_is_region(TriState::False);
        b.lemma_count_is_region(TriState::Invalid);
        Self::lemma_region_not(a, b, 0, 0, w, h, TriState::True);
        Self::lemma_region_not(a, b, 0, 0, w, h, TriState::False);
        Self::lemma_region_not(a, b, 0, 0, w, h, TriState::Invalid);
    }

    /// Rectangles whose states agree count alike.
    proof fn lemma_region_same(a: &Self, b: &Self, x0: int, y0: int, w: nat, h: nat, s: TriState)
        requires
            forall|i: int, j: int|
                x0 <= i < x0 + w && y0 <= j < y0 + h ==> #[trigger] a.state_at(i, j) == b.state_at(i, j),
        ensures
            a.region_count(x0, y0, w, h, s) == b.region_count(x0, y0, w, h, s),
        decreases h,
    {
        if h > 0 {
            Self::lemma_region_same(a, b, x0, y0, w, (h - 1) as nat, s);
            Self::lemma_row_region_same(a, b, x0, y0 + h - 1, w, s);
        }
    }

    /// Row segments that differ in one cell count alike but for that cell.
    proof fn lemma_row_region_change(a: &Self, b: &Self, x0: int, y: int, len: nat, s: TriState, x: int)
        requires
            x0 <= x < x0 + len,
            forall|i: int| x0 <= i < x0 + len && i != x ==> #[trigger] a.state_at(i, y) == b.state_at(i, y),
        ensures
            b.row_region_count(x0, y, len, s) + (if a.state_at(x, y) == s { 1int } else { 0int })
                == a.row_region_count(x0, y, len, s) + (if b.state_at(x, y) == s { 1int } else { 0int }),
        decreases len,
    {
        if x < x0 + len - 1 {
            Self::lemma_row_region_change(a, b, x0, y, (len - 1) as nat, s, x);
            assert(a.state_at(x0 + len - 1, y) == b.state_at(x0 + len - 1, y));
        } else {
            Self::lemma_row_region_same(a, b, x0, y, (len - 1) as nat, s);
        }
    }

    /// Rectangles that differ in one cell count alike but for that cell.
    proof fn lemma_region_change(
        a: &Self,
        b: &Self,
        x0: int,
        y0: int,
        w: nat,
        h: nat,
        s: TriState,
        x: int,
        y: int,
    )
        requires
            x0 <= x < x0 + w,
            y0 <= y < y0 + h,
            forall|i: int, j: int|
                x0 <= i < x0 + w && y0 <= j < y0 + h && !(i == x && j == y) ==> #[trigger] a.state_at(i, j)
                    == b.state_at(i, j),
        ensures
            b.region_count(x0, y0, w, h, s) + (if a.state_at(x, y) == s { 1int } else { 0int })
                == a.region_count(x0, y0, w, h, s) + (if b.state_at(x, y) == s { 1int } else { 0int }),
        decreases h,
    {
        if y < y0 + h - 1 {
            Self::lemma_region_change(a, b, x0, y0, w, (h - 1) as nat, s, x, y);
            assert forall|i: int| x0 <= i < x0 + w implies #[trigger] a.state_at(i, y0 + h - 1)
                == b.state_at(i, y0 + h - 1) by {}
            Self::lemma_row_region_same(a, b, x0, y0 + h - 1, w, s);
        } else {
            assert forall|i: int, j: int|
                x0 <= i < x0 + w && y0 <= j < y0 + (h - 1) implies #[trigger] a.state_at(i, j) == b.state_at(
                i,
                j,
            ) by {}
            Self::lemma_region_same(a, b, x0, y0, w, (h - 1) as nat, s);
            assert forall|i: int| x0 <= i < x0 + w && i != x implies #[trigger] a.state_at(i, y)
                == b.state_at(i, y) by {}
            Self::lemma_row_region_change(a, b, x0, y, w, s, x);
        }
    }

    /// Changing one cell changes each state count by at most that cell.
    pub proof fn lemma_update_count(&self, old: &Self, x: int, y: int, st: TriState, s: TriState)
        requires
            self.wf(),
            old.wf(),
            old.in_bounds(x, y),
            self.is_update(old, x, y, st),
        ensures
            self.count_state(s) + (if old.state_at(x, y) == s { 1int } else { 0int })
                == old.count_state(s) + (if st == s { 1int } else { 0int }),
    {
        self.lemma_count_is_region(s);
        old.lemma_count_is_region(s);
        Self::lemma_region_change(
            old,
            self,
            0,
            0,
            old.spec_width() as nat,
            old.spec_height() as nat,
            s,
            x,
            y,
        );
    }

    /// Gets the position of a random cell of the grid.
    pub fn random_cell_pos(&self) -> (r: GridPos)
        requires
            self.wf(),
        ensures
            self.in_bounds(r.x as int, r.y as int),
    {
        let x = random_usize(0, self.width);
        let y = random_usize(0, self.height);
        GridPos { x, y }
    }

    /// Gets a reference to a random cell: a random position `(a, b)` is read as the cell
    /// `(b, a)`, or the cell at `(0, 0)` when that is out of bounds.
    pub fn random_cell(&self) -> (r: &TriCell)
        requires
            self.wf(),
        ensures
            exists|i: int, j: int| self.in_bounds(i, j) && *r == #[trigger] self.cell_at(i, j),
    {
        let p = self.random_cell_pos();
        let (row, col) = (p.x, p.y);
        match self.cell((col, row)) {
            Some(c) => {
                assert(*c == self.cell_at(col as int, row as int));
                c
            },
            None => {
                assert(self.in_bounds(0, 0));
                let c = &self.cells[0][0];
                assert(*c == self.cell_at(0, 0));
                c
            },
        }
    }

    /// Gets a mutable reference to a random cell, the cell at a random position of the grid.
    pub fn random_cell_mut(&mut self) -> (r: &mut TriCell)
        requires
            old(self).wf(),
        ensures
            exists|i: int, j: int|
                old(self).in_bounds(i, j) && *r == #[trigger] old(self).cell_at(i, j) && final(self).wf()
                    && final(self).is_update(&*old(self), i, j, final(r).0),
    {
        let p = self.random_cell_pos();
        proof {
            assert(old(self).in_bounds(p.x as int, p.y as int));
            assert(old(self).cell_at(p.x as int, p.y as int).0 == old(self).state_at(p.x as int, p.y as int));
        }
        let r = self.cell_mut(p.x, p.y).unwrap();
        r
    }

    /// A rectangle with no cell in state `s` counts none.
    proof fn lemma_region_count_zero(&self, x0: int, y0: int, w: nat, h: nat, s: TriState)
        requires
            forall|i: int, j: int|
                x0 <= i < x0 + w && y0 <= j < y0 + h ==> #[trigger] self.state_at(i, j) != s,
        ensures
            self.region_count(x0, y0, w, h, s) == 0,
        decreases h,
    {
        if h > 0 {
            self.lemma_region_count_zero(x0, y0, w, (h - 1) as nat, s);
            self.lemma_row_region_count_zero(x0, y0 + h - 1, w, s);
        }
    }

    /// A row segment with no cell in state `s` counts none.
    proof fn lemma_row_region_count_zero(&self, x0: int, y: int, len: nat, s: TriState)
        requires
            forall|i: int| x0 <= i < x0 + len ==> #[trigger] self.state_at(i, y) != s,
        ensures
            self.row_region_count(x0, y, len, s) == 0,
        decreases len,
    {
        if len > 0 {
            self.lemma_row_region_count_zero(x0, y, (len - 1) as nat, s);
        }
    }

    /// A grid with no cell in state `s` counts none.
    pub proof fn lemma_count_absent(&self, s: TriState)
        requires
            self.wf(),
            forall|i: int, j: int| #[trigger] self.in_bounds(i, j) ==> self.state_at(i, j) != s,
        ensures
            self.count_state(s) == 0,
    {
        self.lemma_count_is_region(s);
        assert forall|i: int, j: int|
            0 <= i < 0 + self.spec_width() && 0 <= j < 0 + self.spec_height() implies #[trigger] self.state_at(
            i,
            j,
        ) != s by {
            assert(self.in_bounds(i, j));
        }
        self.lemma_region_count_zero(0, 0, self.width as nat, self.height as nat, s);
    }

    /// The rendered rows of a grid are `width` characters each, one per cell.
    pub proof fn lemma_rendered_cells(&self, on: char, off: char)
        requires
            self.wf(),
        ensures
            self.rendered(on, off).len() == self.spec_height(),
            forall|j: int| #![trigger self.rendered(on, off)[j]] 0 <= j < self.spec_height() ==> self.rendered(on, off)[j].len() == self.spec_width(),
            forall|i: int, j: int|
                #![trigger self.rendered(on, off)[j][i]]
                self.in_bounds(i, j) ==> self.rendered(on, off)[j][i] == cell_char(TriCell(self.state_at(i, j)), on, off),
    {
        assert forall|j: int| #![trigger self.rendered(on, off)[j]] 0 <= j < self.spec_height() implies self.rendered(on, off)[j].len() == self.spec_width() by {
            assert(self.cells@[j]@.len() == self.width);
        }
        assert forall|i: int, j: int|
            #![trigger self.rendered(on, off)[j][i]]
            self.in_bounds(i, j) implies self.rendered(on, off)[j][i] == cell_char(TriCell(self.state_at(i, j)), on, off) by {
            assert(self.cells@[j]@.len() == self.width);
        }
    }

    /// A grid whose cells are all in state `s` counts every cell in that state and none in the
    /// two others.
    pub proof fn lemma_uniform_counts(&self, s: TriState, t: TriState)
        requires
            self.wf(),
            self.all_state(s),
        ensures
            self.count_state(s) == self.spec_width() * self.spec_height(),
            t != s ==> self.count_state(t) == 0,
    {
        self.lemma_counts_sum();
        assert forall|i: int, j: int| #[trigger] self.in_bounds(i, j) implies self.state_at(i, j) != t || t == s by {}
        if t != s {
            self.lemma_count_absent(t);
        }
        let others = if s == TriState::True {
            (TriState::False, TriState::Invalid)
        } else if s == TriState::False {
            (TriState::True, TriState::Invalid)
        } else {
            (TriState::True, TriState::False)
        };
        assert forall|i: int, j: int| #[trigger] self.in_bounds(i, j) implies self.state_at(i, j) != others.0 by {}
        self.lemma_count_absent(others.0);
        assert forall|i: int, j: int| #[trigger] self.in_bounds(i, j) implies self.state_at(i, j) != others.1 by {}
        self.lemma_count_absent(others.1);
    }

    /// Reversing a grid twice gives back its cells: if `b` holds the negation of each cell of
    /// `a`, and `c` that of each cell of `b`, then `c` holds the cells of `a`.
    pub proof fn lemma_reverse_twice(a: &Self, b: &Self, c: &Self)
        requires
            b.same_shape(a),
            c.same_shape(b),
            forall|i: int, j: int| #![trigger b.state_at(i, j)] b.in_bounds(i, j) ==> b.state_at(i, j) == tri_not(a.state_at(i, j)),
            forall|i: int, j: int| #![trigger c.state_at(i, j)] c.in_bounds(i, j) ==> c.state_at(i, j) == tri_not(b.state_at(i, j)),
        ensures
            c.same_shape(a),
            forall|i: int, j: int| #![trigger c.state_at(i, j)] c.in_bounds(i, j) ==> c.state_at(i, j) == a.state_at(i, j),
    {
        assert forall|i: int, j: int| #![trigger c.state_at(i, j)] c.in_bounds(i, j) implies c.state_at(i, j) == a.state_at(i, j) by {
            assert(b.state_at(i, j) == tri_not(a.state_at(i, j)));
        }
    }

    /// Turns on the off cell that comes after `n` other off cells, counting row by row.
    fn turn_on_nth_off(&mut self, n: usize)
        requires
            old(self).wf(),
            n < old(self).count_state(TriState::False),
        ensures
            final(self).wf(),
            final(self).same_shape(&*old(self)),
            final(self).count_state(TriState::True) == old(self).count_state(TriState::True) + 1,
            final(self).count_state(TriState::False) == old(self).count_state(TriState::False) - 1,
            final(self).count_state(TriState::Invalid) == old(self).count_state(TriState::Invalid),
    {
        let ghost orig = *self;
        let mut seen: usize = 0;
        let mut y: usize = 0;
        proof {
            assert(self.cells@.take(0) =~= Seq::<Vec<TriCell>>::empty());
        }
        while y < self.height
            invariant
                *self == orig,
                orig == *old(self),
                self.wf(),
                y <= self.height,
                n < self.count_state(TriState::False),
                seen <= n,
                seen == rows_count(self.cells@.take(y as int), TriState::False),
            decreases self.height - y,
        {
            let mut x: usize = 0;
            proof {
                assert(self.cells@[y as int]@.take(0) =~= Seq::<TriCell>::empty());
                lemma_rows_count_take(self.cells@, y as int, TriState::False);
            }
            while x < self.width
                invariant
                    *self == orig,
                    orig == *old(self),
                    self.wf(),
                    y < self.height,
                    x <= self.width,
                    n < self.count_state(TriState::False),
                    seen <= n,
                    seen == rows_count(self.cells@.take(y as int), TriState::False) + row_count(
                        self.cells@[y as int]@.take(x as int),
                        TriState::False,
                    ),
                decreases self.width - x,
            {
                proof {
                    lemma_row_count_take(self.cells@[y as int]@, x as int, TriState::False);
                }
                if self.cells[y][x].0 == TriState::False {
                    if seen == n {
                        let ghost before = *self;
                        assert(before.state_at(x as int, y as int) == TriState::False);
                        self.set_cell(x, y, TriCell::on());
                        proof {
                            self.lemma_update_count(&before, x as int, y as int, TriState::True, TriState::True);
                            self.lemma_update_count(&before, x as int, y as int, TriState::True, TriState::False);
                            self.lemma_update_count(&before, x as int, y as int, TriState::True, TriState::Invalid);
                        }
                        return;
                    }
                    seen = seen + 1;
                }
                x = x + 1;
            }
            proof {
                assert(self.cells@[y as int]@.take(self.width as int) =~= self.cells@[y as int]@);
            }
            y = y + 1;
        }
        proof {
            assert(self.cells@.take(self.height as int) =~= self.cells@);
            assert(false);
        }
    }

    /// Creates an all-off grid and turns on `fill_number` distinct cells chosen at random,
    /// each step picking uniformly among the cells still off.
    pub fn random_fill_number(size: (usize, usize), fill_number: usize) -> (r: Self)
        requires
            3 <= size.0,
            3 <= size.1,
            size.0 * size.1 <= usize::MAX,
            fill_number <= size.0 * size.1,
        ensures
            r.wf(),
            r.spec_width() == size.0,
            r.spec_height() == size.1,
            r.spec_name() is None,
            r.count_state(TriState::True) == fill_number,
            r.count_state(TriState::False) == size.0 * size.1 - fill_number,
            r.count_state(TriState::Invalid) == 0,
    {
        let mut grid = Self::empty(size);
        let total = size.0 * size.1;
        proof {
            grid.lemma_count_absent(TriState::True);
            grid.lemma_count_absent(TriState::Invalid);
            grid.lemma_counts_sum();
        }
        let mut k: usize = 0;
        while k < fill_number
            invariant
                grid.wf(),
                grid.spec_width() == size.0,
                grid.spec_height() == size.1,
                grid.spec_name() is None,
                total == size.0 * size.1,
                k <= fill_number,
                fill_number <= total,
                grid.count_state(TriState::True) == k,
                grid.count_state(TriState::False) == total - k,
                grid.count_state(TriState::Invalid) == 0,
            decreases fill_number - k,
        {
            let pick = random_usize(0, total - k);
            grid.turn_on_nth_off(pick);
            k = k + 1;
        }
        grid
    }

    /// Builds a `width` by `height` grid whose every cell is `cell`.
    fn filled(width: usize, height: usize, cell: TriCell) -> (r: Self)
        requires
            3 <= width,
            3 <= height,
            width * height <= usize::MAX,
        ensures
            r.wf(),
            r.spec_width() == width,
            r.spec_height() == height,
            r.spec_name() is None,
            r.all_state(cell.0),
    {
        let mut cells: Vec<Vec<TriCell>> = Vec::new();
        let mut y: usize = 0;
        while y < height
            invariant
                y <= height,
                cells@.len() == y,
                forall|j: int| 0 <= j < y ==> #[trigger] cells@[j]@.len() == width,
                forall|j: int, i: int|
                    0 <= j < y && 0 <= i < width ==> #[trigger] cells@[j]@[i] == cell,
            decreases height - y,
        {
            let mut row: Vec<TriCell> = Vec::new();
            let mut x: usize = 0;
            while x < width
                invariant
                    x <= width,
                    row@.len() == x,
                    forall|i: int| 0 <= i < x ==> #[trigger] row@[i] == cell,
                decreases width - x,
            {
                row.push(cell);
                x = x + 1;
            }
            cells.push(row);
            y = y + 1;
        }
        MapGrid { name: None, width, height, cells }
    }

    /// Creates a new grid with the given width and height, setting all cells to `Invalid`.
    ///
    /// The grid must be at least 3x3.
    pub fn new(size: (usize, usize)) -> (r: Self)
        requires
            3 <= size.0,
            3 <= size.1,
            size.0 * size.1 <= usize::MAX,
        ensures
            r.wf(),
            r.spec_width() == size.0,
            r.spec_height() == size.1,
            r.spec_name() is None,
            r.all_state(TriState::Invalid),
    {
        Self::filled(size.0, size.1, TriCell::invalid())
    }

    /// Creates a new grid with the given width and height, setting all cells to `off`.
    ///
    /// The grid must be at least 3x3.
    pub fn empty(size: (usize, usize)) -> (r: Self)
        requires
            3 <= size.0,
            3 <= size.1,
            size.0 * size.1 <= usize::MAX,
        ensures
            r.wf(),
            r.spec_width() == size.0,
            r.spec_height() == size.1,
            r.spec_name() is None,
            r.all_state(TriState::False),
    {
        Self::filled(size.0, size.1, TriCell::off())
    }

    /// Creates a new grid with the given width and height, with each cell randomly `on` or `off`.
    pub fn random(size: (usize, usize)) -> (r: Self)
        requires
            3 <= size.0,
            3 <= size.1,
            size.0 * size.1 <= usize::MAX,
        ensures
            r.wf(),
            r.spec_width() == size.0,
            r.spec_height() == size.1,
            r.spec_name() is None,
            r.count_state(TriState::Invalid) == 0,
    {
        let (width, height) = size;
        let mut cells: Vec<Vec<TriCell>> = Vec::new();
        let mut y: usize = 0;
        while y < height
            invariant
                y <= height,
                cells@.len() == y,
                forall|j: int| 0 <= j < y ==> #[trigger] cells@[j]@.len() == width,
                rows_count(cells@, TriState::Invalid) == 0,
            decreases height - y,
        {
            let mut row: Vec<TriCell> = Vec::new();
            let mut x: usize = 0;
            while x < width
                invariant
                    x <= width,
                    row@.len() == x,
                    row_count(row@, TriState::Invalid) == 0,
                decreases width - x,
            {
                let c = TriCell::random();
                proof {
                    assert(row@.push(c).drop_last() =~= row@);
                }
                row.push(c);
                x = x + 1;
            }
            proof {
                assert(cells@.push(row).drop_last() =~= cells@);
            }
            cells.push(row);
            y = y + 1;
        }
        MapGrid { name: None, width, height, cells }
    }
}

} // verus!
