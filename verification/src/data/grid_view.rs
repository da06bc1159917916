//! Reading a grid as a whole: comparing two grids, displaying one, walking its cells, and
//! making one of a classified size.
use vstd::prelude::*;

use crate::data::cell::TriCell;
use crate::data::grid::MapGrid;
use crate::gen::room_gen::{col_bounds, row_bounds, GridClassification};
use crate::util::random::random_usize;
use crate::util::text::{byte_len, chars_of, decimal, string_from_chars, usize_to_chars, utf8_byte_len};
use crate::util::tri::TriState;

verus! {

/// Whether two grids are equal: the same size and name, and every cell in the same state.
pub open spec fn same_grid(a: MapGrid, b: MapGrid) -> bool {
    &&& a.same_shape(&b)
    &&& forall|i: int, j: int| #![trigger a.state_at(i, j), b.state_at(i, j)] a.in_bounds(i, j) ==> a.state_at(i, j) == b.state_at(i, j)
}

/// The title of a grid: its name, or `MapGrid`, then its size as `(<width>x<height>)`.
pub open spec fn grid_title(g: MapGrid) -> Seq<char> {
    (match g.spec_name() {
        Some(n) => n,
        None => "MapGrid"@,
    }) + " ("@ + decimal(g.spec_width() as nat) + "x"@ + decimal(g.spec_height() as nat) + ")"@
}

/// `n` dashes.
pub open spec fn dashes(n: nat) -> Seq<char> {
    Seq::new(n, |i: int| '-')
}

/// The lines of the grid, each after a `|` and before a newline.
pub open spec fn framed_lines(lines: Seq<Seq<char>>) -> Seq<char>
    decreases lines.len(),
{
    if lines.len() == 0 {
        Seq::empty()
    } else {
        framed_lines(lines.drop_last()) + "|"@ + lines.last() + "\n"@
    }
}

/// How a grid is displayed: a `|` and two spaces before its title, a line of dashes four longer
/// than the title (in bytes), then its rows drawn with `'#'` and `'.'`, each line starting with
/// a `|` and ending in a newline.
pub open spec fn displayed(g: MapGrid) -> Seq<char> {
    "|  "@ + grid_title(g) + "\n|"@ + dashes(byte_len(grid_title(g)) + 4) + "\n"@ + framed_lines(
        g.rendered('#', '.'),
    )
}

/// Whether two character vectors hold the same characters.
fn chars_equal(a: &Vec<char>, b: &Vec<char>) -> (r: bool)
    ensures
        r == (a@ == b@),
{
    if a.len() != b.len() {
        return false;
    }
    let mut k: usize = 0;
    while k < a.len()
        invariant
            k <= a@.len(),
            a@.len() == b@.len(),
            forall|i: int| 0 <= i < k ==> a@[i] == b@[i],
        decreases a@.len() - k,
    {
        if a[k] != b[k] {
            return false;
        }
        k = k + 1;
    }
    proof {
        assert(a@ =~= b@);
    }
    true
}

impl MapGrid {
    /// Checks whether `other` is equal to this grid: the same size and name, and every cell in
    /// the same state.
    pub fn eq(&self, other: &MapGrid) -> (r: bool)
        requires
            self.wf(),
            other.wf(),
        ensures
            r == same_grid(*self, *other),
    {
        let a = self.size();
        let b = other.size();
        if a.width != b.width || a.height != b.height {
            return false;
        }
        let same_name = match (self.name_ref(), other.name_ref()) {
            (Some(n1), Some(n2)) => chars_equal(&chars_of(n1.as_str()), &chars_of(n2.as_str())),
            (None, None) => true,
            _ => false,
        };
        proof {
            assert(same_name == (self.spec_name() == other.spec_name()));
        }
        if !same_name {
            return false;
        }
        let mut y: usize = 0;
        while y < a.height
            invariant
                self.wf(),
                other.wf(),
                self.same_shape(other),
                a.width == self.spec_width(),
                a.height == self.spec_height(),
                y <= a.height,
                forall|i: int, j: int|
                    #![trigger self.state_at(i, j), other.state_at(i, j)]
                    self.in_bounds(i, j) && j < y ==> self.state_at(i, j) == other.state_at(i, j),
            decreases a.height - y,
        {
            let mut x: usize = 0;
            while x < a.width
                invariant
                    self.wf(),
                    other.wf(),
                    self.same_shape(other),
                    a.width == self.spec_width(),
                    a.height == self.spec_height(),
                    y < a.height,
                    x <= a.width,
                    forall|i: int, j: int|
                        #![trigger self.state_at(i, j), other.state_at(i, j)]
                        self.in_bounds(i, j) && (j < y || (j == y && i < x)) ==> self.state_at(i, j)
                            == other.state_at(i, j),
                decreases a.width - x,
            {
                let s1 = match self.cell((x, y)) {
                    Some(c) => c.0,
                    None => TriState::Invalid,
                };
                let s2 = match other.cell((x, y)) {
                    Some(c) => c.0,
                    None => TriState::Invalid,
                };
                if s1 != s2 {
                    return false;
                }
                x = x + 1;
            }
            y = y + 1;
        }
        true
    }

    /// The title of the grid: its name, or `MapGrid`, then its size.
    fn title(&self) -> (r: Vec<char>)
        ensures
            r@ == grid_title(*self),
    {
        let mut out = match self.name_ref() {
            Some(n) => chars_of(n.as_str()),
            None => chars_of("MapGrid"),
        };
        let size = self.size();
        let mut part = chars_of(" (");
        out.append(&mut part);
        let mut part = usize_to_chars(size.width);
        out.append(&mut part);
        let mut part = chars_of("x");
        out.append(&mut part);
        let mut part = usize_to_chars(size.height);
        out.append(&mut part);
        let mut part = chars_of(")");
        out.append(&mut part);
        proof {
            assert(out@ =~= grid_title(*self));
        }
        out
    }

    /// The grid as it is displayed: a title line, a line of dashes, then its rows, each line
    /// framed on the left by a `|`.
    pub fn to_string(&self) -> (r: String)
        requires
            self.wf(),
            4 * grid_title(*self).len() + 4 <= usize::MAX,
        ensures
            r@ == displayed(*self),
    {
        let title = self.title();
        let mut out = chars_of("|  ");
        let mut t = self.title();
        out.append(&mut t);
        let mut part = chars_of("\n|");
        out.append(&mut part);
        proof {
            crate::util::text::lemma_byte_len_le(title@);
        }
        let n = utf8_byte_len(&title) + 4;
        let ghost head = out@;
        let mut k: usize = 0;
        while k < n
            invariant
                k <= n,
                out@ == head + dashes(k as nat),
            decreases n - k,
        {
            out.push('-');
            proof {
                assert(out@ =~= head + dashes(k as nat + 1));
            }
            k = k + 1;
        }
        out.push('\n');
        let rows = self.to_strings();
        let ghost before = out@;
        let ghost lines = self.rendered('#', '.');
        proof {
            reveal_strlit("|");
            reveal_strlit("\n");
        }
        let mut y: usize = 0;
        proof {
            assert(lines.take(0) =~= Seq::<Seq<char>>::empty());
        }
        while y < rows.len()
            invariant
                y <= rows@.len(),
                rows@.len() == lines.len(),
                forall|j: int| #![trigger rows@[j]] 0 <= j < rows@.len() ==> rows@[j]@ == lines[j],
                out@ == before + framed_lines(lines.take(y as int)),
            decreases rows@.len() - y,
        {
            out.push('|');
            let mut line = chars_of(rows[y].as_str());
            out.append(&mut line);
            out.push('\n');
            proof {
                assert(lines.take(y as int + 1).drop_last() =~= lines.take(y as int));
                assert(rows@[y as int]@ == lines[y as int]);
                assert(lines.take(y as int + 1).last() == lines[y as int]);
                reveal_strlit("|");
                reveal_strlit("\n");
                assert(out@ =~= before + framed_lines(lines.take(y as int + 1)));
            }
            y = y + 1;
        }
        proof {
            assert(lines.take(y as int) =~= lines);
            assert(out@ =~= before + framed_lines(lines));
            assert(before == head + dashes(n as nat) + "\n"@);
            assert(head == "|  "@ + grid_title(*self) + "\n|"@);
            assert(out@ =~= displayed(*self));
        }
        string_from_chars(&out)
    }

    /// A grid whose size is drawn at random from the column range of `col` and the row range
    /// of `row`, with every cell in the state of `default_state`.
    pub fn create_sized(row: GridClassification, col: GridClassification, default_state: TriCell) -> (r: Self)
        requires
            row != GridClassification::Unknown,
            col != GridClassification::Unknown,
        ensures
            r.wf(),
            col_bounds(col).0 <= r.spec_width() < col_bounds(col).1,
            row_bounds(row).0 <= r.spec_height() < row_bounds(row).1,
            r.spec_name() is None,
            r.all_state(default_state.0),
    {
        let cols = col.col_range();
        let rows = row.row_range();
        let w = random_usize(cols.start, cols.end);
        let h = random_usize(rows.start, rows.end);
        proof {
            assert(w * h <= 400 * 200) by (nonlinear_arith)
                requires
                    w < 400,
                    h < 200,
            ;
        }
        let mut grid = Self::empty((w, h));
        if default_state.is_invalid() {
            grid.set_all_invalid();
        } else {
            grid.set_all_cells(default_state.is_on());
        }
        grid
    }
}

/// An iterator over all the cells of a grid, row by row (row-major order), starting at
/// `(0, 0)`.
pub struct GridIterator<'a> {
    grid: &'a MapGrid,
    curr: (usize, usize),
}

/// The position after `curr` on a grid `width` wide, row by row.
pub open spec fn advance(curr: (usize, usize), width: usize) -> (int, int) {
    if curr.0 + 1 >= width {
        (0, curr.1 + 1)
    } else {
        (curr.0 + 1, curr.1 as int)
    }
}

impl<'a> GridIterator<'a> {
    /// The grid walked.
    pub closed spec fn spec_grid(&self) -> MapGrid {
        *self.grid
    }

    /// The position of the next cell to give.
    pub closed spec fn spec_curr(&self) -> (usize, usize) {
        self.curr
    }

    /// Creates a new iterator over the given grid.
    pub fn new(grid: &'a MapGrid) -> (r: Self)
        ensures
            r.spec_grid() == *grid,
            r.spec_curr() == (0usize, 0usize),
    {
        GridIterator { grid, curr: (0, 0) }
    }

    /// Gives the position of the current cell and whether it is on, then moves to the next
    /// cell, row by row; `None` once past the last row.
    pub fn next(&mut self) -> (r: Option<((usize, usize), bool)>)
        requires
            old(self).spec_grid().wf(),
        ensures
            final(self).spec_grid() == old(self).spec_grid(),
            old(self).spec_grid().in_bounds(old(self).spec_curr().0 as int, old(self).spec_curr().1 as int)
                ==> r == Some((old(self).spec_curr(), old(self).spec_grid().state_at(
                old(self).spec_curr().0 as int,
                old(self).spec_curr().1 as int,
            ) == TriState::True)) && (final(self).spec_curr().0 as int, final(self).spec_curr().1 as int)
                == advance(old(self).spec_curr(), old(self).spec_grid().spec_width()),
            !old(self).spec_grid().in_bounds(old(self).spec_curr().0 as int, old(self).spec_curr().1 as int)
                ==> r is None && final(self).spec_curr() == old(self).spec_curr(),
    {
        let (x, y) = self.curr;
        match self.grid.cell((x, y)) {
            Some(cell) => {
                let on = cell.is_on();
                if x + 1 >= self.grid.cols() {
                    self.curr = (0, y + 1);
                } else {
                    self.curr = (x + 1, y);
                }
                Some(((x, y), on))
            },
            None => None,
        }
    }
}

impl MapGrid {
    /// An iterator over the cells of the grid (see [`GridIterator`]).
    pub fn into_grid_iter(&self) -> (r: GridIterator<'_>)
        ensures
            r.spec_grid() == *self,
            r.spec_curr() == (0usize, 0usize),
    {
        GridIterator::new(self)
    }
}

} // verus!
