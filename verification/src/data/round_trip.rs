//! Rendering a grid as text and parsing the text back gives the grid back.
use vstd::prelude::*;

use crate::data::cell::TriCell;
use crate::data::grid::{cell_char, join_lines, MapGrid};
use crate::data::parse::{
    after_name, body_errors, char_state, given_dim, grid_lines, known_char, line_errors,
    max_byte_len, parse_header_ok, parsed_height, parsed_name, parsed_size_fits, parsed_state,
    parsed_width, parses_ok, parses_to,
};
use crate::util::text::{byte_len, split_lines, split_lines_from, utf8_len};
use crate::util::tri::TriState;

verus! {

/// Whether no row holds a newline.
pub open spec fn no_newline(rows: Seq<Seq<char>>) -> bool {
    forall|r: int, k: int| 0 <= r < rows.len() && 0 <= k < rows[r].len() ==> #[trigger] rows[r][k] != '\n'
}

/// Splitting text that starts with a piece free of newlines carries that piece into the line
/// being read.
proof fn lemma_split_plain(a: Seq<char>, b: Seq<char>, cur: Seq<char>, acc: Seq<Seq<char>>)
    requires
        forall|k: int| 0 <= k < a.len() ==> a[k] != '\n',
    ensures
        split_lines_from(a + b, cur, acc) == split_lines_from(b, cur + a, acc),
    decreases a.len(),
{
    if a.len() > 0 {
        assert((a + b)[0] == a[0]);
        assert((a + b).drop_first() =~= a.drop_first() + b);
        lemma_split_plain(a.drop_first(), b, cur.push(a[0]), acc);
        assert(cur.push(a[0]) + a.drop_first() =~= cur + a);
    } else {
        assert(a + b =~= b);
        assert(cur + a =~= cur);
    }
}

/// Splitting rows joined by newlines, and whatever follows them, reads the rows back.
proof fn lemma_split_join(rows: Seq<Seq<char>>, rest: Seq<char>, acc: Seq<Seq<char>>)
    requires
        rows.len() >= 1,
        no_newline(rows),
    ensures
        split_lines_from(join_lines(rows, seq!['\n']) + rest, Seq::empty(), acc) == split_lines_from(
            rest,
            rows.last(),
            acc + rows.drop_last(),
        ),
    decreases rows.len(),
{
    let last = rows.last();
    assert forall|k: int| 0 <= k < last.len() implies last[k] != '\n' by {
        assert(rows[rows.len() - 1][k] == last[k]);
    }
    if rows.len() == 1 {
        assert(join_lines(rows, seq!['\n']) == rows[0]);
        lemma_split_plain(last, rest, Seq::empty(), acc);
        assert(Seq::<char>::empty() + last =~= last);
        assert(acc + rows.drop_last() =~= acc);
    } else {
        let r = rows.drop_last();
        assert forall|i: int, k: int| 0 <= i < r.len() && 0 <= k < r[i].len() implies #[trigger] r[i][k] != '\n' by {
            assert(r[i] == rows[i]);
        }
        let rest2 = seq!['\n'] + last + rest;
        assert(join_lines(rows, seq!['\n']) + rest =~= join_lines(r, seq!['\n']) + rest2);
        lemma_split_join(r, rest2, acc);
        assert(rest2[0] == '\n');
        assert(rest2.drop_first() =~= last + rest);
        lemma_split_plain(last, rest, Seq::empty(), (acc + r.drop_last()).push(r.last()));
        assert((acc + r.drop_last()).push(r.last()) =~= acc + r);
        assert(Seq::<char>::empty() + last =~= last);
    }
}

/// Splitting rows joined by newlines gives the rows back.
pub proof fn lemma_split_lines_of_joined(rows: Seq<Seq<char>>)
    requires
        rows.len() >= 1,
        no_newline(rows),
    ensures
        split_lines(join_lines(rows, seq!['\n'])) == rows,
{
    lemma_split_join(rows, Seq::empty(), Seq::empty());
    assert(join_lines(rows, seq!['\n']) + Seq::<char>::empty() =~= join_lines(rows, seq!['\n']));
    assert(Seq::<Seq<char>>::empty() + rows.drop_last() =~= rows.drop_last());
    assert(rows.drop_last().push(rows.last()) =~= rows);
}

/// Text of ASCII characters takes one byte a character.
proof fn lemma_ascii_byte_len(s: Seq<char>)
    requires
        forall|k: int| 0 <= k < s.len() ==> (s[k] == '#' || s[k] == '.'),
    ensures
        byte_len(s) == s.len(),
    decreases s.len(),
{
    if s.len() > 0 {
        lemma_ascii_byte_len(s.drop_last());
        assert(utf8_len(s.last()) == 1);
    }
}

/// The longest of rows that are all `w` bytes long is `w` bytes long.
proof fn lemma_max_byte_len_uniform(rows: Seq<Seq<char>>, w: nat)
    requires
        rows.len() >= 1,
        forall|j: int| 0 <= j < rows.len() ==> byte_len(#[trigger] rows[j]) == w,
    ensures
        max_byte_len(rows) == w,
    decreases rows.len(),
{
    if rows.len() > 1 {
        let r = rows.drop_last();
        assert forall|j: int| 0 <= j < r.len() implies byte_len(#[trigger] r[j]) == w by {
            assert(r[j] == rows[j]);
        }
        lemma_max_byte_len_uniform(r, w);
        assert(max_byte_len(rows.drop_last()) == w);
        assert(byte_len(rows.last()) == w);
    } else {
        assert(rows.drop_last().len() == 0);
        assert(max_byte_len(rows.drop_last()) == 0);
        assert(byte_len(rows.last()) == w);
    }
}

/// A line of known characters has no errors.
proof fn lemma_line_no_errors(line: Seq<char>, y: nat)
    requires
        forall|k: int| 0 <= k < line.len() ==> known_char(#[trigger] line[k], '#', '.'),
    ensures
        line_errors(line, y, '#', '.') == Seq::<Seq<char>>::empty(),
    decreases line.len(),
{
    if line.len() > 0 {
        lemma_line_no_errors(line.drop_last(), y);
        assert(known_char(line[line.len() - 1], '#', '.'));
        assert(line_errors(line, y, '#', '.') =~= Seq::<Seq<char>>::empty());
    }
}

/// Lines of known characters have no errors.
proof fn lemma_body_no_errors(lines: Seq<Seq<char>>)
    requires
        forall|j: int, k: int| 0 <= j < lines.len() && 0 <= k < lines[j].len() ==> known_char(#[trigger] lines[j][k], '#', '.'),
    ensures
        body_errors(lines, '#', '.') == Seq::<Seq<char>>::empty(),
    decreases lines.len(),
{
    if lines.len() > 0 {
        let r = lines.drop_last();
        assert forall|j: int, k: int| 0 <= j < r.len() && 0 <= k < r[j].len() implies known_char(#[trigger] r[j][k], '#', '.') by {
            assert(r[j] == lines[j]);
        }
        lemma_body_no_errors(r);
        let last = lines.last();
        assert forall|k: int| 0 <= k < last.len() implies known_char(#[trigger] last[k], '#', '.') by {
            assert(lines[lines.len() - 1][k] == last[k]);
        }
        lemma_line_no_errors(last, (lines.len() - 1) as nat);
        assert(body_errors(lines, '#', '.') =~= Seq::<Seq<char>>::empty());
    }
}

/// The text of a grid with no invalid cell, drawn with `'#'` and `'.'` and its rows joined by
/// newlines, parses back into a grid of the same size, with no name, whose every cell is in
/// the state of the grid's.
pub proof fn lemma_render_then_parse(g: MapGrid)
    requires
        g.wf(),
        forall|i: int, j: int| #![trigger g.state_at(i, j)] g.in_bounds(i, j) ==> g.state_at(i, j) != TriState::Invalid,
    ensures
        ({
            let s = join_lines(g.rendered('#', '.'), seq!['\n']);
            &&& parses_ok(s, '#', '.')
            &&& parsed_width(s, '#', '.') == g.spec_width()
            &&& parsed_height(s, '#', '.') == g.spec_height()
            &&& parsed_name(s, '#', '.') is None
            &&& forall|i: int, j: int|
                #![trigger g.state_at(i, j)]
                g.in_bounds(i, j) ==> parsed_state(grid_lines(s, '#', '.'), i, j, '#', '.') == g.state_at(i, j)
        }),
{
    let rows = g.rendered('#', '.');
    let s = join_lines(rows, seq!['\n']);
    g.lemma_rendered_cells('#', '.');
    let w = g.spec_width();
    let h = g.spec_height();
    assert forall|j: int, k: int| 0 <= j < rows.len() && 0 <= k < rows[j].len() implies (#[trigger] rows[j][k] == '#' || rows[j][k] == '.') by {
        assert(g.in_bounds(k, j));
        assert(rows[j][k] == cell_char(TriCell(g.state_at(k, j)), '#', '.'));
    }
    assert(no_newline(rows));
    lemma_split_lines_of_joined(rows);
    let lines = split_lines(s);
    assert(lines == rows);
    assert(rows[0].len() == w);
    assert(rows[0][0] == '#' || rows[0][0] == '.');
    assert(after_name(s, '#', '.') == lines);
    assert(grid_lines(s, '#', '.') == rows);
    assert(given_dim(s, '#', '.', 0) == 0);
    assert(given_dim(s, '#', '.', 1) == 0);
    assert forall|j: int| 0 <= j < rows.len() implies byte_len(#[trigger] rows[j]) == w by {
        assert forall|k: int| 0 <= k < rows[j].len() implies (rows[j][k] == '#' || rows[j][k] == '.') by {}
        lemma_ascii_byte_len(rows[j]);
    }
    lemma_max_byte_len_uniform(rows, w as nat);
    lemma_body_no_errors(rows);
    assert(s.len() > 0) by {
        lemma_join_len(rows);
    }
    assert forall|i: int, j: int| #![trigger g.state_at(i, j)] g.in_bounds(i, j) implies parsed_state(grid_lines(s, '#', '.'), i, j, '#', '.') == g.state_at(i, j) by {
        assert(rows[j][i] == cell_char(TriCell(g.state_at(i, j)), '#', '.'));
    }
}

/// Joined rows are at least as long as their last row.
proof fn lemma_join_len(rows: Seq<Seq<char>>)
    requires
        rows.len() >= 1,
    ensures
        join_lines(rows, seq!['\n']).len() >= rows.last().len(),
{
}

/// Parsing the text of a grid with no invalid cell, drawn with `'#'` and `'.'` and its rows
/// joined by newlines, succeeds and gives back a grid of the same size, with no name and the
/// same cells.
pub proof fn lemma_as_string_parses_back(g: MapGrid, r: Result<MapGrid, Vec<String>>)
    requires
        g.wf(),
        forall|i: int, j: int| #![trigger g.state_at(i, j)] g.in_bounds(i, j) ==> g.state_at(i, j) != TriState::Invalid,
        parses_to(join_lines(g.rendered('#', '.'), seq!['\n']), '#', '.', r),
    ensures
        r matches Ok(p) && {
            &&& p.wf()
            &&& p.spec_width() == g.spec_width()
            &&& p.spec_height() == g.spec_height()
            &&& p.spec_name() is None
            &&& forall|i: int, j: int| #![trigger p.state_at(i, j)] p.in_bounds(i, j) ==> p.state_at(i, j) == g.state_at(i, j)
        },
{
    lemma_render_then_parse(g);
    let s = join_lines(g.rendered('#', '.'), seq!['\n']);
    match r {
        Ok(p) => {
            assert forall|i: int, j: int| #![trigger p.state_at(i, j)] p.in_bounds(i, j) implies p.state_at(i, j) == g.state_at(i, j) by {
                assert(g.in_bounds(i, j));
                assert(g.state_at(i, j) == g.state_at(i, j));
            }
        },
        Err(_) => {},
    }
}

/// Text of at least three lines of the same length (at least three), made of `'#'` and `'.'`
/// and joined by newlines, reads as a grid: no name or size line, as wide as a line and as
/// high as the number of lines, and no unknown character.
pub proof fn lemma_grid_text_reads(rows: Seq<Seq<char>>)
    requires
        rows.len() >= 3,
        rows[0].len() >= 3,
        forall|j: int| 0 <= j < rows.len() ==> (#[trigger] rows[j]).len() == rows[0].len(),
        forall|j: int, k: int| 0 <= j < rows.len() && 0 <= k < rows[j].len() ==> (#[trigger] rows[j][k] == '#' || rows[j][k] == '.'),
    ensures
        ({
            let s = join_lines(rows, seq!['\n']);
            &&& s.len() > 0
            &&& parse_header_ok(s, '#', '.')
            &&& parsed_width(s, '#', '.') == rows[0].len()
            &&& parsed_height(s, '#', '.') == rows.len()
            &&& grid_lines(s, '#', '.') == rows
            &&& body_errors(rows, '#', '.').len() == 0
        }),
{
    let s = join_lines(rows, seq!['\n']);
    let w = rows[0].len();
    assert forall|i: int, k: int| 0 <= i < rows.len() && 0 <= k < rows[i].len() implies #[trigger] rows[i][k] != '\n' by {
        assert(rows[i][k] == '#' || rows[i][k] == '.');
    }
    assert(no_newline(rows));
    lemma_split_lines_of_joined(rows);
    let lines = split_lines(s);
    assert(lines == rows);
    assert(rows[0][0] == '#' || rows[0][0] == '.');
    assert(after_name(s, '#', '.') == lines);
    assert(grid_lines(s, '#', '.') == rows);
    assert(given_dim(s, '#', '.', 0) == 0);
    assert(given_dim(s, '#', '.', 1) == 0);
    assert forall|j: int| 0 <= j < rows.len() implies byte_len(#[trigger] rows[j]) == w by {
        assert forall|k: int| 0 <= k < rows[j].len() implies (rows[j][k] == '#' || rows[j][k] == '.') by {}
        lemma_ascii_byte_len(rows[j]);
    }
    lemma_max_byte_len_uniform(rows, w);
    assert forall|j: int, k: int| 0 <= j < rows.len() && 0 <= k < rows[j].len() implies known_char(#[trigger] rows[j][k], '#', '.') by {
        assert(rows[j][k] == '#' || rows[j][k] == '.');
    }
    lemma_body_no_errors(rows);
    assert(s.len() > 0) by {
        lemma_join_len(rows);
    }
    assert(parsed_width(s, '#', '.') == w);
    assert(parsed_height(s, '#', '.') == rows.len());
}

/// Text of at least three lines of the same length (at least three), made of `'#'` and `'.'`
/// and joined by newlines, parses into a grid whose text, drawn with `'#'` and `'.'` and its
/// rows joined by newlines (what `as_string` gives), is that text again.
pub proof fn lemma_parse_then_render(rows: Seq<Seq<char>>, r: Result<MapGrid, Vec<String>>)
    requires
        rows.len() >= 3,
        rows[0].len() >= 3,
        forall|j: int| 0 <= j < rows.len() ==> (#[trigger] rows[j]).len() == rows[0].len(),
        forall|j: int, k: int| 0 <= j < rows.len() && 0 <= k < rows[j].len() ==> (#[trigger] rows[j][k] == '#' || rows[j][k] == '.'),
        parses_to(join_lines(rows, seq!['\n']), '#', '.', r),
    ensures
        r matches Ok(p) && p.wf() && join_lines(p.rendered('#', '.'), seq!['\n']) == join_lines(rows, seq!['\n']),
{
    let s = join_lines(rows, seq!['\n']);
    let w = rows[0].len();
    lemma_grid_text_reads(rows);
    match r {
        Ok(p) => {
            p.lemma_rendered_cells('#', '.');
            let out = p.rendered('#', '.');
            assert forall|j: int| 0 <= j < rows.len() implies #[trigger] out[j] == rows[j] by {
                assert forall|i: int| 0 <= i < w implies out[j][i] == rows[j][i] by {
                    assert(p.in_bounds(i, j));
                    assert(out[j][i] == cell_char(TriCell(p.state_at(i, j)), '#', '.'));
                    assert(p.state_at(i, j) == parsed_state(rows, i, j, '#', '.'));
                    assert(rows[j][i] == '#' || rows[j][i] == '.');
                }
                assert(out[j] =~= rows[j]);
            }
            assert(out =~= rows);
        },
        Err(_) => {},
    }
}

/// The `h` lines of a text whose lines are each `w` long: line `j` starts at `j * (w + 1)`.
pub open spec fn text_rows(s: Seq<char>, w: int, h: int) -> Seq<Seq<char>> {
    Seq::new(h as nat, |j: int| s.subrange(j * (w + 1), j * (w + 1) + w))
}

/// Position `j * (w + 1) + k`, with `k` up to `w`, lies in line `j` at column `k`.
proof fn lemma_line_pos(j: int, w: int, k: int)
    requires
        j >= 0,
        w >= 0,
        0 <= k <= w,
    ensures
        (j * (w + 1) + k) % (w + 1) == k,
{
    vstd::arithmetic::div_mod::lemma_fundamental_div_mod_converse(j * (w + 1) + k, w + 1, j, k);
}

/// A text of `h` lines of `w` characters each, with a newline exactly at the positions that
/// end a line, is its lines joined by newlines.
proof fn lemma_join_text_rows(s: Seq<char>, w: int, h: int)
    requires
        w >= 0,
        h >= 1,
        s.len() == h * (w + 1) - 1,
        forall|k: int| 0 <= k < s.len() ==> ((#[trigger] s[k]) == '\n') == (k % (w + 1) == w),
    ensures
        join_lines(text_rows(s, w, h), seq!['\n']) == s,
    decreases h,
{
    let rows = text_rows(s, w, h);
    if h == 1 {
        assert(0 * (w + 1) == 0);
        assert(1 * (w + 1) == w + 1);
        assert(rows[0] == s.subrange(0, w));
        assert(rows[0] =~= s);
        assert(join_lines(rows, seq!['\n']) == rows[0]);
    } else {
        let n1 = (h - 1) * (w + 1) - 1;
        assert(n1 == (h - 2) * (w + 1) + w) by (nonlinear_arith)
            requires n1 == (h - 1) * (w + 1) - 1;
        assert(s.len() == n1 + 1 + w) by (nonlinear_arith)
            requires s.len() == h * (w + 1) - 1, n1 == (h - 1) * (w + 1) - 1;
        let s1 = s.subrange(0, n1);
        assert forall|k: int| 0 <= k < s1.len() implies ((#[trigger] s1[k]) == '\n') == (k % (w + 1) == w) by {
            assert(s1[k] == s[k]);
        }
        lemma_join_text_rows(s1, w, h - 1);
        let r1 = text_rows(s1, w, h - 1);
        assert forall|j: int| 0 <= j < h - 1 implies #[trigger] r1[j] == rows[j] by {
            assert(j * (w + 1) + w <= n1) by (nonlinear_arith)
                requires 0 <= j <= h - 2, n1 == (h - 2) * (w + 1) + w, w >= 0;
            assert(j * (w + 1) >= 0) by (nonlinear_arith)
                requires j >= 0, w >= 0;
            assert(r1[j] =~= rows[j]);
        }
        assert(r1 =~= rows.drop_last());
        lemma_line_pos(h - 2, w, w);
        assert(s[n1] == '\n');
        let last = rows.last();
        assert(last == s.subrange((h - 1) * (w + 1), (h - 1) * (w + 1) + w));
        assert((h - 1) * (w + 1) == n1 + 1);
        assert(s =~= s1 + seq!['\n'] + last);
        assert(join_lines(rows, seq!['\n']) == join_lines(rows.drop_last(), seq!['\n']) + seq!['\n'] + rows.last());
    }
}

/// A text of at least three lines of the same length (at least three), with a newline exactly
/// at the positions that end a line and only `'#'` and `'.'` elsewhere, parses into a grid
/// with `'#'` for on and `'.'` for off, when its cells fit in a `usize`.
pub proof fn lemma_rows_text_parses(s: Seq<char>, w: int, h: int)
    requires
        w >= 3,
        h >= 3,
        w * h <= usize::MAX,
        s.len() == h * (w + 1) - 1,
        forall|k: int| 0 <= k < s.len() ==> ((#[trigger] s[k]) == '\n') == (k % (w + 1) == w),
        forall|k: int| 0 <= k < s.len() ==> (#[trigger] s[k]) == '#' || s[k] == '.' || s[k] == '\n',
    ensures
        parses_ok(s, '#', '.'),
{
    lemma_join_text_rows(s, w, h);
    let rows = text_rows(s, w, h);
    assert forall|j: int| 0 <= j < rows.len() implies (#[trigger] rows[j]).len() == rows[0].len() by {
        assert(j * (w + 1) + w <= s.len()) by (nonlinear_arith)
            requires 0 <= j < h, s.len() == h * (w + 1) - 1, w >= 0;
        assert(j * (w + 1) >= 0) by (nonlinear_arith)
            requires j >= 0, w >= 0;
        assert(w <= s.len()) by (nonlinear_arith)
            requires h >= 3, s.len() == h * (w + 1) - 1, w >= 0;
    }
    assert forall|j: int, k: int| 0 <= j < rows.len() && 0 <= k < rows[j].len() implies (#[trigger] rows[j][k] == '#'
        || rows[j][k] == '.') by {
        assert(j * (w + 1) + w <= s.len()) by (nonlinear_arith)
            requires 0 <= j < h, s.len() == h * (w + 1) - 1, w >= 0;
        assert(j * (w + 1) >= 0) by (nonlinear_arith)
            requires j >= 0, w >= 0;
        assert(rows[j][k] == s[j * (w + 1) + k]);
        lemma_line_pos(j, w, k);
        assert(s[j * (w + 1) + k] != '\n');
    }
    assert(0 * (w + 1) == 0);
    assert(w <= s.len()) by (nonlinear_arith)
        requires h >= 3, s.len() == h * (w + 1) - 1, w >= 0;
    assert(rows[0] == s.subrange(0, w));
    assert(rows[0].len() == w);
    lemma_grid_text_reads(rows);
    assert(join_lines(rows, seq!['\n']) == s);
    assert(parsed_width(s, '#', '.') == w);
    assert(parsed_height(s, '#', '.') == h);
    assert(parsed_size_fits(s, '#', '.')) by (nonlinear_arith)
        requires
            parsed_width(s, '#', '.') == w,
            parsed_height(s, '#', '.') == h,
            w * h <= usize::MAX,
    ;
}

} // verus!
