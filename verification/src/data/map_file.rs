//! Reading maps from the text of a map file: a name line, a size line, then the map.
use vstd::prelude::*;

use crate::data::grid::MapGrid;
use crate::data::parse::{char_views, string_views};
use crate::data::types::GridPos;
use crate::util::text::{
    chars_of, decimal, usize_to_chars, parse_error_message, parse_usize_detailed, spec_parse_usize, split_lines,
    split_lines_exec, string_from_chars, trim_exec, trimmed, usize_parse_error, ws_words,
    ws_words_exec,
};
use crate::util::tri::TriState;

verus! {

/// The message for a map file that does not have the expected layout.
pub open spec fn format_error() -> Seq<char> {
    "Invalid map file - Format is <Name>\\n<Width> <Height>\\n<Map>"@
}

/// The message for a size `s` that does not parse, the `label` saying which one it is.
pub open spec fn dim_error(label: Seq<char>, s: Seq<char>) -> Seq<char> {
    "Error parsing "@ + label + " - \""@ + parse_error_message(usize_parse_error(s)) + "\""@
}

/// Whether the text has a name line, a size line of two words, and a map part.
pub open spec fn map_layout_ok(s: Seq<char>) -> bool {
    split_lines(s).len() >= 3 && ws_words(split_lines(s)[1]).len() == 2
}

/// The words of the size line.
pub open spec fn size_words(s: Seq<char>) -> Seq<Seq<char>> {
    ws_words(split_lines(s)[1])
}

/// The lines of the map part.
pub open spec fn map_rows(s: Seq<char>) -> Seq<Seq<char>> {
    split_lines(s).skip(2)
}

/// The column of the last `c` in `line`, if there is one.
pub open spec fn last_in_line(line: Seq<char>, c: char) -> Option<int>
    decreases line.len(),
{
    if line.len() == 0 {
        None
    } else if line.last() == c {
        Some(line.len() - 1)
    } else {
        last_in_line(line.drop_last(), c)
    }
}

/// The position of the last `c` in the lines, read row by row, or `(usize::MAX, usize::MAX)`
/// when there is none.
pub open spec fn last_mark(lines: Seq<Seq<char>>, c: char) -> (usize, usize)
    decreases lines.len(),
{
    if lines.len() == 0 {
        (usize::MAX, usize::MAX)
    } else {
        match last_in_line(lines.last(), c) {
            Some(x) => (x as usize, (lines.len() - 1) as usize),
            None => last_mark(lines.drop_last(), c),
        }
    }
}

/// The state the map part gives the cell at `(i, j)`: `on` for a `'#'`, `off` otherwise.
pub open spec fn map_cell_state(rows: Seq<Seq<char>>, i: int, j: int) -> TriState {
    if 0 <= j < rows.len() && 0 <= i < rows[j].len() && rows[j][i] == '#' {
        TriState::True
    } else {
        TriState::False
    }
}

/// The lines of the map part, without the empty line that a final newline leaves.
pub open spec fn data_rows(s: Seq<char>) -> Seq<Seq<char>> {
    let rows = map_rows(s);
    if rows.len() > 0 && rows.last().len() == 0 {
        rows.drop_last()
    } else {
        rows
    }
}

/// The length of the longest of the lines, 0 for none.
pub open spec fn max_len(rows: Seq<Seq<char>>) -> nat
    decreases rows.len(),
{
    if rows.len() == 0 {
        0
    } else {
        let rest = max_len(rows.drop_last());
        if rows.last().len() > rest {
            rows.last().len()
        } else {
            rest
        }
    }
}

/// Whether the lines form a `w` by `h` map: `h` lines of `w` characters each.
pub open spec fn rows_fit(rows: Seq<Seq<char>>, w: int, h: int) -> bool {
    rows.len() == h && forall|j: int| 0 <= j < rows.len() ==> (#[trigger] rows[j]).len() == w
}

/// The message for map data of `aw` columns and `ah` lines that does not form a `w` by `h`
/// map.
pub open spec fn size_error(aw: nat, ah: nat, w: nat, h: nat) -> Seq<char> {
    "Invalid map file - Actual size ("@ + decimal(aw) + ","@ + decimal(ah)
        + ") does not match expected dimensions ("@ + decimal(w) + ","@ + decimal(h) + ")"@
}

/// Whether a map file of text `s` gives a size the map can have: when both numbers parse,
/// both are at least 3 and their product fits in a `usize`.
pub open spec fn map_size_ok(s: Seq<char>) -> bool {
    map_layout_ok(s) && spec_parse_usize(size_words(s)[0]) is Some && spec_parse_usize(
        size_words(s)[1],
    ) is Some ==> {
        let w = spec_parse_usize(size_words(s)[0]).unwrap();
        let h = spec_parse_usize(size_words(s)[1]).unwrap();
        w >= 3 && h >= 3 && w * h <= usize::MAX
    }
}

/// What reading a map file of text `s` gives: an error for a missing line or a size line
/// without two words, then for a width or a height that does not parse; otherwise the map of
/// that size named by the trimmed first line (an error when the lines of the map part,
/// not counting an empty last one, are not that many lines of that length), each cell `on` where the map part has a `'#'`,
/// with the last `'S'` as the start and the last `'G'` as the goal.
pub open spec fn map_file_parses_to(s: Seq<char>, r: Result<(MapGrid, GridPos, GridPos), Vec<String>>) -> bool {
    if !map_layout_ok(s) {
        r matches Err(es) && string_views(es@) == seq![format_error()]
    } else if spec_parse_usize(size_words(s)[0]) is None {
        r matches Err(es) && string_views(es@) == seq![dim_error("width"@, size_words(s)[0])]
    } else if spec_parse_usize(size_words(s)[1]) is None {
        r matches Err(es) && string_views(es@) == seq![dim_error("height"@, size_words(s)[1])]
    } else if !rows_fit(
        data_rows(s),
        spec_parse_usize(size_words(s)[0]).unwrap() as int,
        spec_parse_usize(size_words(s)[1]).unwrap() as int,
    ) {
        r matches Err(es) && string_views(es@) == seq![
            size_error(
                max_len(data_rows(s)),
                data_rows(s).len(),
                spec_parse_usize(size_words(s)[0]).unwrap() as nat,
                spec_parse_usize(size_words(s)[1]).unwrap() as nat,
            ),
        ]
    } else {
        r matches Ok((g, start, goal)) && {
            &&& g.wf()
            &&& g.spec_width() == spec_parse_usize(size_words(s)[0]).unwrap()
            &&& g.spec_height() == spec_parse_usize(size_words(s)[1]).unwrap()
            &&& g.spec_name() == Some(trimmed(split_lines(s)[0]))
            &&& forall|i: int, j: int|
                #![trigger g.state_at(i, j)]
                g.in_bounds(i, j) ==> g.state_at(i, j) == map_cell_state(map_rows(s), i, j)
            &&& (start.x, start.y) == last_mark(map_rows(s), 'S')
            &&& (goal.x, goal.y) == last_mark(map_rows(s), 'G')
        }
    }
}

/// The message for a size that does not parse.
fn dim_error_exec(label: &str, word: &Vec<char>, e: crate::util::text::IntParseError) -> (r: String)
    requires
        e == usize_parse_error(word@),
    ensures
        r@ == dim_error(label@, word@),
{
    let mut msg = chars_of("Error parsing ");
    let mut part = chars_of(label);
    msg.append(&mut part);
    let mut part = chars_of(" - \"");
    msg.append(&mut part);
    let mut part = e.message();
    msg.append(&mut part);
    let mut part = chars_of("\"");
    msg.append(&mut part);
    proof {
        assert(msg@ =~= dim_error(label@, word@));
    }
    string_from_chars(&msg)
}

/// The message for map data of `aw` columns and `ah` lines that does not form a `w` by `h`
/// map.
fn size_error_exec(aw: usize, ah: usize, w: usize, h: usize) -> (r: String)
    ensures
        r@ == size_error(aw as nat, ah as nat, w as nat, h as nat),
{
    let mut msg = chars_of("Invalid map file - Actual size (");
    let mut part = usize_to_chars(aw);
    msg.append(&mut part);
    let mut part = chars_of(",");
    msg.append(&mut part);
    let mut part = usize_to_chars(ah);
    msg.append(&mut part);
    let mut part = chars_of(") does not match expected dimensions (");
    msg.append(&mut part);
    let mut part = usize_to_chars(w);
    msg.append(&mut part);
    let mut part = chars_of(",");
    msg.append(&mut part);
    let mut part = usize_to_chars(h);
    msg.append(&mut part);
    let mut part = chars_of(")");
    msg.append(&mut part);
    proof {
        assert(msg@ =~= size_error(aw as nat, ah as nat, w as nat, h as nat));
    }
    string_from_chars(&msg)
}

/// The number of map lines among `lines` (those after the first two, without an empty last
/// one), the length of the longest of them, and whether each is `w` long and there are `h`.
fn data_shape(lines: &Vec<Vec<char>>, w: usize, h: usize) -> (r: (usize, usize, bool))
    requires
        lines@.len() >= 3,
    ensures
        r.0 == data_rows_of(char_views(lines@)).len(),
        r.1 == max_len(data_rows_of(char_views(lines@))),
        r.2 == rows_fit(data_rows_of(char_views(lines@)), w as int, h as int),
{
    let ghost all = char_views(lines@);
    let ghost rows = all.skip(2);
    let mut end = lines.len();
    if lines[end - 1].len() == 0 {
        end = end - 1;
    }
    proof {
        assert(lines@[lines@.len() - 1]@ == all[all.len() - 1]);
        if rows.len() > 0 && rows.last().len() == 0 {
            assert(rows.drop_last() =~= all.subrange(2, end as int));
        } else {
            assert(rows =~= all.subrange(2, end as int));
        }
    }
    let ghost data = all.subrange(2, end as int);
    let mut k: usize = 2;
    let mut longest: usize = 0;
    let mut fits = true;
    proof {
        assert(data.take(0) =~= Seq::<Seq<char>>::empty());
    }
    while k < end
        invariant
            2 <= k <= end,
            end <= lines@.len(),
            all == char_views(lines@),
            data == all.subrange(2, end as int),
            longest == max_len(data.take(k - 2)),
            fits == (forall|j: int| 0 <= j < k - 2 ==> (#[trigger] data[j]).len() == w),
        decreases end - k,
    {
        proof {
            assert(data.take(k - 1).drop_last() =~= data.take(k - 2));
            assert(data[k - 2] == lines@[k as int]@);
        }
        let len = lines[k].len();
        if len > longest {
            longest = len;
        }
        if len != w {
            fits = false;
        }
        k = k + 1;
    }
    proof {
        assert(data.take(end - 2) =~= data);
    }
    (end - 2, longest, fits && end - 2 == h)
}

/// The map lines of the lines of a map file: those after the first two, without an empty
/// last one.
pub open spec fn data_rows_of(lines: Seq<Seq<char>>) -> Seq<Seq<char>> {
    let rows = lines.skip(2);
    if rows.len() > 0 && rows.last().len() == 0 {
        rows.drop_last()
    } else {
        rows
    }
}

/// A vector holding one message.
fn one_error(msg: String) -> (r: Vec<String>)
    ensures
        string_views(r@) == seq![msg@],
{
    let mut es: Vec<String> = Vec::new();
    es.push(msg);
    proof {
        assert(string_views(es@) =~= seq![msg@]);
    }
    es
}

impl MapGrid {
    /// Reads a map from the text of a map file: a name, a line with the width and height,
    /// then the map itself, where `'#'` is an `on` cell, `'.'` an `off` one, and `'S'` and
    /// `'G'` mark the start and goal (`off` cells too); any other character leaves its cell
    /// `off`. The start and goal are the last marks met, read row by row, and
    /// `(usize::MAX, usize::MAX)` when there is none.
    ///
    /// ### Errors
    /// A text with fewer than three lines or whose size line is not two words, or a width or
    /// height that does not parse.
    pub fn parse_map_str(contents: &str) -> (r: Result<(Self, GridPos, GridPos), Vec<String>>)
        requires
            map_size_ok(contents@),
        ensures
            map_file_parses_to(contents@, r),
    {
        let chars = chars_of(contents);
        let lines = split_lines_exec(&chars);
        let ghost views = char_views(lines@);
        proof {
            assert(views == split_lines(contents@));
        }
        if lines.len() < 3 {
            let msg = chars_of("Invalid map file - Format is <Name>\\n<Width> <Height>\\n<Map>");
            return Err(one_error(string_from_chars(&msg)));
        }
        proof {
            assert(views[1] == lines@[1]@);
            assert(views[0] == lines@[0]@);
        }
        let name = trim_exec(&lines[0]);
        let dims = ws_words_exec(&lines[1]);
        if dims.len() != 2 {
            proof {
                assert(char_views(dims@).len() == dims@.len());
            }
            let msg = chars_of("Invalid map file - Format is <Name>\\n<Width> <Height>\\n<Map>");
            return Err(one_error(string_from_chars(&msg)));
        }
        proof {
            assert(char_views(dims@)[0] == dims@[0]@);
            assert(char_views(dims@)[1] == dims@[1]@);
        }
        let width = match parse_usize_detailed(&dims[0]) {
            Ok(v) => v,
            Err(e) => {
                return Err(one_error(dim_error_exec("width", &dims[0], e)));
            },
        };
        let height = match parse_usize_detailed(&dims[1]) {
            Ok(v) => v,
            Err(e) => {
                return Err(one_error(dim_error_exec("height", &dims[1], e)));
            },
        };
        let (rows_found, longest, fits) = data_shape(&lines, width, height);
        proof {
            assert(data_rows_of(views) == data_rows(contents@));
        }
        if !fits {
            return Err(one_error(size_error_exec(longest, rows_found, width, height)));
        }
        let mut map = MapGrid::empty((width, height));
        let ghost rows = views.skip(2);
        let mut start: (usize, usize) = (usize::MAX, usize::MAX);
        let mut goal: (usize, usize) = (usize::MAX, usize::MAX);
        let mut y: usize = 0;
        let n = lines.len() - 2;
        proof {
            assert(rows.take(0) =~= Seq::<Seq<char>>::empty());
        }
        while y < n
            invariant
                n == lines@.len() - 2,
                lines@.len() >= 3,
                lines@.len() <= usize::MAX,
                rows == char_views(lines@).skip(2),
                rows.len() == n,
                y <= n,
                map.wf(),
                map.spec_width() == width,
                map.spec_height() == height,
                map.spec_name() is None,
                forall|i: int, j: int|
                    #![trigger map.state_at(i, j)]
                    map.in_bounds(i, j) ==> map.state_at(i, j) == (if j < y {
                        map_cell_state(rows, i, j)
                    } else {
                        TriState::False
                    }),
                start == last_mark(rows.take(y as int), 'S'),
                goal == last_mark(rows.take(y as int), 'G'),
            decreases n - y,
        {
            proof {
                assert(y + 2 < lines@.len());
            }
            let line = &lines[y + 2];
            proof {
                assert(rows[y as int] == line@);
            }
            let mut x: usize = 0;
            let ghost start_row = start;
            let ghost goal_row = goal;
            proof {
                assert(line@.take(0) =~= Seq::<char>::empty());
            }
            while x < line.len()
                invariant
                    y < n,
                    rows.len() == n,
                    rows[y as int] == line@,
                    x <= line@.len(),
                    map.wf(),
                    map.spec_width() == width,
                    map.spec_height() == height,
                    map.spec_name() is None,
                    forall|i: int, j: int|
                        #![trigger map.state_at(i, j)]
                        map.in_bounds(i, j) ==> map.state_at(i, j) == (if j < y || (j == y && i < x) {
                            map_cell_state(rows, i, j)
                        } else {
                            TriState::False
                        }),
                    start_row == last_mark(rows.take(y as int), 'S'),
                    goal_row == last_mark(rows.take(y as int), 'G'),
                    start == (match last_in_line(line@.take(x as int), 'S') {
                        Some(c) => (c as usize, y),
                        None => start_row,
                    }),
                    goal == (match last_in_line(line@.take(x as int), 'G') {
                        Some(c) => (c as usize, y),
                        None => goal_row,
                    }),
                decreases line@.len() - x,
            {
                let ch = line[x];
                let ghost before = map;
                proof {
                    assert(line@.take(x as int + 1).drop_last() =~= line@.take(x as int));
                    assert(line@.take(x as int + 1).last() == ch);
                }
                if ch == '#' {
                    map.set_cell_state(x, y, true);
                } else if ch == '.' {
                    map.set_cell_state(x, y, false);
                } else if ch == 'S' {
                    map.set_cell_state(x, y, false);
                    start = (x, y);
                } else if ch == 'G' {
                    map.set_cell_state(x, y, false);
                    goal = (x, y);
                }
                proof {
                    assert forall|i: int, j: int|
                        #![trigger map.state_at(i, j)]
                        map.in_bounds(i, j) implies map.state_at(i, j) == (if j < y || (j == y && i < x
                            + 1) {
                            map_cell_state(rows, i, j)
                        } else {
                            TriState::False
                        }) by {
                        assert(before.state_at(i, j) == before.state_at(i, j));
                    }
                }
                x = x + 1;
            }
            proof {
                assert(line@.take(x as int) =~= line@);
                assert(rows.take(y as int + 1).drop_last() =~= rows.take(y as int));
                assert(rows.take(y as int + 1).last() == line@);
                assert forall|i: int, j: int|
                    #![trigger map.state_at(i, j)]
                    map.in_bounds(i, j) implies map.state_at(i, j) == (if j < y + 1 {
                        map_cell_state(rows, i, j)
                    } else {
                        TriState::False
                    }) by {
                    if j == y && i >= x {
                        assert(map_cell_state(rows, i, j) == TriState::False);
                    }
                }
            }
            y = y + 1;
        }
        proof {
            assert(rows.take(y as int) =~= rows);
        }
        let name_str = string_from_chars(&name);
        map.set_name(name_str.as_str());
        Ok((map, GridPos { x: start.0, y: start.1 }, GridPos { x: goal.0, y: goal.1 }))
    }

    /// Reads a map like [`MapGrid::parse_map_str`], first checking that the size it gives can
    /// be made: `None` when both numbers parse but one is below 3 or the cell count does not
    /// fit in a `usize`.
    pub fn parse_map_str_checked(contents: &str) -> (r: Option<Result<(Self, GridPos, GridPos), Vec<String>>>)
        ensures
            r is None <==> !map_size_ok(contents@),
            r matches Some(res) ==> map_file_parses_to(contents@, res),
    {
        let chars = chars_of(contents);
        let lines = split_lines_exec(&chars);
        let ghost views = char_views(lines@);
        proof {
            assert(views == split_lines(contents@));
        }
        if lines.len() >= 3 {
            proof {
                assert(views[1] == lines@[1]@);
            }
            let dims = ws_words_exec(&lines[1]);
            proof {
                assert(char_views(dims@).len() == dims@.len());
            }
            if dims.len() == 2 {
                proof {
                    assert(char_views(dims@)[0] == dims@[0]@);
                    assert(char_views(dims@)[1] == dims@[1]@);
                }
                match (parse_usize_detailed(&dims[0]), parse_usize_detailed(&dims[1])) {
                    (Ok(w), Ok(h)) => {
                        if w < 3 || h < 3 || w.checked_mul(h).is_none() {
                            return None;
                        }
                    },
                    _ => {},
                }
            }
        }
        Some(Self::parse_map_str(contents))
    }
}

} // verus!
