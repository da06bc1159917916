//! Parsing grids from text.
use vstd::prelude::*;

use crate::data::grid::MapGrid;
use crate::util::text::{
    alphabetic, ascii_words, ascii_words_exec, byte_len, char_is_alphabetic, char_is_numeric,
    chars_of, decimal, lemma_byte_len_le, numeric, parse_usize, spec_parse_usize, split_lines,
    split_lines_exec, split_lines_from, string_from_chars, usize_to_chars, utf8_byte_len,
};
use crate::util::tri::TriState;

verus! {

/// An error met while parsing a map, with its message.
pub struct MapParseError(String);

/// The character views of a vector of strings.
pub open spec fn string_views(v: Seq<String>) -> Seq<Seq<char>> {
    v.map_values(|s: String| s@)
}

/// The character views of a vector of character vectors.
pub open spec fn char_views(v: Seq<Vec<char>>) -> Seq<Seq<char>> {
    v.map_values(|l: Vec<char>| l@)
}

/// A line whose first character is neither `on` nor `off` and is alphabetic names the grid.
pub open spec fn is_name_line(line: Seq<char>, on: char, off: char) -> bool {
    line.len() > 0 && line[0] != on && line[0] != off && alphabetic(line[0])
}

/// A line whose first character is neither `on` nor `off` and is numeric gives the size.
pub open spec fn is_size_line(line: Seq<char>, on: char, off: char) -> bool {
    line.len() > 0 && line[0] != on && line[0] != off && numeric(line[0])
}

/// The lines left once a leading name line, if any, is taken off.
pub open spec fn after_name(s: Seq<char>, on: char, off: char) -> Seq<Seq<char>> {
    let lines = split_lines(s);
    if is_name_line(lines[0], on, off) {
        lines.drop_first()
    } else {
        lines
    }
}

/// The name given by the first line, if it is a name line.
pub open spec fn parsed_name(s: Seq<char>, on: char, off: char) -> Option<Seq<char>> {
    let lines = split_lines(s);
    if is_name_line(lines[0], on, off) {
        Some(lines[0])
    } else {
        None
    }
}

/// The grid lines: what is left once a name line and a size line, if present, are taken off.
pub open spec fn grid_lines(s: Seq<char>, on: char, off: char) -> Seq<Seq<char>> {
    let rest = after_name(s, on, off);
    if is_size_line(rest[0], on, off) {
        rest.drop_first()
    } else {
        rest
    }
}

/// The `k`-th number of the size line, or 0 when there is none or it does not parse.
pub open spec fn given_dim(s: Seq<char>, on: char, off: char, k: int) -> nat {
    let rest = after_name(s, on, off);
    let words = ascii_words(rest[0]);
    if is_size_line(rest[0], on, off) && words.len() == 2 {
        match spec_parse_usize(words[k]) {
            Some(v) => v as nat,
            None => 0,
        }
    } else {
        0
    }
}

/// The longest UTF-8 byte length among `lines` (0 for no lines).
pub open spec fn max_byte_len(lines: Seq<Seq<char>>) -> nat
    decreases lines.len(),
{
    if lines.len() == 0 {
        0
    } else {
        let m = max_byte_len(lines.drop_last());
        let b = byte_len(lines.last());
        if b > m {
            b
        } else {
            m
        }
    }
}

/// The width of the parsed grid: the given one, or else the longest grid line in bytes.
pub open spec fn parsed_width(s: Seq<char>, on: char, off: char) -> nat {
    if given_dim(s, on, off, 0) != 0 {
        given_dim(s, on, off, 0)
    } else {
        max_byte_len(grid_lines(s, on, off))
    }
}

/// The height of the parsed grid: the given one, or else the number of grid lines.
pub open spec fn parsed_height(s: Seq<char>, on: char, off: char) -> nat {
    if given_dim(s, on, off, 1) != 0 {
        given_dim(s, on, off, 1)
    } else {
        grid_lines(s, on, off).len()
    }
}

/// The errors on the size of the grid: it must be at least 3 wide and 3 high.
pub open spec fn size_errors(width: nat, height: nat) -> Seq<Seq<char>> {
    (if width < 3 {
        seq!["MapGrid::parse_string - Width must be at least 3"@]
    } else {
        Seq::empty()
    }) + (if height < 3 {
        seq!["MapGrid::parse_string - Height must be at least 3"@]
    } else {
        Seq::empty()
    })
}

/// Whether `c` is understood as a cell: `on`, `off`, a start `'S'` or a goal `'G'`.
pub open spec fn known_char(c: char, on: char, off: char) -> bool {
    c == on || c == off || c == 'S' || c == 'G'
}

/// The state a character gives its cell: `on` is on, `off` and `'S'` / `'G'` are off, anything
/// else invalid.
pub open spec fn char_state(c: char, on: char, off: char) -> TriState {
    if c == on {
        TriState::True
    } else if c == off || c == 'S' || c == 'G' {
        TriState::False
    } else {
        TriState::Invalid
    }
}

/// The message for an unknown character `c` at `(x, y)`.
pub open spec fn char_error(c: char, x: nat, y: nat) -> Seq<char> {
    "Invalid character "@ + seq![c] + " at ("@ + decimal(x) + ","@ + decimal(y) + ")"@
}

/// The messages for the unknown characters of `line` (row `y`), left to right.
pub open spec fn line_errors(line: Seq<char>, y: nat, on: char, off: char) -> Seq<Seq<char>>
    decreases line.len(),
{
    if line.len() == 0 {
        Seq::empty()
    } else {
        line_errors(line.drop_last(), y, on, off) + (if known_char(line.last(), on, off) {
            Seq::empty()
        } else {
            seq![char_error(line.last(), (line.len() - 1) as nat, y)]
        })
    }
}

/// The messages for the unknown characters of all `lines`, row by row.
pub open spec fn body_errors(lines: Seq<Seq<char>>, on: char, off: char) -> Seq<Seq<char>>
    decreases lines.len(),
{
    if lines.len() == 0 {
        Seq::empty()
    } else {
        body_errors(lines.drop_last(), on, off) + line_errors(
            lines.last(),
            (lines.len() - 1) as nat,
            on,
            off,
        )
    }
}

/// The state of cell `(x, y)` of a grid parsed from `lines`: given by the character there, or
/// invalid where no line reaches.
pub open spec fn parsed_state(lines: Seq<Seq<char>>, x: int, y: int, on: char, off: char) -> TriState {
    if 0 <= y < lines.len() && 0 <= x < lines[y].len() {
        char_state(lines[y][x], on, off)
    } else {
        TriState::Invalid
    }
}

/// The input does not make `parse_string` run out of lines after taking off a name line.
pub open spec fn parse_header_ok(s: Seq<char>, on: char, off: char) -> bool {
    s.len() > 0 ==> after_name(s, on, off).len() > 0
}

/// The longest of the lines, in UTF-8 bytes.
fn longest_line(lines: &Vec<Vec<char>>, from: usize) -> (r: usize)
    requires
        from <= lines@.len(),
        forall|j: int| #![trigger lines@[j]] 0 <= j < lines@.len() ==> 4 * lines@[j]@.len() <= usize::MAX,
    ensures
        r == max_byte_len(char_views(lines@).skip(from as int)),
{
    let ghost views = char_views(lines@).skip(from as int);
    let mut best: usize = 0;
    let mut k: usize = from;
    proof {
        assert(views.take(0) =~= Seq::<Seq<char>>::empty());
    }
    while k < lines.len()
        invariant
            from <= k <= lines@.len(),
            views == char_views(lines@).skip(from as int),
            forall|j: int| #![trigger lines@[j]] 0 <= j < lines@.len() ==> 4 * lines@[j]@.len() <= usize::MAX,
            best == max_byte_len(views.take(k - from)),
        decreases lines@.len() - k,
    {
        let b = utf8_byte_len(&lines[k]);
        proof {
            assert(views.take(k - from + 1).drop_last() =~= views.take(k - from));
            assert(views.take(k - from + 1).last() == lines@[k as int]@);
        }
        if b > best {
            best = b;
        }
        k = k + 1;
    }
    proof {
        assert(views.take(k - from) =~= views);
    }
    best
}

/// The message for an unknown character `c` at `(x, y)`.
fn char_error_exec(c: char, x: usize, y: usize) -> (r: String)
    ensures
        r@ == char_error(c, x as nat, y as nat),
{
    let mut msg = chars_of("Invalid character ");
    msg.push(c);
    let mut part = chars_of(" at (");
    msg.append(&mut part);
    let mut part = usize_to_chars(x);
    msg.append(&mut part);
    let mut part = chars_of(",");
    msg.append(&mut part);
    let mut part = usize_to_chars(y);
    msg.append(&mut part);
    let mut part = chars_of(")");
    msg.append(&mut part);
    proof {
        assert(msg@ =~= char_error(c, x as nat, y as nat));
    }
    string_from_chars(&msg)
}

/// What parsing `s` with the `on` and `off` characters gives: the errors for an empty input,
/// for a grid smaller than 3x3, or for unknown characters, in that order of precedence; else the
/// grid of the parsed size and name whose cells are read off the grid lines.
pub open spec fn parses_to(s: Seq<char>, on: char, off: char, r: Result<MapGrid, Vec<String>>) -> bool {
    &&& s.len() == 0 ==> (r matches Err(es) && string_views(es@) == seq!["Empty input"@])
    &&& s.len() > 0 ==> ({
        let w = parsed_width(s, on, off);
        let h = parsed_height(s, on, off);
        let lines = grid_lines(s, on, off);
        if w < 3 || h < 3 {
            r matches Err(es) && string_views(es@) == size_errors(w, h)
        } else if body_errors(lines, on, off).len() > 0 {
            r matches Err(es) && string_views(es@) == body_errors(lines, on, off)
        } else {
            r matches Ok(g) && {
                &&& g.wf()
                &&& g.spec_width() == w
                &&& g.spec_height() == h
                &&& g.spec_name() == parsed_name(s, on, off)
                &&& forall|i: int, j: int|
                    #![trigger g.state_at(i, j)]
                    g.in_bounds(i, j) ==> g.state_at(i, j) == parsed_state(lines, i, j, on, off)
            }
        }
    })
}

/// Whether the parsed size, when it is at least 3x3, has a cell count that fits in `usize`.
pub open spec fn parsed_size_fits(s: Seq<char>, on: char, off: char) -> bool {
    s.len() > 0 && parsed_width(s, on, off) >= 3 && parsed_height(s, on, off) >= 3
        ==> parsed_width(s, on, off) * parsed_height(s, on, off) <= usize::MAX
}

/// Whether `s` parses into a grid with the `on` and `off` characters: the parse can run, and
/// it gives a grid rather than errors.
pub open spec fn parses_ok(s: Seq<char>, on: char, off: char) -> bool {
    &&& parse_header_ok(s, on, off)
    &&& parsed_size_fits(s, on, off)
    &&& s.len() > 0
    &&& parsed_width(s, on, off) >= 3
    &&& parsed_height(s, on, off) >= 3
    &&& body_errors(grid_lines(s, on, off), on, off).len() == 0
}

/// Reads the optional name line and size line at the top of `lines`, the lines of `s`: the
/// name, the width, the height and the index of the first grid line. `None` when the input
/// ends right after a name line, so that no line is left to read a size from.
fn read_header(lines: &Vec<Vec<char>>, Ghost(s): Ghost<Seq<char>>, on: char, off: char) -> (r:
    Option<(Option<String>, usize, usize, usize)>)
    requires
        s.len() > 0,
        char_views(lines@) == split_lines(s),
        lines@.len() > 0,
        forall|j: int| #![trigger lines@[j]] 0 <= j < lines@.len() ==> lines@[j]@.len() <= s.len(),
        4 * s.len() <= usize::MAX,
    ensures
        r is None <==> !parse_header_ok(s, on, off),
        r matches Some((name, w, h, start)) ==> {
            &&& start <= lines@.len()
            &&& char_views(lines@).skip(start as int) == grid_lines(s, on, off)
            &&& w == parsed_width(s, on, off)
            &&& h == parsed_height(s, on, off)
            &&& match name {
                Some(n) => parsed_name(s, on, off) == Some(n@),
                None => parsed_name(s, on, off) is None,
            }
        },
{
    let ghost views = char_views(lines@);
    let mut start: usize = 0;
    let mut name: Option<String> = None;
    if lines[0].len() > 0 {
        let c = lines[0][0];
        if c != on && c != off && char_is_alphabetic(c) {
            name = Some(string_from_chars(&lines[0]));
            start = 1;
        }
    }
    proof {
        assert(views[0] == lines@[0]@);
        if start == 1 {
            assert(after_name(s, on, off) =~= views.skip(1));
        } else {
            assert(after_name(s, on, off) =~= views.skip(0));
        }
    }
    if start >= lines.len() {
        return None;
    }
    let mut given_w: usize = 0;
    let mut given_h: usize = 0;
    let mut body_start: usize = start;
    let first = &lines[start];
    proof {
        assert(after_name(s, on, off)[0] == first@);
    }
    if first.len() > 0 {
        let c = first[0];
        if c != on && c != off && char_is_numeric(c) {
            body_start = start + 1;
            let words = ascii_words_exec(first);
            proof {
                assert(char_views(words@).len() == words@.len());
            }
            if words.len() == 2 {
                proof {
                    assert(char_views(words@)[0] == words@[0]@);
                    assert(char_views(words@)[1] == words@[1]@);
                }
                match parse_usize(&words[0]) {
                    Some(v) => { given_w = v; },
                    None => {},
                }
                match parse_usize(&words[1]) {
                    Some(v) => { given_h = v; },
                    None => {},
                }
            }
        }
    }
    proof {
        assert(given_w == given_dim(s, on, off, 0));
        assert(given_h == given_dim(s, on, off, 1));
        assert(grid_lines(s, on, off) =~= views.skip(body_start as int));
    }
    let width = if given_w != 0 {
        given_w
    } else {
        longest_line(lines, body_start)
    };
    let height = if given_h != 0 {
        given_h
    } else {
        lines.len() - body_start
    };
    proof {
        assert(views.skip(body_start as int).len() == lines@.len() - body_start);
    }
    Some((name, width, height, body_start))
}

impl MapGrid {
    /// Attempts to parse a string into a grid, using the given `on` and `off` characters to
    /// determine the state of each cell.
    ///
    /// An optional first line starting with a letter (neither `on` nor `off`) names the grid, and
    /// an optional next line starting with a digit gives its width and height. Without a size,
    /// the width is the longest line in bytes and the height the number of lines. `'S'` and
    /// `'G'` mark off cells; any other character is reported as an error.
    ///
    /// ### Errors
    /// An empty input, a grid smaller than 3x3, or any unknown character.
    pub fn parse_string(input: &str, on: char, off: char) -> (r: Result<Self, Vec<String>>)
        requires
            parse_header_ok(input@, on, off),
            4 * input@.len() <= usize::MAX,
            parsed_size_fits(input@, on, off),
        ensures
            parses_to(input@, on, off, r),
    {
        let chars = chars_of(input);
        if chars.len() == 0 {
            let mut errors: Vec<String> = Vec::new();
            let msg = chars_of("Empty input");
            errors.push(string_from_chars(&msg));
            proof {
                assert(string_views(errors@) =~= seq!["Empty input"@]);
            }
            return Err(errors);
        }
        let lines = split_lines_exec(&chars);
        let ghost views = char_views(lines@);
        proof {
            lemma_lines_short(input@, lines@);
        }
        let (name, width, height, body_start) = match read_header(&lines, Ghost(input@), on, off) {
            Some(hd) => hd,
            None => {
                return Err(Vec::new());
            },
        };
        if width < 3 || height < 3 {
            let mut errors: Vec<String> = Vec::new();
            if width < 3 {
                let msg = chars_of("MapGrid::parse_string - Width must be at least 3");
                errors.push(string_from_chars(&msg));
            }
            if height < 3 {
                let msg = chars_of("MapGrid::parse_string - Height must be at least 3");
                errors.push(string_from_chars(&msg));
            }
            proof {
                assert(string_views(errors@) =~= size_errors(width as nat, height as nat));
            }
            return Err(errors);
        }
        let mut grid = MapGrid::new((width, height));
        match name {
            Some(n) => {
                grid.set_name(n.as_str());
            },
            None => {},
        }
        let ghost body = views.skip(body_start as int);
        let ghost named = grid;
        let mut errors: Vec<String> = Vec::new();
        let mut y: usize = 0;
        proof {
            assert(body.take(0) =~= Seq::<Seq<char>>::empty());
            assert(string_views(errors@) =~= Seq::<Seq<char>>::empty());
        }
        while y < lines.len() - body_start
            invariant
                body_start <= lines@.len(),
                body_start + y <= lines@.len(),
                body.len() == lines@.len() - body_start,
                body == char_views(lines@).skip(body_start as int),
                y <= body.len(),
                grid.wf(),
                grid.spec_width() == width,
                grid.spec_height() == height,
                grid.spec_name() == named.spec_name(),
                string_views(errors@) == body_errors(body.take(y as int), on, off),
                forall|i: int, j: int|
                    #![trigger grid.state_at(i, j)]
                    grid.in_bounds(i, j) ==> grid.state_at(i, j) == (if j < y {
                        parsed_state(body, i, j, on, off)
                    } else {
                        TriState::Invalid
                    }),
            decreases lines@.len() - body_start - y,
        {
            let line = &lines[body_start + y];
            proof {
                assert(body[y as int] == line@);
            }
            let ghost before = string_views(errors@);
            let mut x: usize = 0;
            proof {
                assert(line@.take(0) =~= Seq::<char>::empty());
            }
            while x < line.len()
                invariant
                    y < body.len(),
                    body[y as int] == line@,
                    x <= line@.len(),
                    grid.wf(),
                    grid.spec_width() == width,
                    grid.spec_height() == height,
                    grid.spec_name() == named.spec_name(),
                    string_views(errors@) == before + line_errors(line@.take(x as int), y as nat, on, off),
                    forall|i: int, j: int|
                        #![trigger grid.state_at(i, j)]
                        grid.in_bounds(i, j) ==> grid.state_at(i, j) == (if j < y || (j == y && i < x) {
                            parsed_state(body, i, j, on, off)
                        } else {
                            TriState::Invalid
                        }),
                decreases line@.len() - x,
            {
                let ch = line[x];
                let ghost g0 = grid;
                let ghost e0 = string_views(errors@);
                proof {
                    assert(line@.take(x as int + 1).drop_last() =~= line@.take(x as int));
                }
                if ch == on {
                    grid.set_cell_state(x, y, true);
                } else if ch == off {
                    grid.set_cell_state(x, y, false);
                } else if ch == 'S' || ch == 'G' {
                    grid.set_cell_state(x, y, false);
                } else {
                    let msg = char_error_exec(ch, x, y);
                    errors.push(msg);
                    grid.set_cell_invalid(x, y);
                    proof {
                        assert(string_views(errors@) =~= e0.push(msg@));
                    }
                }
                proof {
                    assert(string_views(errors@) =~= before + line_errors(
                        line@.take(x as int + 1),
                        y as nat,
                        on,
                        off,
                    ));
                    assert forall|i: int, j: int|
                        #![trigger grid.state_at(i, j)]
                        grid.in_bounds(i, j) implies grid.state_at(i, j) == (if j < y || (j == y
                            && i < x + 1) {
                            parsed_state(body, i, j, on, off)
                        } else {
                            TriState::Invalid
                        }) by {
                        assert(g0.state_at(i, j) == g0.state_at(i, j));
                    }
                }
                x = x + 1;
            }
            proof {
                assert(line@.take(x as int) =~= line@);
                assert(body.take(y as int + 1).drop_last() =~= body.take(y as int));
                assert(body.take(y as int + 1).last() == line@);
                assert forall|i: int, j: int|
                    #![trigger grid.state_at(i, j)]
                    grid.in_bounds(i, j) implies grid.state_at(i, j) == (if j < y + 1 {
                        parsed_state(body, i, j, on, off)
                    } else {
                        TriState::Invalid
                    }) by {
                    if j == y && i >= x {
                        assert(parsed_state(body, i, j, on, off) == TriState::Invalid);
                    }
                }
            }
            y = y + 1;
        }
        proof {
            assert(body.take(y as int) =~= body);
            assert forall|i: int, j: int|
                #![trigger grid.state_at(i, j)]
                grid.in_bounds(i, j) implies grid.state_at(i, j) == parsed_state(body, i, j, on, off) by {
                if j >= y {
                    assert(parsed_state(body, i, j, on, off) == TriState::Invalid);
                }
            }
        }
        if errors.len() == 0 {
            Ok(grid)
        } else {
            Err(errors)
        }
    }

    /// Parses like [`MapGrid::parse_string`], first checking what that function needs of its
    /// input: `None` when the input ends right after a name line, or when the parsed size does
    /// not fit in memory; otherwise the result of parsing.
    pub fn parse_string_checked(input: &str, on: char, off: char) -> (r: Option<
        Result<Self, Vec<String>>,
    >)
        requires
            4 * input@.len() <= usize::MAX,
        ensures
            r is None <==> !(parse_header_ok(input@, on, off) && parsed_size_fits(input@, on, off)),
            r matches Some(res) ==> parses_to(input@, on, off, res),
    {
        let chars = chars_of(input);
        if chars.len() > 0 {
            let lines = split_lines_exec(&chars);
            proof {
                lemma_lines_short(input@, lines@);
            }
            match read_header(&lines, Ghost(input@), on, off) {
                None => {
                    return None;
                },
                Some((_name, w, h, _start)) => {
                    if w >= 3 && h >= 3 && w.checked_mul(h).is_none() {
                        return None;
                    }
                },
            }
        }
        Some(Self::parse_string(input, on, off))
    }
}

/// Every line of `s` is at most as long as `s`.
proof fn lemma_lines_short(s: Seq<char>, lines: Seq<Vec<char>>)
    requires
        char_views(lines) == split_lines(s),
    ensures
        forall|j: int| #![trigger lines[j]] 0 <= j < lines.len() ==> lines[j]@.len() <= s.len(),
        lines.len() > 0,
{
    lemma_split_lines_from_short(s, Seq::empty(), Seq::empty());
    assert forall|j: int| #![trigger lines[j]] 0 <= j < lines.len() implies lines[j]@.len() <= s.len() by {
        assert(char_views(lines)[j] == lines[j]@);
    }
}

/// The pieces produced by splitting are no longer than what they were cut from.
proof fn lemma_split_lines_from_short(s: Seq<char>, cur: Seq<char>, acc: Seq<Seq<char>>)
    ensures
        split_lines_from(s, cur, acc).len() > acc.len(),
        forall|j: int|
            #![trigger split_lines_from(s, cur, acc)[j]]
            acc.len() <= j < split_lines_from(s, cur, acc).len() ==> split_lines_from(s, cur, acc)[j].len()
                <= cur.len() + s.len(),
        forall|j: int|
            #![trigger split_lines_from(s, cur, acc)[j]]
            0 <= j < acc.len() ==> split_lines_from(s, cur, acc)[j] == acc[j],
    decreases s.len(),
{
    if s.len() > 0 {
        if s[0] == '\n' {
            lemma_split_lines_from_short(s.drop_first(), Seq::empty(), acc.push(cur));
        } else {
            lemma_split_lines_from_short(s.drop_first(), cur.push(s[0]), acc);
        }
    }
}

} // verus!
