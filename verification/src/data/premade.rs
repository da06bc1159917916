//! Premade grids: mazes held in strings, and the maze files that come with the project.
use vstd::prelude::*;
use vstd::std_specs::convert::FromSpecImpl;

use crate::data::grid::MapGrid;
use crate::data::parse::{parses_ok, parses_to};
use crate::data::round_trip::lemma_rows_text_parses;
use crate::data::types::GridPos;

verus! {

/// Maze 1, 50 x 20.
pub const MAZE: &'static str = ".#################################################\n.................................................#\n################################################.#\n#................................................#\n#.################################################\n#.#........................................###...#\n#.##.#####################################.###.#.#\n#.##.##..................................#.###.#.#\n#.##.##.################################.#.###.#.#\n#.##.##.#.##############################.#.###.#.#\n#.##.##.#................................#.###.#.#\n#.##.##.##################################.###.#.#\n#....##....................................###.#.#\n#.##.#########################################.#.#\n#.##......................................####.#.#\n#.############################################.#.#\n#.############################################.#.#\n#.############################################.#.#\n#..............................................#.#\n################################################..";

/// Maze 2, 80 x 15.
pub const MAZE2: &'static str = "################################################################################\n#........##........##..........................#####...........................#\n#........##........##............######........#####.....##################....#\n#...##...##...##...##...##.......######........#####.....##...............#....#\n#...##...##...##...##...##.......######........#####.....##.#############.#....#\n#...##...##...##...##...##.......######........#####.....##.#.......#####.#....#\n#...##...##...##...##...##.......######........#####.....##.#.#####.#####.#....#\n#...##...##...##...##...##.......######........#####.....##.#.#####.#####.#....#\n#...##...##...##...##...##.......######..................##.#.#####.#####.#....#\n#...##...##...##...##...##.......######...######.........##.#.###########.#....#\n#...##...##...##...##...##.......######...######.........##.#.............#....#\n#...##...##...##...##...##................######.........##.###############....#\n#...##........##........##................######.........##....................#\n#...##........##........##................######.........##....................#\n################################################################################";

/// Maze 3, 73 x 23.
pub const MAZE3: &'static str = "#####################################################################...#\n#...#...............#...............#...........#...................#...#\n#...#...#########...#...#####...#########...#####...#####...#####...#...#\n#...............#.......#...#...........#...........#...#...#.......#...#\n#########...#...#########...#########...#####...#...#...#...#########...#\n#.......#...#...............#...........#...#...#...#...#...........#...#\n#...#...#############...#...#...#########...#####...#...#########...#...#\n#...#...............#...#...#.......#...........#...........#.......#...#\n#...#############...#####...#####...#...#####...#########...#...#####...#\n#...........#.......#...#.......#...#.......#...........#...#...........#\n#...#####...#####...#...#####...#...#########...#...#...#...#############\n#.......#.......#...#...#.......#.......#.......#...#...#.......#.......#\n#############...#...#...#...#########...#...#####...#...#####...#####...#\n#...........#...#...........#.......#...#.......#...#.......#...........#\n#...#####...#...#########...#####...#...#####...#####...#############...#\n#...#.......#...........#...........#.......#...#...#...............#...#\n#...#...#########...#...#####...#########...#...#...#############...#...#\n#...#...........#...#...#...#...#...........#...............#...#.......#\n#...#########...#...#...#...#####...#########...#########...#...#########\n#...#.......#...#...#...........#...........#...#.......#...............#\n#...#...#####...#####...#####...#########...#####...#...#########...#...#\n#...#...................#...........#...............#...............#...#\n#...#####################################################################";

/// Maze 4, 33 x 18.
pub const MAZE4: &'static str = ".################################\n..###############...##.........##\n#.#................####.##.###..#\n#.#.##############..##..##.######\n#..........#######.####.##....###\n##.##.##.#####.......##.#####.###\n##.##.##.##.##.##.##.##.#####.###\n##.##.##....##...#......#.....###\n##.##.########.##.##.##.#.###.###\n##.##.#.##...........##.#...#.###\n#####...##.#########.##.#####.###\n#.###.####.#########.##.......###\n#.###.............##.##.#####.###\n#.######.####.###.##.##.##.##.###\n#.#......###...##.##.##.##.....##\n#.#.#########.###.##.##.#########\n#....................##......#...\n############################...#.";

/// Maze 5, 21 x 20.
pub const MAZE5: &'static str = "#####################\n#......#............#\n#....##############.#\n#....###.....######.#\n#....##.......#####.#\n#....#.........####.#\n#....#.........####.#\n#....#.........####.#\n#...................#\n#########...#########\n#########...#########\n#########...#########\n#########...#########\n#...................#\n#....###########....#\n#....###########....#\n#...................#\n#...................#\n#...................#\n#####################";

/// Maze 6, 37 x 20.
pub const MAZE6: &'static str = "#####################################\n#...................................#\n#......############...........#.....#\n#....####...#########.........##....#\n#...###.......########.......###....#\n#..###.........#######......####....#\n#..###..........#####.......#####...#\n#...##...........###.......#######..#\n#........................############\n#...####....#####.........###########\n#..######....#####..................#\n#..######.....#####.................#\n#...####.......########.........#...#\n#........#.##.....#######.....###...#\n#....#####.#####.....####....###....#\n#########.....####....####....###...#\n####.............###...#####....##..#\n#.........######...#.....#####...##.#\n#........########................####\n#####################################";

/// Parses a premade maze: `'#'` is `on` and `'.'` is `off`.
fn parse_maze(text: &str) -> (r: Option<MapGrid>)
    requires
        4 * text@.len() <= usize::MAX,
    ensures
        r matches Some(g) ==> parses_to(text@, '#', '.', Ok(g)),
        r is None <==> !parses_ok(text@, '#', '.'),
{
    match MapGrid::parse_string_checked(text, '#', '.') {
        Some(Ok(g)) => Some(g),
        _ => None,
    }
}

/// Maze 1 parses: 20 lines of 50 characters, each `'#'` or `'.'`, joined by newlines.
proof fn lemma_maze1_parses()
    ensures
        parses_ok(MAZE@, '#', '.'),
{
    reveal_strlit(".#################################################\n.................................................#\n################################################.#\n#................................................#\n#.################################################\n#.#........................................###...#\n#.##.#####################################.###.#.#\n#.##.##..................................#.###.#.#\n#.##.##.################################.#.###.#.#\n#.##.##.#.##############################.#.###.#.#\n#.##.##.#................................#.###.#.#\n#.##.##.##################################.###.#.#\n#....##....................................###.#.#\n#.##.#########################################.#.#\n#.##......................................####.#.#\n#.############################################.#.#\n#.############################################.#.#\n#.############################################.#.#\n#..............................................#.#\n################################################..");
    assert(MAZE@.len() == 1019);
    assert(forall|k: int| 0 <= k < MAZE@.len() ==> ((#[trigger] MAZE@[k]) == '\n') == (k % 51 == 50));
    assert(forall|k: int|
        0 <= k < MAZE@.len() ==> (#[trigger] MAZE@[k]) == '#' || MAZE@[k] == '.' || MAZE@[k] == '\n');
    lemma_rows_text_parses(MAZE@, 50, 20);
}

/// Maze 2 parses: 15 lines of 80 characters, each `'#'` or `'.'`, joined by newlines.
proof fn lemma_maze2_parses()
    ensures
        parses_ok(MAZE2@, '#', '.'),
{
    reveal_strlit("################################################################################\n#........##........##..........................#####...........................#\n#........##........##............######........#####.....##################....#\n#...##...##...##...##...##.......######........#####.....##...............#....#\n#...##...##...##...##...##.......######........#####.....##.#############.#....#\n#...##...##...##...##...##.......######........#####.....##.#.......#####.#....#\n#...##...##...##...##...##.......######........#####.....##.#.#####.#####.#....#\n#...##...##...##...##...##.......######........#####.....##.#.#####.#####.#....#\n#...##...##...##...##...##.......######..................##.#.#####.#####.#....#\n#...##...##...##...##...##.......######...######.........##.#.###########.#....#\n#...##...##...##...##...##.......######...######.........##.#.............#....#\n#...##...##...##...##...##................######.........##.###############....#\n#...##........##........##................######.........##....................#\n#...##........##........##................######.........##....................#\n################################################################################");
    assert(MAZE2@.len() == 1214);
    assert(forall|k: int| 0 <= k < MAZE2@.len() ==> ((#[trigger] MAZE2@[k]) == '\n') == (k % 81 == 80));
    assert(forall|k: int|
        0 <= k < MAZE2@.len() ==> (#[trigger] MAZE2@[k]) == '#' || MAZE2@[k] == '.' || MAZE2@[k] == '\n');
    lemma_rows_text_parses(MAZE2@, 80, 15);
}

/// Maze 3 parses: 23 lines of 73 characters, each `'#'` or `'.'`, joined by newlines.
proof fn lemma_maze3_parses()
    ensures
        parses_ok(MAZE3@, '#', '.'),
{
    reveal_strlit("#####################################################################...#\n#...#...............#...............#...........#...................#...#\n#...#...#########...#...#####...#########...#####...#####...#####...#...#\n#...............#.......#...#...........#...........#...#...#.......#...#\n#########...#...#########...#########...#####...#...#...#...#########...#\n#.......#...#...............#...........#...#...#...#...#...........#...#\n#...#...#############...#...#...#########...#####...#...#########...#...#\n#...#...............#...#...#.......#...........#...........#.......#...#\n#...#############...#####...#####...#...#####...#########...#...#####...#\n#...........#.......#...#.......#...#.......#...........#...#...........#\n#...#####...#####...#...#####...#...#########...#...#...#...#############\n#.......#.......#...#...#.......#.......#.......#...#...#.......#.......#\n#############...#...#...#...#########...#...#####...#...#####...#####...#\n#...........#...#...........#.......#...#.......#...#.......#...........#\n#...#####...#...#########...#####...#...#####...#####...#############...#\n#...#.......#...........#...........#.......#...#...#...............#...#\n#...#...#########...#...#####...#########...#...#...#############...#...#\n#...#...........#...#...#...#...#...........#...............#...#.......#\n#...#########...#...#...#...#####...#########...#########...#...#########\n#...#.......#...#...#...........#...........#...#.......#...............#\n#...#...#####...#####...#####...#########...#####...#...#########...#...#\n#...#...................#...........#...............#...............#...#\n#...#####################################################################");
    assert(MAZE3@.len() == 1701);
    assert(forall|k: int| 0 <= k < MAZE3@.len() ==> ((#[trigger] MAZE3@[k]) == '\n') == (k % 74 == 73));
    assert(forall|k: int|
        0 <= k < MAZE3@.len() ==> (#[trigger] MAZE3@[k]) == '#' || MAZE3@[k] == '.' || MAZE3@[k] == '\n');
    lemma_rows_text_parses(MAZE3@, 73, 23);
}

/// Maze 4 parses: 18 lines of 33 characters, each `'#'` or `'.'`, joined by newlines.
proof fn lemma_maze4_parses()
    ensures
        parses_ok(MAZE4@, '#', '.'),
{
    reveal_strlit(".################################\n..###############...##.........##\n#.#................####.##.###..#\n#.#.##############..##..##.######\n#..........#######.####.##....###\n##.##.##.#####.......##.#####.###\n##.##.##.##.##.##.##.##.#####.###\n##.##.##....##...#......#.....###\n##.##.########.##.##.##.#.###.###\n##.##.#.##...........##.#...#.###\n#####...##.#########.##.#####.###\n#.###.####.#########.##.......###\n#.###.............##.##.#####.###\n#.######.####.###.##.##.##.##.###\n#.#......###...##.##.##.##.....##\n#.#.#########.###.##.##.#########\n#....................##......#...\n############################...#.");
    assert(MAZE4@.len() == 611);
    assert(forall|k: int| 0 <= k < MAZE4@.len() ==> ((#[trigger] MAZE4@[k]) == '\n') == (k % 34 == 33));
    assert(forall|k: int|
        0 <= k < MAZE4@.len() ==> (#[trigger] MAZE4@[k]) == '#' || MAZE4@[k] == '.' || MAZE4@[k] == '\n');
    lemma_rows_text_parses(MAZE4@, 33, 18);
}

/// Maze 5 parses: 20 lines of 21 characters, each `'#'` or `'.'`, joined by newlines.
proof fn lemma_maze5_parses()
    ensures
        parses_ok(MAZE5@, '#', '.'),
{
    reveal_strlit("#####################\n#......#............#\n#....##############.#\n#....###.....######.#\n#....##.......#####.#\n#....#.........####.#\n#....#.........####.#\n#....#.........####.#\n#...................#\n#########...#########\n#########...#########\n#########...#########\n#########...#########\n#...................#\n#....###########....#\n#....###########....#\n#...................#\n#...................#\n#...................#\n#####################");
    assert(MAZE5@.len() == 439);
    assert(forall|k: int| 0 <= k < MAZE5@.len() ==> ((#[trigger] MAZE5@[k]) == '\n') == (k % 22 == 21));
    assert(forall|k: int|
        0 <= k < MAZE5@.len() ==> (#[trigger] MAZE5@[k]) == '#' || MAZE5@[k] == '.' || MAZE5@[k] == '\n');
    lemma_rows_text_parses(MAZE5@, 21, 20);
}

/// Maze 6 parses: 20 lines of 37 characters, each `'#'` or `'.'`, joined by newlines.
proof fn lemma_maze6_parses()
    ensures
        parses_ok(MAZE6@, '#', '.'),
{
    reveal_strlit("#####################################\n#...................................#\n#......############...........#.....#\n#....####...#########.........##....#\n#...###.......########.......###....#\n#..###.........#######......####....#\n#..###..........#####.......#####...#\n#...##...........###.......#######..#\n#........................############\n#...####....#####.........###########\n#..######....#####..................#\n#..######.....#####.................#\n#...####.......########.........#...#\n#........#.##.....#######.....###...#\n#....#####.#####.....####....###....#\n#########.....####....####....###...#\n####.............###...#####....##..#\n#.........######...#.....#####...##.#\n#........########................####\n#####################################");
    assert(MAZE6@.len() == 759);
    assert(forall|k: int| 0 <= k < MAZE6@.len() ==> ((#[trigger] MAZE6@[k]) == '\n') == (k % 38 == 37));
    assert(forall|k: int|
        0 <= k < MAZE6@.len() ==> (#[trigger] MAZE6@[k]) == '#' || MAZE6@[k] == '.' || MAZE6@[k] == '\n');
    lemma_rows_text_parses(MAZE6@, 37, 20);
}

/// Enum over the premade grids that are held in strings.
#[derive(Debug, Clone, Copy, PartialEq, Eq, Structural, PartialOrd, Ord, Hash)]
pub enum GridStrings {
    /// Invalid entry for parsing and whatnot.
    Invalid,
    /// The premade grid held in string #1.
    One,
    /// The premade grid held in string #2.
    Two,
    /// The premade grid held in string #3.
    Three,
    /// The premade grid held in string #4.
    Four,
    /// The premade grid held in string #5.
    Five,
    /// The premade grid held in string #6.
    Six,
}

/// The string of a premade grid, empty for `Invalid`.
pub open spec fn maze_text(g: GridStrings) -> Seq<char> {
    match g {
        GridStrings::One => MAZE@,
        GridStrings::Two => MAZE2@,
        GridStrings::Three => MAZE3@,
        GridStrings::Four => MAZE4@,
        GridStrings::Five => MAZE5@,
        GridStrings::Six => MAZE6@,
        GridStrings::Invalid => Seq::empty(),
    }
}

/// The suggested start and goal of a premade grid.
pub open spec fn maze_start_end(g: GridStrings) -> ((usize, usize), (usize, usize)) {
    match g {
        GridStrings::One => ((0, 0), (49, 19)),
        GridStrings::Two => ((1, 13), (67, 8)),
        GridStrings::Three => ((1, 22), (71, 0)),
        GridStrings::Four => ((0, 0), (32, 17)),
        GridStrings::Five => ((10, 19), (10, 1)),
        GridStrings::Six => ((1, 18), (35, 7)),
        GridStrings::Invalid => ((0, 0), (0, 0)),
    }
}

/// The premade grid with the number `u`, or `Invalid` for a number that names none.
pub open spec fn grid_string_of(u: int) -> GridStrings {
    if u == 1 {
        GridStrings::One
    } else if u == 2 {
        GridStrings::Two
    } else if u == 3 {
        GridStrings::Three
    } else if u == 4 {
        GridStrings::Four
    } else if u == 5 {
        GridStrings::Five
    } else if u == 6 {
        GridStrings::Six
    } else {
        GridStrings::Invalid
    }
}

/// A grid start and goal pair from coordinates.
fn start_end(s: (usize, usize), e: (usize, usize)) -> (r: (GridPos, GridPos))
    ensures
        (r.0.x, r.0.y) == s,
        (r.1.x, r.1.y) == e,
{
    (GridPos { x: s.0, y: s.1 }, GridPos { x: e.0, y: e.1 })
}

/// Static struct holding methods to access the premade grids / mazes.
pub struct Grids;

impl GridStrings {
    /// The number of premade grid strings.
    pub fn count() -> (r: usize)
        ensures
            r == 6,
    {
        6
    }

    /// The grid held in the string, or `None` for `Invalid` or a string that does not parse.
    pub fn get_maze(&self) -> (r: Option<MapGrid>)
        ensures
            *self == GridStrings::Invalid ==> r is None,
            *self != GridStrings::Invalid ==> r is Some,
            *self != GridStrings::Invalid ==> (r is None <==> !parses_ok(maze_text(*self), '#', '.')),
            r matches Some(g) ==> parses_to(maze_text(*self), '#', '.', Ok(g)),
    {
        match self {
            GridStrings::One => Grids::maze1(),
            GridStrings::Two => Grids::maze2(),
            GridStrings::Three => Grids::maze3(),
            GridStrings::Four => Grids::maze4(),
            GridStrings::Five => Grids::maze5(),
            GridStrings::Six => Grids::maze6(),
            GridStrings::Invalid => None,
        }
    }

    /// The suggested start and goal points of the grid, or `None` for `Invalid`.
    pub fn get_start_end(&self) -> (r: Option<(GridPos, GridPos)>)
        ensures
            *self == GridStrings::Invalid ==> r is None,
            *self != GridStrings::Invalid ==> (r matches Some(p) && ((p.0.x, p.0.y), (p.1.x, p.1.y))
                == maze_start_end(*self)),
    {
        match self {
            GridStrings::One => Some(Grids::maze1_start_end()),
            GridStrings::Two => Some(Grids::maze2_start_end()),
            GridStrings::Three => Some(Grids::maze3_start_end()),
            GridStrings::Four => Some(Grids::maze4_start_end()),
            GridStrings::Five => Some(Grids::maze5_start_end()),
            GridStrings::Six => Some(Grids::maze6_start_end()),
            GridStrings::Invalid => None,
        }
    }

    /// All premade grid strings, in order.
    pub fn all() -> (r: [GridStrings; 6])
        ensures
            r@ == seq![
                GridStrings::One,
                GridStrings::Two,
                GridStrings::Three,
                GridStrings::Four,
                GridStrings::Five,
                GridStrings::Six,
            ],
    {
        [
            GridStrings::One,
            GridStrings::Two,
            GridStrings::Three,
            GridStrings::Four,
            GridStrings::Five,
            GridStrings::Six,
        ]
    }
}

impl From<usize> for GridStrings {
    fn from(value: usize) -> (r: Self) {
        if value == 1 {
            GridStrings::One
        } else if value == 2 {
            GridStrings::Two
        } else if value == 3 {
            GridStrings::Three
        } else if value == 4 {
            GridStrings::Four
        } else if value == 5 {
            GridStrings::Five
        } else if value == 6 {
            GridStrings::Six
        } else {
            GridStrings::Invalid
        }
    }
}

impl FromSpecImpl<usize> for GridStrings {
    open spec fn obeys_from_spec() -> bool {
        true
    }

    open spec fn from_spec(value: usize) -> Self {
        grid_string_of(value as int)
    }
}

/// Enum over the premade grids that are held in the project's maze files.
#[derive(Debug, Clone, Copy, PartialEq, Eq, Structural, PartialOrd, Ord, Hash)]
pub enum GridFiles {
    /// Invalid entry for parsing and whatnot.
    Invalid,
    /// The premade grid held in file #1.
    One,
    /// The premade grid held in file #2.
    Two,
    /// The premade grid held in file #3.
    Three,
    /// The premade grid held in file #4.
    Four,
}

/// The premade grid file with the number `u`, or `Invalid` for a number that names none.
pub open spec fn grid_file_of(u: int) -> GridFiles {
    if u == 1 {
        GridFiles::One
    } else if u == 2 {
        GridFiles::Two
    } else if u == 3 {
        GridFiles::Three
    } else if u == 4 {
        GridFiles::Four
    } else {
        GridFiles::Invalid
    }
}

impl GridFiles {
    /// The number of premade grid files.
    pub fn count() -> (r: usize)
        ensures
            r == 4,
    {
        4
    }

    /// All premade grid files, in order.
    pub fn all() -> (r: [GridFiles; 4])
        ensures
            r@ == seq![GridFiles::One, GridFiles::Two, GridFiles::Three, GridFiles::Four],
    {
        [GridFiles::One, GridFiles::Two, GridFiles::Three, GridFiles::Four]
    }

    /// The path of the maze file, relative to the project's directory; `None` for `Invalid`.
    pub fn path(&self) -> (r: Option<&'static str>)
        ensures
            *self == GridFiles::Invalid <==> r is None,
    {
        match self {
            GridFiles::One => Some(MAZE_FILE1),
            GridFiles::Two => Some(MAZE_FILE2),
            GridFiles::Three => Some(MAZE_FILE3),
            GridFiles::Four => Some(MAZE_FILE4),
            GridFiles::Invalid => None,
        }
    }
}

impl From<usize> for GridFiles {
    fn from(value: usize) -> (r: Self) {
        if value == 1 {
            GridFiles::One
        } else if value == 2 {
            GridFiles::Two
        } else if value == 3 {
            GridFiles::Three
        } else if value == 4 {
            GridFiles::Four
        } else {
            GridFiles::Invalid
        }
    }
}

impl FromSpecImpl<usize> for GridFiles {
    open spec fn obeys_from_spec() -> bool {
        true
    }

    open spec fn from_spec(value: usize) -> Self {
        grid_file_of(value as int)
    }
}

/// The path of maze file 1.
pub const MAZE_FILE1: &'static str = ".\\res\\mazes\\Maze1.txt";

/// The path of maze file 2.
pub const MAZE_FILE2: &'static str = ".\\res\\mazes\\Maze2.txt";

/// The path of maze file 3.
pub const MAZE_FILE3: &'static str = ".\\res\\mazes\\Maze3.txt";

/// The path of maze file 4.
pub const MAZE_FILE4: &'static str = ".\\res\\mazes\\Maze4.txt";

impl Grids {
    /// The grid held in the given premade grid string (see [`GridStrings::get_maze`]).
    pub fn maze_string(grid_string: &GridStrings) -> (r: Option<MapGrid>)
        ensures
            *grid_string == GridStrings::Invalid ==> r is None,
            *grid_string != GridStrings::Invalid ==> (r is None <==> !parses_ok(
                maze_text(*grid_string),
                '#',
                '.',
            )),
            r matches Some(g) ==> parses_to(maze_text(*grid_string), '#', '.', Ok(g)),
    {
        grid_string.get_maze()
    }

    /// Maze 1, 50 x 20, parsed with `'#'` for `on` and `'.'` for `off`; `None` if it does not parse.
    pub fn maze1() -> (r: Option<MapGrid>)
        ensures
            r is Some,
            r matches Some(g) ==> parses_to(MAZE@, '#', '.', Ok(g)),
            r is None <==> !parses_ok(MAZE@, '#', '.'),
    {
        proof {
            reveal_strlit(".#################################################\n.................................................#\n################################################.#\n#................................................#\n#.################################################\n#.#........................................###...#\n#.##.#####################################.###.#.#\n#.##.##..................................#.###.#.#\n#.##.##.################################.#.###.#.#\n#.##.##.#.##############################.#.###.#.#\n#.##.##.#................................#.###.#.#\n#.##.##.##################################.###.#.#\n#....##....................................###.#.#\n#.##.#########################################.#.#\n#.##......................................####.#.#\n#.############################################.#.#\n#.############################################.#.#\n#.############################################.#.#\n#..............................................#.#\n################################################..");
        }
        proof {
            lemma_maze1_parses();
        }
        parse_maze(MAZE)
    }

    /// The suggested start and goal points of maze 1.
    pub fn maze1_start_end() -> (r: (GridPos, GridPos))
        ensures
            (r.0.x, r.0.y) == (0usize, 0usize),
            (r.1.x, r.1.y) == (49usize, 19usize),
    {
        start_end((0, 0), (49, 19))
    }

    /// Maze 2, 80 x 15, parsed with `'#'` for `on` and `'.'` for `off`; `None` if it does not parse.
    pub fn maze2() -> (r: Option<MapGrid>)
        ensures
            r is Some,
            r matches Some(g) ==> parses_to(MAZE2@, '#', '.', Ok(g)),
            r is None <==> !parses_ok(MAZE2@, '#', '.'),
    {
        proof {
            reveal_strlit("################################################################################\n#........##........##..........................#####...........................#\n#........##........##............######........#####.....##################....#\n#...##...##...##...##...##.......######........#####.....##...............#....#\n#...##...##...##...##...##.......######........#####.....##.#############.#....#\n#...##...##...##...##...##.......######........#####.....##.#.......#####.#....#\n#...##...##...##...##...##.......######........#####.....##.#.#####.#####.#....#\n#...##...##...##...##...##.......######........#####.....##.#.#####.#####.#....#\n#...##...##...##...##...##.......######..................##.#.#####.#####.#....#\n#...##...##...##...##...##.......######...######.........##.#.###########.#....#\n#...##...##...##...##...##.......######...######.........##.#.............#....#\n#...##...##...##...##...##................######.........##.###############....#\n#...##........##........##................######.........##....................#\n#...##........##........##................######.........##....................#\n################################################################################");
        }
        proof {
            lemma_maze2_parses();
        }
        parse_maze(MAZE2)
    }

    /// The suggested start and goal points of maze 2.
    pub fn maze2_start_end() -> (r: (GridPos, GridPos))
        ensures
            (r.0.x, r.0.y) == (1usize, 13usize),
            (r.1.x, r.1.y) == (67usize, 8usize),
    {
        start_end((1, 13), (67, 8))
    }

    /// Maze 3, 73 x 23, parsed with `'#'` for `on` and `'.'` for `off`; `None` if it does not parse.
    pub fn maze3() -> (r: Option<MapGrid>)
        ensures
            r is Some,
            r matches Some(g) ==> parses_to(MAZE3@, '#', '.', Ok(g)),
            r is None <==> !parses_ok(MAZE3@, '#', '.'),
    {
        proof {
            reveal_strlit("#####################################################################...#\n#...#...............#...............#...........#...................#...#\n#...#...#########...#...#####...#########...#####...#####...#####...#...#\n#...............#.......#...#...........#...........#...#...#.......#...#\n#########...#...#########...#########...#####...#...#...#...#########...#\n#.......#...#...............#...........#...#...#...#...#...........#...#\n#...#...#############...#...#...#########...#####...#...#########...#...#\n#...#...............#...#...#.......#...........#...........#.......#...#\n#...#############...#####...#####...#...#####...#########...#...#####...#\n#...........#.......#...#.......#...#.......#...........#...#...........#\n#...#####...#####...#...#####...#...#########...#...#...#...#############\n#.......#.......#...#...#.......#.......#.......#...#...#.......#.......#\n#############...#...#...#...#########...#...#####...#...#####...#####...#\n#...........#...#...........#.......#...#.......#...#.......#...........#\n#...#####...#...#########...#####...#...#####...#####...#############...#\n#...#.......#...........#...........#.......#...#...#...............#...#\n#...#...#########...#...#####...#########...#...#...#############...#...#\n#...#...........#...#...#...#...#...........#...............#...#.......#\n#...#########...#...#...#...#####...#########...#########...#...#########\n#...#.......#...#...#...........#...........#...#.......#...............#\n#...#...#####...#####...#####...#########...#####...#...#########...#...#\n#...#...................#...........#...............#...............#...#\n#...#####################################################################");
        }
        proof {
            lemma_maze3_parses();
        }
        parse_maze(MAZE3)
    }

    /// The suggested start and goal points of maze 3.
    pub fn maze3_start_end() -> (r: (GridPos, GridPos))
        ensures
            (r.0.x, r.0.y) == (1usize, 22usize),
            (r.1.x, r.1.y) == (71usize, 0usize),
    {
        start_end((1, 22), (71, 0))
    }

    /// Maze 4, 33 x 18, parsed with `'#'` for `on` and `'.'` for `off`; `None` if it does not parse.
    pub fn maze4() -> (r: Option<MapGrid>)
        ensures
            r is Some,
            r matches Some(g) ==> parses_to(MAZE4@, '#', '.', Ok(g)),
            r is None <==> !parses_ok(MAZE4@, '#', '.'),
    {
        proof {
            reveal_strlit(".################################\n..###############...##.........##\n#.#................####.##.###..#\n#.#.##############..##..##.######\n#..........#######.####.##....###\n##.##.##.#####.......##.#####.###\n##.##.##.##.##.##.##.##.#####.###\n##.##.##....##...#......#.....###\n##.##.########.##.##.##.#.###.###\n##.##.#.##...........##.#...#.###\n#####...##.#########.##.#####.###\n#.###.####.#########.##.......###\n#.###.............##.##.#####.###\n#.######.####.###.##.##.##.##.###\n#.#......###...##.##.##.##.....##\n#.#.#########.###.##.##.#########\n#....................##......#...\n############################...#.");
        }
        proof {
            lemma_maze4_parses();
        }
        parse_maze(MAZE4)
    }

    /// The suggested start and goal points of maze 4.
    pub fn maze4_start_end() -> (r: (GridPos, GridPos))
        ensures
            (r.0.x, r.0.y) == (0usize, 0usize),
            (r.1.x, r.1.y) == (32usize, 17usize),
    {
        start_end((0, 0), (32, 17))
    }

    /// Maze 5, 21 x 20, parsed with `'#'` for `on` and `'.'` for `off`; `None` if it does not parse.
    pub fn maze5() -> (r: Option<MapGrid>)
        ensures
            r is Some,
            r matches Some(g) ==> parses_to(MAZE5@, '#', '.', Ok(g)),
            r is None <==> !parses_ok(MAZE5@, '#', '.'),
    {
        proof {
            reveal_strlit("#####################\n#......#............#\n#....##############.#\n#....###.....######.#\n#....##.......#####.#\n#....#.........####.#\n#....#.........####.#\n#....#.........####.#\n#...................#\n#########...#########\n#########...#########\n#########...#########\n#########...#########\n#...................#\n#....###########....#\n#....###########....#\n#...................#\n#...................#\n#...................#\n#####################");
        }
        proof {
            lemma_maze5_parses();
        }
        parse_maze(MAZE5)
    }

    /// The suggested start and goal points of maze 5.
    pub fn maze5_start_end() -> (r: (GridPos, GridPos))
        ensures
            (r.0.x, r.0.y) == (10usize, 19usize),
            (r.1.x, r.1.y) == (10usize, 1usize),
    {
        start_end((10, 19), (10, 1))
    }

    /// Maze 6, 37 x 20, parsed with `'#'` for `on` and `'.'` for `off`; `None` if it does not parse.
    pub fn maze6() -> (r: Option<MapGrid>)
        ensures
            r is Some,
            r matches Some(g) ==> parses_to(MAZE6@, '#', '.', Ok(g)),
            r is None <==> !parses_ok(MAZE6@, '#', '.'),
    {
        proof {
            reveal_strlit("#####################################\n#...................................#\n#......############...........#.....#\n#....####...#########.........##....#\n#...###.......########.......###....#\n#..###.........#######......####....#\n#..###..........#####.......#####...#\n#...##...........###.......#######..#\n#........................############\n#...####....#####.........###########\n#..######....#####..................#\n#..######.....#####.................#\n#...####.......########.........#...#\n#........#.##.....#######.....###...#\n#....#####.#####.....####....###....#\n#########.....####....####....###...#\n####.............###...#####....##..#\n#.........######...#.....#####...##.#\n#........########................####\n#####################################");
        }
        proof {
            lemma_maze6_parses();
        }
        parse_maze(MAZE6)
    }

    /// The suggested start and goal points of maze 6.
    pub fn maze6_start_end() -> (r: (GridPos, GridPos))
        ensures
            (r.0.x, r.0.y) == (1usize, 18usize),
            (r.1.x, r.1.y) == (35usize, 7usize),
    {
        start_end((1, 18), (35, 7))
    }
}

} // verus!
