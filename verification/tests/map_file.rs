use dungen::data::premade::{GridFiles, GridStrings, Grids};
use dungen::data::MapGrid;

#[test]
fn map_file_text_parses() {
    let text = "  Little Maze \n5 3\n#####\n#S.G#\n#####";
    let (grid, start, goal) = MapGrid::parse_map_str(text).expect("parse");
    assert_eq!(grid.name_copy(), Some("Little Maze".to_string()));
    assert_eq!((grid.cols(), grid.rows()), (5, 3));
    assert_eq!(grid.to_strings().join("\n"), "#####\n#...#\n#####");
    assert_eq!((start.x, start.y), (1, 1));
    assert_eq!((goal.x, goal.y), (3, 1));
}

#[test]
fn map_file_without_marks() {
    let (_, start, goal) = MapGrid::parse_map_str("m\n3 3\n...\n...\n...").expect("parse");
    assert_eq!((start.x, start.y), (usize::MAX, usize::MAX));
    assert_eq!((goal.x, goal.y), (usize::MAX, usize::MAX));
}

#[test]
fn map_file_errors() {
    let format = "Invalid map file - Format is <Name>\\n<Width> <Height>\\n<Map>".to_string();
    assert_eq!(MapGrid::parse_map_str("name\n3 3").err(), Some(vec![format.clone()]));
    assert_eq!(MapGrid::parse_map_str("name\n3\n...").err(), Some(vec![format.clone()]));
    assert_eq!(
        MapGrid::parse_map_str("name\nx 3\n...").err(),
        Some(vec!["Error parsing width - \"invalid digit found in string\"".to_string()])
    );
    assert_eq!(
        MapGrid::parse_map_str("name\n3 99999999999999999999999\n...").err(),
        Some(vec!["Error parsing height - \"number too large to fit in target type\"".to_string()])
    );
    assert!(MapGrid::parse_map_str_checked("name\n2 3\n...").is_none());
    assert!(MapGrid::parse_map_str_checked("name\n3 3\n...").is_some());
}

#[test]
fn premade_mazes_parse() {
    for g in GridStrings::all() {
        let maze = g.get_maze().expect("premade maze parses");
        let (start, goal) = g.get_start_end().expect("start and goal");
        assert!(start.x < maze.cols() && start.y < maze.rows());
        assert!(goal.x < maze.cols() && goal.y < maze.rows());
    }
    assert!(GridStrings::Invalid.get_maze().is_none());
    assert_eq!(GridStrings::count(), 6);
    assert_eq!(GridStrings::from(3), GridStrings::Three);
    assert_eq!(GridStrings::from(9), GridStrings::Invalid);
    let m1 = Grids::maze1().expect("maze 1");
    assert_eq!((m1.cols(), m1.rows()), (50, 20));
    assert_eq!(GridFiles::count(), 4);
    assert_eq!(GridFiles::from(2), GridFiles::Two);
    assert!(GridFiles::Invalid.path().is_none());
}

#[test]
fn map_file_size_must_match() {
    assert_eq!(
        MapGrid::parse_map_str("T\n3 3\n#####\n#S.G#\n#####").err(),
        Some(vec!["Invalid map file - Actual size (5,3) does not match expected dimensions (3,3)".to_string()])
    );
    assert_eq!(
        MapGrid::parse_map_str("T\n3 3\n###\n#.#").err(),
        Some(vec!["Invalid map file - Actual size (3,2) does not match expected dimensions (3,3)".to_string()])
    );
    let (grid, _, _) = MapGrid::parse_map_str("T\n3 3\n###\n#S#\n#G#\n").expect("final newline");
    assert_eq!(grid.on_cells_count(), 7);
}
