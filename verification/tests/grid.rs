use dungen::data::{pos, size, square, Cell, GridSize, MapGrid, TriCell};
use dungen::util::random::init_rng_seeded;

fn init() {
    init_rng_seeded(0);
}

fn assert_unordered_match(needle: &[(usize, usize)], haystack: &[(usize, usize)]) {
    assert_eq!(needle.len(), haystack.len(), "The collections have different lengths.");
    for n in needle.iter() {
        assert!(haystack.contains(n));
    }
}

#[test]
fn tricell_toggle_works() {
    let mut cell = TriCell::on();
    assert_eq!(cell, TriCell::on());
    assert_ne!(cell, TriCell::off());
    assert_ne!(cell, TriCell::invalid());

    cell.toggle();
    assert_ne!(cell, TriCell::on());
    assert_eq!(cell, TriCell::off());
    assert_ne!(cell, TriCell::invalid());

    cell.toggle();
    assert_eq!(cell, TriCell::on());
    assert_ne!(cell, TriCell::off());
    assert_ne!(cell, TriCell::invalid());

    cell.toggle();
    assert_ne!(cell, TriCell::on());
    assert_eq!(cell, TriCell::off());
    assert_ne!(cell, TriCell::invalid());

    let mut cell = TriCell::invalid();
    assert_ne!(cell, TriCell::on());
    assert_ne!(cell, TriCell::off());
    assert_eq!(cell, TriCell::invalid());

    cell.toggle();
    assert_ne!(cell, TriCell::on());
    assert_ne!(cell, TriCell::off());
    assert_eq!(cell, TriCell::invalid());
}

#[test]
fn construction_works() {
    init();

    let mut grid = MapGrid::new((10, 10));
    assert_eq!(grid.cols(), 10);
    assert_eq!(grid.rows(), 10);
    assert_eq!(grid.rows(), 10);
    assert_eq!(grid.cols(), 10);
    assert_eq!(grid.to_strings().len(), 10);
    assert_eq!(grid.to_strings()[0].len(), 10);
    assert_eq!(grid.invalid_cells_count(), 100);
    assert_eq!(grid.on_cells_count(), 0);
    assert_eq!(grid.off_cells_count(), 0);

    grid.set_cell(0, 0, Cell::on());
    grid.set_cell(1, 0, Cell::off());
    assert_eq!(grid.invalid_cells_count(), 98);
    assert_eq!(grid.on_cells_count(), 1);
    assert_eq!(grid.off_cells_count(), 1);

    let mut grid = MapGrid::empty((5, 5));
    assert_eq!(grid.cols(), 5);
    assert_eq!(grid.rows(), 5);
    assert_eq!(grid.rows(), 5);
    assert_eq!(grid.cols(), 5);
    assert_eq!(grid.to_strings().len(), 5);
    assert_eq!(grid.to_strings()[0].len(), 5);
    assert_eq!(grid.invalid_cells_count(), 0);
    assert_eq!(grid.on_cells_count(), 0);
    assert_eq!(grid.off_cells_count(), 25);

    grid.set_cell_state(0, 0, true);
    assert_eq!(grid.invalid_cells_count(), 0);
    assert_eq!(grid.on_cells_count(), 1);
    assert_eq!(grid.off_cells_count(), 24);

    grid.set_cell_invalid(0, 1);
    assert_eq!(grid.invalid_cells_count(), 1);
    assert_eq!(grid.on_cells_count(), 1);
    assert_eq!(grid.off_cells_count(), 23);
}

#[test]
fn random_fill_works() {
    init();

    let grid = MapGrid::random_fill_number((10, 10), 50);
    assert_eq!(grid.on_cells_count(), 50);
    assert_eq!(grid.off_cells_count(), 50);
}

#[test]
fn set_all_cells() {
    init();

    let mut grid = MapGrid::new((5, 5));
    assert_eq!(grid.invalid_cells_count(), 25);
    assert_eq!(grid.on_cells_count(), 0);
    assert_eq!(grid.off_cells_count(), 0);

    grid.set_all_cells(true);
    assert_eq!(grid.invalid_cells_count(), 0);
    assert_eq!(grid.on_cells_count(), 25);
    assert_eq!(grid.off_cells_count(), 0);

    grid.set_all_cells(false);
    assert_eq!(grid.invalid_cells_count(), 0);
    assert_eq!(grid.on_cells_count(), 0);
    assert_eq!(grid.off_cells_count(), 25);
}

#[test]
fn reverse_in_place() {
    init();

    let mut grid = MapGrid::empty((5, 5));
    assert_eq!(grid.invalid_cells_count(), 0);
    assert_eq!(grid.on_cells_count(), 0);
    assert_eq!(grid.off_cells_count(), 25);

    grid.reverse_in_place();
    assert_eq!(grid.invalid_cells_count(), 0);
    assert_eq!(grid.on_cells_count(), 25);
    assert_eq!(grid.off_cells_count(), 0);
}

#[test]
fn set_outer_works() {
    init();

    let mut grid = MapGrid::empty((3, 3));
    grid.set_outer_cells(true);
    assert_eq!(grid.on_cells_count(), 8);
    assert_eq!(grid.off_cells_count(), 1);
    assert_eq!(
        grid.to_strings().join("\n"),
        "###\n#.#\n###",
        "Grid did not match expected output"
    );

    let mut grid = MapGrid::empty((5, 5));
    grid.set_outer_cells(true);
    assert_eq!(grid.on_cells_count(), 16);
    assert_eq!(grid.off_cells_count(), 9);
    assert_eq!(grid.to_strings().join("\n"), "#####\n#...#\n#...#\n#...#\n#####");

    grid.reverse_in_place();
    assert_eq!(grid.to_strings().join("\n"), ".....\n.###.\n.###.\n.###.\n.....");
}

#[test]
fn random_cells_work() {
    init();

    let mut grid = MapGrid::empty((10, 10));
    for _ in 0..50 {
        let (x, y) = grid.random_cell_pos().into();
        assert!(x < 25);
        assert!(y < 25);
    }

    for _ in 0..50 {
        let _ = grid.random_cell();
    }

    for _ in 0..50 {
        let _ = grid.random_cell_mut();
    }
}

#[test]
fn names_work() {
    init();

    let mut grid = MapGrid::empty((5, 5));
    assert_eq!(grid.name_copy(), None);
    assert!(!grid.has_name());

    grid.set_name("test");
    assert_eq!(grid.name_copy(), Some("test".to_string()));
    assert!(grid.has_name());

    let mut grid = MapGrid::empty_named("Test", (5, 5));
    assert_eq!(grid.name_copy(), Some("Test".to_string()));
    assert!(grid.has_name());

    grid.clear_name();
    assert_eq!(grid.name_copy(), None);
    assert!(!grid.has_name());
}

#[test]
fn get_neighbors() {
    init();
    let grid1 = MapGrid::parse_string("###\n#-#\n###", '#', '-')
        .expect("Failed to parse standard grid, something is very wrong.");
    assert_eq!(grid1.size(), (3, 3).into(), "Grid should have 3 rows & 3 columns.");
    assert_unordered_match(
        &grid1.neighbor_positions_wrapping((1, 1)),
        &[(0, 0), (1, 0), (2, 0), (0, 1), (2, 1), (0, 2), (1, 2), (2, 2)],
    );
    assert_unordered_match(
        &grid1.neighbor_positions_wrapping((1, 0)),
        &[(0, 2), (1, 2), (2, 2), (0, 0), (2, 0), (0, 1), (1, 1), (2, 1)],
    );
    assert_unordered_match(
        &grid1.neighbor_positions_wrapping((0, 0)),
        &[(2, 2), (0, 2), (1, 2), (2, 0), (1, 0), (2, 1), (0, 1), (1, 1)],
    );

    let grid2 = MapGrid::parse_string("#-#-#\n-#-#-\n#-#-#", '#', '-')
        .expect("Failed to parse standard grid, something is very wrong.");
    assert_eq!(grid2.size(), (5, 3).into(), "Grid should be 5 wide and 3 tall");
    assert_unordered_match(
        &grid2.neighbor_positions_wrapping((3, 1)),
        &[(2, 0), (3, 0), (4, 0), (2, 1), (4, 1), (2, 2), (3, 2), (4, 2)],
    );
    assert_unordered_match(
        &grid2.neighbor_positions_wrapping((4, 2)),
        &[(3, 1), (4, 1), (0, 1), (3, 2), (0, 2), (3, 0), (4, 0), (0, 0)],
    );

    let grid3 =
        MapGrid::parse_string("#-#-#\n-#-#-\n#-#-#", '#', '-').expect("Unable to parse grid3");
    let neighbors = grid3.neighbor_positions((3, 1));
    assert_eq!(neighbors.len(), 8);
    assert_unordered_match(
        &neighbors,
        &[(2, 0), (3, 0), (4, 0), (2, 1), (4, 1), (2, 2), (3, 2), (4, 2)],
    );
    let neighbors = grid3.neighbor_positions((0, 0));
    assert_eq!(neighbors.len(), 3);
    assert_unordered_match(&neighbors, &[(0, 1), (1, 1), (1, 0)]);
    let neighbors = grid3.neighbor_positions((1, 0));
    assert_eq!(neighbors.len(), 5);
    assert_unordered_match(&neighbors, &[(0, 0), (2, 0), (0, 1), (1, 1), (2, 1)]);
}

#[test]
fn neighbor_count_works() {
    init();
    let grid1 = MapGrid::parse_string("###\n#-#\n###", '#', '-')
        .expect("Failed to parse standard grid, something is very wrong.");
    assert_eq!(grid1.rows(), 3, "Grid 1 should have 3 rows.");
    assert_eq!(grid1.cols(), 3, "Grid 1 should have 3 cols.");

    assert_eq!(grid1.active_neighbor_count((1, 1), true), 8, "Wrong neighbor count for grid 1 cell (1,1)");
    assert_eq!(grid1.active_neighbor_count((1, 0), true), 7, "Wrong neighbor count for grid 1 cell (1,0)");
    assert_eq!(grid1.active_neighbor_count((0, 0), true), 7, "Wrong neighbor count for grid 1 cell (0,0)");

    let grid2 = MapGrid::parse_string("0000\n0110\n0000", '1', '0')
        .expect("Failed to parse standard grid, something is very wrong.");
    assert_eq!(grid2.rows(), 3, "Grid 2 should have 3 rows.");
    assert_eq!(grid2.cols(), 4, "Grid 2 should have 4 cols.");
    assert_eq!(grid2.active_neighbor_count((1, 1), true), 1, "Wrong neighbor count for grid 2 cell (1,1)");
    assert_eq!(grid2.active_neighbor_count((2, 1), true), 1, "Wrong neighbor count for grid 2 cell (2,1)");
    assert_eq!(grid2.active_neighbor_count((1, 0), true), 2, "Wrong neighbor count for grid 1 cell (2,0)");
    assert_eq!(grid2.active_neighbor_count((2, 0), true), 2, "Wrong neighbor count for grid 1 cell (1,0)");
}

#[test]
fn subgrids() {
    init();

    let grid = MapGrid::parse_string(
        "#########\n#.......#\n#.#####.#\n#.#...#.#\n#.#.#.#.#\n#.#...#.#\n#.#####.#\n#.......#\n#########",
        '#',
        '.',
    )
    .expect("Unable to parse grid.");
    assert_eq!(grid.cols(), 9);
    assert_eq!(grid.rows(), 9);
    assert_eq!(
        grid.to_strings().join("\n"),
        "#########\n#.......#\n#.#####.#\n#.#...#.#\n#.#.#.#.#\n#.#...#.#\n#.#####.#\n#.......#\n#########"
    );

    let square = square(&(1, 1), 7, 7);

    assert_eq!((square.width(), square.height()), (7, 7));
    assert_eq!(square.size(), size(7, 7));
    assert_eq!(square.center(), pos((4, 4)));
    assert_eq!(square.x_range(), 1..8);

    let sub = MapGrid::sub_grid(&grid, &square);
    assert_eq!(
        sub.to_strings().join("\n"),
        ".......\n.#####.\n.#...#.\n.#.#.#.\n.#...#.\n.#####.\n......."
    );
    assert_eq!(sub.size(), (7, 7).into());
}

#[test]
fn n_neighbors() {
    init();

    let grid = MapGrid::parse_string("#...#\n..#..\n..#..\n..#..\n#...#", '#', '.')
        .expect("Unable to parse grid!");
    assert_eq!(grid.on_cells_count(), 7);
    assert_eq!(grid.active_neighbor_count((2, 2), true), 2);
    assert_eq!(grid.active_neighbors_n(2, 2, 2), 6);
}

#[test]
fn resize_works() {
    init();

    let mut grid = MapGrid::empty((5, 5));
    assert_eq!(grid.cell_count(), 25);
    let size = (10, 10);
    let cell_value = Cell::on();
    grid.resize_rows_with(size.0, cell_value);
    grid.resize_cols_with(size.1, cell_value);
    assert_eq!(grid.cell_count(), 100);
}

#[test]
fn module_doc_examples() {
    let grid = MapGrid::new((10, 10));
    assert_eq!((grid.rows(), grid.cols()), (10, 10));
    assert!(grid.cell((5, 5)).unwrap().is_invalid());
    assert!(grid.cell((10, 10)).is_none());

    let mut grid = MapGrid::empty((5, 5));
    assert_eq!(grid.to_strings().join("\n"), ".....\n.....\n.....\n.....\n.....");
    assert!(grid.cell((0, 0)).unwrap().is_off());
    assert!(grid.cell((4, 4)).unwrap().is_off());
    grid.set_outer_cells(true);
    assert!(grid.cell((0, 0)).unwrap().is_on());
    assert!(grid.cell((4, 4)).unwrap().is_on());
    assert_eq!(grid.to_strings().join("\n"), "#####\n#...#\n#...#\n#...#\n#####");
    for cell in grid.iter() {
        assert!(cell.is_valid());
    }
}

#[test]
fn counts_add_up() {
    let mut grid = MapGrid::new((4, 6));
    grid.set_cell_state(0, 0, true);
    grid.set_cell_state(3, 5, false);
    assert_eq!(
        grid.on_cells_count() + grid.off_cells_count() + grid.invalid_cells_count(),
        24
    );
}

#[test]
fn reverse_twice_gives_back_the_grid() {
    let original = MapGrid::parse_string("#..\n.#.\n..#", '#', '.').expect("parse");
    let mut grid = original.clone();
    grid.reverse_in_place();
    assert_eq!(grid.to_strings().join("\n"), ".##\n#.#\n##.");
    grid.reverse_in_place();
    assert!(grid.eq(&original));
}

#[test]
fn rendered_grid_parses_back() {
    let mut grid = MapGrid::empty((4, 3));
    grid.set_cell_state(1, 1, true);
    grid.set_cell_state(3, 2, true);
    let text = grid.as_string();
    assert_eq!(text, "....\n.#..\n...#");
    let back = MapGrid::parse_string(&text, '#', '.').expect("parse");
    assert!(back.eq(&grid));
}

#[test]
fn parse_errors() {
    let e = MapGrid::parse_string("", '#', '.').err().unwrap();
    assert_eq!(e, vec!["Empty input".to_string()]);
    let e = MapGrid::parse_string("#.\n#.", '#', '.').err().unwrap();
    assert_eq!(
        e,
        vec![
            "MapGrid::parse_string - Width must be at least 3".to_string(),
            "MapGrid::parse_string - Height must be at least 3".to_string()
        ]
    );
    let e = MapGrid::parse_string("#.x\n...\n..y", '#', '.').err().unwrap();
    assert_eq!(
        e,
        vec!["Invalid character x at (2,0)".to_string(), "Invalid character y at (2,2)".to_string()]
    );
    let g = MapGrid::parse_string("Cave\n4 3\n#\n.S\n..G", '#', '.').unwrap();
    assert_eq!(g.name_copy(), Some("Cave".to_string()));
    assert_eq!(g.size(), GridSize::new(4, 3));
    assert_eq!(g.to_strings().join("\n"), "#XXX\n..XX\n...X");
    assert!(MapGrid::parse_string_checked("Name", '#', '.').is_none());
    assert!(MapGrid::parse_string_checked("...\n...\n...", '#', '.').unwrap().is_ok());
}

#[test]
fn display_and_equality() {
    let mut grid = MapGrid::empty_named("Cave", (3, 3));
    grid.set_cell_state(1, 1, true);
    assert_eq!(grid.to_string(), "|  Cave (3x3)\n|--------------\n|...\n|.#.\n|...\n");
    let unnamed = MapGrid::empty((3, 4));
    assert_eq!(unnamed.to_string(), "|  MapGrid (3x4)\n|-----------------\n|...\n|...\n|...\n|...\n");
    let copy = grid.clone();
    assert!(copy.eq(&grid));
    let mut other = grid.clone();
    other.set_cell_state(0, 0, true);
    assert!(!other.eq(&grid));
    assert!(!unnamed.eq(&grid));
}

#[test]
fn grid_iterator_walks_every_cell() {
    let mut grid = MapGrid::empty((3, 3));
    grid.set_cell_state(1, 0, true);
    let mut it = grid.into_grid_iter();
    assert_eq!(it.next(), Some(((0, 0), false)));
    assert_eq!(it.next(), Some(((1, 0), true)));
    assert_eq!(it.next(), Some(((2, 0), false)));
    assert_eq!(it.next(), Some(((0, 1), false)));
    let mut n = 4;
    while it.next().is_some() {
        n += 1;
    }
    assert_eq!(n, 9);
    assert_eq!(it.next(), None);
}

#[test]
fn resize_with_sets_width_then_height() {
    let mut grid = MapGrid::empty((5, 5));
    grid.resize_with((10, 6), TriCell::on());
    assert_eq!(grid.cols(), 10);
    assert_eq!(grid.rows(), 6);
    assert_eq!(grid.on_cells_count(), 60 - 25);
}

#[test]
fn iter_mut_changes_every_cell() {
    let mut grid = MapGrid::empty((3, 3));
    grid.set_cell_state(0, 0, true);
    grid.iter_mut(|c: TriCell| {
        let mut c = c;
        c.toggle();
        c
    });
    assert_eq!(grid.on_cells_count(), 8);
    assert!(!grid.cell((0, 0)).unwrap().is_on());
    grid.iter_pos_mut(|p: (usize, usize), c: TriCell| if p.0 == p.1 { TriCell::invalid() } else { c });
    assert_eq!(grid.invalid_cells_count(), 3);
    assert_eq!(grid.on_cells_count(), 6);
    assert!(grid.cell((2, 2)).unwrap().is_invalid());
}

#[test]
fn active_neighbors_n_counts_the_square_around() {
    let grid = MapGrid::parse_string(
        "#######\n#######\n#######\n#######\n#######\n#######\n#######",
        '#',
        '.',
    )
    .unwrap();
    assert_eq!(grid.active_neighbors_n(3, 3, 2), 24);
    assert_eq!(grid.active_neighbors_n(0, 0, 2), 8);
    assert_eq!(grid.active_neighbors_n(6, 6, 2), 8);
    assert_eq!(grid.active_neighbors_n(6, 3, 3), 27);
}

#[test]
fn cell_wrapped_wraps_both_ways() {
    let grid = MapGrid::parse_string("#..\n.#.\n...\n..#", '#', '.').unwrap();
    assert!(grid.cell_wrapped(0, 0).unwrap().is_on());
    assert!(grid.cell_wrapped(-1, -1).unwrap().is_on());
    assert!(grid.cell_wrapped(4, 5).unwrap().is_on());
    assert!(!grid.cell_wrapped(-2, 0).unwrap().is_on());
    assert_eq!(grid.cell_wrapped(-7, 9).unwrap().state(), grid.cell((2, 1)).unwrap().state());
}
