use dungen::data::{square, GridPos, GridSize, MapGrid};
use dungen::gen::placer::{Placement, RoomPhase, RoomPlacer};
use dungen::gen::room_gen::{ClassificationResult, GridClassification, LinkDraw, RoomBasedGen};
use dungen::gen::rooms::{Room, RoomSize};
use dungen::util::random::init_rng_seeded;
use dungen::util::TriState;

#[test]
fn classification() {
    assert_eq!(GridClassification::classify_rows(4), GridClassification::TooSmall);
    assert_eq!(GridClassification::classify_rows(2), GridClassification::Unknown);
    assert_eq!(GridClassification::classify_rows(40), GridClassification::Oversized);
    assert_eq!(GridClassification::classify_cols(100), GridClassification::Large);
    assert_eq!(GridClassification::classify_cells(2), GridClassification::Unknown);
    assert_eq!(GridClassification::classify_cells(6106), GridClassification::Oversized);
    assert_eq!(GridClassification::classify_rows(37), GridClassification::Huge);
    assert_eq!(GridClassification::classify_rows(38), GridClassification::Oversized);
    assert_eq!(GridClassification::Huge.row_range(), 33..38);
    assert_eq!(GridClassification::classify_cells(6105), GridClassification::Huge);
    assert_eq!(GridClassification::Small.row_range(), 7..14);
    assert_eq!(GridClassification::Huge.col_range(), 135..166);
    assert_eq!(GridClassification::Unknown.cell_range(), 0..0);
    for u in 0..9usize {
        let g = GridClassification::from(u);
        if u <= 7 {
            assert_eq!(usize::from(g), u);
        } else {
            assert_eq!(g, GridClassification::Unknown);
        }
    }
    let c = ClassificationResult::classify(GridSize::new(60, 20));
    assert_eq!(c.cols_class, GridClassification::Medium);
    assert_eq!(c.rows_class, GridClassification::Medium);
    assert_eq!(c.cells(), 1200);
    assert_eq!(c.cells_class(), GridClassification::Medium);
    let n = ClassificationResult::new(GridSize::new(60, 20));
    assert_eq!((n.rows, n.cols), (60, 20));
}

#[test]
fn room_geometry() {
    let a = Room::new((1, 1), 4, 3);
    let b = Room::new((4, 3), 2, 2);
    let c = Room::new((5, 1), 2, 2);
    assert!(a.intersects(&b));
    assert!(b.intersects(&a));
    assert!(!a.intersects(&c));
    assert!(a.intersects_with_buffer(&c, 1));
    assert_eq!(a.square(), square(&(1, 1), 4, 3));
    let edges = Room::new((0, 0), 3, 3).get_edges();
    assert_eq!(edges, vec![(0, 0), (0, 1), (0, 2), (1, 0), (1, 2), (2, 0), (2, 1), (2, 2)]);
    let grid = MapGrid::empty((10, 10));
    assert!(Room::fits_in_grid(&a, &grid));
    assert!(!Room::fits_in_grid(&Room::new((8, 8), 2, 2), &grid));
    assert_eq!(RoomSize::all_sizes(), vec![RoomSize::Small, RoomSize::Medium, RoomSize::Big, RoomSize::Huge]);
}

#[test]
fn painting_rooms_and_paths() {
    let mut grid = MapGrid::empty((6, 5));
    RoomBasedGen::outline_room_on_grid(&Room::new((1, 1), 4, 3), &mut grid);
    assert_eq!(grid.to_strings().join("\n"), "......\n.####.\n.#..#.\n.####.\n......");
    let mut grid = MapGrid::empty((6, 5));
    RoomBasedGen::fill_room_on_grid(&Room::new((1, 1), 2, 2), &mut grid);
    assert_eq!(grid.to_strings().join("\n"), "......\n.##...\n.##...\n......\n......");
    let mut grid = MapGrid::empty((5, 5));
    RoomBasedGen::horizontal_path(&mut grid, 3, 1, 0);
    RoomBasedGen::vertical_path(&mut grid, 4, 2, 4);
    assert_eq!(grid.to_strings().join("\n"), ".###.\n.....\n....#\n....#\n....#");
    let mut grid = MapGrid::empty((5, 5));
    RoomBasedGen::connect_rooms_straight(&mut grid, &Room::new((0, 0), 1, 1), &Room::new((4, 4), 1, 1), true);
    assert_eq!(grid.to_strings().join("\n"), "#####\n....#\n....#\n....#\n....#");
}

#[test]
fn basic_generator_makes_outlined_rooms() {
    init_rng_seeded(7);
    let grid = RoomBasedGen::basic(GridSize::new(60, 30));
    assert_eq!((grid.cols(), grid.rows()), (60, 30));
    assert_eq!(grid.invalid_cells_count(), 0);
    assert!(grid.on_cells_count() > 0);
    for x in 0..60 {
        assert!(!grid.cell((x, 29)).unwrap().is_on());
    }
}

#[test]
fn try_add_room_decides() {
    let mut rooms = Vec::new();
    assert!(RoomBasedGen::try_add_room(&mut rooms, 1, 1, 3, 3, 10, 10, true, None));
    assert!(!RoomBasedGen::try_add_room(&mut rooms, 2, 2, 3, 3, 10, 10, true, None));
    assert!(!RoomBasedGen::try_add_room(&mut rooms, 5, 1, 3, 3, 10, 10, true, Some(3)));
    assert!(RoomBasedGen::try_add_room(&mut rooms, 5, 1, 3, 3, 10, 10, true, None));
    assert!(!RoomBasedGen::try_add_room(&mut rooms, 7, 7, 3, 3, 10, 10, true, None));
    assert!(RoomBasedGen::try_add_room(&mut rooms, 7, 7, 3, 3, 10, 10, false, None));
    assert_eq!(rooms.len(), 3);
}

#[test]
fn placer_reaches_its_targets() {
    init_rng_seeded(3);
    let phase = RoomPhase {
        x_range: (0, 20),
        y_range: (0, 20),
        w_range: (3, 5),
        h_range: (3, 5),
        target: 2,
        strict: false,
        buffer: None,
    };
    let mut placer = RoomPlacer::new(30, 30, vec![phase]);
    let mut attempts = 0;
    loop {
        match placer.attempt() {
            Placement::Finished => break,
            Placement::TooManyAttempts(_) => panic!("too many attempts"),
            _ => attempts += 1,
        }
    }
    assert!(attempts >= 2);
    assert_eq!(placer.rooms().len(), 2);
    let rooms = placer.rooms().clone();
    let grid = placer.finish(&|_a, _b| Vec::new());
    for r in rooms {
        let s = r.square();
        assert_eq!(grid.cell((s.min.x, s.min.y)).unwrap().state(), TriState::True);
    }
}

#[test]
fn tiered_placer_ranges() {
    init_rng_seeded(1);
    let p = RoomBasedGen::tiered_placer(GridSize::new(70, 35));
    let _ = p;
    assert_eq!(RoomBasedGen::range_average(3, 6), 4);
    assert_eq!(RoomBasedGen::range_average(5, 7), 5);
    let class = ClassificationResult::classify(GridSize::new(70, 35));
    let (pos, sizes) = RoomBasedGen::get_room_sizes(RoomSize::Big, class);
    assert_eq!(pos.0, 0..61);
    assert_eq!(sizes.0, 10..24);
    assert_eq!(sizes.1, 5..12);
    assert_eq!(RoomBasedGen::average_room_cells(RoomSize::Small, class), 7 * 5);
}

#[test]
fn connect_all_rooms_reaches_every_room() {
    init_rng_seeded(3);
    let mut grid = MapGrid::empty((20, 20));
    let mut rooms = vec![Room::new((1, 1), 3, 3), Room::new((10, 2), 4, 4), Room::new((5, 12), 5, 3)];
    let centers: Vec<(usize, usize)> = vec![(2, 2), (12, 4), (7, 13)];
    let ends = |a: GridPos, b: GridPos| vec![(a.x, a.y), (b.x, b.y)];
    RoomBasedGen::connect_all_rooms(&mut grid, &mut rooms, &ends);
    assert_eq!(rooms.len(), 3);
    for (x, y) in centers {
        assert!(grid.cell((x, y)).unwrap().is_on());
    }
    let lone_grid = MapGrid::empty((20, 20));
    let mut grid = MapGrid::empty((20, 20));
    let mut lone = vec![Room::new((1, 1), 3, 3)];
    RoomBasedGen::connect_all_rooms(&mut grid, &mut lone, &ends);
    assert!(grid.eq(&lone_grid));
}

#[test]
fn placer_run_builds_the_map() {
    init_rng_seeded(11);
    let placer = RoomBasedGen::tiered_placer(GridSize::new(60, 40));
    let ends = |a: GridPos, b: GridPos| vec![(a.x, a.y), (b.x, b.y)];
    match placer.run(&ends) {
        Ok(map) => {
            assert_eq!((map.cols(), map.rows()), (60, 40));
            assert_eq!(map.invalid_cells_count(), 0);
            assert!(map.on_cells_count() >= 225);
            assert!(map.name_copy().is_none());
        }
        Err(phase) => assert!(phase < 3),
    }
}

#[test]
fn placer_run_without_draws() {
    let ends = |a: GridPos, b: GridPos| vec![(a.x, a.y), (b.x, b.y)];
    let placer = RoomPlacer::new(10, 8, Vec::new());
    let map = placer.run(&ends).unwrap();
    assert_eq!((map.cols(), map.rows()), (10, 8));
    assert_eq!(map.on_cells_count(), 0);
    assert_eq!(map.off_cells_count(), 80);
    let reached = RoomPhase {
        x_range: (0, 2),
        y_range: (0, 2),
        w_range: (3, 4),
        h_range: (3, 4),
        target: 0,
        strict: false,
        buffer: None,
    };
    let placer = RoomPlacer::new(10, 8, vec![reached, reached]);
    let map = placer.run(&ends).unwrap();
    assert_eq!(map.on_cells_count(), 0);
}

#[test]
fn placer_run_draws_from_the_phase() {
    init_rng_seeded(5);
    let ends = |a: GridPos, b: GridPos| vec![(a.x, a.y), (b.x, b.y)];
    let one = RoomPhase {
        x_range: (1, 2),
        y_range: (1, 2),
        w_range: (4, 5),
        h_range: (3, 4),
        target: 1,
        strict: false,
        buffer: None,
    };
    let placer = RoomPlacer::new(10, 8, vec![one]);
    let map = placer.run(&ends).unwrap();
    assert_eq!(map.on_cells_count(), 12);
    assert!(map.cell((1, 1)).unwrap().is_on());
    assert!(map.cell((4, 3)).unwrap().is_on());
    assert!(!map.cell((5, 3)).unwrap().is_on());
    assert!(!map.cell((0, 0)).unwrap().is_on());
}

#[test]
fn basic_rooms_keeps_the_first_and_the_clear_ones() {
    let cands = vec![(0, 0, 5, 5), (2, 2, 5, 5), (29, 19, 10, 10), (10, 0, 3, 3)];
    let rooms = RoomBasedGen::basic_rooms(&cands, 30, 20);
    let squares: Vec<(usize, usize, usize, usize)> = rooms
        .iter()
        .map(|r| {
            let s = r.square();
            (s.min.x, s.min.y, s.max.x, s.max.y)
        })
        .collect();
    assert_eq!(squares, vec![(0, 0, 5, 5), (19, 9, 29, 19), (10, 0, 13, 3)]);
    let one = RoomBasedGen::basic_rooms(&vec![(25, 15, 20, 13)], 30, 20);
    assert_eq!(one.len(), 1);
    let s = one[0].square();
    assert_eq!((s.min.x, s.min.y, s.max.x, s.max.y), (9, 6, 29, 19));
}

#[test]
fn planned_links_follow_the_draws() {
    let draws = vec![
        LinkDraw { roll: 2, first: vec![2], second: vec![0, 1] },
        LinkDraw { roll: 0, first: vec![1], second: vec![2] },
    ];
    assert_eq!(
        RoomBasedGen::planned_links(&draws),
        vec![(0, 1), (0, 2), (1, 0), (1, 1), (1, 1), (2, 2)]
    );
    assert!(RoomBasedGen::planned_links(&Vec::new()).is_empty());
}

#[test]
fn basic_generator_keeps_a_room() {
    init_rng_seeded(21);
    let grid = RoomBasedGen::basic(GridSize::new(40, 30));
    assert!(grid.on_cells_count() >= 8);
    assert_eq!(grid.invalid_cells_count(), 0);
}
