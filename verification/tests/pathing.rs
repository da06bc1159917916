use dungen::data::premade::GridStrings;
use dungen::data::MapGrid;
use dungen::pf::Pathfinding;

fn check_path(grid: &MapGrid, path: &[dungen::data::GridPos], start: (usize, usize), goal: (usize, usize)) {
    assert_eq!((path[0].x, path[0].y), start);
    let last = path[path.len() - 1];
    assert_eq!((last.x, last.y), goal);
    for w in path.windows(2) {
        let (a, b) = (w[0], w[1]);
        assert!(a.x.abs_diff(b.x) <= 1 && a.y.abs_diff(b.y) <= 1);
        assert!(grid.cell((b.x, b.y)).unwrap().is_off());
    }
}

#[test]
fn searches_find_paths_in_mazes() {
    let maze = GridStrings::Five;
    let grid = maze.get_maze().unwrap();
    let (s, g) = maze.get_start_end().unwrap();
    let (s, g) = ((s.x, s.y), (g.x, g.y));
    let d = Pathfinding::dijkstra(&grid, s, g).expect("dijkstra");
    let b = Pathfinding::bfs(&grid, s, g).expect("bfs");
    assert_eq!(d.len(), b.len());
    check_path(&grid, &d, s, g);
    check_path(&grid, &b, s, g);
    check_path(&grid, &Pathfinding::a_star(&grid, s, g).expect("astar"), s, g);
    check_path(&grid, &Pathfinding::dfs(&grid, s, g).expect("dfs"), s, g);
    check_path(&grid, &Pathfinding::fringe(&grid, s, g).expect("fringe"), s, g);
}

#[test]
fn walls_block_the_way() {
    let grid = MapGrid::parse_string("..#..\n..#..\n..#..", '#', '.').unwrap();
    assert!(Pathfinding::bfs(&grid, (0, 0), (4, 0)).is_none());
    assert!(Pathfinding::dijkstra(&grid, (0, 0), (4, 2)).is_none());
    assert_eq!(Pathfinding::bfs(&grid, (0, 0), (1, 2)).unwrap().len(), 3);
    assert_eq!(Pathfinding::default_heuristic((1, 5), (4, 1)), 7);
    assert!(Pathfinding::default_success((2, 2), (2, 2)));
}

#[test]
fn pf_grid_conversion() {
    let grid = MapGrid::parse_string("#..\n.#.\n..#", '#', '.').unwrap();
    let pf = grid.to_pf_grid();
    assert_eq!(pf.vertices_len(), 3);
    assert!(pf.has_vertex((1, 1)));
    let back = MapGrid::from_pf_grid(&pf);
    assert_eq!(back.to_strings().join("\n"), "#..\n.#.\n..#");
    let small = pathfinding::grid::Grid::new(2, 5);
    assert!(MapGrid::from_pf_grid_checked(&small).is_none());
}

#[test]
fn pf_grid_vertices_inside_only() {
    let mut pf = pathfinding::grid::Grid::new(5, 5);
    pf.add_vertex((4, 4));
    pf.add_vertex((1, 2));
    pf.width = 4;
    let back = MapGrid::from_pf_grid_checked(&pf).unwrap();
    assert_eq!((back.cols(), back.rows()), (4, 5));
    assert_eq!(back.on_cells_count(), 1);
    assert!(back.cell((1, 2)).unwrap().is_on());
    let mut full = pathfinding::grid::Grid::new(3, 4);
    full.fill();
    let back = MapGrid::from_pf_grid(&full);
    assert_eq!(back.on_cells_count(), 12);
}
