use dungen::data::MapGrid;
use dungen::gen::cell_auto::{Algorithm, CellularAutomata, NeighborRule};

#[test]
fn ca_first() {
    dungen::util::random::init_rng_seeded(0);

    let original = MapGrid::parse_string("...\n.#.\n...", '#', '.')
        .expect("Unable to parse standard grid string");
    let result = CellularAutomata::execute_on(&original, 1, Algorithm::first(4, 5));
    assert_eq!(result.to_strings().join("\n"), "...\n...\n...");
}

/// A rule written by a user of the library: every cell flips.
struct Invert;

impl NeighborRule for Invert {
    fn rule(&self, pos: (usize, usize), neighbors: usize, on: bool) -> bool {
        self.decide(pos, neighbors, on)
    }

    fn decide(&self, _pos: (usize, usize), _neighbors: usize, on: bool) -> bool {
        !on
    }
}

#[test]
fn flex_rule_defined_outside() {
    let original = MapGrid::empty((3, 3));
    let once = CellularAutomata::execute_on(&original, 1, Algorithm::flex(Invert));
    assert_eq!(once.on_cells_count(), 9);
    let twice = CellularAutomata::execute_on(&original, 2, Algorithm::flex(Invert));
    assert_eq!(twice.on_cells_count(), 0);
}

#[test]
fn create_and_run_fills_forty_five_percent() {
    dungen::util::random::init_rng_seeded(7);
    let (original, last, history) =
        CellularAutomata::create_and_run((10, 10), 2, Algorithm::default_first());
    assert_eq!(original.on_cells_count(), 45);
    assert_eq!(original.off_cells_count(), 55);
    assert_eq!(original.invalid_cells_count(), 0);
    assert!(history.is_empty());
    let again = CellularAutomata::execute_on(&original, 2, Algorithm::default_first());
    assert!(last.eq(&again));

    let (odd, _, _) = CellularAutomata::create_and_run((7, 9), 0, Algorithm::default_first());
    assert_eq!(odd.on_cells_count(), 28);
}

#[test]
fn invalid_cells_are_left_alone() {
    let mut original = MapGrid::empty((4, 4));
    original.set_cell_invalid(1, 2);
    let once = CellularAutomata::execute_on(&original, 1, Algorithm::flex(Invert));
    assert!(once.cell((1, 2)).unwrap().is_invalid());
    assert_eq!(once.on_cells_count(), 15);
}
