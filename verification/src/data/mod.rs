//! The main data types of the library: cells, grids and positions.
pub mod cell;
pub mod grid;
pub mod grid_view;
pub mod map_file;
pub mod parse;
pub mod pf_grid;
pub mod premade;
pub mod round_trip;
pub mod types;

pub use cell::TriCell as Cell;
pub use cell::{BasicCell, MapBlock, Tile, TileCell, TriCell};
pub use grid::MapGrid;
pub use grid_view::GridIterator;
pub use premade::{
    GridFiles as PremadeGridFiles, GridStrings as PremadeGridStrings, Grids as PremadeGrids,
};
pub use types::{pos, size, square, GridIndex, GridPos, GridSize, GridSquare};
