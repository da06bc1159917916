//! Finding paths through the open cells of a grid.
pub mod pathing;

pub use pathing::Pathfinding;
