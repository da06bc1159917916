//! Utility types and functions.
pub mod ansi;
pub mod extmap;
pub mod math;
pub mod random;
pub mod text;
pub mod tri;

pub use tri::TriState;
