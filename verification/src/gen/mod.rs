pub mod cell_auto;
pub mod coverage;
pub mod placer;
pub mod room_gen;
pub mod rooms;
