pub mod data;
pub mod gen;
pub mod pf;
pub mod pipe;
pub mod util;
