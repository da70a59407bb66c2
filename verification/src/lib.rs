pub mod coins;
pub mod item;
pub mod props;
pub mod solver;
pub mod util;
