pub mod cell;
pub mod world;
